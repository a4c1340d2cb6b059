//! The compiler driver that writes the audit report: the arguments it runs
//! the compiler with, and when, after analysis, it writes the report.
use vstd::prelude::*;
use crate::text::str_equal;

verus! {

/// The arguments given to the compiler before the caller's own: MIR is kept
/// for every crate, unoptimized and with retags.
pub open spec fn default_args_spec() -> Seq<Seq<char>> {
    seq![
        "-Zalways-encode-mir"@,
        "-Zextra-const-ub-checks"@,
        "-Zmir-emit-retag"@,
        "-Zmir-opt-level=0"@,
        "-Zdeduplicate-diagnostics=no"@,
    ]
}

/// The views of a list of strings.
pub open spec fn string_views(v: Seq<String>) -> Seq<Seq<char>> {
    v.map_values(|s: String| s@)
}

/// The arguments given to the compiler before the caller's own.
pub fn default_args() -> (r: Vec<String>)
    ensures
        string_views(r@) == default_args_spec(),
{
    let mut r: Vec<String> = Vec::new();
    r.push("-Zalways-encode-mir".to_string());
    r.push("-Zextra-const-ub-checks".to_string());
    r.push("-Zmir-emit-retag".to_string());
    r.push("-Zmir-opt-level=0".to_string());
    r.push("-Zdeduplicate-diagnostics=no".to_string());
    proof {
        assert(string_views(r@) =~= default_args_spec());
    }
    r
}

/// The compiler's arguments: the program name, the default arguments, then
/// the rest as given; nothing when there is no program name.
pub fn rustc_arguments(args: &Vec<String>) -> (r: Vec<String>)
    ensures
        args@.len() == 0 ==> r@.len() == 0,
        args@.len() > 0 ==> string_views(r@) == seq![args@[0]@] + default_args_spec()
            + string_views(args@.skip(1)),
{
    let mut r: Vec<String> = Vec::new();
    if args.len() == 0 {
        return r;
    }
    r.push(args[0].clone());
    let defaults = default_args();
    let mut k: usize = 0;
    while k < defaults.len()
        invariant
            k <= defaults.len(),
            args@.len() > 0,
            string_views(defaults@) == default_args_spec(),
            string_views(r@) == seq![args@[0]@] + string_views(defaults@).take(k as int),
        decreases defaults.len() - k,
    {
        let ghost before = r@;
        r.push(defaults[k].clone());
        proof {
            assert(string_views(r@) =~= string_views(before).push(defaults@[k as int]@));
            assert(string_views(defaults@).take(k + 1) =~= string_views(defaults@).take(k as int).push(
                defaults@[k as int]@,
            ));
        }
        k += 1;
    }
    proof {
        assert(string_views(defaults@).take(defaults.len() as int) =~= string_views(defaults@));
    }
    let ghost base = string_views(r@);
    let mut i: usize = 1;
    while i < args.len()
        invariant
            1 <= i <= args.len(),
            string_views(r@) == base + string_views(args@.subrange(1, i as int)),
        decreases args.len() - i,
    {
        let ghost before = r@;
        r.push(args[i].clone());
        proof {
            assert(string_views(r@) =~= string_views(before).push(args@[i as int]@));
            assert(string_views(args@.subrange(1, i + 1)) =~= string_views(args@.subrange(1, i as int)).push(
                args@[i as int]@,
            ));
        }
        i += 1;
    }
    proof {
        assert(args@.subrange(1, args@.len() as int) =~= args@.skip(1));
    }
    r
}

/// A path's components, `/` standing for the root: its parent, as
/// `PathBuf::pop` leaves it (a path that is only the root, or empty, stays).
pub open spec fn parent_spec(components: Seq<Seq<char>>) -> Seq<Seq<char>> {
    if components.len() == 0 || (components.len() == 1 && components[0] == "/"@) {
        components
    } else {
        components.drop_last()
    }
}

/// What the driver does once the compiler has analysed a crate.
pub enum DriverStep {
    /// Stop compiling.
    Stop,
    /// Let the compiler go on without a report.
    Continue,
    /// Write the report to this path and stop.
    Analyze(String),
}

/// After analysis: without an output directory, stop; when the crate's
/// directory (three levels above the output directory, `target/debug/deps`)
/// is not the working directory, or no report path is set, let the compiler
/// go on; else write the report there.
pub open spec fn driver_step_spec(
    output_dir: Option<Seq<Seq<char>>>,
    cwd: Seq<Seq<char>>,
    report_path: Option<Seq<char>>,
) -> (int, Seq<char>) {
    match output_dir {
        None => (0, seq![]),
        Some(o) => if parent_spec(parent_spec(parent_spec(o))) != cwd {
            (1, seq![])
        } else {
            match report_path {
                None => (1, seq![]),
                Some(p) => (2, p),
            }
        },
    }
}

/// A step as a number (stop, go on, write, from 0) and the report path.
pub open spec fn step_view(s: DriverStep) -> (int, Seq<char>) {
    match s {
        DriverStep::Stop => (0, seq![]),
        DriverStep::Continue => (1, seq![]),
        DriverStep::Analyze(p) => (2, p@),
    }
}

fn parent_of(components: &Vec<String>) -> (r: Vec<String>)
    ensures
        string_views(r@) == parent_spec(string_views(components@)),
{
    let mut r: Vec<String> = Vec::new();
    let n = components.len();
    let keep = if n == 0 || (n == 1 && str_equal(components[0].as_str(), "/")) { n } else { n - 1 };
    let mut k: usize = 0;
    while k < keep
        invariant
            keep <= n == components.len(),
            k <= keep,
            string_views(r@) == string_views(components@).take(k as int),
        decreases keep - k,
    {
        let ghost before = r@;
        r.push(components[k].clone());
        proof {
            assert(string_views(r@) =~= string_views(before).push(components@[k as int]@));
            assert(string_views(components@).take(k + 1) =~= string_views(components@).take(k as int).push(
                components@[k as int]@,
            ));
        }
        k += 1;
    }
    proof {
        if n > 0 {
            assert(string_views(components@)[0] == components@[0]@);
        }
        assert(string_views(components@).take(n as int) =~= string_views(components@));
        assert(string_views(components@).drop_last() =~= string_views(components@).take(n - 1));
    }
    r
}

fn same_components(a: &Vec<String>, b: &Vec<String>) -> (r: bool)
    ensures
        r == (string_views(a@) == string_views(b@)),
{
    if a.len() != b.len() {
        proof {
            assert(string_views(a@).len() != string_views(b@).len());
        }
        return false;
    }
    let mut k: usize = 0;
    while k < a.len()
        invariant
            a.len() == b.len(),
            k <= a.len(),
            forall|j: int| 0 <= j < k ==> a@[j]@ == b@[j]@,
        decreases a.len() - k,
    {
        if !str_equal(a[k].as_str(), b[k].as_str()) {
            proof {
                assert(string_views(a@)[k as int] != string_views(b@)[k as int]);
            }
            return false;
        }
        k += 1;
    }
    proof {
        assert(string_views(a@) =~= string_views(b@));
    }
    true
}

/// What to do after analysis, from the compiler's output directory (as
/// components), the working directory and the report path setting.
pub fn driver_step(output_dir: Option<&Vec<String>>, cwd: &Vec<String>, report_path: Option<String>) -> (s: DriverStep)
    ensures
        step_view(s) == driver_step_spec(
            match output_dir {
                Some(o) => Some(string_views(o@)),
                None => None,
            },
            string_views(cwd@),
            match report_path {
                Some(p) => Some(p@),
                None => None,
            },
        ),
{
    match output_dir {
        None => DriverStep::Stop,
        Some(o) => {
            let crate_dir = parent_of(&parent_of(&parent_of(o)));
            if !same_components(&crate_dir, cwd) {
                return DriverStep::Continue;
            }
            match report_path {
                None => DriverStep::Continue,
                Some(p) => DriverStep::Analyze(p),
            }
        },
    }
}

} // verus!
