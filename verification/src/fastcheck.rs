//! The quick scan for references to `core`/`std` paths inside `unsafe`
//! blocks of public safe functions and methods: command-line arguments,
//! file selection, the reference collector, and the findings of a file.
use vstd::prelude::*;
use crate::text::{
    chars_of, contains, contains_exec, decimal, decimal_chars, extend_chars, str_equal, string_of,
};

verus! {

// ---------------------------------------------------------------------------
// Command-line arguments
// ---------------------------------------------------------------------------

/// The number of worker threads when none is given.
pub const DEFAULT_THREADS: usize = 8;

/// What the scan is run with.
pub struct Config {
    pub root: String,
    pub threads: usize,
    pub blacklist: Vec<String>,
}

/// A rejected command line.
pub enum ArgError {
    /// An option that takes a value came last.
    MissingValue(String),
    /// A thread count that is not a decimal number in range.
    InvalidThreadCount(String),
    /// An option that the scan does not know.
    UnknownOption(String),
    /// A second directory argument.
    MultipleDirectories,
    /// A thread count of zero.
    ZeroThreads,
}

/// What the command line asks for.
pub enum ParsedArgs {
    /// Run with this configuration.
    Run(Config),
    /// Print the usage and stop.
    Help,
}

/// `c` is an ASCII digit.
pub open spec fn is_digit(c: char) -> bool {
    '0' <= c && c <= '9'
}

/// The value of a string of decimal digits.
pub open spec fn digits_value(s: Seq<char>) -> nat
    decreases s.len(),
{
    if s.len() == 0 {
        0
    } else {
        digits_value(s.drop_last()) * 10 + ((s.last() as int) - ('0' as int)) as nat
    }
}

/// The digits of an unsigned decimal literal, after an optional `+`.
pub open spec fn literal_digits(s: Seq<char>) -> Seq<char> {
    if s.len() > 0 && s[0] == '+' { s.drop_first() } else { s }
}

/// `usize::from_str`: an optional `+` and at least one ASCII digit, with a
/// value that fits.
pub open spec fn parse_usize_spec(s: Seq<char>) -> Option<usize> {
    let d = literal_digits(s);
    if d.len() > 0 && (forall|i: int| 0 <= i < d.len() ==> is_digit(#[trigger] d[i]))
        && digits_value(d) <= usize::MAX {
        Some(digits_value(d) as usize)
    } else {
        None
    }
}

proof fn lemma_digits_value_mono(s: Seq<char>, i: int)
    requires
        0 <= i <= s.len(),
        forall|k: int| 0 <= k < s.len() ==> is_digit(#[trigger] s[k]),
    ensures
        digits_value(s.take(i)) <= digits_value(s),
    decreases s.len() - i,
{
    if i < s.len() {
        assert(s.drop_last().take(i) =~= s.take(i)) by {
            if i == s.len() {
            }
        }
        if i <= s.len() - 1 {
            lemma_digits_value_mono(s.drop_last(), i);
        }
    } else {
        assert(s.take(i) =~= s);
    }
}

/// Parses a thread count the way `usize::from_str` does.
pub fn parse_usize(s: &str) -> (r: Option<usize>)
    ensures
        r == parse_usize_spec(s@),
{
    let chars = chars_of(s);
    let start: usize = if chars.len() > 0 && chars[0] == '+' { 1 } else { 0 };
    let ghost d = literal_digits(s@);
    proof {
        if start == 1 {
            assert(d =~= s@.skip(1));
        } else {
            assert(d =~= s@.skip(0));
        }
    }
    if start == chars.len() {
        return None;
    }
    let mut value: usize = 0;
    let mut i = start;
    while i < chars.len()
        invariant
            start <= i <= chars.len(),
            chars@ == s@,
            d == literal_digits(s@),
            d == s@.skip(start as int),
            forall|k: int| 0 <= k < i - start ==> is_digit(#[trigger] d[k]),
            value == digits_value(d.take(i - start)),
        decreases chars.len() - i,
    {
        let c = chars[i];
        proof {
            assert(d[i - start] == c);
            assert(d.take(i - start + 1).drop_last() =~= d.take(i - start));
        }
        if !('0' <= c && c <= '9') {
            proof {
                let k = i - start;
                assert(!is_digit(d[k]));
                assert(!(forall|k2: int| 0 <= k2 < d.len() ==> is_digit(#[trigger] d[k2])));
            }
            return None;
        }
        let digit = (c as u32 - '0' as u32) as usize;
        proof {
            assert(d.take(i - start + 1).last() == c);
            assert(digits_value(d.take(i - start + 1)) == value * 10 + digit);
        }
        if value > (usize::MAX - digit) / 10 {
            proof {
                let big = digits_value(d.take(i - start + 1));
                assert(big > usize::MAX) by (nonlinear_arith)
                    requires
                        value > (usize::MAX - digit) / 10,
                        big == value * 10 + digit,
                        digit <= 9,
                ;
                if forall|k: int| 0 <= k < d.len() ==> is_digit(#[trigger] d[k]) {
                    lemma_digits_value_mono(d, i - start + 1);
                }
            }
            return None;
        }
        value = value * 10 + digit;
        i += 1;
    }
    proof {
        assert(d.take(i - start) =~= d);
    }
    Some(value)
}

/// `a` with every leading `--threads=` taken off, as `trim_start_matches`
/// does.
pub open spec fn strip_threads_prefix(a: Seq<char>) -> Seq<char>
    decreases a.len(),
{
    if a.len() >= 10 && crate::text::starts_with(a, "--threads="@) {
        strip_threads_prefix(a.skip(10))
    } else {
        a
    }
}

/// `a` with every leading `--threads=` taken off.
fn strip_threads_prefix_exec(a: &[char]) -> (r: Vec<char>)
    ensures
        r@ == strip_threads_prefix(a@),
{
    let prefix = chars_of("--threads=");
    proof {
        reveal_strlit("--threads=");
        assert(a@.skip(0) =~= a@);
    }
    let mut from: usize = 0;
    while crate::text::occurs_at_exec(a, prefix.as_slice(), from)
        invariant
            from <= a.len(),
            prefix@ == "--threads="@,
            prefix@.len() == 10,
            strip_threads_prefix(a@) == strip_threads_prefix(a@.skip(from as int)),
        decreases a.len() - from,
    {
        proof {
            let rest = a@.skip(from as int);
            assert(rest.subrange(0, 10) =~= a@.subrange(from as int, from + 10));
            assert(rest.skip(10) =~= a@.skip(from + 10));
        }
        from += 10;
    }
    proof {
        let rest = a@.skip(from as int);
        if rest.len() >= 10 && crate::text::starts_with(rest, "--threads="@) {
            assert(rest.subrange(0, 10) =~= a@.subrange(from as int, from + 10));
        }
    }
    crate::text::skip_exec(a, from)
}

/// What a command line gives, as mathematical values.
pub enum ArgsOutcome {
    Run { root: Seq<char>, threads: nat },
    Help,
    MissingValue(Seq<char>),
    InvalidThreadCount(Seq<char>),
    UnknownOption(Seq<char>),
    MultipleDirectories,
    ZeroThreads,
}

/// The outcome of the arguments from `i` on, with the directory and thread
/// count seen so far.
pub open spec fn parse_from(args: Seq<Seq<char>>, i: int, root: Option<Seq<char>>, threads: nat) -> ArgsOutcome
    decreases args.len() - i,
{
    if i < 0 || i >= args.len() {
        if threads == 0 {
            ArgsOutcome::ZeroThreads
        } else {
            ArgsOutcome::Run {
                root: match root {
                    Some(r) => r,
                    None => "."@,
                },
                threads,
            }
        }
    } else {
        let a = args[i];
        if a == "-j"@ || a == "--threads"@ {
            if i + 1 >= args.len() {
                ArgsOutcome::MissingValue(a)
            } else {
                match parse_usize_spec(args[i + 1]) {
                    Some(t) => parse_from(args, i + 2, root, t as nat),
                    None => ArgsOutcome::InvalidThreadCount(args[i + 1]),
                }
            }
        } else if a == "-h"@ || a == "--help"@ {
            ArgsOutcome::Help
        } else if crate::text::starts_with(a, "--threads="@) {
            match parse_usize_spec(strip_threads_prefix(a)) {
                Some(t) => parse_from(args, i + 1, root, t as nat),
                None => ArgsOutcome::InvalidThreadCount(strip_threads_prefix(a)),
            }
        } else if crate::text::starts_with(a, "-"@) {
            ArgsOutcome::UnknownOption(a)
        } else if root is Some {
            ArgsOutcome::MultipleDirectories
        } else {
            parse_from(args, i + 1, Some(a), threads)
        }
    }
}

/// The outcome of a parse, as mathematical values.
pub open spec fn outcome_of(r: Result<ParsedArgs, ArgError>) -> ArgsOutcome {
    match r {
        Ok(ParsedArgs::Run(c)) => ArgsOutcome::Run { root: c.root@, threads: c.threads as nat },
        Ok(ParsedArgs::Help) => ArgsOutcome::Help,
        Err(ArgError::MissingValue(a)) => ArgsOutcome::MissingValue(a@),
        Err(ArgError::InvalidThreadCount(v)) => ArgsOutcome::InvalidThreadCount(v@),
        Err(ArgError::UnknownOption(o)) => ArgsOutcome::UnknownOption(o@),
        Err(ArgError::MultipleDirectories) => ArgsOutcome::MultipleDirectories,
        Err(ArgError::ZeroThreads) => ArgsOutcome::ZeroThreads,
    }
}

/// The views of a list of strings.
pub open spec fn string_views(v: Seq<String>) -> Seq<Seq<char>> {
    v.map_values(|s: String| s@)
}

/// The command line (without the program name): `-j N`/`--threads N`/
/// `--threads=N` set the thread count, `-h`/`--help` asks for the usage,
/// another argument starting with `-` is refused, and at most one other
/// argument names the directory (default `.`). A final thread count of zero
/// is refused. The scan skips paths containing `windows`.
pub fn parse_args(args: &Vec<String>) -> (r: Result<ParsedArgs, ArgError>)
    ensures
        outcome_of(r) == parse_from(string_views(args@), 0, None, DEFAULT_THREADS as nat),
        args@.len() > 0 && (args@[0]@ == "-h"@ || args@[0]@ == "--help"@) ==> r matches Ok(ParsedArgs::Help),
        r matches Ok(ParsedArgs::Run(c)) ==> c.blacklist@.len() == 1 && c.blacklist@[0]@ == "windows"@,
{
    let ghost av = string_views(args@);
    proof {
        if args@.len() > 0 && (args@[0]@ == "-h"@ || args@[0]@ == "--help"@) {
            assert(av[0] == args@[0]@);
            law_help_flags_ask_for_usage(seq![], av[0], av.skip(1), None, DEFAULT_THREADS as nat);
            assert(seq![] + seq![av[0]] + av.skip(1) =~= av);
        }
    }
    let mut root: Option<String> = None;
    let mut threads: usize = DEFAULT_THREADS;
    let mut i: usize = 0;
    while i < args.len()
        invariant
            i <= args.len(),
            av == string_views(args@),
            args@.len() > 0 && (args@[0]@ == "-h"@ || args@[0]@ == "--help"@) ==> parse_from(
                av,
                0,
                None,
                DEFAULT_THREADS as nat,
            ) == ArgsOutcome::Help,
            parse_from(av, 0, None, DEFAULT_THREADS as nat) == parse_from(
                av,
                i as int,
                match root {
                    Some(rt) => Some(rt@),
                    None => None,
                },
                threads as nat,
            ),
        decreases args.len() - i,
    {
        let arg = args[i].as_str();
        let a = chars_of(arg);
        proof {
            assert(av[i as int] == arg@);
        }
        if str_equal(arg, "-j") || str_equal(arg, "--threads") {
            if args.len() - i < 2 {
                return Err(ArgError::MissingValue(arg.to_string()));
            }
            let value = args[i + 1].as_str();
            proof {
                assert(av[i + 1] == value@);
            }
            match parse_usize(value) {
                Some(t) => {
                    threads = t;
                },
                None => {
                    return Err(ArgError::InvalidThreadCount(value.to_string()));
                },
            }
            i += 2;
        } else if str_equal(arg, "-h") || str_equal(arg, "--help") {
            return Ok(ParsedArgs::Help);
        } else if crate::text::starts_with_exec(a.as_slice(), chars_of("--threads=").as_slice()) {
            proof {
                reveal_strlit("--threads=");
            }
            let rest = strip_threads_prefix_exec(a.as_slice());
            let value = string_of(rest.as_slice());
            match parse_usize(value.as_str()) {
                Some(t) => {
                    threads = t;
                },
                None => {
                    return Err(ArgError::InvalidThreadCount(value));
                },
            }
            i += 1;
        } else if crate::text::starts_with_exec(a.as_slice(), chars_of("-").as_slice()) {
            return Err(ArgError::UnknownOption(arg.to_string()));
        } else {
            if root.is_some() {
                return Err(ArgError::MultipleDirectories);
            }
            root = Some(arg.to_string());
            i += 1;
        }
    }
    if threads == 0 {
        return Err(ArgError::ZeroThreads);
    }
    let mut blacklist: Vec<String> = Vec::new();
    blacklist.push("windows".to_string());
    let root = match root {
        Some(r) => r,
        None => ".".to_string(),
    };
    Ok(ParsedArgs::Run(Config { root, threads, blacklist }))
}

impl ArgError {
    /// The message for the error.
    pub fn message(&self) -> (m: String)
        ensures
            match self {
                ArgError::MissingValue(a) => m@ == a@ + " requires a value"@,
                ArgError::InvalidThreadCount(v) => m@ == "invalid thread count: "@ + v@,
                ArgError::UnknownOption(o) => m@ == "unknown option: "@ + o@,
                ArgError::MultipleDirectories => m@ == "only one directory argument is supported"@,
                ArgError::ZeroThreads => m@ == "thread count must be greater than zero"@,
            },
    {
        match self {
            ArgError::MissingValue(a) => {
                let mut out = chars_of(a.as_str());
                extend_chars(&mut out, chars_of(" requires a value").as_slice());
                string_of(out.as_slice())
            },
            ArgError::InvalidThreadCount(v) => {
                let mut out = chars_of("invalid thread count: ");
                extend_chars(&mut out, chars_of(v.as_str()).as_slice());
                string_of(out.as_slice())
            },
            ArgError::UnknownOption(o) => {
                let mut out = chars_of("unknown option: ");
                extend_chars(&mut out, chars_of(o.as_str()).as_slice());
                string_of(out.as_slice())
            },
            ArgError::MultipleDirectories => "only one directory argument is supported".to_string(),
            ArgError::ZeroThreads => "thread count must be greater than zero".to_string(),
        }
    }
}

// ---------------------------------------------------------------------------
// Which files are scanned
// ---------------------------------------------------------------------------

/// Directories that the walk does not enter: `target` and `.git`.
pub fn is_skipped_dir(file_name: Option<&str>) -> (b: bool)
    ensures
        b == match file_name {
            Some(n) => n@ == "target"@ || n@ == ".git"@,
            None => false,
        },
{
    match file_name {
        Some(n) => str_equal(n, "target") || str_equal(n, ".git"),
        None => false,
    }
}

/// The path contains one of the non-empty patterns.
pub open spec fn blacklisted_spec(path: Seq<char>, blacklist: Seq<String>) -> bool {
    exists|k: int|
        0 <= k < blacklist.len() && (#[trigger] blacklist[k])@.len() > 0 && contains(
            path,
            blacklist[k]@,
        )
}

/// Whether the path contains one of the non-empty patterns of the blacklist.
pub fn is_blacklisted(path: &str, blacklist: &Vec<String>) -> (b: bool)
    ensures
        b == blacklisted_spec(path@, blacklist@),
{
    let p = chars_of(path);
    let mut k: usize = 0;
    while k < blacklist.len()
        invariant
            k <= blacklist.len(),
            p@ == path@,
            forall|j: int| 0 <= j < k ==> !((#[trigger] blacklist@[j])@.len() > 0 && contains(path@, blacklist@[j]@)),
        decreases blacklist.len() - k,
    {
        let pat = chars_of(blacklist[k].as_str());
        if pat.len() > 0 && contains_exec(p.as_slice(), pat.as_slice()) {
            return true;
        }
        k += 1;
    }
    false
}

// ---------------------------------------------------------------------------
// Declarations of a file
// ---------------------------------------------------------------------------

/// The visibility of a declaration.
pub enum Visibility {
    Public,
    /// `pub(...)`, with its token text.
    Restricted(String),
    Inherited,
}

/// How a visibility is reported: `pub`, the restriction's tokens, or `private`.
pub fn visibility_name(vis: &Visibility) -> (s: String)
    ensures
        s@ == match vis {
            Visibility::Public => "pub"@,
            Visibility::Restricted(t) => t@,
            Visibility::Inherited => "private"@,
        },
{
    match vis {
        Visibility::Public => "pub".to_string(),
        Visibility::Restricted(t) => t.clone(),
        Visibility::Inherited => "private".to_string(),
    }
}

/// The generic arguments of the last segment of a field's type path.
pub enum TypeArgs {
    /// `<...>` with this many arguments.
    AngleBracketed(usize),
    /// `(...) -> ...` with this many inputs and an output or not.
    Parenthesized { inputs: usize, has_output: bool },
    /// No arguments.
    Bare,
}

/// The shape of a field's type.
pub enum TypeShape {
    /// A path type; the arguments of its last segment, if it has segments.
    Path(Option<TypeArgs>),
    Other,
}

/// The number of generic arguments of a field's type.
pub open spec fn template_number_spec(ty: TypeShape) -> int {
    match ty {
        TypeShape::Path(Some(TypeArgs::AngleBracketed(n))) => n as int,
        TypeShape::Path(Some(TypeArgs::Parenthesized { inputs, has_output })) => inputs + if has_output { 1int } else { 0int },
        _ => 0,
    }
}

/// The number of generic arguments of a field's type: the arguments of the
/// last path segment (inputs plus an output for `Fn(..) -> ..`), else 0.
pub fn type_template_number(ty: &TypeShape) -> (n: usize)
    requires
        *ty matches TypeShape::Path(Some(TypeArgs::Parenthesized { inputs, has_output })) ==> has_output ==> inputs < usize::MAX,
    ensures
        n == template_number_spec(*ty),
{
    match ty {
        TypeShape::Path(Some(TypeArgs::AngleBracketed(n))) => *n,
        TypeShape::Path(Some(TypeArgs::Parenthesized { inputs, has_output })) => if *has_output {
            *inputs + 1
        } else {
            *inputs
        },
        _ => 0,
    }
}

/// A field of a struct, as reported.
pub struct FieldInfo {
    pub name: String,
    pub visibility: String,
    pub template_number: usize,
}

/// A struct, as reported.
pub struct StructInfo {
    pub name: String,
    pub visibility: String,
    pub template_number: usize,
    pub fields: Vec<FieldInfo>,
}

/// A field as parsed: its name (for named fields), visibility and type.
pub struct FieldDecl {
    pub ident: Option<String>,
    pub vis: Visibility,
    pub ty: TypeShape,
}

/// The report of field number `index`: its name (or its index), visibility and
/// number of type arguments.
pub fn field_info(index: usize, field: &FieldDecl) -> (f: FieldInfo)
    requires
        field.ty matches TypeShape::Path(Some(TypeArgs::Parenthesized { inputs, has_output })) ==> has_output ==> inputs < usize::MAX,
    ensures
        f.name@ == match field.ident {
            Some(i) => i@,
            None => decimal(index as nat),
        },
        f.visibility@ == match field.vis {
            Visibility::Public => "pub"@,
            Visibility::Restricted(t) => t@,
            Visibility::Inherited => "private"@,
        },
        f.template_number == template_number_spec(field.ty),
{
    let name = match &field.ident {
        Some(i) => i.clone(),
        None => string_of(decimal_chars(index).as_slice()),
    };
    FieldInfo { name, visibility: visibility_name(&field.vis), template_number: type_template_number(&field.ty) }
}

// ---------------------------------------------------------------------------
// References to `core`/`std` inside `unsafe` blocks
// ---------------------------------------------------------------------------

/// A source position: line (from 1) and column (from 0).
#[derive(Clone, Copy, PartialEq, Eq, Structural)]
pub struct LineCol {
    pub line: usize,
    pub column: usize,
}

/// A path to `core` or `std` seen inside an `unsafe` block: its token text,
/// where it starts, and where the innermost enclosing `unsafe` starts.
pub struct UnsafeReference {
    pub text: String,
    pub at: LineCol,
    pub unsafe_at: LineCol,
}

/// An `UnsafeReference` as mathematical values.
pub struct RefView {
    pub text: Seq<char>,
    pub at: LineCol,
    pub unsafe_at: LineCol,
}

impl View for UnsafeReference {
    type V = RefView;

    open spec fn view(&self) -> RefView {
        RefView { text: self.text@, at: self.at, unsafe_at: self.unsafe_at }
    }
}

/// The views of a list of references.
pub open spec fn ref_views(s: Seq<UnsafeReference>) -> Seq<RefView> {
    s.map_values(|r: UnsafeReference| r@)
}

/// A reference with this start and text is in the list.
pub open spec fn has_reference(refs: Seq<RefView>, at: LineCol, text: Seq<char>) -> bool {
    exists|k: int| 0 <= k < refs.len() && (#[trigger] refs[k]).at == at && refs[k].text == text
}

/// No two references share their start and text.
pub open spec fn distinct_references(refs: Seq<RefView>) -> bool {
    forall|i: int, j: int|
        0 <= i < j < refs.len() ==> !((#[trigger] refs[i]).at == (#[trigger] refs[j]).at && refs[i].text == refs[j].text)
}

/// The first segment of the path is `core` or `std`.
pub open spec fn starts_core_or_std(segments: Seq<Seq<char>>) -> bool {
    segments.len() > 0 && (segments[0] == "core"@ || segments[0] == "std"@)
}

/// Whether a path (given by its segments) starts at `core` or `std`.
pub fn path_starts_core_or_std(segments: &Vec<String>) -> (b: bool)
    ensures
        b == starts_core_or_std(string_views(segments@)),
{
    if segments.len() == 0 {
        return false;
    }
    let first = segments[0].as_str();
    proof {
        assert(string_views(segments@)[0] == segments@[0]@);
    }
    str_equal(first, "core") || str_equal(first, "std")
}

/// The references found after a path is met at `at`: inside an `unsafe`
/// block, a path that starts at `core` or `std` is added with the innermost
/// `unsafe` block, unless one with the same start and text is there.
pub open spec fn after_visit(
    found: Seq<RefView>,
    open_unsafe: Seq<LineCol>,
    at: LineCol,
    segments: Seq<Seq<char>>,
    text: Seq<char>,
) -> Seq<RefView> {
    if open_unsafe.len() > 0 && starts_core_or_std(segments) && !has_reference(found, at, text) {
        found.push(RefView { text, at, unsafe_at: open_unsafe.last() })
    } else {
        found
    }
}

/// Meeting the same path twice records it once.
pub proof fn law_visit_path_once(
    found: Seq<RefView>,
    open_unsafe: Seq<LineCol>,
    at: LineCol,
    segments: Seq<Seq<char>>,
    text: Seq<char>,
)
    ensures
        after_visit(after_visit(found, open_unsafe, at, segments, text), open_unsafe, at, segments, text)
            == after_visit(found, open_unsafe, at, segments, text),
{
    let once = after_visit(found, open_unsafe, at, segments, text);
    if once != found {
        assert(once[found.len() as int].at == at && once[found.len() as int].text == text);
        assert(has_reference(once, at, text));
    }
}

/// Two argument lists that agree from the given positions on parse alike
/// from there.
proof fn lemma_parse_from_suffix(a: Seq<Seq<char>>, i: int, b: Seq<Seq<char>>, j: int, root: Option<Seq<char>>, threads: nat)
    requires
        0 <= i <= a.len(),
        0 <= j <= b.len(),
        a.skip(i) == b.skip(j),
    ensures
        parse_from(a, i, root, threads) == parse_from(b, j, root, threads),
    decreases a.len() - i,
{
    assert(a.len() - i == b.len() - j) by {
        assert(a.skip(i).len() == b.skip(j).len());
    }
    if i < a.len() {
        let x = a[i];
        assert(x == a.skip(i)[0]);
        assert(b[j] == b.skip(j)[0]);
        assert(a.skip(i + 1) =~= a.skip(i).skip(1));
        assert(b.skip(j + 1) =~= b.skip(j).skip(1));
        if i + 1 < a.len() {
            assert(a[i + 1] == a.skip(i)[1]);
            assert(b[j + 1] == b.skip(j)[1]);
            assert(a.skip(i + 2) =~= a.skip(i).skip(2));
            assert(b.skip(j + 2) =~= b.skip(j).skip(2));
        }
        if x == "-j"@ || x == "--threads"@ {
            if i + 1 < a.len() {
                match parse_usize_spec(a[i + 1]) {
                    Some(t) => lemma_parse_from_suffix(a, i + 2, b, j + 2, root, t as nat),
                    None => {},
                }
            }
        } else if x == "-h"@ || x == "--help"@ {
        } else if crate::text::starts_with(x, "--threads="@) {
            match parse_usize_spec(strip_threads_prefix(x)) {
                Some(t) => lemma_parse_from_suffix(a, i + 1, b, j + 1, root, t as nat),
                None => {},
            }
        } else if crate::text::starts_with(x, "-"@) {
        } else if root is Some {
        } else {
            lemma_parse_from_suffix(a, i + 1, b, j + 1, Some(x), threads);
        }
    }
}

/// Where an option starts, `-j N` (or `--threads N`) and `--threads=N` mean
/// the same, for a value that does not itself begin with `--threads=`.
pub proof fn law_thread_flag_forms(
    before: Seq<Seq<char>>,
    value: Seq<char>,
    after: Seq<Seq<char>>,
    root: Option<Seq<char>>,
    threads: nat,
)
    requires
        !(value.len() >= 10 && crate::text::starts_with(value, "--threads="@)),
    ensures
        parse_from(before + seq!["-j"@, value] + after, before.len() as int, root, threads)
            == parse_from(before + seq!["--threads="@ + value] + after, before.len() as int, root, threads),
{
    let a = before + seq!["-j"@, value] + after;
    let b = before + seq!["--threads="@ + value] + after;
    let i = before.len() as int;
    let flag = "--threads="@ + value;
    reveal_strlit("-j");
    reveal_strlit("--threads=");
    reveal_strlit("--threads");
    reveal_strlit("-h");
    reveal_strlit("--help");
    assert(a[i] == "-j"@);
    assert(a[i + 1] == value);
    assert(b[i] == flag);
    assert(flag.len() >= 10);
    assert(flag != "-j"@) by {
        assert(flag[1] != "-j"@[1]);
    }
    assert(flag != "--threads"@) by {
        assert(flag.len() != "--threads"@.len());
    }
    assert(flag != "-h"@) by {
        assert(flag[1] != "-h"@[1]);
    }
    assert(flag != "--help"@) by {
        assert(flag[2] != "--help"@[2]);
    }
    assert(crate::text::starts_with(flag, "--threads="@)) by {
        assert(flag.subrange(0, 10) =~= "--threads="@);
    }
    assert(flag.skip(10) =~= value);
    assert(strip_threads_prefix(flag) == strip_threads_prefix(value));
    assert(strip_threads_prefix(value) == value);
    assert(a.skip(i + 2) =~= after);
    assert(b.skip(i + 1) =~= after);
    match parse_usize_spec(value) {
        Some(t) => lemma_parse_from_suffix(a, i + 2, b, i + 1, root, t as nat),
        None => {},
    }
}

/// `-h` and `--help` ask for the usage wherever the parse reaches them as an
/// option (not as the value of `-j`/`--threads`): what came before and what
/// follows do not matter.
pub proof fn law_help_flags_ask_for_usage(
    before: Seq<Seq<char>>,
    flag: Seq<char>,
    after: Seq<Seq<char>>,
    root: Option<Seq<char>>,
    threads: nat,
)
    requires
        flag == "-h"@ || flag == "--help"@,
    ensures
        parse_from(before + seq![flag] + after, before.len() as int, root, threads) == ArgsOutcome::Help,
{
    let a = before + seq![flag] + after;
    let i = before.len() as int;
    reveal_strlit("-j");
    reveal_strlit("--threads");
    reveal_strlit("-h");
    reveal_strlit("--help");
    assert(a[i] == flag);
    assert(flag != "-j"@) by {
        if flag == "-h"@ {
            assert(flag[1] != "-j"@[1]);
        } else {
            assert(flag.len() != "-j"@.len());
        }
    }
    assert(flag != "--threads"@) by {
        assert(flag.len() != "--threads"@.len());
    }
}

/// Walks a function body: the `unsafe` blocks that enclose the current point,
/// and the references found so far, each (start, text) once.
pub struct CoreStdCollector {
    unsafe_spans: Vec<LineCol>,
    references: Vec<UnsafeReference>,
}

impl CoreStdCollector {
    /// The starts of the enclosing `unsafe` blocks, outermost first.
    pub closed spec fn open_unsafe(&self) -> Seq<LineCol> {
        self.unsafe_spans@
    }

    /// The references found so far, in the order found.
    pub closed spec fn found(&self) -> Seq<RefView> {
        ref_views(self.references@)
    }

    /// The collector's invariant: no reference is recorded twice.
    pub open spec fn wf(&self) -> bool {
        distinct_references(self.found())
    }

    /// A collector outside any `unsafe` block, with nothing found.
    pub fn new() -> (c: CoreStdCollector)
        ensures
            c.wf(),
            c.open_unsafe() == Seq::<LineCol>::empty(),
            c.found() == Seq::<RefView>::empty(),
    {
        let c = CoreStdCollector { unsafe_spans: Vec::new(), references: Vec::new() };
        proof {
            assert(ref_views(c.references@) =~= Seq::<RefView>::empty());
        }
        c
    }

    /// Enters an `unsafe` block that starts at `at`.
    pub fn enter_unsafe(&mut self, at: LineCol)
        requires
            old(self).wf(),
        ensures
            final(self).wf(),
            final(self).open_unsafe() == old(self).open_unsafe().push(at),
            final(self).found() == old(self).found(),
    {
        self.unsafe_spans.push(at);
    }

    /// Leaves the innermost `unsafe` block.
    pub fn exit_unsafe(&mut self)
        requires
            old(self).wf(),
        ensures
            final(self).wf(),
            final(self).open_unsafe() == if old(self).open_unsafe().len() > 0 {
                old(self).open_unsafe().drop_last()
            } else {
                old(self).open_unsafe()
            },
            final(self).found() == old(self).found(),
    {
        if self.unsafe_spans.len() > 0 {
            self.unsafe_spans.pop();
        }
    }

    /// Whether a reference with this start and text was found.
    fn seen(&self, at: LineCol, text: &str) -> (b: bool)
        ensures
            b == has_reference(self.found(), at, text@),
    {
        let mut k: usize = 0;
        while k < self.references.len()
            invariant
                k <= self.references.len(),
                forall|j: int| 0 <= j < k ==> !((#[trigger] self.found()[j]).at == at && self.found()[j].text == text@),
            decreases self.references.len() - k,
        {
            let r = &self.references[k];
            proof {
                assert(self.found()[k as int] == r@);
            }
            if r.at == at && str_equal(r.text.as_str(), text) {
                return true;
            }
            k += 1;
        }
        false
    }

    /// A path met at `at`, with its segments and token text: inside an
    /// `unsafe` block, a path that starts at `core` or `std` is recorded with
    /// the innermost `unsafe` block, unless one with the same start and text
    /// was recorded before.
    pub fn visit_path(&mut self, at: LineCol, segments: &Vec<String>, text: String)
        requires
            old(self).wf(),
        ensures
            final(self).wf(),
            final(self).open_unsafe() == old(self).open_unsafe(),
            final(self).found() == after_visit(
                old(self).found(),
                old(self).open_unsafe(),
                at,
                string_views(segments@),
                text@,
            ),
    {
        if self.unsafe_spans.len() == 0 {
            return;
        }
        if !path_starts_core_or_std(segments) {
            return;
        }
        if self.seen(at, text.as_str()) {
            return;
        }
        let unsafe_at = self.unsafe_spans[self.unsafe_spans.len() - 1];
        let ghost before = self.found();
        let ghost tv = text@;
        self.references.push(UnsafeReference { text, at, unsafe_at });
        proof {
            assert(self.found() =~= before.push(RefView { text: tv, at, unsafe_at }));
        }
    }

    /// The references found, in the order found.
    pub fn into_references(self) -> (r: Vec<UnsafeReference>)
        ensures
            ref_views(r@) == self.found(),
    {
        self.references
    }
}

// ---------------------------------------------------------------------------
// Findings of a file
// ---------------------------------------------------------------------------

/// A field's report as mathematical values.
pub struct FieldView {
    pub name: Seq<char>,
    pub visibility: Seq<char>,
    pub template_number: usize,
}

impl View for FieldInfo {
    type V = FieldView;

    open spec fn view(&self) -> FieldView {
        FieldView { name: self.name@, visibility: self.visibility@, template_number: self.template_number }
    }
}

/// The views of a list of fields.
pub open spec fn field_views(s: Seq<FieldInfo>) -> Seq<FieldView> {
    s.map_values(|f: FieldInfo| f@)
}

/// A struct's report as mathematical values.
pub struct StructView {
    pub name: Seq<char>,
    pub visibility: Seq<char>,
    pub template_number: usize,
    pub fields: Seq<FieldView>,
}

impl View for StructInfo {
    type V = StructView;

    open spec fn view(&self) -> StructView {
        StructView {
            name: self.name@,
            visibility: self.visibility@,
            template_number: self.template_number,
            fields: field_views(self.fields@),
        }
    }
}

/// A copy of a list of field reports.
pub fn copy_fields(fields: &Vec<FieldInfo>) -> (r: Vec<FieldInfo>)
    ensures
        field_views(r@) == field_views(fields@),
{
    let mut out: Vec<FieldInfo> = Vec::new();
    let mut k: usize = 0;
    while k < fields.len()
        invariant
            k <= fields.len(),
            field_views(out@) == field_views(fields@).take(k as int),
        decreases fields.len() - k,
    {
        let f = &fields[k];
        let ghost before = out@;
        out.push(FieldInfo { name: f.name.clone(), visibility: f.visibility.clone(), template_number: f.template_number });
        proof {
            assert(field_views(out@) =~= field_views(before).push(f@));
            assert(field_views(fields@).take(k + 1) =~= field_views(fields@).take(k as int).push(f@));
        }
        k += 1;
    }
    proof {
        assert(field_views(fields@).take(fields.len() as int) =~= field_views(fields@));
    }
    out
}

/// A copy of a struct report.
pub fn copy_struct(s: &StructInfo) -> (r: StructInfo)
    ensures
        r@ == s@,
{
    StructInfo {
        name: s.name.clone(),
        visibility: s.visibility.clone(),
        template_number: s.template_number,
        fields: copy_fields(&s.fields),
    }
}

/// A reference to `core`/`std` inside an `unsafe` block of a public safe
/// function or method.
pub struct Finding {
    pub file: String,
    pub function: String,
    pub function_kind: String,
    pub function_line: usize,
    pub function_col: usize,
    pub unsafe_line: usize,
    pub unsafe_col: usize,
    pub reference: String,
    pub reference_line: usize,
    pub reference_col: usize,
    pub struct_name: Option<String>,
    pub struct_visibility: Option<String>,
    pub struct_template_number: Option<usize>,
    pub fields: Vec<FieldInfo>,
}

/// A finding as mathematical values.
pub struct FindingView {
    pub file: Seq<char>,
    pub function: Seq<char>,
    pub function_kind: Seq<char>,
    pub function_at: LineCol,
    pub unsafe_at: LineCol,
    pub reference: Seq<char>,
    pub reference_at: LineCol,
    pub owner: Option<StructView>,
}

impl View for Finding {
    type V = FindingView;

    open spec fn view(&self) -> FindingView {
        FindingView {
            file: self.file@,
            function: self.function@,
            function_kind: self.function_kind@,
            function_at: LineCol { line: self.function_line, column: self.function_col },
            unsafe_at: LineCol { line: self.unsafe_line, column: self.unsafe_col },
            reference: self.reference@,
            reference_at: LineCol { line: self.reference_line, column: self.reference_col },
            owner: match (self.struct_name, self.struct_visibility, self.struct_template_number) {
                (Some(n), Some(v), Some(t)) => Some(
                    StructView { name: n@, visibility: v@, template_number: t, fields: field_views(self.fields@) },
                ),
                _ => None,
            },
        }
    }
}

/// The views of a list of findings.
pub open spec fn finding_views(s: Seq<Finding>) -> Seq<FindingView> {
    s.map_values(|f: Finding| f@)
}

/// A finding is whole: it names its struct, visibility and type argument
/// count together or none of them, and lists fields only with a struct.
pub open spec fn finding_consistent(f: Finding) -> bool {
    ||| (f.struct_name is Some && f.struct_visibility is Some && f.struct_template_number is Some)
    ||| (f.struct_name is None && f.struct_visibility is None && f.struct_template_number is None
        && f.fields@.len() == 0)
}

/// `s` without its spaces.
pub open spec fn without_spaces(s: Seq<char>) -> Seq<char>
    decreases s.len(),
{
    if s.len() == 0 {
        s
    } else if s.last() == ' ' {
        without_spaces(s.drop_last())
    } else {
        without_spaces(s.drop_last()).push(s.last())
    }
}

/// The line printed for a finding: `file:line,reference,yes|no`, with the
/// spaces taken out of the reference and `yes` for a method of a struct.
pub open spec fn finding_line_spec(f: Finding) -> Seq<char> {
    f.file@ + ":"@ + decimal(f.reference_line as nat) + ","@ + without_spaces(f.reference@) + ","@
        + if f.struct_name is Some { "yes"@ } else { "no"@ }
}

/// The characters of `s` other than spaces.
fn remove_spaces(s: &[char]) -> (out: Vec<char>)
    ensures
        out@ == without_spaces(s@),
{
    let mut out: Vec<char> = Vec::new();
    let mut i: usize = 0;
    while i < s.len()
        invariant
            i <= s.len(),
            out@ == without_spaces(s@.take(i as int)),
        decreases s.len() - i,
    {
        proof {
            assert(s@.take(i + 1).drop_last() =~= s@.take(i as int));
            assert(s@.take(i + 1).last() == s@[i as int]);
        }
        if s[i] != ' ' {
            out.push(s[i]);
        }
        i += 1;
    }
    proof {
        assert(s@.take(s.len() as int) =~= s@);
    }
    out
}

/// The line printed for a finding.
pub fn finding_line(f: &Finding) -> (line: String)
    ensures
        line@ == finding_line_spec(*f),
{
    let mut out = chars_of(f.file.as_str());
    extend_chars(&mut out, chars_of(":").as_slice());
    extend_chars(&mut out, decimal_chars(f.reference_line).as_slice());
    extend_chars(&mut out, chars_of(",").as_slice());
    let reference = chars_of(f.reference.as_str());
    extend_chars(&mut out, remove_spaces(reference.as_slice()).as_slice());
    extend_chars(&mut out, chars_of(",").as_slice());
    if f.struct_name.is_some() {
        extend_chars(&mut out, chars_of("yes").as_slice());
    } else {
        extend_chars(&mut out, chars_of("no").as_slice());
    }
    string_of(out.as_slice())
}

/// A function or method of a file, with the references that its body makes
/// to `core`/`std` inside `unsafe` blocks.
pub struct ScannedFn {
    pub name: String,
    /// Where its name starts.
    pub at: LineCol,
    pub is_public: bool,
    pub is_unsafe: bool,
    pub references: Vec<UnsafeReference>,
}

/// An item of a file, as far as the scan reads it.
pub enum FileItem {
    Fn(ScannedFn),
    /// An `impl` block: the last segment of its self type when that is a
    /// path, and its methods.
    Impl { self_type: Option<String>, methods: Vec<ScannedFn> },
    Struct(StructInfo),
    Other,
}

/// The reports of the structs of a file, in order.
pub open spec fn structs_of(items: Seq<FileItem>) -> Seq<StructView>
    decreases items.len(),
{
    if items.len() == 0 {
        Seq::empty()
    } else {
        match items.last() {
            FileItem::Struct(s) => structs_of(items.drop_last()).push(s@),
            _ => structs_of(items.drop_last()),
        }
    }
}

/// The struct of that name; of several, the last.
pub open spec fn struct_named(structs: Seq<StructView>, name: Seq<char>) -> Option<StructView>
    decreases structs.len(),
{
    if structs.len() == 0 {
        None
    } else if structs.last().name == name {
        Some(structs.last())
    } else {
        struct_named(structs.drop_last(), name)
    }
}

/// The finding for one reference of a function.
pub open spec fn finding_of(
    path: Seq<char>,
    f: ScannedFn,
    kind: Seq<char>,
    r: RefView,
    owner: Option<StructView>,
) -> FindingView {
    FindingView {
        file: path,
        function: f.name@,
        function_kind: kind,
        function_at: f.at,
        unsafe_at: r.unsafe_at,
        reference: r.text,
        reference_at: r.at,
        owner,
    }
}

/// The findings of a function: one per reference, in order.
pub open spec fn fn_findings(path: Seq<char>, f: ScannedFn, kind: Seq<char>, owner: Option<StructView>) -> Seq<FindingView> {
    Seq::new(f.references@.len(), |k: int| finding_of(path, f, kind, f.references@[k]@, owner))
}

/// A function is reported when it is public and safe.
pub open spec fn reported(f: ScannedFn) -> bool {
    f.is_public && !f.is_unsafe
}

/// The findings of the reported methods of an impl block.
pub open spec fn methods_findings(path: Seq<char>, methods: Seq<ScannedFn>, owner: Option<StructView>) -> Seq<FindingView>
    decreases methods.len(),
{
    if methods.len() == 0 {
        Seq::empty()
    } else {
        methods_findings(path, methods.drop_last(), owner) + if reported(methods.last()) {
            fn_findings(path, methods.last(), "method"@, owner)
        } else {
            Seq::empty()
        }
    }
}

/// The findings of an item: a reported free function, or the reported
/// methods of an impl block whose self type is a path (with the struct of
/// that name, if the file has one).
pub open spec fn item_findings(path: Seq<char>, item: FileItem, structs: Seq<StructView>) -> Seq<FindingView> {
    match item {
        FileItem::Fn(f) => if reported(f) {
            fn_findings(path, f, "free"@, None)
        } else {
            Seq::empty()
        },
        FileItem::Impl { self_type: Some(n), methods } => methods_findings(path, methods@, struct_named(structs, n@)),
        _ => Seq::empty(),
    }
}

/// The findings of the first items of a file.
pub open spec fn items_findings(path: Seq<char>, items: Seq<FileItem>, structs: Seq<StructView>) -> Seq<FindingView>
    decreases items.len(),
{
    if items.len() == 0 {
        Seq::empty()
    } else {
        items_findings(path, items.drop_last(), structs) + item_findings(path, items.last(), structs)
    }
}

/// The findings of a file, in item order.
pub open spec fn file_findings(path: Seq<char>, items: Seq<FileItem>) -> Seq<FindingView> {
    items_findings(path, items, structs_of(items))
}

/// `fd` reports one of the references of `f`, a public function that is not
/// `unsafe`, as a finding of the given kind.
pub open spec fn found_in(fd: FindingView, f: ScannedFn, kind: Seq<char>) -> bool {
    &&& f.is_public
    &&& !f.is_unsafe
    &&& fd.function == f.name@
    &&& fd.function_kind == kind
    &&& fd.function_at == f.at
    &&& exists|r: int|
        0 <= r < f.references@.len() && (#[trigger] f.references@[r])@ == (RefView {
            text: fd.reference,
            at: fd.reference_at,
            unsafe_at: fd.unsafe_at,
        })
}

/// `fd` comes from `item`: a free function, or one of the methods of an impl
/// block.
pub open spec fn found_in_item(fd: FindingView, item: FileItem) -> bool {
    match item {
        FileItem::Fn(f) => found_in(fd, f, "free"@),
        FileItem::Impl { methods, .. } => exists|j: int|
            0 <= j < methods@.len() && found_in(fd, #[trigger] methods@[j], "method"@),
        _ => false,
    }
}

proof fn lemma_fn_findings_found_in(path: Seq<char>, f: ScannedFn, kind: Seq<char>, owner: Option<StructView>)
    requires
        f.is_public && !f.is_unsafe,
    ensures
        forall|k: int| 0 <= k < fn_findings(path, f, kind, owner).len() ==> found_in(
            #[trigger] fn_findings(path, f, kind, owner)[k],
            f,
            kind,
        ),
{
    assert forall|k: int| 0 <= k < fn_findings(path, f, kind, owner).len() implies found_in(
        #[trigger] fn_findings(path, f, kind, owner)[k],
        f,
        kind,
    ) by {
        let fd = fn_findings(path, f, kind, owner)[k];
        assert(f.references@[k]@ == (RefView { text: fd.reference, at: fd.reference_at, unsafe_at: fd.unsafe_at }));
    }
}

proof fn lemma_methods_findings_found_in(path: Seq<char>, ms: Seq<ScannedFn>, owner: Option<StructView>)
    ensures
        forall|k: int| 0 <= k < methods_findings(path, ms, owner).len() ==> exists|j: int|
            0 <= j < ms.len() && found_in(#[trigger] methods_findings(path, ms, owner)[k], ms[j], "method"@),
    decreases ms.len(),
{
    if ms.len() > 0 {
        let init = ms.drop_last();
        lemma_methods_findings_found_in(path, init, owner);
        let prev = methods_findings(path, init, owner);
        let all = methods_findings(path, ms, owner);
        let last = ms.last();
        if reported(last) {
            lemma_fn_findings_found_in(path, last, "method"@, owner);
        }
        assert forall|k: int| 0 <= k < all.len() implies exists|j: int|
            0 <= j < ms.len() && found_in(#[trigger] all[k], ms[j], "method"@) by {
            if k < prev.len() {
                assert(all[k] == prev[k]);
                let j = choose|j: int| 0 <= j < init.len() && found_in(prev[k], init[j], "method"@);
                assert(init[j] == ms[j]);
            } else {
                let fs = fn_findings(path, last, "method"@, owner);
                assert(all[k] == fs[k - prev.len()]);
                assert(found_in(fs[k - prev.len()], last, "method"@));
                assert(ms[ms.len() - 1] == last);
            }
        }
    }
}

proof fn lemma_items_findings_found_in(path: Seq<char>, items: Seq<FileItem>, structs: Seq<StructView>)
    ensures
        forall|k: int| 0 <= k < items_findings(path, items, structs).len() ==> exists|i: int|
            0 <= i < items.len() && found_in_item(#[trigger] items_findings(path, items, structs)[k], items[i]),
    decreases items.len(),
{
    if items.len() > 0 {
        let init = items.drop_last();
        lemma_items_findings_found_in(path, init, structs);
        let prev = items_findings(path, init, structs);
        let all = items_findings(path, items, structs);
        let last = items.last();
        let own = item_findings(path, last, structs);
        assert forall|k: int| 0 <= k < own.len() implies found_in_item(#[trigger] own[k], last) by {
            match last {
                FileItem::Fn(f) => {
                    if reported(f) {
                        lemma_fn_findings_found_in(path, f, "free"@, None);
                    }
                },
                FileItem::Impl { self_type: Some(n), methods } => {
                    lemma_methods_findings_found_in(path, methods@, struct_named(structs, n@));
                    let j = choose|j: int| 0 <= j < methods@.len() && found_in(own[k], methods@[j], "method"@);
                },
                _ => {},
            }
        }
        assert forall|k: int| 0 <= k < all.len() implies exists|i: int|
            0 <= i < items.len() && found_in_item(#[trigger] all[k], items[i]) by {
            if k < prev.len() {
                assert(all[k] == prev[k]);
                let i = choose|i: int| 0 <= i < init.len() && found_in_item(prev[k], init[i]);
                assert(init[i] == items[i]);
            } else {
                assert(all[k] == own[k - prev.len()]);
                assert(found_in_item(own[k - prev.len()], last));
                assert(items[items.len() - 1] == last);
            }
        }
    }
}

/// Every finding of a file comes from one of its items: it names a public
/// function or method that is not `unsafe`, with the kind (`free` or
/// `method`), the place of its name, and one of the references found in its
/// body.
pub proof fn law_findings_come_from_public_safe_functions(path: Seq<char>, items: Seq<FileItem>)
    ensures
        forall|k: int| 0 <= k < file_findings(path, items).len() ==> exists|i: int|
            0 <= i < items.len() && found_in_item(#[trigger] file_findings(path, items)[k], items[i]),
{
    lemma_items_findings_found_in(path, items, structs_of(items));
}

/// The views of a list of struct reports.
pub open spec fn struct_views(s: Seq<StructInfo>) -> Seq<StructView> {
    s.map_values(|x: StructInfo| x@)
}

/// The view of an optional struct report.
pub open spec fn owner_view(owner: Option<&StructInfo>) -> Option<StructView> {
    match owner {
        Some(s) => Some(s@),
        None => None,
    }
}

/// The reports of the structs of a file, in order.
pub fn collect_structs(items: &Vec<FileItem>) -> (r: Vec<StructInfo>)
    ensures
        struct_views(r@) == structs_of(items@),
{
    let mut out: Vec<StructInfo> = Vec::new();
    let mut i: usize = 0;
    while i < items.len()
        invariant
            i <= items.len(),
            struct_views(out@) == structs_of(items@.take(i as int)),
        decreases items.len() - i,
    {
        proof {
            assert(items@.take(i + 1).drop_last() =~= items@.take(i as int));
            assert(items@.take(i + 1).last() == items@[i as int]);
        }
        match &items[i] {
            FileItem::Struct(st) => {
                let ghost before = out@;
                out.push(copy_struct(st));
                proof {
                    assert(struct_views(out@) =~= struct_views(before).push(st@));
                }
            },
            _ => {},
        }
        i += 1;
    }
    proof {
        assert(items@.take(items.len() as int) =~= items@);
    }
    out
}

/// The index of the struct of that name; of several, the last.
pub fn find_struct(structs: &Vec<StructInfo>, name: &str) -> (r: Option<usize>)
    ensures
        match r {
            Some(k) => k < structs.len() && struct_named(struct_views(structs@), name@) == Some(
                structs@[k as int]@,
            ),
            None => struct_named(struct_views(structs@), name@) is None,
        },
{
    let ghost v = struct_views(structs@);
    let mut i: usize = structs.len();
    proof {
        assert(v.take(i as int) =~= v);
    }
    while i > 0
        invariant
            i <= structs.len(),
            v == struct_views(structs@),
            struct_named(v, name@) == struct_named(v.take(i as int), name@),
        decreases i,
    {
        proof {
            assert(v.take(i as int).drop_last() =~= v.take(i - 1));
            assert(v.take(i as int).last() == structs@[i - 1]@);
        }
        if str_equal(structs[i - 1].name.as_str(), name) {
            return Some(i - 1);
        }
        i -= 1;
    }
    proof {
        assert(v.take(0) =~= Seq::<StructView>::empty());
    }
    None
}

/// Appends the findings of a function, one per reference, to `out`.
fn push_fn_findings(out: &mut Vec<Finding>, path: &str, f: &ScannedFn, kind: &str, owner: Option<&StructInfo>)
    requires
        forall|k: int| 0 <= k < old(out)@.len() ==> finding_consistent(#[trigger] old(out)@[k]),
    ensures
        finding_views(final(out)@) == finding_views(old(out)@) + fn_findings(path@, *f, kind@, owner_view(owner)),
        forall|k: int| 0 <= k < final(out)@.len() ==> finding_consistent(#[trigger] final(out)@[k]),
{
    let ghost start = finding_views(out@);
    let ghost all = fn_findings(path@, *f, kind@, owner_view(owner));
    let mut k: usize = 0;
    while k < f.references.len()
        invariant
            k <= f.references.len(),
            all == fn_findings(path@, *f, kind@, owner_view(owner)),
            finding_views(out@) == start + all.take(k as int),
            forall|j: int| 0 <= j < out@.len() ==> finding_consistent(#[trigger] out@[j]),
        decreases f.references.len() - k,
    {
        let r = &f.references[k];
        let finding = match owner {
            Some(st) => Finding {
                file: path.to_string(),
                function: f.name.clone(),
                function_kind: kind.to_string(),
                function_line: f.at.line,
                function_col: f.at.column,
                unsafe_line: r.unsafe_at.line,
                unsafe_col: r.unsafe_at.column,
                reference: r.text.clone(),
                reference_line: r.at.line,
                reference_col: r.at.column,
                struct_name: Some(st.name.clone()),
                struct_visibility: Some(st.visibility.clone()),
                struct_template_number: Some(st.template_number),
                fields: copy_fields(&st.fields),
            },
            None => Finding {
                file: path.to_string(),
                function: f.name.clone(),
                function_kind: kind.to_string(),
                function_line: f.at.line,
                function_col: f.at.column,
                unsafe_line: r.unsafe_at.line,
                unsafe_col: r.unsafe_at.column,
                reference: r.text.clone(),
                reference_line: r.at.line,
                reference_col: r.at.column,
                struct_name: None,
                struct_visibility: None,
                struct_template_number: None,
                fields: Vec::new(),
            },
        };
        proof {
            assert(finding@ == all[k as int]);
        }
        let ghost before = finding_views(out@);
        out.push(finding);
        proof {
            assert(finding_views(out@) =~= before.push(finding@));
            assert(all.take(k + 1) =~= all.take(k as int).push(all[k as int]));
        }
        k += 1;
    }
    proof {
        assert(all.take(f.references.len() as int) =~= all);
    }
}

/// The findings of a file: for each public safe free function, and each
/// public safe method of an impl block whose self type is a path (reported
/// with the file's struct of that name, if any), one finding per reference
/// to `core`/`std` inside an `unsafe` block, in order.
pub fn analyze_file(path: &str, items: &Vec<FileItem>) -> (r: Vec<Finding>)
    ensures
        finding_views(r@) == file_findings(path@, items@),
        forall|k: int| 0 <= k < r@.len() ==> finding_consistent(#[trigger] r@[k]),
        forall|k: int| 0 <= k < r@.len() ==> exists|i: int|
            0 <= i < items@.len() && found_in_item(#[trigger] r@[k]@, items@[i]),
{
    let structs = collect_structs(items);
    let ghost sv = structs_of(items@);
    let mut out: Vec<Finding> = Vec::new();
    let mut i: usize = 0;
    while i < items.len()
        invariant
            i <= items.len(),
            struct_views(structs@) == sv,
            sv == structs_of(items@),
            finding_views(out@) == items_findings(path@, items@.take(i as int), sv),
            forall|j: int| 0 <= j < out@.len() ==> finding_consistent(#[trigger] out@[j]),
        decreases items.len() - i,
    {
        proof {
            assert(items@.take(i + 1).drop_last() =~= items@.take(i as int));
            assert(items@.take(i + 1).last() == items@[i as int]);
        }
        let ghost before = finding_views(out@);
        match &items[i] {
            FileItem::Fn(f) => {
                if f.is_public && !f.is_unsafe {
                    push_fn_findings(&mut out, path, f, "free", None);
                } else {
                    proof {
                        assert(finding_views(out@) =~= before + Seq::<FindingView>::empty());
                    }
                }
            },
            FileItem::Impl { self_type: Some(n), methods } => {
                let found = find_struct(&structs, n.as_str());
                let owner: Option<&StructInfo> = match found {
                    Some(k) => Some(&structs[k]),
                    None => None,
                };
                proof {
                    assert(owner_view(owner) == struct_named(sv, n@));
                }
                let mut j: usize = 0;
                while j < methods.len()
                    invariant
                        j <= methods.len(),
                        finding_views(out@) == before + methods_findings(path@, methods@.take(j as int), owner_view(owner)),
                        forall|q: int| 0 <= q < out@.len() ==> finding_consistent(#[trigger] out@[q]),
                    decreases methods.len() - j,
                {
                    let ghost mid = finding_views(out@);
                    proof {
                        assert(methods@.take(j + 1).drop_last() =~= methods@.take(j as int));
                        assert(methods@.take(j + 1).last() == methods@[j as int]);
                    }
                    let m = &methods[j];
                    if m.is_public && !m.is_unsafe {
                        push_fn_findings(&mut out, path, m, "method", owner);
                        proof {
                            assert(finding_views(out@) =~= before + methods_findings(
                                path@,
                                methods@.take(j + 1),
                                owner_view(owner),
                            ));
                        }
                    } else {
                        proof {
                            assert(finding_views(out@) =~= before + methods_findings(
                                path@,
                                methods@.take(j + 1),
                                owner_view(owner),
                            ));
                        }
                    }
                    j += 1;
                }
                proof {
                    assert(methods@.take(methods.len() as int) =~= methods@);
                }
            },
            _ => {
                proof {
                    assert(finding_views(out@) =~= before + Seq::<FindingView>::empty());
                }
            },
        }
        proof {
            assert(finding_views(out@) =~= items_findings(path@, items@.take(i + 1), sv));
        }
        i += 1;
    }
    proof {
        assert(items@.take(items.len() as int) =~= items@);
        law_findings_come_from_public_safe_functions(path@, items@);
        assert forall|k: int| 0 <= k < out@.len() implies exists|i: int|
            0 <= i < items@.len() && found_in_item(#[trigger] out@[k]@, items@[i]) by {
            assert(finding_views(out@)[k] == out@[k]@);
            let ff = file_findings(path@, items@);
            assert(ff[k] == out@[k]@);
            let i = choose|i: int| 0 <= i < items@.len() && found_in_item(ff[k], items@[i]);
            assert(found_in_item(out@[k]@, items@[i]));
        }
    }
    out
}

} // verus!
