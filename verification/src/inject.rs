//! Decisions of the call-site injector: which call sites of a scan report are
//! marked in which source file, under which marker id, in which order, and
//! which source expression a marker belongs to.
use vstd::prelude::*;
use crate::text::{
    byte_len, byte_len_capped, find, find_exec,
    boundary_at, char_index_of_byte, contains_exec, is_boundary, join, join_exec, lemma_boundary_unique, lines, lines_of, skip_exec, tail_from_byte, take_exec, trim_start, trim_start_exec, views,
    ends_with, ends_with_exec, starts_with, starts_with_exec, str_equal,
    after_last, after_last_exec, chars_equal, chars_of, decimal, decimal_chars, extend_chars, string_of,
};

verus! {

// ---------------------------------------------------------------------------
// The scan report as the injector reads it
// ---------------------------------------------------------------------------

/// A function named in a report target.
pub struct FnInfo {
    pub name: Option<String>,
    pub path: Option<String>,
}

/// The source location of a call site (1-based line and column).
pub struct Callsite {
    pub line: usize,
    pub col: usize,
    pub path: Option<String>,
    pub id: Option<String>,
}

/// One reported unsafe call.
pub struct Target {
    pub caller: Option<FnInfo>,
    pub callee: Option<FnInfo>,
    pub callsite: Callsite,
}

/// The list of reported unsafe calls.
pub struct Report {
    pub targets: Vec<Target>,
}

/// The metadata file that the injector is driven by.
pub struct Meta {
    pub crate_dir: Option<String>,
    pub crate_name: Option<String>,
    pub description: Option<String>,
    pub report: Report,
}

/// A marker to insert into one source file.
pub struct Injection {
    pub id: String,
    pub line: usize,
    pub col: usize,
    pub callee_name: Option<String>,
    pub raw_pointer_deref: bool,
    pub source_line: Option<String>,
}

/// A line and a 0-based column, as a syntax span reports its ends.
pub struct LineColumn {
    pub line: usize,
    pub column: usize,
}

// ---------------------------------------------------------------------------
// Specifications
// ---------------------------------------------------------------------------

/// The view of an optional string.
pub open spec fn opt_view(o: Option<String>) -> Option<Seq<char>> {
    match o {
        Some(s) => Some(s@),
        None => None,
    }
}

/// `c` is replaced by `-` in a marker id.
pub open spec fn is_id_separator(c: char) -> bool {
    c == '\\' || c == '/' || c == '.'
}

/// A path with `\`, `/` and `.` replaced by `-`.
pub open spec fn path_slug(path: Seq<char>) -> Seq<char> {
    path.map_values(|c: char| if is_id_separator(c) { '-' } else { c })
}

/// The marker id of the call site at `line:col` of `path`.
pub open spec fn callsite_id_spec(path: Seq<char>, line: nat, col: nat) -> Seq<char> {
    path_slug(path) + seq!['-'] + decimal(line) + seq!['-'] + decimal(col)
}

/// Two numerals separated by `-` are split back into the same numerals.
proof fn lemma_split_numerals(a: nat, b: nat, c: nat, d: nat)
    requires
        decimal(a) + seq!['-'] + decimal(b) == decimal(c) + seq!['-'] + decimal(d),
    ensures
        a == c,
        b == d,
{
    crate::text::lemma_decimal_digits(a);
    crate::text::lemma_decimal_digits(b);
    crate::text::lemma_decimal_digits(c);
    crate::text::lemma_decimal_digits(d);
    let x = decimal(a) + seq!['-'] + decimal(b);
    let la = decimal(a).len() as int;
    let lc = decimal(c).len() as int;
    assert(x[la] == '-');
    assert(x[lc] == '-');
    if la < lc {
        assert(x[la] == decimal(c)[la]);
    } else if lc < la {
        assert(x[lc] == decimal(a)[lc]);
    }
    assert(la == lc);
    assert(decimal(a) =~= x.take(la));
    assert(decimal(c) =~= x.take(lc));
    assert(decimal(b) =~= x.skip(la + 1));
    assert(decimal(d) =~= x.skip(lc + 1));
    crate::text::lemma_decimal_injective(a, c);
    crate::text::lemma_decimal_injective(b, d);
}

/// Different call sites of one file get different marker ids.
pub proof fn law_callsite_ids_distinct(path: Seq<char>, line1: nat, col1: nat, line2: nat, col2: nat)
    requires
        line1 != line2 || col1 != col2,
    ensures
        callsite_id_spec(path, line1, col1) != callsite_id_spec(path, line2, col2),
{
    let p = path_slug(path) + seq!['-'];
    let t1 = decimal(line1) + seq!['-'] + decimal(col1);
    let t2 = decimal(line2) + seq!['-'] + decimal(col2);
    assert(callsite_id_spec(path, line1, col1) =~= p + t1);
    assert(callsite_id_spec(path, line2, col2) =~= p + t2);
    if callsite_id_spec(path, line1, col1) == callsite_id_spec(path, line2, col2) {
        assert(t1 =~= (p + t1).skip(p.len() as int));
        assert(t2 =~= (p + t2).skip(p.len() as int));
        lemma_split_numerals(line1, col1, line2, col2);
    }
}

/// The file a target belongs to: the call site's own path, else the caller's.
pub open spec fn target_path_spec(t: Target) -> Option<Seq<char>> {
    match t.callsite.path {
        Some(p) => Some(p@),
        None => match t.caller {
            Some(c) => opt_view(c.path),
            None => None,
        },
    }
}

/// The last `::`-separated segment of a callee path.
pub open spec fn callee_leaf_spec(name: Seq<char>) -> Seq<char> {
    after_last(name, seq![':', ':'])
}

/// The name under which the raw-pointer dereference pseudo-callee is reported.
pub open spec fn raw_deref_name() -> Seq<char> {
    seq!['c', 'o', 'r', 'e', ':', ':', 'p', 't', 'r', ':', ':', '_', '_', 'r', 'a', 'w', '_', 'p',
    't', 'r', '_', 'd', 'e', 'r', 'e', 'f', '_', '_']
}

// ---------------------------------------------------------------------------
// Ids and paths
// ---------------------------------------------------------------------------

/// The message for a wrong invocation.
pub fn usage() -> (s: String)
    ensures
        s@ == "usage: autoinj <cargo-dir> <meta-json> <dest-dir>"@,
{
    "usage: autoinj <cargo-dir> <meta-json> <dest-dir>".to_string()
}

/// The marker id of the call site at `line:col` of `path`: the path with
/// `\`, `/` and `.` replaced by `-`, then `-line-col`.
pub fn callsite_id(path: &str, line: usize, col: usize) -> (id: String)
    ensures
        id@ == callsite_id_spec(path@, line as nat, col as nat),
{
    let chars = chars_of(path);
    let mut out: Vec<char> = Vec::new();
    let mut i: usize = 0;
    while i < chars.len()
        invariant
            i <= chars.len(),
            chars@ == path@,
            out@ == path_slug(path@).take(i as int),
        decreases chars.len() - i,
    {
        let c = chars[i];
        if c == '\\' || c == '/' || c == '.' {
            out.push('-');
        } else {
            out.push(c);
        }
        proof {
            assert(out@ =~= path_slug(path@).take(i + 1));
        }
        i += 1;
    }
    out.push('-');
    let line_digits = decimal_chars(line);
    extend_chars(&mut out, line_digits.as_slice());
    out.push('-');
    let col_digits = decimal_chars(col);
    extend_chars(&mut out, col_digits.as_slice());
    proof {
        assert(path_slug(path@).take(path@.len() as int) =~= path_slug(path@));
        assert(out@ =~= callsite_id_spec(path@, line as nat, col as nat));
    }
    string_of(out.as_slice())
}

/// The file a target belongs to: the call site's own path, else the caller's.
pub fn target_path(target: &Target) -> (r: Option<&str>)
    ensures
        r is Some <==> target_path_spec(*target) is Some,
        r matches Some(p) ==> p@ == target_path_spec(*target)->0,
{
    match &target.callsite.path {
        Some(p) => Some(p.as_str()),
        None => match &target.caller {
            Some(c) => match &c.path {
                Some(p) => Some(p.as_str()),
                None => None,
            },
            None => None,
        },
    }
}

/// `n` is `o` with every target given the marker id of its call site,
/// computed from the target's file (`unknown` when it has none), line and
/// column; nothing else changes.
pub open spec fn ids_normalized(o: Meta, n: Meta) -> bool {
    &&& n.crate_dir == o.crate_dir
    &&& n.crate_name == o.crate_name
    &&& n.description == o.description
    &&& n.report.targets.len() == o.report.targets.len()
    &&& forall|i: int|
        0 <= i < o.report.targets.len() ==> {
            let ot = #[trigger] o.report.targets[i];
            let nt = n.report.targets[i];
            &&& nt.caller == ot.caller
            &&& nt.callee == ot.callee
            &&& nt.callsite.line == ot.callsite.line
            &&& nt.callsite.col == ot.callsite.col
            &&& nt.callsite.path == ot.callsite.path
            &&& nt.callsite.id is Some
            &&& nt.callsite.id->0@ == callsite_id_spec(
                match target_path_spec(ot) {
                    Some(p) => p,
                    None => "unknown"@,
                },
                ot.callsite.line as nat,
                ot.callsite.col as nat,
            )
        }
}

/// Normalizing the marker ids twice gives the ids of normalizing once: the
/// second pass finds every id already in place.
pub proof fn law_normalize_ids_idempotent(a: Meta, b: Meta, c: Meta)
    requires
        ids_normalized(a, b),
        ids_normalized(b, c),
    ensures
        c.report.targets.len() == b.report.targets.len(),
        forall|i: int|
            0 <= i < b.report.targets.len() ==> {
                let bt = #[trigger] b.report.targets[i];
                let ct = c.report.targets[i];
                &&& ct.caller == bt.caller
                &&& ct.callee == bt.callee
                &&& ct.callsite.line == bt.callsite.line
                &&& ct.callsite.col == bt.callsite.col
                &&& ct.callsite.path == bt.callsite.path
                &&& opt_view(ct.callsite.id) == opt_view(bt.callsite.id)
            },
{
    assert forall|i: int| 0 <= i < b.report.targets.len() implies {
        let bt = #[trigger] b.report.targets[i];
        let ct = c.report.targets[i];
        opt_view(ct.callsite.id) == opt_view(bt.callsite.id)
    } by {
        let at = a.report.targets[i];
        let bt = b.report.targets[i];
        assert(target_path_spec(bt) == target_path_spec(at));
    }
}

/// Gives every target the marker id of its call site, computed from the
/// target's file (`unknown` when it has none), line and column.
pub fn normalize_callsite_ids(meta: &mut Meta)
    ensures
        ids_normalized(*old(meta), *final(meta)),
{
    let n = meta.report.targets.len();
    let mut i: usize = 0;
    while i < n
        invariant
            n == old(meta).report.targets.len(),
            meta.report.targets.len() == n,
            i <= n,
            meta.crate_dir == old(meta).crate_dir,
            meta.crate_name == old(meta).crate_name,
            meta.description == old(meta).description,
            forall|j: int|
                i <= j < n ==> #[trigger] meta.report.targets[j] == old(meta).report.targets[j],
            forall|j: int|
                0 <= j < i ==> {
                    let o = #[trigger] old(meta).report.targets[j];
                    let t = meta.report.targets[j];
                    &&& t.caller == o.caller
                    &&& t.callee == o.callee
                    &&& t.callsite.line == o.callsite.line
                    &&& t.callsite.col == o.callsite.col
                    &&& t.callsite.path == o.callsite.path
                    &&& t.callsite.id is Some
                    &&& t.callsite.id->0@ == callsite_id_spec(
                        match target_path_spec(o) {
                            Some(p) => p,
                            None => "unknown"@,
                        },
                        o.callsite.line as nat,
                        o.callsite.col as nat,
                    )
                },
        decreases n - i,
    {
        let id = {
            let t = &meta.report.targets[i];
            let path = match target_path(t) {
                Some(p) => p,
                None => "unknown",
            };
            callsite_id(path, t.callsite.line, t.callsite.col)
        };
        meta.report.targets[i].callsite.id = Some(id);
        i += 1;
    }
}

/// The last `::`-separated segment of a callee path (`rsplit("::").next()`).
pub fn callee_leaf(callee_name: &str) -> (r: Option<String>)
    ensures
        r is Some,
        r matches Some(l) ==> l@ == callee_leaf_spec(callee_name@),
{
    let chars = chars_of(callee_name);
    let sep: [char; 2] = [':', ':'];
    proof {
        assert(sep@ =~= seq![':', ':']);
    }
    let leaf = after_last_exec(chars.as_slice(), &sep);
    Some(string_of(leaf.as_slice()))
}

/// Whether the last segment of `callee_name` is `expr_leaf`.
pub fn callee_leaf_matches(callee_name: &str, expr_leaf: &str) -> (b: bool)
    ensures
        b == (callee_leaf_spec(callee_name@) == expr_leaf@),
{
    let chars = chars_of(callee_name);
    let sep: [char; 2] = [':', ':'];
    proof {
        assert(sep@ =~= seq![':', ':']);
    }
    let leaf = after_last_exec(chars.as_slice(), &sep);
    let other = chars_of(expr_leaf);
    chars_equal(leaf.as_slice(), other.as_slice())
}

} // verus!

verus! {

// ---------------------------------------------------------------------------
// Locating a call site inside a syntax span
// ---------------------------------------------------------------------------

/// The 1-based position `line:col` lies within the span `start..=end`, whose
/// columns are 0-based.
pub open spec fn span_contains(start: LineColumn, end: LineColumn, line: int, col: int) -> bool {
    (line > start.line || (line == start.line && col >= start.column + 1))
        && (line < end.line || (line == end.line && col <= end.column + 1))
}

/// The span covers the call site, or a column next to it.
pub open spec fn span_matches_spec(start: LineColumn, end: LineColumn, inj: Injection) -> bool {
    let col = inj.col as int;
    ||| span_contains(start, end, inj.line as int, col)
    ||| span_contains(start, end, inj.line as int, if col == 0 { 0 } else { col - 1 })
    ||| span_contains(start, end, inj.line as int, if col == usize::MAX { col } else { col + 1 })
}

/// Whether `line:col` (1-based) lies within `start..=end` (0-based columns).
pub fn contains(start: &LineColumn, end: &LineColumn, line: usize, col: usize) -> (b: bool)
    ensures
        b == span_contains(*start, *end, line as int, col as int),
{
    (line > start.line || (line == start.line && col > start.column))
        && (line < end.line || (line == end.line && (col == 0 || col - 1 <= end.column)))
}

/// Whether a span covers the call site of `injection`, allowing the column
/// to be off by one.
pub fn span_matches(start: &LineColumn, end: &LineColumn, injection: &Injection) -> (b: bool)
    ensures
        b == span_matches_spec(*start, *end, *injection),
{
    let below = if injection.col == 0 { 0 } else { injection.col - 1 };
    let above = if injection.col == usize::MAX { injection.col } else { injection.col + 1 };
    contains(start, end, injection.line, injection.col)
        || contains(start, end, injection.line, below)
        || contains(start, end, injection.line, above)
}

/// Whether a span begins on the call site's line, at its column or next to it.
pub fn span_starts_at_location(start: &LineColumn, injection: &Injection) -> (b: bool)
    ensures
        b == (start.line == injection.line && -1 <= (start.column + 1) - injection.col <= 1),
{
    start.line == injection.line && (if start.column >= injection.col {
        start.column - injection.col == 0
    } else {
        injection.col - start.column <= 2
    })
}

// ---------------------------------------------------------------------------
// Names of the inserted bindings
// ---------------------------------------------------------------------------

/// `c` may stay in a generated identifier.
pub open spec fn is_ascii_alnum(c: char) -> bool {
    ('a' <= c && c <= 'z') || ('A' <= c && c <= 'Z') || ('0' <= c && c <= '9')
}

/// Replaces every character that is not ASCII alphanumeric by `_`.
pub open spec fn sanitize(s: Seq<char>) -> Seq<char> {
    s.map_values(|c: char| if is_ascii_alnum(c) { c } else { '_' })
}

/// The name of the binding that holds the result of the marked call.
pub open spec fn ret_name_spec(id: Seq<char>, callee_name: Option<Seq<char>>) -> Seq<char> {
    let leaf = match callee_name {
        Some(n) => callee_leaf_spec(n),
        None => "call"@,
    };
    "__klee_ret_"@ + sanitize(id + seq!['_'] + leaf)
}

/// The name of the binding that holds the result of the call marked `callsite_id`:
/// `__klee_ret_` followed by the id, `_` and the callee's last segment (or
/// `call`), with every non-alphanumeric character replaced by `_`.
#[verifier::spinoff_prover]
#[verifier::rlimit(40)]
pub fn callsite_ret_ident(callsite_id: &str, callee_name: Option<&str>) -> (name: String)
    ensures
        name@ == ret_name_spec(callsite_id@, match callee_name {
            Some(n) => Some(n@),
            None => None,
        }),
{
    let mut raw = chars_of(callsite_id);
    raw.push('_');
    match callee_name {
        Some(n) => {
            let chars = chars_of(n);
            let sep: [char; 2] = [':', ':'];
            proof {
                assert(sep@ =~= seq![':', ':']);
            }
            let leaf = after_last_exec(chars.as_slice(), &sep);
            extend_chars(&mut raw, leaf.as_slice());
        },
        None => {
            let call = chars_of("call");
            extend_chars(&mut raw, call.as_slice());
        },
    }
    let ghost leaf_spec = match callee_name {
        Some(n) => callee_leaf_spec(n@),
        None => "call"@,
    };
    assert(raw@ == callsite_id@ + seq!['_'] + leaf_spec);
    let mut out = chars_of("__klee_ret_");
    let clean = sanitize_chars(raw.as_slice());
    extend_chars(&mut out, clean.as_slice());
    string_of(out.as_slice())
}

/// Every character of `raw` that is not ASCII alphanumeric replaced by `_`.
fn sanitize_chars(raw: &[char]) -> (out: Vec<char>)
    ensures
        out@ == sanitize(raw@),
{
    let mut out: Vec<char> = Vec::new();
    let mut i: usize = 0;
    while i < raw.len()
        invariant
            i <= raw.len(),
            out@ == sanitize(raw@).take(i as int),
        decreases raw.len() - i,
    {
        let c = raw[i];
        if ('a' <= c && c <= 'z') || ('A' <= c && c <= 'Z') || ('0' <= c && c <= '9') {
            out.push(c);
        } else {
            out.push('_');
        }
        proof {
            assert(sanitize(raw@).take(i + 1) =~= sanitize(raw@).take(i as int).push(
                sanitize(raw@)[i as int],
            ));
        }
        i += 1;
    }
    proof {
        assert(sanitize(raw@).take(raw@.len() as int) =~= sanitize(raw@));
    }
    out
}

/// The name of the `index`-th lifted argument: `__klee_arg` and the index.
pub fn arg_temp_name(index: usize) -> (name: String)
    ensures
        name@ == "__klee_arg"@ + decimal(index as nat),
{
    let mut out = chars_of("__klee_arg");
    let digits = decimal_chars(index);
    extend_chars(&mut out, digits.as_slice());
    string_of(out.as_slice())
}

/// Whether `name` is a binding introduced for a marked call's result.
pub fn is_klee_ret_name(name: &str) -> (b: bool)
    ensures
        b == starts_with(name@, "__klee_ret_"@),
{
    let chars = chars_of(name);
    let prefix = chars_of("__klee_ret_");
    starts_with_exec(chars.as_slice(), prefix.as_slice())
}

/// How the receiver of a marked method call is to be treated.
pub struct ReceiverMode {
    /// The method takes its receiver mutably.
    pub mutable_receiver: bool,
    /// The receiver has to stay an in-place expression.
    pub bind_receiver_in_place: bool,
    /// The slice length and index are bound for the checker.
    pub binds_len_and_index: bool,
}

/// How a marked call to the method `method` treats its receiver: methods
/// ending in `_mut` or `_unsafe`, `as_mut_ptr` and `copy_within` take it
/// mutably, `set_len` keeps it in place, and `get_unchecked(_mut)` has the
/// slice length and index bound.
pub fn receiver_mode(method: &str) -> (m: ReceiverMode)
    ensures
        m.mutable_receiver == (ends_with(method@, "_mut"@) || ends_with(method@, "_unsafe"@)
            || method@ == "as_mut_ptr"@ || method@ == "copy_within"@),
        m.bind_receiver_in_place == (method@ == "set_len"@),
        m.binds_len_and_index == (method@ == "get_unchecked"@ || method@ == "get_unchecked_mut"@),
{
    let chars = chars_of(method);
    let m_mut = chars_of("_mut");
    let m_unsafe = chars_of("_unsafe");
    let as_mut_ptr = chars_of("as_mut_ptr");
    let copy_within = chars_of("copy_within");
    let set_len = chars_of("set_len");
    let get_unchecked = chars_of("get_unchecked");
    let get_unchecked_mut = chars_of("get_unchecked_mut");
    ReceiverMode {
        mutable_receiver: ends_with_exec(chars.as_slice(), m_mut.as_slice())
            || ends_with_exec(chars.as_slice(), m_unsafe.as_slice())
            || chars_equal(chars.as_slice(), as_mut_ptr.as_slice())
            || chars_equal(chars.as_slice(), copy_within.as_slice()),
        bind_receiver_in_place: chars_equal(chars.as_slice(), set_len.as_slice()),
        binds_len_and_index: chars_equal(chars.as_slice(), get_unchecked.as_slice())
            || chars_equal(chars.as_slice(), get_unchecked_mut.as_slice()),
    }
}

// ---------------------------------------------------------------------------
// The shape of an expression, as far as the injector looks at it
// ---------------------------------------------------------------------------

/// The kind of a source expression, with what the injector reads of it.
pub enum ExprShape {
    /// A path; `last` is its last segment, `simple` says it is one plain identifier.
    Path { last: Option<String>, simple: bool },
    /// A field access; `member` is the field's name when it has one.
    Field { member: Option<String> },
    /// An indexing expression.
    Index,
    /// A unary expression; `deref` says it is `*e`.
    Unary { deref: bool },
    /// A cast; `to_pointer` says the target type is a raw pointer.
    Cast { to_pointer: bool },
    /// A method call with its name and number of arguments.
    MethodCall { method: String, arg_count: usize },
    /// A function call.
    Call,
    /// An invisible group around an expression.
    Group(Box<ExprShape>),
    /// Parentheses around an expression.
    Paren(Box<ExprShape>),
    /// An array, async block, await, block, closure, loop, macro, range,
    /// repeat, struct literal, `?`, try block, tuple, unsafe block or yield.
    Compound,
    /// Any other expression (literal, binary operation, reference, ...).
    Other,
}

/// The expression is a place (`a.b`, `a[i]`, a path or `*p`).
pub open spec fn is_place_spec(e: ExprShape) -> bool
    decreases e,
{
    match e {
        ExprShape::Field { .. } => true,
        ExprShape::Index => true,
        ExprShape::Path { .. } => true,
        ExprShape::Unary { deref } => deref,
        ExprShape::Group(inner) => is_place_spec(*inner),
        ExprShape::Paren(inner) => is_place_spec(*inner),
        _ => false,
    }
}

/// The expression can be bound as a scalar index.
pub open spec fn is_scalar_index_spec(e: ExprShape) -> bool
    decreases e,
{
    match e {
        ExprShape::Compound => false,
        ExprShape::Call => false,
        ExprShape::MethodCall { .. } => false,
        ExprShape::Group(inner) => is_scalar_index_spec(*inner),
        ExprShape::Paren(inner) => is_scalar_index_spec(*inner),
        _ => true,
    }
}

/// `places` holds `name`.
pub open spec fn names_contain(places: Seq<String>, name: Seq<char>) -> bool {
    exists|i: int| 0 <= i < places.len() && #[trigger] places[i]@ == name
}

/// The expression is known to be a raw pointer: a cast to a pointer type, a
/// `.cast()` call, or a path or named field whose name is a known pointer place.
pub open spec fn is_raw_pointer_spec(e: ExprShape, places: Seq<String>) -> bool
    decreases e,
{
    match e {
        ExprShape::Cast { to_pointer } => to_pointer,
        ExprShape::MethodCall { method, arg_count } => method@ == "cast"@ && arg_count == 0,
        ExprShape::Path { last, .. } => match last {
            Some(l) => names_contain(places, l@),
            None => false,
        },
        ExprShape::Field { member } => match member {
            Some(m) => names_contain(places, m@),
            None => false,
        },
        ExprShape::Group(inner) => is_raw_pointer_spec(*inner, places),
        ExprShape::Paren(inner) => is_raw_pointer_spec(*inner, places),
        _ => false,
    }
}

/// Whether the expression is a place expression.
pub fn is_place_expr(expr: &ExprShape) -> (b: bool)
    ensures
        b == is_place_spec(*expr),
    decreases expr,
{
    match expr {
        ExprShape::Field { .. } => true,
        ExprShape::Index => true,
        ExprShape::Path { .. } => true,
        ExprShape::Unary { deref } => *deref,
        ExprShape::Group(inner) => is_place_expr(inner),
        ExprShape::Paren(inner) => is_place_expr(inner),
        _ => false,
    }
}

/// Whether the expression may be bound as a scalar slice index.
pub fn is_scalar_index_bind_candidate(expr: &ExprShape) -> (b: bool)
    ensures
        b == is_scalar_index_spec(*expr),
    decreases expr,
{
    match expr {
        ExprShape::Compound => false,
        ExprShape::Call => false,
        ExprShape::MethodCall { .. } => false,
        ExprShape::Group(inner) => is_scalar_index_bind_candidate(inner),
        ExprShape::Paren(inner) => is_scalar_index_bind_candidate(inner),
        _ => true,
    }
}

/// Whether `places` holds `name`.
pub fn names_contain_exec(places: &Vec<String>, name: &str) -> (b: bool)
    ensures
        b == names_contain(places@, name@),
{
    let mut i: usize = 0;
    while i < places.len()
        invariant
            i <= places.len(),
            forall|j: int| 0 <= j < i ==> places@[j]@ != name@,
        decreases places.len() - i,
    {
        if str_equal(places[i].as_str(), name) {
            return true;
        }
        i += 1;
    }
    false
}

/// Whether the operand of a dereference is known to be a raw pointer.
pub fn is_known_raw_pointer_operand(expr: &ExprShape, places: &Vec<String>) -> (b: bool)
    ensures
        b == is_raw_pointer_spec(*expr, places@),
    decreases expr,
{
    match expr {
        ExprShape::Cast { to_pointer } => *to_pointer,
        ExprShape::MethodCall { method, arg_count } => str_equal(method.as_str(), "cast")
            && *arg_count == 0,
        ExprShape::Path { last, .. } => match last {
            Some(l) => names_contain_exec(places, l.as_str()),
            None => false,
        },
        ExprShape::Field { member } => match member {
            Some(m) => names_contain_exec(places, m.as_str()),
            None => false,
        },
        ExprShape::Group(inner) => is_known_raw_pointer_operand(inner, places),
        ExprShape::Paren(inner) => is_known_raw_pointer_operand(inner, places),
        _ => false,
    }
}

/// The single identifier an expression consists of, if it is one.
pub fn simple_ident_name(expr: &ExprShape) -> (r: Option<String>)
    ensures
        r is Some <==> (*expr matches ExprShape::Path { last, simple } && simple && last is Some),
        r matches Some(n) ==> (*expr matches ExprShape::Path { last, .. } && last matches Some(l)
            && n@ == l@),
{
    match expr {
        ExprShape::Path { last, simple } => {
            if *simple {
                match last {
                    Some(l) => Some(l.clone()),
                    None => None,
                }
            } else {
                None
            }
        },
        _ => None,
    }
}

} // verus!

verus! {

// ---------------------------------------------------------------------------
// The source text around a call site
// ---------------------------------------------------------------------------

/// The lines `start..start + 32` of `ls` (fewer at the end).
pub open spec fn window_lines(ls: Seq<Seq<char>>, start: int) -> Seq<Seq<char>> {
    let from = if start <= ls.len() { start } else { ls.len() as int };
    let to = if from + 32 <= ls.len() { from + 32 } else { ls.len() as int };
    ls.subrange(from, to)
}

/// Up to 32 source lines from the call site's line on, joined with `'\n'`;
/// `None` when the source has no such line.
pub open spec fn source_window(source: Seq<char>, line: nat) -> Option<Seq<char>> {
    let ls = window_lines(lines(source), if line == 0 { 0 } else { line - 1 });
    if ls.len() == 0 {
        None
    } else {
        Some(join(ls, seq!['\n']))
    }
}

/// `b` is the same injection as `a` but for its source window.
pub open spec fn same_site(a: Injection, b: Injection) -> bool {
    &&& a.id@ == b.id@
    &&& a.line == b.line
    &&& a.col == b.col
    &&& opt_view(a.callee_name) == opt_view(b.callee_name)
    &&& a.raw_pointer_deref == b.raw_pointer_deref
}

fn clone_opt(o: &Option<String>) -> (r: Option<String>)
    ensures
        opt_view(r) == opt_view(*o),
{
    match o {
        Some(s) => Some(s.clone()),
        None => None,
    }
}

/// `ls[from..to]`.
fn sub_lines(ls: &Vec<Vec<char>>, from: usize, to: usize) -> (out: Vec<Vec<char>>)
    requires
        from <= to <= ls.len(),
    ensures
        views(out@) == views(ls@).subrange(from as int, to as int),
{
    let mut out: Vec<Vec<char>> = Vec::new();
    let mut i = from;
    while i < to
        invariant
            from <= i <= to <= ls.len(),
            views(out@) == views(ls@).subrange(from as int, i as int),
        decreases to - i,
    {
        let mut copy: Vec<char> = Vec::new();
        extend_chars(&mut copy, ls[i].as_slice());
        let ghost before = out@;
        out.push(copy);
        proof {
            assert(views(out@) =~= views(before).push(copy@));
            assert(views(ls@).subrange(from as int, i as int).push(ls@[i as int]@) =~= views(
                ls@,
            ).subrange(from as int, i + 1));
        }
        i += 1;
    }
    out
}

impl Injection {
    /// The same injection, carrying the source text from its line on (at most
    /// 32 lines, joined with `'\n'`).
    pub fn with_source_line(&self, source: &str) -> (r: Injection)
        ensures
            same_site(*self, r),
            opt_view(r.source_line) == source_window(source@, self.line as nat),
    {
        let chars = chars_of(source);
        let ls = lines_of(chars.as_slice());
        let start = if self.line == 0 { 0 } else { self.line - 1 };
        let from = if start <= ls.len() { start } else { ls.len() };
        let to = if ls.len() - from >= 32 { from + 32 } else { ls.len() };
        let window = sub_lines(&ls, from, to);
        let source_line = if window.len() == 0 {
            None
        } else {
            let nl: [char; 1] = ['\n'];
            proof {
                assert(nl@ =~= seq!['\n']);
            }
            let joined = join_exec(&window, &nl);
            Some(string_of(joined.as_slice()))
        };
        Injection {
            id: self.id.clone(),
            line: self.line,
            col: self.col,
            callee_name: clone_opt(&self.callee_name),
            raw_pointer_deref: self.raw_pointer_deref,
            source_line,
        }
    }
}

/// `c` is an ASCII letter.
pub open spec fn is_ascii_alpha(c: char) -> bool {
    ('a' <= c && c <= 'z') || ('A' <= c && c <= 'Z')
}

/// The trimmed text from the call site's column on begins like a call
/// expression: with `self.`, `Self::`, `_` or a letter.
pub open spec fn starts_call_expr_text(t: Seq<char>) -> bool {
    ||| starts_with(t, "self."@)
    ||| starts_with(t, "Self::"@)
    ||| (t.len() > 0 && (t[0] == '_' || is_ascii_alpha(t[0])))
}

/// The source from the call site's column (taken as a byte offset into the
/// first line) begins a call expression.
pub open spec fn starts_call_spec(inj: Injection) -> bool {
    match inj.source_line {
        None => false,
        Some(l) => inj.col > 0 && is_boundary(l@, inj.col - 1) && starts_call_expr_text(
            trim_start(tail_from_byte(l@, inj.col - 1)),
        ),
    }
}

/// Whether the source at the call site's column begins a call expression.
pub fn source_line_starts_call_expr(injection: &Injection) -> (b: bool)
    ensures
        b == starts_call_spec(*injection),
{
    let line = match &injection.source_line {
        Some(l) => l,
        None => return false,
    };
    if injection.col == 0 {
        return false;
    }
    let chars = chars_of(line.as_str());
    let k = match char_index_of_byte(chars.as_slice(), injection.col - 1) {
        Some(k) => k,
        None => return false,
    };
    proof {
        let c = choose|c: int| #[trigger] boundary_at(line@, injection.col - 1, c);
        lemma_boundary_unique(line@, injection.col - 1, c, k as int);
    }
    let tail = skip_exec(chars.as_slice(), k);
    let trimmed = trim_start_exec(tail.as_slice());
    let self_dot = chars_of("self.");
    let self_path = chars_of("Self::");
    starts_with_exec(trimmed.as_slice(), self_dot.as_slice()) || starts_with_exec(
        trimmed.as_slice(),
        self_path.as_slice(),
    ) || (trimmed.len() > 0 && (trimmed[0] == '_' || ('a' <= trimmed[0] && trimmed[0] <= 'z') || (
    'A' <= trimmed[0] && trimmed[0] <= 'Z')))
}

/// A call expression starting on `start_line` lies in the statement window
/// of the call site.
pub fn call_expr_matches_enclosing_source(start_line: usize, injection: &Injection) -> (b: bool)
    ensures
        b == (starts_call_spec(*injection) && start_line >= injection.line && start_line < (
        if injection.line <= usize::MAX - 32 { injection.line + 32 } else { usize::MAX as int })),
{
    let limit = if injection.line <= usize::MAX - 32 { injection.line + 32 } else { usize::MAX };
    source_line_starts_call_expr(injection) && start_line >= injection.line && start_line < limit
}

/// Position of the first `;` or `}` in `s`, or its length.
pub open spec fn statement_end(s: Seq<char>) -> int {
    if exists|i: int| 0 <= i < s.len() && (s[i] == ';' || s[i] == '}') {
        choose|i: int|
            0 <= i < s.len() && (s[i] == ';' || s[i] == '}') && forall|j: int|
                0 <= j < i ==> s[j] != ';' && s[j] != '}'
    } else {
        s.len() as int
    }
}

/// The source statement (up to the first `;` or `}`) names the callee's last segment.
pub open spec fn statement_contains_callee_spec(inj: Injection) -> bool {
    match (inj.callee_name, inj.source_line) {
        (Some(n), Some(src)) => crate::text::contains(src@.take(statement_end(src@)), callee_leaf_spec(n@)),
        _ => false,
    }
}

/// Whether the statement at the call site names the callee's last segment.
pub fn source_statement_contains_callee(injection: &Injection) -> (b: bool)
    ensures
        b == statement_contains_callee_spec(*injection),
{
    let name = match &injection.callee_name {
        Some(n) => n,
        None => return false,
    };
    let source = match &injection.source_line {
        Some(s) => s,
        None => return false,
    };
    let name_chars = chars_of(name.as_str());
    let sep: [char; 2] = [':', ':'];
    proof {
        assert(sep@ =~= seq![':', ':']);
    }
    let leaf = after_last_exec(name_chars.as_slice(), &sep);
    let src = chars_of(source.as_str());
    let mut end: usize = 0;
    while end < src.len() && src[end] != ';' && src[end] != '}'
        invariant
            end <= src.len(),
            forall|j: int| 0 <= j < end ==> src@[j] != ';' && src@[j] != '}',
        decreases src.len() - end,
    {
        end += 1;
    }
    proof {
        let s = src@;
        if end < src.len() {
            let c = choose|i: int|
                0 <= i < s.len() && (s[i] == ';' || s[i] == '}') && forall|j: int|
                    0 <= j < i ==> s[j] != ';' && s[j] != '}';
            assert(0 <= end < s.len() && (s[end as int] == ';' || s[end as int] == '}'));
            if c < end {
            } else if c > end {
            }
            assert(statement_end(s) == end);
        } else {
            assert(statement_end(s) == end);
        }
    }
    let head = take_exec(src.as_slice(), end);
    contains_exec(head.as_slice(), leaf.as_slice())
}

/// The callee's last segment is `leaf` (any callee name matches when there is none).
pub open spec fn leaf_matches_spec(callee_name: Option<Seq<char>>, leaf: Seq<char>) -> bool {
    match callee_name {
        Some(n) => callee_leaf_spec(n) == leaf,
        None => true,
    }
}

fn opt_str(o: &Option<String>) -> (r: Option<&str>)
    ensures
        r is Some <==> o is Some,
        r matches Some(s) ==> s@ == o->0@,
{
    match o {
        Some(s) => Some(s.as_str()),
        None => None,
    }
}

/// Whether a method call named `method` may be the reported callee.
pub fn method_call_matches_callee(method: &str, callee_name: Option<&str>) -> (b: bool)
    ensures
        b == leaf_matches_spec(match callee_name {
            Some(n) => Some(n@),
            None => None,
        }, method@),
{
    match callee_name {
        Some(n) => callee_leaf_matches(n, method),
        None => true,
    }
}

/// Whether a function call whose callee path ends in `func_last` (when the
/// callee is a path with segments) may be the reported callee.
pub fn expr_call_matches_callee(func_last: Option<&str>, callee_name: Option<&str>) -> (b: bool)
    ensures
        b == match func_last {
            Some(f) => leaf_matches_spec(match callee_name {
                Some(n) => Some(n@),
                None => None,
            }, f@),
            None => true,
        },
{
    match callee_name {
        None => true,
        Some(n) => match func_last {
            None => true,
            Some(f) => callee_leaf_matches(n, f),
        },
    }
}

/// A method call spanning `start..=end` is the one at the call site: its span
/// covers the site, or the site starts the call chain the method belongs to
/// and the method is the reported callee.
pub open spec fn method_call_location_spec(
    start: LineColumn,
    end: LineColumn,
    method: Seq<char>,
    inj: Injection,
) -> bool {
    ||| span_matches_spec(start, end, inj)
    ||| (starts_call_spec(inj) && start.line <= inj.line <= end.line && inj.callee_name is Some
        && leaf_matches_spec(opt_view(inj.callee_name), method))
}

/// Whether the method call spanning `start..=end` is at the call site.
pub fn method_call_expr_matches_location(
    start: &LineColumn,
    end: &LineColumn,
    method: &str,
    injection: &Injection,
) -> (b: bool)
    ensures
        b == method_call_location_spec(*start, *end, method@, *injection),
{
    if span_matches(start, end, injection) {
        return true;
    }
    if !source_line_starts_call_expr(injection) {
        return false;
    }
    if injection.line < start.line || injection.line > end.line {
        return false;
    }
    match opt_str(&injection.callee_name) {
        None => false,
        Some(n) => method_call_matches_callee(method, Some(n)),
    }
}

/// The function call spanning `start..=end`, whose callee path ends in
/// `func_last`, is the marked call.
pub open spec fn call_is_target_spec(
    start: LineColumn,
    end: LineColumn,
    func_last: Option<Seq<char>>,
    inj: Injection,
) -> bool {
    &&& (span_matches_spec(start, end, inj) || (starts_call_spec(inj) && start.line >= inj.line
        && start.line < (if inj.line <= usize::MAX - 32 { inj.line + 32 } else { usize::MAX as int })))
    &&& (match func_last {
        Some(f) => leaf_matches_spec(opt_view(inj.callee_name), f),
        None => true,
    } || (start.line == inj.line && -1 <= (start.column + 1) - inj.col <= 1
        && !statement_contains_callee_spec(inj)))
}

/// Whether a function call is the marked call.
pub fn call_is_target(
    start: &LineColumn,
    end: &LineColumn,
    func_last: Option<&str>,
    injection: &Injection,
) -> (b: bool)
    ensures
        b == call_is_target_spec(*start, *end, match func_last {
            Some(f) => Some(f@),
            None => None,
        }, *injection),
{
    (span_matches(start, end, injection) || call_expr_matches_enclosing_source(
        start.line,
        injection,
    )) && (expr_call_matches_callee(func_last, opt_str(&injection.callee_name)) || (
    span_starts_at_location(start, injection) && !source_statement_contains_callee(injection)))
}

/// The method call spanning `start..=end` named `method` is the marked call.
pub open spec fn method_call_is_target_spec(
    start: LineColumn,
    end: LineColumn,
    method: Seq<char>,
    inj: Injection,
) -> bool {
    &&& method_call_location_spec(start, end, method, inj)
    &&& (leaf_matches_spec(opt_view(inj.callee_name), method) || (start.line == inj.line && -1
        <= (start.column + 1) - inj.col <= 1 && !statement_contains_callee_spec(inj)))
}

/// Whether a method call is the marked call.
pub fn method_call_is_target(
    start: &LineColumn,
    end: &LineColumn,
    method: &str,
    injection: &Injection,
) -> (b: bool)
    ensures
        b == method_call_is_target_spec(*start, *end, method@, *injection),
{
    method_call_expr_matches_location(start, end, method, injection) && (
    method_call_matches_callee(method, opt_str(&injection.callee_name)) || (
    span_starts_at_location(start, injection) && !source_statement_contains_callee(injection)))
}

} // verus!

verus! {

// ---------------------------------------------------------------------------
// Ordering the call sites of one file
// ---------------------------------------------------------------------------

/// Two injections mark the same source location.
pub open spec fn same_loc(a: Injection, b: Injection) -> bool {
    a.line == b.line && a.col == b.col
}

/// The first line of a call site's statement window (0-based).
pub open spec fn start_line_index(inj: Injection) -> int {
    if inj.line == 0 { 0 } else { inj.line - 1 }
}

/// The byte column at which the callee is searched for in the first line:
/// `min(col - 1, byte length of the line)`.
pub open spec fn search_start_byte(line: Seq<char>, inj: Injection) -> int {
    let c = if inj.col == 0 { 0 } else { inj.col - 1 };
    if byte_len(line) <= c { byte_len(line) as int } else { c as int }
}

/// The search start is a character boundary of the line, so that the
/// position below is defined.
pub open spec fn position_defined(ls: Seq<Seq<char>>, inj: Injection) -> bool {
    ||| inj.callee_name is None
    ||| start_line_index(inj) >= ls.len()
    ||| is_boundary(ls[start_line_index(inj)], search_start_byte(ls[start_line_index(inj)], inj))
}

/// Where the callee's last segment first occurs in the statement window at or
/// after the call site's column, counted in characters from the window's
/// start; 0 when it does not occur. (rustc gives every call of a multi-line
/// chain the chain's start; this tells the calls of one chain apart.)
#[verifier::opaque]
pub open spec fn chain_position(ls: Seq<Seq<char>>, inj: Injection) -> int {
    match inj.callee_name {
        None => 0,
        Some(n) => {
            let start = start_line_index(inj);
            if start >= ls.len() {
                0
            } else {
                let line = ls[start];
                let k = choose|k: int| #[trigger] boundary_at(line, search_start_byte(line, inj), k);
                let window = join(window_lines(ls, start), seq!['\n']);
                match find(window.skip(k), callee_leaf_spec(n@)) {
                    Some(o) => k + o,
                    None => 0,
                }
            }
        },
    }
}

/// Call site `a` is rewritten before call site `b`: at one location the one
/// further along the chain first (then by report order); otherwise report order.
pub open spec fn goes_before(ls: Seq<Seq<char>>, injs: Seq<Injection>, a: int, b: int) -> bool {
    if same_loc(injs[a], injs[b]) {
        let pa = chain_position(ls, injs[a]);
        let pb = chain_position(ls, injs[b]);
        pa > pb || (pa == pb && a < b)
    } else {
        a < b
    }
}

/// `goes_before` is transitive on these call sites (it is whenever the call
/// sites of each location are consecutive in the report).
pub open spec fn before_is_transitive(ls: Seq<Seq<char>>, injs: Seq<Injection>) -> bool {
    forall|a: int, b: int, c: int|
        0 <= a < injs.len() && 0 <= b < injs.len() && 0 <= c < injs.len() && #[trigger] goes_before(
            ls,
            injs,
            a,
            b,
        ) && #[trigger] goes_before(ls, injs, b, c) ==> goes_before(ls, injs, a, c)
}

/// The call sites of each location are consecutive in the report.
pub open spec fn locations_contiguous(injs: Seq<Injection>) -> bool {
    forall|a: int, b: int, c: int|
        #![trigger same_loc(injs[a], injs[c]), injs[b]]
        0 <= a < b && b < c < injs.len() && same_loc(injs[a], injs[c]) ==> same_loc(injs[a], injs[b])
            && same_loc(injs[b], injs[c])
}

/// When the call sites of each location are consecutive in the report, the
/// order in which call sites are rewritten is transitive, so the ordering
/// sorts them by it.
proof fn lemma_order_step(sab: bool, sbc: bool, sac: bool, a: int, b: int, c: int, pa: int, pb: int, pc: int)
    requires
        if sab { pa > pb || (pa == pb && a < b) } else { a < b },
        if sbc { pb > pc || (pb == pc && b < c) } else { b < c },
        sab && sbc ==> sac,
        sab && !sbc ==> !sac,
        !sab && sbc ==> !sac,
        b < c && c < a && sab ==> sbc,
        c < a && a < b && sbc ==> sac,
        a < b && b < c && sac ==> sab,
        a == c ==> sac && sab == sbc,
    ensures
        if sac { pa > pc || (pa == pc && a < c) } else { a < c },
{
}

/// When the call sites of each location are consecutive in the report, the
/// order in which call sites are rewritten is transitive, so the ordering
/// sorts them by it.
pub proof fn law_contiguous_locations_order_transitive(ls: Seq<Seq<char>>, injs: Seq<Injection>)
    requires
        locations_contiguous(injs),
    ensures
        before_is_transitive(ls, injs),
{
    assert forall|a: int, b: int, c: int|
        0 <= a < injs.len() && 0 <= b < injs.len() && 0 <= c < injs.len() && #[trigger] goes_before(
            ls,
            injs,
            a,
            b,
        ) && #[trigger] goes_before(ls, injs, b, c) implies goes_before(ls, injs, a, c) by {
        let sab = same_loc(injs[a], injs[b]);
        let sbc = same_loc(injs[b], injs[c]);
        let sac = same_loc(injs[a], injs[c]);
        if b < c && c < a && sab {
            assert(same_loc(injs[b], injs[a]));
            assert(same_loc(injs[b], injs[c]));
        }
        if a < b && b < c && sac {
            assert(same_loc(injs[a], injs[b]));
        }
        if c < a && a < b && sbc {
            assert(same_loc(injs[c], injs[b]));
            assert(same_loc(injs[c], injs[a]));
        }
        if a == c {
            assert(sab == sbc);
        }
        lemma_order_step(
            sab,
            sbc,
            sac,
            a,
            b,
            c,
            chain_position(ls, injs[a]),
            chain_position(ls, injs[b]),
            chain_position(ls, injs[c]),
        );
    }
}

/// `p` lists each index below `n` once.
pub open spec fn is_permutation(p: Seq<int>, n: nat) -> bool {
    &&& p.len() == n
    &&& forall|k: int| 0 <= k < n ==> 0 <= #[trigger] p[k] < n
    &&& forall|k: int, l: int| 0 <= k < l < n ==> #[trigger] p[k] != #[trigger] p[l]
}

/// Every call site that shares its location with another has a defined position.
pub open spec fn positions_defined(ls: Seq<Seq<char>>, injs: Seq<Injection>) -> bool {
    forall|a: int, b: int|
        0 <= a < injs.len() && 0 <= b < injs.len() && a != b && same_loc(
            #[trigger] injs[a],
            #[trigger] injs[b],
        ) ==> position_defined(ls, injs[a])
}

/// The joined window is at least as long as its first line.
proof fn lemma_join_first(ls: Seq<Seq<char>>, sep: Seq<char>)
    requires
        ls.len() >= 1,
    ensures
        join(ls, sep).len() >= ls[0].len(),
    decreases ls.len(),
{
    if ls.len() > 1 {
        lemma_join_first(ls.drop_last(), sep);
    }
}

/// The lines `start..start + 32` of `ls`, joined with `'\n'`.
fn statement_window(ls: &Vec<Vec<char>>, start: usize) -> (w: Vec<char>)
    requires
        start < ls.len(),
    ensures
        w@ == join(window_lines(views(ls@), start as int), seq!['\n']),
{
    let end = if ls.len() - start >= 32 { start + 32 } else { ls.len() };
    let window_parts = sub_lines(ls, start, end);
    let nl: [char; 1] = ['\n'];
    proof {
        assert(nl@ =~= seq!['\n']);
        assert(views(window_parts@) =~= window_lines(views(ls@), start as int));
    }
    join_exec(&window_parts, &nl)
}

/// The chain position of one call site.
#[verifier::spinoff_prover]
#[verifier::rlimit(50)]
fn callee_position_in_chain(ls: &Vec<Vec<char>>, injection: &Injection) -> (p: usize)
    requires
        position_defined(views(ls@), *injection),
    ensures
        p == chain_position(views(ls@), *injection),
{
    reveal(chain_position);
    let name = match &injection.callee_name {
        Some(n) => n,
        None => return 0,
    };
    let start = if injection.line == 0 { 0 } else { injection.line - 1 };
    if start >= ls.len() {
        return 0;
    }
    let line = &ls[start];
    let c = if injection.col == 0 { 0 } else { injection.col - 1 };
    let ss = byte_len_capped(line.as_slice(), c);
    let k = match char_index_of_byte(line.as_slice(), ss) {
        Some(k) => k,
        None => return 0,
    };
    proof {
        let ch = choose|h: int| #[trigger] boundary_at(line@, ss as int, h);
        lemma_boundary_unique(line@, ss as int, ch, k as int);
    }
    let window = statement_window(ls, start);
    proof {
        lemma_join_first(window_lines(views(ls@), start as int), seq!['\n']);
        assert(window_lines(views(ls@), start as int)[0] == line@);
    }
    let rest = skip_exec(window.as_slice(), k);
    let name_chars = chars_of(name.as_str());
    let sep: [char; 2] = [':', ':'];
    proof {
        assert(sep@ =~= seq![':', ':']);
    }
    let leaf = after_last_exec(name_chars.as_slice(), &sep);
    match find_exec(rest.as_slice(), leaf.as_slice()) {
        Some(o) => {
            proof {
                assert(crate::text::occurs_at(rest@, leaf@, o as int));
            }
            k + o
        },
        None => 0,
    }
}

/// Whether call site `a` goes before call site `b`, given their chain positions.
fn before_exec(injs: &[Injection], pos: &Vec<usize>, a: usize, b: usize, ls: Ghost<Seq<Seq<char>>>) -> (r: bool)
    requires
        a < injs.len(),
        b < injs.len(),
        pos.len() == injs.len(),
        same_loc(injs@[a as int], injs@[b as int]) ==> pos@[a as int] == chain_position(
            ls@,
            injs@[a as int],
        ) && pos@[b as int] == chain_position(ls@, injs@[b as int]),
    ensures
        r == goes_before(ls@, injs@, a as int, b as int),
{
    if injs[a].line == injs[b].line && injs[a].col == injs[b].col {
        pos[a] > pos[b] || (pos[a] == pos[b] && a < b)
    } else {
        a < b
    }
}

/// The indices of `injs`, sorted by `goes_before` with insertion sort.
#[verifier::spinoff_prover]
#[verifier::rlimit(80)]
fn sort_indices(injections: &[Injection], pos: &Vec<usize>, lsv: Ghost<Seq<Seq<char>>>) -> (order: Vec<usize>)
    requires
        pos.len() == injections.len(),
        forall|a: int, b: int|
            0 <= a < injections.len() && 0 <= b < injections.len() && a != b && same_loc(
                #[trigger] injections@[a],
                #[trigger] injections@[b],
            ) ==> pos@[a] == chain_position(lsv@, injections@[a]),
    ensures
        order.len() == injections.len(),
        forall|a: int| 0 <= a < order.len() ==> #[trigger] order@[a] < order.len(),
        forall|a: int, b: int| 0 <= a < b < order.len() ==> #[trigger] order@[a] != #[trigger] order@[b],
        before_is_transitive(lsv@, injections@) ==> forall|a: int, b: int|
            0 <= a < b < order.len() ==> goes_before(
                lsv@,
                injections@,
                #[trigger] order@[a] as int,
                #[trigger] order@[b] as int,
            ),
{
    let n = injections.len();
    let ghost lsv = lsv@;
    let mut order: Vec<usize> = Vec::new();
    let mut k: usize = 0;
    while k < n
        invariant
            k <= n,
            order.len() == k,
            forall|a: int| 0 <= a < k ==> #[trigger] order@[a] == a,
        decreases n - k,
    {
        order.push(k);
        k += 1;
    }
    let ghost tr = before_is_transitive(lsv, injections@);
    let mut k: usize = 1;
    while k < n
        invariant
            n == injections.len(),
            pos.len() == n,
            forall|a: int, b: int|
                0 <= a < n && 0 <= b < n && a != b && same_loc(
                    #[trigger] injections@[a],
                    #[trigger] injections@[b],
                ) ==> pos@[a] == chain_position(lsv, injections@[a]),
            tr == before_is_transitive(lsv, injections@),
            order.len() == n,
            1 <= k || n == 0,
            k <= n || n == 0,
            forall|a: int| 0 <= a < n ==> #[trigger] order@[a] < n,
            forall|a: int, b: int| 0 <= a < b < n ==> #[trigger] order@[a] != #[trigger] order@[b],
            tr ==> forall|a: int, b: int|
                0 <= a < b < k ==> goes_before(
                    lsv,
                    injections@,
                    #[trigger] order@[a] as int,
                    #[trigger] order@[b] as int,
                ),
        decreases n - k,
    {
        let mut j = k;
        while j > 0 && before_exec(injections, &pos, order[j], order[j - 1], Ghost(lsv))
            invariant
                n == injections.len(),
                pos.len() == n,
                forall|a: int, b: int|
                    0 <= a < n && 0 <= b < n && a != b && same_loc(
                        #[trigger] injections@[a],
                        #[trigger] injections@[b],
                    ) ==> pos@[a] == chain_position(lsv, injections@[a]),
                tr == before_is_transitive(lsv, injections@),
                order.len() == n,
                0 <= j <= k < n,
                forall|a: int| 0 <= a < n ==> #[trigger] order@[a] < n,
                forall|a: int, b: int| 0 <= a < b < n ==> #[trigger] order@[a] != #[trigger] order@[b],
                tr ==> forall|a: int, b: int|
                    0 <= a < b <= k && a != j && b != j ==> goes_before(
                        lsv,
                        injections@,
                        #[trigger] order@[a] as int,
                        #[trigger] order@[b] as int,
                    ),
                tr ==> forall|b: int|
                    j < b <= k ==> goes_before(
                        lsv,
                        injections@,
                        order@[j as int] as int,
                        #[trigger] order@[b] as int,
                    ),
            decreases j,
        {
            let x = order[j];
            let y = order[j - 1];
            let ghost before = order@;
            order.set(j, y);
            order.set(j - 1, x);
            proof {
                assert(order@ == before.update(j as int, y).update(j - 1, x));
                assert forall|a: int, b: int| 0 <= a < b < n implies #[trigger] order@[a]
                    != #[trigger] order@[b] by {
                    if a != j && a != j - 1 && b != j && b != j - 1 {
                        assert(order@[a] == before[a] && order@[b] == before[b]);
                    }
                }
                if tr {
                    assert forall|a: int, b: int|
                        0 <= a < b <= k && a != j - 1 && b != j - 1 implies goes_before(
                        lsv,
                        injections@,
                        #[trigger] order@[a] as int,
                        #[trigger] order@[b] as int,
                    ) by {
                        if a == j {
                            assert(order@[a] == y);
                            assert(goes_before(lsv, injections@, before[j - 1] as int, before[b] as int));
                        }
                    }
                    assert forall|b: int|
                        j - 1 < b <= k implies goes_before(
                        lsv,
                        injections@,
                        order@[j - 1] as int,
                        #[trigger] order@[b] as int,
                    ) by {
                        if b == j {
                        } else {
                            assert(goes_before(lsv, injections@, before[j as int] as int, before[b] as int));
                        }
                    }
                }
            }
            j -= 1;
        }
        proof {
            if tr {
                assert forall|a: int, b: int|
                    0 <= a < b < k + 1 implies goes_before(
                    lsv,
                    injections@,
                    #[trigger] order@[a] as int,
                    #[trigger] order@[b] as int,
                ) by {
                    if b == j {
                        // the loop stopped: order[j - 1] goes before order[j]
                        lemma_before_total(lsv, injections@, order@[j as int] as int, order@[j - 1] as int);
                        if a < j - 1 {
                            assert(goes_before(lsv, injections@, order@[a] as int, order@[j - 1] as int));
                        }
                    } else if a == j {
                    } else {
                    }
                }
            }
        }
        k += 1;
    }
    order
}

/// A copy of an injection.
pub fn copy_injection(i: &Injection) -> (r: Injection)
    ensures
        r == *i,
{
    Injection {
        id: i.id.clone(),
        line: i.line,
        col: i.col,
        callee_name: match &i.callee_name {
            Some(n) => Some(n.clone()),
            None => None,
        },
        raw_pointer_deref: i.raw_pointer_deref,
        source_line: match &i.source_line {
            Some(s) => Some(s.clone()),
            None => None,
        },
    }
}

fn position_defined_exec(ls: &Vec<Vec<char>>, injection: &Injection) -> (b: bool)
    ensures
        b == position_defined(views(ls@), *injection),
{
    if injection.callee_name.is_none() {
        return true;
    }
    let start = if injection.line == 0 { 0 } else { injection.line - 1 };
    if start >= ls.len() {
        return true;
    }
    let line = &ls[start];
    proof {
        assert(views(ls@)[start as int] == line@);
    }
    let c = if injection.col == 0 { 0 } else { injection.col - 1 };
    let ss = byte_len_capped(line.as_slice(), c);
    char_index_of_byte(line.as_slice(), ss).is_some()
}

/// Whether every call site that shares its location with another has a
/// defined chain position, which ordering the call sites asks for.
pub fn chain_positions_defined(source: &str, injections: &[Injection]) -> (b: bool)
    ensures
        b == positions_defined(lines(source@), injections@),
{
    let ls = lines_of(chars_of(source).as_slice());
    let n = injections.len();
    let mut a: usize = 0;
    while a < n
        invariant
            a <= n == injections.len(),
            views(ls@) == lines(source@),
            forall|x: int, y: int|
                0 <= x < a && 0 <= y < n && x != y && same_loc(
                    #[trigger] injections@[x],
                    #[trigger] injections@[y],
                ) ==> position_defined(lines(source@), injections@[x]),
        decreases n - a,
    {
        let mut shared = false;
        let mut k: usize = 0;
        while k < n
            invariant
                a < n == injections.len(),
                k <= n,
                shared <==> exists|y: int| 0 <= y < k && y != a && #[trigger] same_loc(injections@[a as int], injections@[y]),
            decreases n - k,
        {
            if k != a && injections[k].line == injections[a].line && injections[k].col == injections[a].col {
                shared = true;
                proof {
                    assert(same_loc(injections@[a as int], injections@[k as int]));
                }
            }
            proof {
                if !(k != a && same_loc(injections@[a as int], injections@[k as int])) {
                    assert forall|y: int| 0 <= y < k + 1 && y != a && #[trigger] same_loc(injections@[a as int], injections@[y])
                        implies 0 <= y < k by {}
                }
            }
            k += 1;
        }
        if shared && !position_defined_exec(&ls, &injections[a]) {
            proof {
                let y = choose|y: int| 0 <= y < n && y != a && #[trigger] same_loc(injections@[a as int], injections@[y]);
                assert(same_loc(injections@[a as int], injections@[y]));
            }
            return false;
        }
        a += 1;
    }
    true
}

/// The call sites of one file in the order in which they are rewritten:
/// call sites at different locations keep their report order, and of those
/// at one location the one further along the call chain goes first. The
/// result is a reordering of the input; it is sorted by `goes_before`
/// whenever that order is transitive on the input.
pub fn order_injections_for_source(source: &str, injections: &[Injection]) -> (out: Vec<Injection>)
    requires
        positions_defined(lines(source@), injections@),
    ensures
        out.len() == injections.len(),
        exists|p: Seq<int>|
            {
                &&& is_permutation(p, injections.len() as nat)
                &&& forall|k: int| 0 <= k < out.len() ==> #[trigger] out@[k] == injections@[p[k]]
                &&& before_is_transitive(lines(source@), injections@) ==> forall|k: int, l: int|
                    0 <= k < l < out.len() ==> goes_before(
                        lines(source@),
                        injections@,
                        #[trigger] p[k],
                        #[trigger] p[l],
                    )
            },
{
    let chars = chars_of(source);
    let ls = lines_of(chars.as_slice());
    let ghost lsv = lines(source@);
    let n = injections.len();
    // chain positions, for the call sites that share their location
    let mut pos: Vec<usize> = Vec::new();
    let mut i: usize = 0;
    while i < n
        invariant
            n == injections.len(),
            views(ls@) == lsv,
            lsv == lines(source@),
            positions_defined(lsv, injections@),
            i <= n,
            pos.len() == i,
            forall|a: int, b: int|
                0 <= a < i && 0 <= b < n && a != b && same_loc(
                    #[trigger] injections@[a],
                    #[trigger] injections@[b],
                ) ==> pos@[a] == chain_position(lsv, injections@[a]),
        decreases n - i,
    {
        let mut shared = false;
        let mut j: usize = 0;
        while j < n
            invariant
                n == injections.len(),
                i < n,
                j <= n,
                shared <==> exists|b: int|
                    0 <= b < j && b != i && same_loc(injections@[i as int], #[trigger] injections@[b]),
            decreases n - j,
        {
            if j != i && injections[j].line == injections[i].line && injections[j].col
                == injections[i].col {
                shared = true;
            }
            j += 1;
        }
        let p = if shared {
            proof {
                let b = choose|b: int|
                    0 <= b < j && b != i && same_loc(injections@[i as int], #[trigger] injections@[b]);
                assert(same_loc(injections@[i as int], injections@[b]));
            }
            callee_position_in_chain(&ls, &injections[i])
        } else {
            0
        };
        pos.push(p);
        proof {
            assert forall|a: int, b: int|
                0 <= a < i + 1 && 0 <= b < n && a != b && same_loc(
                    #[trigger] injections@[a],
                    #[trigger] injections@[b],
                ) implies pos@[a] == chain_position(lsv, injections@[a]) by {
                if a == i {
                    assert(b < j && b != i && same_loc(injections@[i as int], injections@[b]));
                }
            }
        }
        i += 1;
    }
    let order = sort_indices(injections, &pos, Ghost(lsv));
    // gather the call sites in sorted order
    let mut out: Vec<Injection> = Vec::new();
    let mut m: usize = 0;
    while m < n
        invariant
            n == injections.len(),
            order.len() == n,
            forall|a: int| 0 <= a < n ==> #[trigger] order@[a] < n,
            m <= n,
            out.len() == m,
            forall|a: int| 0 <= a < m ==> #[trigger] out@[a] == injections@[order@[a] as int],
        decreases n - m,
    {
        out.push(copy_injection(&injections[order[m]]));
        m += 1;
    }
    proof {
        let p = order@.map_values(|v: usize| v as int);
        assert(is_permutation(p, n as nat));
        assert forall|a: int| 0 <= a < out.len() implies #[trigger] out@[a] == injections@[p[a]] by {
        }
        if before_is_transitive(lines(source@), injections@) {
            assert forall|a: int, b: int| 0 <= a < b < out.len() implies goes_before(
                lines(source@),
                injections@,
                #[trigger] p[a],
                #[trigger] p[b],
            ) by {
                assert(goes_before(lsv, injections@, order@[a] as int, order@[b] as int));
            }
        }
    }
    out
}

/// For two distinct call sites, exactly one goes before the other.
proof fn lemma_before_total(ls: Seq<Seq<char>>, injs: Seq<Injection>, a: int, b: int)
    requires
        a != b,
        !goes_before(ls, injs, a, b),
    ensures
        goes_before(ls, injs, b, a),
{
}

} // verus!

verus! {

// ---------------------------------------------------------------------------
// Planning the injections of a report
// ---------------------------------------------------------------------------

/// What an injection holds, as mathematical values.
pub struct InjectionView {
    pub id: Seq<char>,
    pub line: nat,
    pub col: nat,
    pub callee_name: Option<Seq<char>>,
    pub raw_pointer_deref: bool,
    pub source_line: Option<Seq<char>>,
}

impl View for Injection {
    type V = InjectionView;

    open spec fn view(&self) -> InjectionView {
        InjectionView {
            id: self.id@,
            line: self.line as nat,
            col: self.col as nat,
            callee_name: opt_view(self.callee_name),
            raw_pointer_deref: self.raw_pointer_deref,
            source_line: opt_view(self.source_line),
        }
    }
}

/// The callee's name of a target, if it has one.
pub open spec fn target_callee_name(t: Target) -> Option<Seq<char>> {
    match t.callee {
        Some(c) => opt_view(c.name),
        None => None,
    }
}

/// The injection a target of `file` asks for: its own marker id, or the one
/// computed from its location.
pub open spec fn target_injection(t: Target, file: Seq<char>) -> InjectionView {
    let callee = target_callee_name(t);
    InjectionView {
        id: match t.callsite.id {
            Some(i) => i@,
            None => callsite_id_spec(file, t.callsite.line as nat, t.callsite.col as nat),
        },
        line: t.callsite.line as nat,
        col: t.callsite.col as nat,
        callee_name: callee,
        raw_pointer_deref: callee == Some(raw_deref_name()),
        source_line: None,
    }
}

/// `vs` has an injection with marker id `id`.
pub open spec fn has_id(vs: Seq<InjectionView>, id: Seq<char>) -> bool {
    exists|k: int| 0 <= k < vs.len() && #[trigger] vs[k].id == id
}

/// The injections for `file`, in report order, one per marker id (the first
/// target with an id wins).
pub open spec fn plan_spec(ts: Seq<Target>, file: Seq<char>) -> Seq<InjectionView>
    decreases ts.len(),
{
    if ts.len() == 0 {
        seq![]
    } else {
        let prev = plan_spec(ts.drop_last(), file);
        let t = ts.last();
        if target_path_spec(t) == Some(file) {
            let v = target_injection(t, file);
            if has_id(prev, v.id) {
                prev
            } else {
                prev.push(v)
            }
        } else {
            prev
        }
    }
}

/// A file's plan marks each id at most once, marks every target of the file
/// (under its id), and marks only targets of the file: no two planned
/// injections share a marker id; every target of the file has its id among
/// them; and each planned injection is the one some target of the file asks
/// for.
pub proof fn law_plan_marks_each_id_once(ts: Seq<Target>, file: Seq<char>)
    ensures
        forall|k: int, l: int|
            0 <= k < l < plan_spec(ts, file).len() ==> #[trigger] plan_spec(ts, file)[k].id
                != #[trigger] plan_spec(ts, file)[l].id,
        forall|j: int|
            0 <= j < ts.len() && target_path_spec(#[trigger] ts[j]) == Some(file) ==> exists|k: int|
                0 <= k < plan_spec(ts, file).len() && plan_spec(ts, file)[k].id == target_injection(
                    ts[j],
                    file,
                ).id,
        forall|k: int|
            0 <= k < plan_spec(ts, file).len() ==> exists|j: int|
                0 <= j < ts.len() && target_path_spec(ts[j]) == Some(file) && #[trigger] plan_spec(
                    ts,
                    file,
                )[k] == target_injection(ts[j], file),
    decreases ts.len(),
{
    if ts.len() > 0 {
        let init = ts.drop_last();
        law_plan_marks_each_id_once(init, file);
        let prev = plan_spec(init, file);
        let cur = plan_spec(ts, file);
        let t = ts.last();
        assert forall|j: int|
            0 <= j < ts.len() && target_path_spec(#[trigger] ts[j]) == Some(file) implies exists|k: int|
                0 <= k < cur.len() && cur[k].id == target_injection(ts[j], file).id by {
            if j < ts.len() - 1 {
                assert(init[j] == ts[j]);
                let k = choose|k: int| 0 <= k < prev.len() && prev[k].id == target_injection(init[j], file).id;
                assert(cur[k] == prev[k]);
            } else {
                let v = target_injection(t, file);
                if has_id(prev, v.id) {
                    let k = choose|k: int| 0 <= k < prev.len() && #[trigger] prev[k].id == v.id;
                    assert(cur[k] == prev[k]);
                } else {
                    assert(cur[prev.len() as int] == v);
                }
            }
        }
        assert forall|k: int| 0 <= k < cur.len() implies exists|j: int|
            0 <= j < ts.len() && target_path_spec(ts[j]) == Some(file) && #[trigger] cur[k]
                == target_injection(ts[j], file) by {
            if k < prev.len() {
                assert(cur[k] == prev[k]);
                let j = choose|j: int|
                    0 <= j < init.len() && target_path_spec(init[j]) == Some(file) && #[trigger] prev[k]
                        == target_injection(init[j], file);
                assert(init[j] == ts[j]);
            } else {
                assert(ts[ts.len() - 1] == t);
            }
        }
        assert forall|k: int, l: int| 0 <= k < l < cur.len() implies #[trigger] cur[k].id
            != #[trigger] cur[l].id by {
            if l < prev.len() {
                assert(cur[k] == prev[k] && cur[l] == prev[l]);
            } else {
                let v = target_injection(t, file);
                assert(cur[k] == prev[k]);
                assert(cur[l] == v);
                if prev[k].id == v.id {
                    assert(has_id(prev, v.id));
                }
            }
        }
    }
}

/// The views of a list of injections.
pub open spec fn injection_views(v: Seq<Injection>) -> Seq<InjectionView> {
    v.map_values(|i: Injection| i@)
}

/// The injections that the report asks for in the file `rel_file`: the
/// targets of that file in report order, each marked with its own id (or the
/// id of its location), a marker id at most once.
pub fn plan_file_injections(meta: &Meta, rel_file: &str) -> (out: Vec<Injection>)
    ensures
        injection_views(out@) == plan_spec(meta.report.targets@, rel_file@),
        forall|k: int, l: int| 0 <= k < l < out.len() ==> #[trigger] out@[k].id@ != #[trigger] out@[l].id@,
{
    let targets = &meta.report.targets;
    let mut out: Vec<Injection> = Vec::new();
    let mut i: usize = 0;
    while i < targets.len()
        invariant
            i <= targets.len(),
            injection_views(out@) == plan_spec(targets@.take(i as int), rel_file@),
        decreases targets.len() - i,
    {
        let t = &targets[i];
        proof {
            assert(targets@.take(i + 1).drop_last() =~= targets@.take(i as int));
            assert(targets@.take(i + 1).last() == targets@[i as int]);
        }
        let matches = match target_path(t) {
            Some(p) => str_equal(p, rel_file),
            None => false,
        };
        if matches {
            let id = match &t.callsite.id {
                Some(id) => id.clone(),
                None => callsite_id(rel_file, t.callsite.line, t.callsite.col),
            };
            let callee_name = match &t.callee {
                Some(c) => match &c.name {
                    Some(n) => Some(n.clone()),
                    None => None,
                },
                None => None,
            };
            let raw = match &callee_name {
                Some(n) => str_equal(n.as_str(), "core::ptr::__raw_ptr_deref__"),
                None => false,
            };
            proof {
                reveal_strlit("core::ptr::__raw_ptr_deref__");
                assert("core::ptr::__raw_ptr_deref__"@ =~= raw_deref_name());
            }
            let mut seen = false;
            let mut k: usize = 0;
            while k < out.len()
                invariant
                    k <= out.len(),
                    seen <==> exists|m: int| 0 <= m < k && #[trigger] out@[m].id@ == id@,
                decreases out.len() - k,
            {
                if str_equal(out[k].id.as_str(), id.as_str()) {
                    seen = true;
                }
                k += 1;
            }
            proof {
                let vs = injection_views(out@);
                if seen {
                    let m = choose|m: int| 0 <= m < out.len() && #[trigger] out@[m].id@ == id@;
                    assert(vs[m].id == id@);
                } else {
                    assert forall|m: int| 0 <= m < vs.len() implies #[trigger] vs[m].id != id@ by {
                        assert(out@[m].id@ != id@);
                    }
                }
            }
            if !seen {
                let inj = Injection {
                    id,
                    line: t.callsite.line,
                    col: t.callsite.col,
                    callee_name,
                    raw_pointer_deref: raw,
                    source_line: None,
                };
                let ghost before = out@;
                out.push(inj);
                proof {
                    assert(injection_views(out@) =~= injection_views(before).push(inj@));
                }
            }
        }
        i += 1;
    }
    proof {
        assert(targets@.take(targets@.len() as int) =~= targets@);
        law_plan_marks_each_id_once(targets@, rel_file@);
        assert forall|k: int, l: int| 0 <= k < l < out.len() implies #[trigger] out@[k].id@
            != #[trigger] out@[l].id@ by {
            assert(injection_views(out@)[k] == out@[k]@);
            assert(injection_views(out@)[l] == out@[l]@);
        }
    }
    out
}

// ---------------------------------------------------------------------------
// The files to rewrite, in name order
// ---------------------------------------------------------------------------

/// `a` sorts before `b` (the order of `String`: by characters, then length).
pub open spec fn lex_lt(a: Seq<char>, b: Seq<char>) -> bool
    decreases a.len(),
{
    if a.len() == 0 {
        b.len() > 0
    } else if b.len() == 0 {
        false
    } else if (a[0] as int) < (b[0] as int) {
        true
    } else if a[0] == b[0] {
        lex_lt(a.drop_first(), b.drop_first())
    } else {
        false
    }
}

/// `lex_lt` is a strict total order.
pub proof fn lemma_lex_total(a: Seq<char>, b: Seq<char>)
    ensures
        a != b ==> (lex_lt(a, b) || lex_lt(b, a)),
        !(lex_lt(a, b) && lex_lt(b, a)),
        !lex_lt(a, a),
    decreases a.len(),
{
    if a.len() > 0 && b.len() > 0 && a[0] == b[0] {
        lemma_lex_total(a.drop_first(), b.drop_first());
        if a != b {
            assert(a =~= seq![a[0]] + a.drop_first());
            assert(b =~= seq![b[0]] + b.drop_first());
        }
    }
    if a.len() > 0 {
        lemma_lex_total(a.drop_first(), a.drop_first());
    }
    if a.len() > 0 && b.len() > 0 && a[0] != b[0] {
        assert((a[0] as int) != (b[0] as int));
    }
    if a.len() == 0 && b.len() == 0 {
        assert(a =~= b);
    }
}

/// `lex_lt` is transitive.
pub proof fn lemma_lex_trans(a: Seq<char>, b: Seq<char>, c: Seq<char>)
    requires
        lex_lt(a, b),
        lex_lt(b, c),
    ensures
        lex_lt(a, c),
    decreases a.len(),
{
    if a.len() > 0 && b.len() > 0 && c.len() > 0 && a[0] == b[0] && b[0] == c[0] {
        lemma_lex_trans(a.drop_first(), b.drop_first(), c.drop_first());
    }
}

/// Whether `a` sorts before `b`.
pub fn lex_less(a: &[char], b: &[char]) -> (r: bool)
    ensures
        r == lex_lt(a@, b@),
{
    let mut i: usize = 0;
    proof {
        assert(a@.skip(0) =~= a@);
        assert(b@.skip(0) =~= b@);
    }
    while i < a.len() && i < b.len() && a[i] == b[i]
        invariant
            i <= a.len(),
            i <= b.len(),
            lex_lt(a@, b@) == lex_lt(a@.skip(i as int), b@.skip(i as int)),
        decreases a.len() - i,
    {
        proof {
            assert(a@.skip(i as int).drop_first() =~= a@.skip(i + 1));
            assert(b@.skip(i as int).drop_first() =~= b@.skip(i + 1));
        }
        i += 1;
    }
    proof {
        if i < a.len() {
            assert(a@.skip(i as int)[0] == a@[i as int]);
        }
        if i < b.len() {
            assert(b@.skip(i as int)[0] == b@[i as int]);
        }
    }
    if i == a.len() {
        i < b.len()
    } else if i == b.len() {
        false
    } else {
        a[i] < b[i]
    }
}

/// The strings' views are strictly increasing.
pub open spec fn strictly_sorted(v: Seq<String>) -> bool {
    forall|k: int, l: int| 0 <= k < l < v.len() ==> lex_lt(#[trigger] v[k]@, #[trigger] v[l]@)
}

/// `v` holds a string whose view is `s`.
pub open spec fn has_string(v: Seq<String>, s: Seq<char>) -> bool {
    exists|m: int| 0 <= m < v.len() && v[m]@ == s
}

/// `out` holds the same strings (by view) as `v`.
pub open spec fn same_strings(out: Seq<String>, v: Seq<String>) -> bool {
    &&& forall|k: int| 0 <= k < out.len() ==> has_string(v, #[trigger] out[k]@)
    &&& forall|m: int| 0 <= m < v.len() ==> has_string(out, #[trigger] v[m]@)
}

/// Inserts `p` into a strictly sorted list unless it is already there.
fn insert_sorted(out: &mut Vec<String>, p: &str)
    requires
        strictly_sorted(old(out)@),
    ensures
        strictly_sorted(final(out)@),
        forall|k: int| 0 <= k < final(out)@.len() ==> (#[trigger] final(out)@[k])@ == p@ || has_string(old(out)@, final(out)@[k]@),
        has_string(final(out)@, p@),
        forall|m: int| 0 <= m < old(out)@.len() ==> has_string(final(out)@, #[trigger] old(out)@[m]@),
{
    let pc = chars_of(p);
    let mut at: usize = 0;
    while at < out.len() && lex_less(chars_of(out[at].as_str()).as_slice(), pc.as_slice())
        invariant
            at <= out.len(),
            forall|k: int| 0 <= k < at ==> lex_lt(#[trigger] out@[k]@, pc@),
        decreases out.len() - at,
    {
        at += 1;
    }
    if at < out.len() && str_equal(out[at].as_str(), p) {
        proof {
            assert(out@[at as int]@ == p@);
            assert forall|m: int| 0 <= m < old(out)@.len() implies has_string(out@, #[trigger] old(out)@[m]@) by {
                assert(out@[m]@ == old(out)@[m]@);
            }
            assert forall|k: int| 0 <= k < out@.len() implies (#[trigger] out@[k])@ == p@ || has_string(old(out)@, out@[k]@) by {
                assert(old(out)@[k]@ == out@[k]@);
            }
        }
        return;
    }
    let ghost before = out@;
    let item = p.to_string();
    out.insert(at, item);
    proof {
        assert(out@ == before.insert(at as int, item));
        assert(item@ == pc@);
        if at < before.len() {
            lemma_lex_total(before[at as int]@, pc@);
            assert(lex_lt(pc@, before[at as int]@));
        }
        assert forall|k: int, l: int| 0 <= k < l < out@.len() implies lex_lt(
            #[trigger] out@[k]@,
            #[trigger] out@[l]@,
        ) by {
            if k < at && l == at {
            } else if k < at && l > at {
                assert(lex_lt(before[k]@, pc@));
                if l - 1 > at {
                    assert(lex_lt(before[at as int]@, before[l - 1]@));
                    lemma_lex_trans(pc@, before[at as int]@, before[l - 1]@);
                }
                lemma_lex_trans(before[k]@, pc@, before[l - 1]@);
            } else if k == at && l > at {
                if l - 1 > at {
                    assert(lex_lt(before[at as int]@, before[l - 1]@));
                    lemma_lex_trans(pc@, before[at as int]@, before[l - 1]@);
                }
            } else if k > at {
                assert(lex_lt(before[k - 1]@, before[l - 1]@));
            } else {
                assert(lex_lt(before[k]@, before[l]@));
            }
        }
        assert forall|k: int| 0 <= k < out@.len() implies (#[trigger] out@[k])@ == p@ || has_string(before, out@[k]@) by {
            if k < at {
                assert(before[k]@ == out@[k]@);
            } else if k > at {
                assert(before[k - 1]@ == out@[k]@);
            }
        }
        assert(out@[at as int]@ == p@);
        assert forall|m: int| 0 <= m < before.len() implies has_string(out@, #[trigger] before[m]@) by {
            if m < at {
                assert(out@[m]@ == before[m]@);
            } else {
                assert(out@[m + 1]@ == before[m]@);
            }
        }
    }
}

/// The strings of `v`, each once and in name order.
pub fn sorted_unique(v: &Vec<String>) -> (out: Vec<String>)
    ensures
        strictly_sorted(out@),
        same_strings(out@, v@),
{
    let mut out: Vec<String> = Vec::new();
    let mut i: usize = 0;
    while i < v.len()
        invariant
            i <= v.len(),
            strictly_sorted(out@),
            same_strings(out@, v@.take(i as int)),
        decreases v.len() - i,
    {
        let ghost before = out@;
        insert_sorted(&mut out, v[i].as_str());
        proof {
            let t = v@.take(i + 1);
            let t0 = v@.take(i as int);
            assert forall|k: int| 0 <= k < out@.len() implies has_string(t, #[trigger] out@[k]@) by {
                if out@[k]@ == v@[i as int]@ {
                    assert(t[i as int]@ == out@[k]@);
                } else {
                    let m = choose|m: int| 0 <= m < before.len() && before[m]@ == out@[k]@;
                    assert(has_string(t0, before[m]@));
                    let m2 = choose|m2: int| 0 <= m2 < t0.len() && t0[m2]@ == before[m]@;
                    assert(t[m2]@ == out@[k]@);
                }
            }
            assert forall|m: int| 0 <= m < t.len() implies has_string(out@, #[trigger] t[m]@) by {
                if m < i {
                    assert(t0[m] == t[m]);
                    assert(has_string(before, t0[m]@));
                    let k0 = choose|k0: int| 0 <= k0 < before.len() && before[k0]@ == t0[m]@;
                    assert(has_string(out@, before[k0]@));
                }
            }
        }
        i += 1;
    }
    proof {
        assert(v@.take(v@.len() as int) =~= v@);
    }
    out
}

/// Some target whose file exists (`present` says so, per target) lies in `file`.
pub open spec fn is_present_file(ts: Seq<Target>, present: Seq<bool>, file: Seq<char>) -> bool {
    exists|i: int| 0 <= i < ts.len() && present[i] && target_path_spec(ts[i]) == Some(file)
}

/// The paths of the targets whose file exists, in report order.
pub fn present_target_paths(meta: &Meta, present: &Vec<bool>) -> (out: Vec<String>)
    requires
        present.len() == meta.report.targets.len(),
    ensures
        forall|k: int| 0 <= k < out.len() ==> is_present_file(meta.report.targets@, present@, #[trigger] out@[k]@),
        forall|i: int|
            0 <= i < present.len() && present@[i] && #[trigger] target_path_spec(
                meta.report.targets@[i],
            ) is Some ==> has_string(out@, target_path_spec(meta.report.targets@[i])->0),
{
    let targets = &meta.report.targets;
    let mut out: Vec<String> = Vec::new();
    let mut i: usize = 0;
    while i < targets.len()
        invariant
            present.len() == targets.len(),
            i <= targets.len(),
            forall|k: int| 0 <= k < out.len() ==> is_present_file(targets@, present@, #[trigger] out@[k]@),
            forall|j: int|
                0 <= j < i && present@[j] && #[trigger] target_path_spec(targets@[j]) is Some
                    ==> has_string(out@, target_path_spec(targets@[j])->0),
        decreases targets.len() - i,
    {
        if present[i] {
            match target_path(&targets[i]) {
                Some(p) => {
                    let ghost before = out@;
                    out.push(p.to_string());
                    proof {
                        assert(out@[out.len() - 1]@ == target_path_spec(targets@[i as int])->0);
                        assert forall|j: int|
                            0 <= j < i + 1 && present@[j] && #[trigger] target_path_spec(targets@[j]) is Some
                                implies has_string(out@, target_path_spec(targets@[j])->0) by {
                            if j < i {
                                let k = choose|k: int| 0 <= k < before.len() && before[k]@ == target_path_spec(targets@[j])->0;
                                assert(out@[k] == before[k]);
                            } else {
                                assert(out@[out.len() - 1]@ == target_path_spec(targets@[j])->0);
                            }
                        }
                        assert forall|k: int| 0 <= k < out.len() implies is_present_file(targets@, present@, #[trigger] out@[k]@) by {
                            if k < before.len() {
                                assert(out@[k] == before[k]);
                            } else {
                                assert(present@[i as int] && target_path_spec(targets@[i as int]) == Some(out@[k]@));
                            }
                        }
                    }
                },
                None => {},
            }
        }
        i += 1;
    }
    out
}

/// The files to rewrite: those of targets whose file exists, each once and in
/// name order.
pub fn files_to_inject(meta: &Meta, present: &Vec<bool>) -> (out: Vec<String>)
    requires
        present.len() == meta.report.targets.len(),
    ensures
        strictly_sorted(out@),
        forall|k: int| 0 <= k < out.len() ==> is_present_file(meta.report.targets@, present@, #[trigger] out@[k]@),
        forall|i: int|
            0 <= i < present.len() && present@[i] && #[trigger] target_path_spec(
                meta.report.targets@[i],
            ) is Some ==> has_string(out@, target_path_spec(meta.report.targets@[i])->0),
{
    let cand = present_target_paths(meta, present);
    let out = sorted_unique(&cand);
    proof {
        assert forall|k: int| 0 <= k < out.len() implies is_present_file(meta.report.targets@, present@, #[trigger] out@[k]@) by {
            assert(has_string(cand@, out@[k]@));
            let m = choose|m: int| 0 <= m < cand.len() && cand@[m]@ == out@[k]@;
            assert(is_present_file(meta.report.targets@, present@, cand@[m]@));
        }
        assert forall|i: int|
            0 <= i < present.len() && present@[i] && #[trigger] target_path_spec(
                meta.report.targets@[i],
            ) is Some implies has_string(out@, target_path_spec(meta.report.targets@[i])->0) by {
            let m = choose|m: int| 0 <= m < cand.len() && cand@[m]@ == target_path_spec(meta.report.targets@[i])->0;
            assert(has_string(out@, cand@[m]@));
        }
    }
    out
}

} // verus!

verus! {

// ---------------------------------------------------------------------------
// Call sites that cannot be marked
// ---------------------------------------------------------------------------

/// `line` lies in one of the (inclusive) line ranges.
pub open spec fn in_some_range(line: nat, ranges: Seq<(usize, usize)>) -> bool {
    exists|k: int| 0 <= k < ranges.len() && (#[trigger] ranges[k]).0 <= line <= ranges[k].1
}

/// Why a call site is left alone.
pub struct SkipReasons {
    /// The call site lies inside a macro invocation.
    pub in_macro: bool,
    /// The call site lies inside a `const fn`.
    pub in_const: bool,
}

/// Whether `line` lies in one of the (inclusive) line ranges.
pub fn line_in_ranges(line: usize, ranges: &Vec<(usize, usize)>) -> (b: bool)
    ensures
        b == in_some_range(line as nat, ranges@),
{
    let mut k: usize = 0;
    while k < ranges.len()
        invariant
            k <= ranges.len(),
            forall|j: int| 0 <= j < k ==> !((#[trigger] ranges@[j]).0 <= line <= ranges@[j].1),
        decreases ranges.len() - k,
    {
        let (start, end) = ranges[k];
        if line >= start && line <= end {
            return true;
        }
        k += 1;
    }
    false
}

/// The lines of a function, and whether it is a `const fn`.
pub struct FnLines {
    pub is_const: bool,
    pub start_line: usize,
    pub end_line: usize,
}

/// A member of an impl block, as far as `const fn` ranges go.
pub enum MemberLines {
    Fn(FnLines),
    Other,
}

/// A top-level item, as far as `const fn` ranges go.
pub enum ItemLines {
    Fn(FnLines),
    Impl(Vec<MemberLines>),
    Other,
}

/// The line range of a function when it is a `const fn`.
pub open spec fn fn_const_range(f: FnLines) -> Seq<(usize, usize)> {
    if f.is_const { seq![(f.start_line, f.end_line)] } else { seq![] }
}

/// The line ranges of the `const fn` members, in order.
pub open spec fn member_const_ranges(ms: Seq<MemberLines>) -> Seq<(usize, usize)>
    decreases ms.len(),
{
    if ms.len() == 0 {
        seq![]
    } else {
        member_const_ranges(ms.drop_last()) + match ms.last() {
            MemberLines::Fn(f) => fn_const_range(f),
            MemberLines::Other => seq![],
        }
    }
}

/// The line ranges of the `const fn`s of an item: a `const fn` item, or the
/// `const fn` methods of an impl block.
pub open spec fn item_const_ranges(item: ItemLines) -> Seq<(usize, usize)> {
    match item {
        ItemLines::Fn(f) => fn_const_range(f),
        ItemLines::Impl(ms) => member_const_ranges(ms@),
        ItemLines::Other => seq![],
    }
}

/// The line ranges of the `const fn`s of the items, in order.
pub open spec fn const_ranges_spec(items: Seq<ItemLines>) -> Seq<(usize, usize)>
    decreases items.len(),
{
    if items.len() == 0 {
        seq![]
    } else {
        const_ranges_spec(items.drop_last()) + item_const_ranges(items.last())
    }
}

fn push_fn_const_range(out: &mut Vec<(usize, usize)>, f: &FnLines)
    ensures
        final(out)@ == old(out)@ + fn_const_range(*f),
{
    if f.is_const {
        out.push((f.start_line, f.end_line));
    } else {
        proof {
            assert(out@ =~= out@ + Seq::<(usize, usize)>::empty());
        }
    }
    proof {
        assert(fn_const_range(*f) =~= if f.is_const { seq![(f.start_line, f.end_line)] } else { seq![] });
    }
}

/// The line ranges of the `const fn` items and `const fn` impl methods of a
/// file, in order, whose call sites are left alone.
pub fn const_fn_ranges(items: &Vec<ItemLines>) -> (r: Vec<(usize, usize)>)
    ensures
        r@ == const_ranges_spec(items@),
{
    let mut out: Vec<(usize, usize)> = Vec::new();
    let mut i: usize = 0;
    while i < items.len()
        invariant
            i <= items.len(),
            out@ == const_ranges_spec(items@.take(i as int)),
        decreases items.len() - i,
    {
        proof {
            assert(items@.take(i + 1).drop_last() =~= items@.take(i as int));
            assert(items@.take(i + 1).last() == items@[i as int]);
        }
        let ghost before = out@;
        match &items[i] {
            ItemLines::Fn(f) => push_fn_const_range(&mut out, f),
            ItemLines::Impl(ms) => {
                let mut k: usize = 0;
                while k < ms.len()
                    invariant
                        k <= ms.len(),
                        out@ == before + member_const_ranges(ms@.take(k as int)),
                    decreases ms.len() - k,
                {
                    proof {
                        assert(ms@.take(k + 1).drop_last() =~= ms@.take(k as int));
                        assert(ms@.take(k + 1).last() == ms@[k as int]);
                    }
                    let ghost mid = out@;
                    match &ms[k] {
                        MemberLines::Fn(f) => push_fn_const_range(&mut out, f),
                        MemberLines::Other => {},
                    }
                    proof {
                        assert(out@ =~= before + member_const_ranges(ms@.take(k + 1)));
                    }
                    k += 1;
                }
                proof {
                    assert(ms@.take(ms@.len() as int) =~= ms@);
                }
            },
            ItemLines::Other => {},
        }
        proof {
            assert(out@ =~= const_ranges_spec(items@.take(i + 1)));
        }
        i += 1;
    }
    proof {
        assert(items@.take(items@.len() as int) =~= items@);
    }
    out
}

/// Why the call site on `line` is skipped: it lies in a macro invocation
/// (`macro_ranges`) and/or in a `const fn` (`const_ranges`); it is marked
/// only when neither holds.
pub fn skip_reasons(
    line: usize,
    macro_ranges: &Vec<(usize, usize)>,
    const_ranges: &Vec<(usize, usize)>,
) -> (r: SkipReasons)
    ensures
        r.in_macro == in_some_range(line as nat, macro_ranges@),
        r.in_const == in_some_range(line as nat, const_ranges@),
{
    SkipReasons {
        in_macro: line_in_ranges(line, macro_ranges),
        in_const: line_in_ranges(line, const_ranges),
    }
}

// ---------------------------------------------------------------------------
// Relative paths and manifest rewriting
// ---------------------------------------------------------------------------

/// The number of leading components that `a` and `b` share.
pub open spec fn common_prefix_len(a: Seq<String>, b: Seq<String>) -> int
    decreases a.len(),
{
    if a.len() == 0 || b.len() == 0 || a[0]@ != b[0]@ {
        0
    } else {
        1 + common_prefix_len(a.drop_first(), b.drop_first())
    }
}

/// The components of the path from directory `from` to `to`: one `..` per
/// component of `from` past their common prefix, then the rest of `to`.
pub open spec fn relative_parts_spec(from: Seq<String>, to: Seq<String>) -> Seq<Seq<char>> {
    let c = common_prefix_len(from, to);
    Seq::new((from.len() - c) as nat, |_i: int| ".."@) + to.skip(c).map_values(|s: String| s@)
}

proof fn lemma_common_prefix(a: Seq<String>, b: Seq<String>, i: int)
    requires
        0 <= i <= a.len(),
        i <= b.len(),
        forall|j: int| 0 <= j < i ==> a[j]@ == b[j]@,
    ensures
        common_prefix_len(a, b) == i + common_prefix_len(a.skip(i), b.skip(i)),
    decreases i,
{
    if i > 0 {
        lemma_common_prefix(a.drop_first(), b.drop_first(), i - 1);
        assert(a.drop_first().skip(i - 1) =~= a.skip(i));
        assert(b.drop_first().skip(i - 1) =~= b.skip(i));
    } else {
        assert(a.skip(0) =~= a);
        assert(b.skip(0) =~= b);
    }
}

/// Where following path components from a directory leads: `..` goes up a
/// level (not above the first), any other component goes down into it.
pub open spec fn follow(dir: Seq<Seq<char>>, parts: Seq<Seq<char>>) -> Seq<Seq<char>>
    decreases parts.len(),
{
    if parts.len() == 0 {
        dir
    } else {
        let d = follow(dir, parts.drop_last());
        if parts.last() == ".."@ {
            if d.len() > 0 { d.drop_last() } else { d }
        } else {
            d.push(parts.last())
        }
    }
}

proof fn lemma_common_prefix_agrees(a: Seq<String>, b: Seq<String>)
    ensures
        0 <= common_prefix_len(a, b) <= a.len(),
        common_prefix_len(a, b) <= b.len(),
        forall|j: int| 0 <= j < common_prefix_len(a, b) ==> a[j]@ == b[j]@,
    decreases a.len(),
{
    if !(a.len() == 0 || b.len() == 0 || a[0]@ != b[0]@) {
        lemma_common_prefix_agrees(a.drop_first(), b.drop_first());
        assert forall|j: int| 0 <= j < common_prefix_len(a, b) implies a[j]@ == b[j]@ by {
            if j > 0 {
                assert(a[j] == a.drop_first()[j - 1]);
                assert(b[j] == b.drop_first()[j - 1]);
            }
        }
    }
}

proof fn lemma_follow_concat(dir: Seq<Seq<char>>, p: Seq<Seq<char>>, q: Seq<Seq<char>>)
    ensures
        follow(dir, p + q) == follow(follow(dir, p), q),
    decreases q.len(),
{
    if q.len() == 0 {
        assert(p + q =~= p);
    } else {
        assert((p + q).drop_last() =~= p + q.drop_last());
        assert((p + q).last() == q.last());
        lemma_follow_concat(dir, p, q.drop_last());
    }
}

proof fn lemma_follow_up(dir: Seq<Seq<char>>, k: nat)
    requires
        k <= dir.len(),
    ensures
        follow(dir, Seq::new(k, |_i: int| ".."@)) == dir.take(dir.len() - k),
    decreases k,
{
    let ups = Seq::new(k, |_i: int| ".."@);
    if k == 0 {
        assert(dir.take(dir.len() as int) =~= dir);
    } else {
        assert(ups.drop_last() =~= Seq::new((k - 1) as nat, |_i: int| ".."@));
        lemma_follow_up(dir, (k - 1) as nat);
        assert(dir.take(dir.len() - (k - 1)).drop_last() =~= dir.take(dir.len() - k));
    }
}

proof fn lemma_follow_down(dir: Seq<Seq<char>>, q: Seq<Seq<char>>)
    requires
        forall|j: int| 0 <= j < q.len() ==> q[j] != ".."@,
    ensures
        follow(dir, q) == dir + q,
    decreases q.len(),
{
    if q.len() == 0 {
        assert(dir + q =~= dir);
    } else {
        lemma_follow_down(dir, q.drop_last());
        assert((dir + q.drop_last()).push(q.last()) =~= dir + q);
    }
}

/// Following the relative path from `from` to `to` leads from `from` to
/// `to`, when no component of `to` past their common prefix is `..` (as in
/// canonical paths).
pub proof fn law_relative_path_reaches_target(from: Seq<String>, to: Seq<String>)
    requires
        forall|j: int|
            common_prefix_len(from, to) <= j < to.len() ==> (#[trigger] to[j])@ != ".."@,
    ensures
        follow(from.map_values(|s: String| s@), relative_parts_spec(from, to)) == to.map_values(
            |s: String| s@,
        ),
{
    let c = common_prefix_len(from, to);
    lemma_common_prefix_agrees(from, to);
    let fv = from.map_values(|s: String| s@);
    let tv = to.map_values(|s: String| s@);
    let ups = Seq::new((from.len() - c) as nat, |_i: int| ".."@);
    let down = to.skip(c).map_values(|s: String| s@);
    lemma_follow_concat(fv, ups, down);
    lemma_follow_up(fv, (from.len() - c) as nat);
    assert(fv.take(fv.len() - (from.len() - c)) =~= tv.take(c));
    assert forall|j: int| 0 <= j < down.len() implies down[j] != ".."@ by {
        assert(down[j] == to[c + j]@);
    }
    lemma_follow_down(tv.take(c), down);
    assert(tv.take(c) + down =~= tv);
}

/// The components of the relative path from the directory with components
/// `from` to the path with components `to`.
pub fn relative_path_parts(from: &Vec<String>, to: &Vec<String>) -> (out: Vec<String>)
    ensures
        out@.map_values(|s: String| s@) == relative_parts_spec(from@, to@),
{
    let mut common: usize = 0;
    while common < from.len() && common < to.len() && str_equal(
        from[common].as_str(),
        to[common].as_str(),
    )
        invariant
            common <= from.len(),
            common <= to.len(),
            forall|j: int| 0 <= j < common ==> from@[j]@ == to@[j]@,
        decreases from.len() - common,
    {
        common += 1;
    }
    proof {
        lemma_common_prefix(from@, to@, common as int);
        if common < from.len() && common < to.len() {
            assert(from@.skip(common as int)[0] == from@[common as int]);
            assert(to@.skip(common as int)[0] == to@[common as int]);
        }
        assert(common_prefix_len(from@.skip(common as int), to@.skip(common as int)) == 0);
    }
    let mut out: Vec<String> = Vec::new();
    let mut k = common;
    while k < from.len()
        invariant
            common <= k <= from.len(),
            out.len() == k - common,
            forall|j: int| 0 <= j < out.len() ==> #[trigger] out@[j]@ == ".."@,
        decreases from.len() - k,
    {
        out.push("..".to_string());
        k += 1;
    }
    let mut m = common;
    while m < to.len()
        invariant
            common <= m <= to.len(),
            common <= from.len(),
            out.len() == from.len() - common + (m - common),
            forall|j: int| 0 <= j < from.len() - common ==> #[trigger] out@[j]@ == ".."@,
            forall|j: int| from.len() - common <= j < out.len() ==> (#[trigger] out@[j])@ == to@[j - (from.len() - common) + common]@,
        decreases to.len() - m,
    {
        let item = to[m].clone();
        let ghost before = out@;
        out.push(item);
        proof {
            assert(out@[before.len() as int] == item);
            assert(before.len() - (from.len() - common) + common == m);
            assert forall|j: int| from.len() - common <= j < out.len() implies (#[trigger] out@[j])@ == to@[j - (from.len() - common) + common]@ by {
                if j < before.len() {
                    assert(out@[j] == before[j]);
                }
            }
        }
        m += 1;
    }
    proof {
        let c = common as int;
        assert(out@.map_values(|s: String| s@) =~= relative_parts_spec(from@, to@)) by {
            let r = relative_parts_spec(from@, to@);
            assert forall|j: int| 0 <= j < out.len() implies out@.map_values(|s: String| s@)[j] == r[j] by {
                if j < from.len() - c {
                } else {
                    assert(out@[j]@ == to@[j - (from.len() - c) + c]@);
                }
            }
        }
    }
    out
}

/// The manifest tables whose `path` entries name dependencies.
pub open spec fn is_dependency_key(key: Seq<char>) -> bool {
    key == "dependencies"@ || key == "dev-dependencies"@ || key == "build-dependencies"@
        || key == "patch"@ || key == "replace"@
}

/// What to do with the manifest entry `key` of a table.
pub struct ManifestEntryAction {
    /// Tables below this entry are in a dependency context.
    pub nested_dependency_context: bool,
    /// The entry is a dependency's `path`, to be rebased when relative.
    pub rebase_path: bool,
}

/// How the manifest entry `key` is treated in a table that is (or is not)
/// inside a dependency table: a `path` inside a dependency table is rebased
/// (and not descended into); the dependency tables make their subtables
/// dependency contexts.
pub fn manifest_entry_action(dependency_context: bool, key: &str) -> (r: ManifestEntryAction)
    ensures
        r.nested_dependency_context == (dependency_context || is_dependency_key(key@)),
        r.rebase_path == (dependency_context && key@ == "path"@),
{
    let nested = dependency_context || str_equal(key, "dependencies") || str_equal(
        key,
        "dev-dependencies",
    ) || str_equal(key, "build-dependencies") || str_equal(key, "patch") || str_equal(
        key,
        "replace",
    );
    ManifestEntryAction {
        nested_dependency_context: nested,
        rebase_path: dependency_context && str_equal(key, "path"),
    }
}

/// The first of a directory's ancestors (nearest first) that has the marker
/// (`marked[i]` says whether ancestor `i` has it).
pub fn first_marked(ancestors: &Vec<String>, marked: &Vec<bool>) -> (r: Option<usize>)
    requires
        marked.len() == ancestors.len(),
    ensures
        r matches Some(i) ==> i < marked.len() && marked@[i as int] && forall|j: int|
            0 <= j < i ==> !marked@[j],
        r is None ==> forall|j: int| 0 <= j < marked.len() ==> !marked@[j],
{
    let mut i: usize = 0;
    while i < marked.len()
        invariant
            i <= marked.len(),
            forall|j: int| 0 <= j < i ==> !marked@[j],
        decreases marked.len() - i,
    {
        if marked[i] {
            return Some(i);
        }
        i += 1;
    }
    None
}

/// What follows the search for a call site's expression in a file.
#[derive(PartialEq, Eq, Structural)]
pub enum InjectionOutcome {
    /// The marker went in; the next lifted argument takes the next index.
    Inserted,
    /// A raw-pointer dereference with no dereference expression in the
    /// source: it is skipped with a warning.
    SkippedRawDeref,
    /// No call expression was found: the file cannot be rewritten.
    NoCallFound,
}

/// The outcome of searching a file for a call site's expression, from
/// whether the marker went in and whether the site is a raw-pointer
/// dereference.
pub fn injection_outcome(inserted: bool, raw_pointer_deref: bool) -> (r: InjectionOutcome)
    ensures
        r == if inserted {
            InjectionOutcome::Inserted
        } else if raw_pointer_deref {
            InjectionOutcome::SkippedRawDeref
        } else {
            InjectionOutcome::NoCallFound
        },
{
    if inserted {
        InjectionOutcome::Inserted
    } else if raw_pointer_deref {
        InjectionOutcome::SkippedRawDeref
    } else {
        InjectionOutcome::NoCallFound
    }
}

} // verus!
