//! The audit report of the MIR scanner: its records, and the decisions that
//! shape them once the compiler has answered (relative paths, the first line
//! of a documented function, the method hints of traits, de-duplication).
use vstd::prelude::*;
use crate::text::{
    after_last, after_last_exec, chars_of, extend_chars, lines, lines_of, occurs_at, starts_with,
    starts_with_exec, string_of, str_equal, trim_end, trim_end_exec, trim_start, trim_start_exec,
    views,
};

verus! {

// ---------------------------------------------------------------------------
// Records of the report
// ---------------------------------------------------------------------------

/// A function of the audited crate.
pub struct FnInfo {
    /// `<mod>::<type>::<fn>`
    pub name: String,
    pub path: String,
    /// The first line of the function, its documentation included.
    pub line_start: usize,
    /// The last line of its signature.
    pub line_end: usize,
    /// The line of the closing brace of its body.
    pub body_end: usize,
    pub require_template: bool,
    pub is_unsafe: bool,
    pub trait_name: Option<String>,
    pub return_ty: Option<String>,
    pub symbol_match_hint: Option<String>,
    /// e.g. `fn_a -> fn_b`, for mutators reached through several functions.
    pub call_chains: Vec<String>,
    pub mut_ref_escape: Option<String>,
    pub mut_ref_escape_fields: Vec<String>,
    pub written_fields: Vec<String>,
    pub return_self_fields: Vec<String>,
}

/// A struct of the audited crate.
pub struct StructInfo {
    pub name: String,
    pub path: String,
    pub line_start: usize,
    pub body_end: usize,
    pub is_public: bool,
}

/// A field of a struct.
pub struct FieldInfo {
    pub index: String,
    pub name: String,
    pub path: String,
}

/// Where a field lies in its struct.
pub struct FieldLayoutInfo {
    pub index: String,
    pub name: String,
    pub ty: String,
    pub element_ty: Option<String>,
    pub element_is_template: bool,
    pub offset: u64,
    pub size: u64,
}

/// Where an unsafe call is made.
pub struct CallsiteInfo {
    pub line: usize,
    pub col: usize,
    pub path: Option<String>,
}

/// Who decides the layout of a type argument.
pub enum TypeLayoutControl {
    Fixed,
    External,
    Unknown,
}

/// A type argument of a callee.
pub struct CalleeTypeArgInfo {
    /// Zero-based index among the callee's type parameters (lifetimes and
    /// const parameters do not consume an index).
    pub index: usize,
    pub name: String,
    /// Whether this parameter is declared by an enclosing impl/type or by the
    /// function itself.
    pub owner: String,
    pub instantiated_ty: String,
    pub layout_control: TypeLayoutControl,
    pub external_sources: Vec<String>,
}

/// A public function that reaches an unsafe call.
pub struct Suspect {
    pub caller_parent: Option<StructInfo>,
    pub caller: FnInfo,
    pub callee: FnInfo,
    pub callsite: CallsiteInfo,
    pub callee_type_args: Vec<CalleeTypeArgInfo>,
    pub unsafe_call_used_fields: Vec<String>,
    /// Parameter indices used in the unsafe call.
    pub unsafe_call_used_params: Vec<usize>,
    /// Global variables used in the unsafe call.
    pub unsafe_call_used_globals: Vec<String>,
    /// Fields of `self` that decide whether the unsafe call runs.
    pub unsafe_call_control_fields: Vec<String>,
    /// Parameters that decide whether the unsafe call runs.
    pub unsafe_call_control_params: Vec<usize>,
    /// Globals that decide whether the unsafe call runs.
    pub unsafe_call_control_globals: Vec<String>,
    pub constructors: Vec<FnInfo>,
    pub mutators: Vec<FnInfo>,
}

/// How a public type can be built, read and changed.
pub struct TypeInteractionInfo {
    pub ty: StructInfo,
    pub public_fields: Vec<FieldInfo>,
    pub field_layouts: Vec<FieldLayoutInfo>,
    pub constructors: Vec<FnInfo>,
    pub observers: Vec<FnInfo>,
    pub mutators: Vec<FnInfo>,
}

/// A method that a type has through a trait.
pub struct TraitMethodInfo {
    pub trait_name: String,
    pub method_name: String,
    pub implementor_type: String,
    pub return_ty: String,
    pub symbol_match_hint: String,
}

/// A field through which a mutable reference leaves a function.
pub struct EscapedFieldInfo {
    pub source_path: String,
    pub wrapper_type: String,
    pub wrapper_field: String,
    pub target_type: String,
    pub target_is_template: bool,
}

/// The fields that a function writes.
pub struct AffectedFieldsInfo {
    pub name: String,
    pub path: String,
    pub line: usize,
    pub is_public: bool,
    pub is_unsafe: bool,
    pub root_types: Vec<String>,
    pub fields_written: Vec<String>,
    pub escaped_fields: Vec<EscapedFieldInfo>,
}

/// The whole report.
pub struct Report {
    pub targets: Vec<Suspect>,
    pub types: Vec<TypeInteractionInfo>,
    pub trait_methods: Vec<TraitMethodInfo>,
    pub affected_fields: Vec<AffectedFieldsInfo>,
}

// ---------------------------------------------------------------------------
// Paths
// ---------------------------------------------------------------------------

/// `path` with every `\` turned into `/`.
pub open spec fn forward_slashes(path: Seq<char>) -> Seq<char> {
    path.map_values(|c: char| if c == '\\' { '/' } else { c })
}

/// The first position from `i` on where `/rust/` occurs in `n`.
pub open spec fn rust_marker_from(n: Seq<char>, i: int) -> Option<int>
    decreases n.len() - i,
{
    if i < 0 || i + 6 > n.len() {
        None
    } else if occurs_at(n, "/rust/"@, i) {
        Some(i)
    } else {
        rust_marker_from(n, i + 1)
    }
}

/// A path relative to the `rust` checkout: what follows the first `/rust/`
/// after the slashes are made forward, starting at `rust/`; else the path
/// with forward slashes.
pub open spec fn rust_relative(path: Seq<char>) -> Seq<char> {
    let n = forward_slashes(path);
    match rust_marker_from(n, 0) {
        Some(i) => n.skip(i + 1),
        None => n,
    }
}

/// `path` with every `\` turned into `/`.
pub fn forward_slashes_exec(path: &[char]) -> (out: Vec<char>)
    ensures
        out@ == forward_slashes(path@),
{
    let mut out: Vec<char> = Vec::new();
    let mut i: usize = 0;
    while i < path.len()
        invariant
            i <= path.len(),
            out@ == forward_slashes(path@).take(i as int),
        decreases path.len() - i,
    {
        let c = path[i];
        out.push(if c == '\\' { '/' } else { c });
        proof {
            assert(forward_slashes(path@).take(i + 1) =~= forward_slashes(path@).take(i as int).push(
                if c == '\\' { '/' } else { c },
            ));
        }
        i += 1;
    }
    proof {
        assert(forward_slashes(path@).take(path.len() as int) =~= forward_slashes(path@));
    }
    out
}

/// The first position from `from` on where `/rust/` occurs in `n`.
fn rust_marker_exec(n: &[char], from: usize) -> (r: Option<usize>)
    ensures
        match r {
            Some(i) => rust_marker_from(n@, from as int) == Some(i as int) && i + 6 <= n.len(),
            None => rust_marker_from(n@, from as int) is None,
        },
    decreases n.len() - from,
{
    let marker = chars_of("/rust/");
    proof {
        reveal_strlit("/rust/");
    }
    if n.len() < 6 {
        return None;
    }
    let last = n.len() - 6;
    let mut i = from;
    while i <= last
        invariant
            from <= i,
            last + 6 == n@.len(),
            last + 6 <= usize::MAX,
            marker@ == "/rust/"@,
            rust_marker_from(n@, from as int) == rust_marker_from(n@, i as int),
        decreases last + 1 - i,
    {
        if crate::text::occurs_at_exec(n, marker.as_slice(), i) {
            return Some(i);
        }
        i += 1;
    }
    None
}

/// The path of a source file relative to the `rust` checkout, with forward
/// slashes: `a\rust\library\x.rs` gives `rust/library/x.rs`.
pub fn normalize_to_rust_relative(path: &str) -> (r: String)
    ensures
        r@ == rust_relative(path@),
{
    let p = chars_of(path);
    let n = forward_slashes_exec(p.as_slice());
    let found = rust_marker_exec(n.as_slice(), 0);
    let tail: usize = match found {
        Some(i) => i + 1,
        None => 0,
    };
    proof {
        assert(n@.skip(0) =~= n@);
    }
    let rest = crate::text::skip_exec(n.as_slice(), tail);
    string_of(rest.as_slice())
}

/// A source path as the report gives it: relative to the working directory
/// when it lies below it (both with forward slashes), else relative to the
/// `rust` checkout.
pub open spec fn source_relative(path: Seq<char>, cwd: Option<Seq<char>>) -> Seq<char> {
    let n = forward_slashes(path);
    match cwd {
        Some(c) => {
            let prefix = forward_slashes(c) + "/"@;
            if starts_with(n, prefix) {
                n.skip(prefix.len() as int)
            } else {
                rust_relative(n)
            }
        },
        None => rust_relative(n),
    }
}

/// A source path as the report gives it, with the working directory when it
/// is known.
pub fn source_relative_path(path: &str, cwd: Option<&str>) -> (r: String)
    ensures
        r@ == source_relative(path@, match cwd {
            Some(c) => Some(c@),
            None => None,
        }),
{
    let n = forward_slashes_exec(chars_of(path).as_slice());
    let nstr = string_of(n.as_slice());
    match cwd {
        Some(c) => {
            let mut prefix = forward_slashes_exec(chars_of(c).as_slice());
            extend_chars(&mut prefix, chars_of("/").as_slice());
            if starts_with_exec(n.as_slice(), prefix.as_slice()) {
                string_of(crate::text::skip_exec(n.as_slice(), prefix.len()).as_slice())
            } else {
                normalize_to_rust_relative(nstr.as_str())
            }
        },
        None => normalize_to_rust_relative(nstr.as_str()),
    }
}

/// A definition path in `std` or `core`.
pub open spec fn core_or_std_path(path: Seq<char>) -> bool {
    starts_with(path, "std::"@) || starts_with(path, "core::"@)
}

/// Whether a definition path lies in `std` or `core`.
pub fn is_core_or_std_path(path: &str) -> (b: bool)
    ensures
        b == core_or_std_path(path@),
{
    let p = chars_of(path);
    starts_with_exec(p.as_slice(), chars_of("std::").as_slice()) || starts_with_exec(
        p.as_slice(),
        chars_of("core::").as_slice(),
    )
}

// ---------------------------------------------------------------------------
// The first line of a documented function
// ---------------------------------------------------------------------------

/// A `#[doc ...]` attribute line (after leading whitespace).
pub open spec fn doc_attr_line(line: Seq<char>) -> bool {
    starts_with(trim_start(line), "#[doc"@) || starts_with(trim_start(line), "# [doc"@)
}

/// A `///` or `//!` comment line (after leading whitespace).
pub open spec fn doc_comment_line(line: Seq<char>) -> bool {
    starts_with(trim_start(line), "///"@) || starts_with(trim_start(line), "//!"@)
}

/// A line of documentation.
pub open spec fn doc_line(line: Seq<char>) -> bool {
    doc_comment_line(line) || doc_attr_line(line)
}

/// A line that may stand between a function and its documentation: blank,
/// or an attribute other than `#[doc ...]`.
pub open spec fn skippable_line(line: Seq<char>) -> bool {
    let t = trim_end(trim_start(line));
    t.len() == 0 || (starts_with(t, "#["@) && !doc_attr_line(t))
}

/// The first line at or above `idx` that cannot be skipped; below 0 if none.
pub open spec fn skip_up(lines: Seq<Seq<char>>, idx: int) -> int
    decreases idx + 1,
{
    if idx < 0 || idx >= lines.len() {
        idx
    } else if skippable_line(lines[idx]) {
        skip_up(lines, idx - 1)
    } else {
        idx
    }
}

/// The first line of the run of documentation lines that ends at `start`.
pub open spec fn doc_run_start(lines: Seq<Seq<char>>, start: int) -> int
    decreases start,
{
    if start <= 0 || start > lines.len() {
        start
    } else if doc_line(lines[start - 1]) {
        doc_run_start(lines, start - 1)
    } else {
        start
    }
}

/// The line (from 1) where the documentation of a function whose signature
/// is on line `signature_line` starts: going up from the line above the
/// signature (or the last line), past blank lines and other attributes, a
/// documentation line must be met; then the run of documentation lines
/// above it is taken whole. None when there is no such line.
pub open spec fn doc_start_spec(lines: Seq<Seq<char>>, signature_line: int) -> Option<int> {
    if signature_line <= 1 || lines.len() == 0 {
        None
    } else {
        let from = if signature_line - 2 >= lines.len() { lines.len() - 1 } else { signature_line - 2 };
        let idx = skip_up(lines, from);
        if idx < 0 || !doc_line(lines[idx]) {
            None
        } else {
            Some(doc_run_start(lines, idx) + 1)
        }
    }
}

fn doc_attr_chars(line: &[char]) -> (b: bool)
    ensures
        b == doc_attr_line(line@),
{
    let t = trim_start_exec(line);
    starts_with_exec(t.as_slice(), chars_of("#[doc").as_slice()) || starts_with_exec(
        t.as_slice(),
        chars_of("# [doc").as_slice(),
    )
}

fn doc_comment_chars(line: &[char]) -> (b: bool)
    ensures
        b == doc_comment_line(line@),
{
    let t = trim_start_exec(line);
    starts_with_exec(t.as_slice(), chars_of("///").as_slice()) || starts_with_exec(
        t.as_slice(),
        chars_of("//!").as_slice(),
    )
}

fn skippable_chars(line: &[char]) -> (b: bool)
    ensures
        b == skippable_line(line@),
{
    let t = trim_end_exec(trim_start_exec(line).as_slice());
    t.len() == 0 || (starts_with_exec(t.as_slice(), chars_of("#[").as_slice()) && !doc_attr_chars(
        t.as_slice(),
    ))
}

/// Whether a line is a `#[doc ...]` attribute.
pub fn is_doc_attr_line(line: &str) -> (b: bool)
    ensures
        b == doc_attr_line(line@),
{
    doc_attr_chars(chars_of(line).as_slice())
}

/// Whether a line is a `///` or `//!` comment.
pub fn is_doc_comment_line(line: &str) -> (b: bool)
    ensures
        b == doc_comment_line(line@),
{
    doc_comment_chars(chars_of(line).as_slice())
}

/// The line (from 1) where the documentation of the function whose signature
/// is on line `signature_line` of `source` starts, read from the source text.
pub fn get_doc_line_start_from_source(source: &str, signature_line: usize) -> (r: Option<usize>)
    ensures
        match r {
            Some(l) => doc_start_spec(lines(source@), signature_line as int) == Some(l as int),
            None => doc_start_spec(lines(source@), signature_line as int) is None,
        },
{
    if signature_line <= 1 {
        return None;
    }
    let ls = lines_of(chars_of(source).as_slice());
    let ghost l = views(ls@);
    if ls.len() == 0 {
        return None;
    }
    let from: usize = if signature_line - 2 >= ls.len() { ls.len() - 1 } else { signature_line - 2 };
    let mut idx = from;
    proof {
        assert(l[idx as int] == ls@[idx as int]@);
    }
    while skippable_chars(ls[idx].as_slice())
        invariant
            idx < ls.len(),
            l == views(ls@),
            l == lines(source@),
            signature_line > 1,
            from as int == (if signature_line - 2 >= l.len() { l.len() - 1 } else { signature_line - 2 }),
            l.len() == ls.len(),
            skip_up(l, from as int) == skip_up(l, idx as int),
            skippable_line(l[idx as int]) == skippable_line(ls@[idx as int]@),
        decreases idx,
    {
        if idx == 0 {
            proof {
                assert(skippable_line(l[0]));
                assert(skip_up(l, 0) == skip_up(l, -1));
                assert(skip_up(l, -1) == -1);
            }
            return None;
        }
        idx -= 1;
        proof {
            assert(l[idx as int] == ls@[idx as int]@);
        }
    }
    proof {
        assert(l[idx as int] == ls@[idx as int]@);
    }
    if !(doc_comment_chars(ls[idx].as_slice()) || doc_attr_chars(ls[idx].as_slice())) {
        return None;
    }
    let mut start = idx;
    while start > 0 && (doc_comment_chars(ls[start - 1].as_slice()) || doc_attr_chars(ls[start - 1].as_slice()))
        invariant
            start <= idx < ls.len(),
            l == views(ls@),
            l == lines(source@),
            signature_line > 1,
            from as int == (if signature_line - 2 >= l.len() { l.len() - 1 } else { signature_line - 2 }),
            skip_up(l, from as int) == idx as int,
            doc_line(l[idx as int]),
            l.len() == ls.len(),
            doc_run_start(l, idx as int) == doc_run_start(l, start as int),
        decreases start,
    {
        proof {
            assert(l[start - 1] == ls@[start - 1]@);
        }
        start -= 1;
    }
    proof {
        if start > 0 {
            assert(l[start - 1] == ls@[start - 1]@);
        }
    }
    Some(start + 1)
}

// ---------------------------------------------------------------------------
// Functions, structs and trait methods as reported
// ---------------------------------------------------------------------------

/// The hint by which a trait method's symbol is matched: the last
/// `::`-segment of the trait's path, `::`, and the method's name.
pub open spec fn symbol_hint_spec(trait_name: Seq<char>, method_name: Seq<char>) -> Seq<char> {
    after_last(trait_name, "::"@) + "::"@ + method_name
}

/// The hint by which a trait method's symbol is matched, such as
/// `Iterator::next` for `core::iter::Iterator` and `next`.
pub fn symbol_match_hint(trait_name: &str, method_name: &str) -> (r: String)
    ensures
        r@ == symbol_hint_spec(trait_name@, method_name@),
{
    let mut out = after_last_exec(chars_of(trait_name).as_slice(), chars_of("::").as_slice());
    extend_chars(&mut out, chars_of("::").as_slice());
    extend_chars(&mut out, chars_of(method_name).as_slice());
    string_of(out.as_slice())
}

/// A place that a function writes: its root and the projection after it.
pub struct AffectedPath {
    pub root: String,
    pub suffix: String,
}

impl AffectedPath {
    /// The place as written: the root followed by the projection.
    pub fn rendered(&self) -> (r: String)
        ensures
            r@ == self.root@ + self.suffix@,
    {
        let mut out = chars_of(self.root.as_str());
        extend_chars(&mut out, chars_of(self.suffix.as_str()).as_slice());
        string_of(out.as_slice())
    }
}

/// The view of an optional string.
pub open spec fn opt_str(s: Option<String>) -> Option<Seq<char>> {
    match s {
        Some(x) => Some(x@),
        None => None,
    }
}

/// The report of a function from what the compiler says of it: its path,
/// the file and lines of its span, whether it needs a template or is unsafe,
/// its trait and return type, and where its documentation starts (by the
/// compiler's attributes, else by reading the source). The path is taken
/// relative to the `rust` checkout; the first line is that of the
/// documentation when there is one; a trait method gets the hint by which
/// its symbol is matched.
pub fn fn_info_from_parts(
    name: &str,
    file_path: &str,
    line: usize,
    end_line: usize,
    body_end_line: usize,
    require_template: bool,
    is_unsafe: bool,
    trait_name: Option<String>,
    return_ty: Option<String>,
    doc_attr_start: Option<usize>,
    doc_source_start: Option<usize>,
) -> (f: FnInfo)
    ensures
        f.name@ == name@,
        f.path@ == rust_relative(file_path@),
        f.line_start == match doc_attr_start {
            Some(l) => l,
            None => match doc_source_start {
                Some(l) => l,
                None => line,
            },
        },
        f.line_end == end_line,
        f.body_end == body_end_line,
        f.require_template == require_template,
        f.is_unsafe == is_unsafe,
        opt_str(f.trait_name) == opt_str(trait_name),
        opt_str(f.return_ty) == opt_str(return_ty),
        opt_str(f.symbol_match_hint) == match trait_name {
            Some(t) => Some(symbol_hint_spec(t@, after_last(name@, "::"@))),
            None => None,
        },
        f.call_chains@.len() == 0,
        f.mut_ref_escape is None,
        f.mut_ref_escape_fields@.len() == 0,
        f.written_fields@.len() == 0,
        f.return_self_fields@.len() == 0,
{
    let method_name = string_of(
        after_last_exec(chars_of(name).as_slice(), chars_of("::").as_slice()).as_slice(),
    );
    let symbol_match_hint = match &trait_name {
        Some(t) => Some(symbol_match_hint(t.as_str(), method_name.as_str())),
        None => None,
    };
    let line_start = match doc_attr_start {
        Some(l) => l,
        None => match doc_source_start {
            Some(l) => l,
            None => line,
        },
    };
    FnInfo {
        name: name.to_string(),
        path: normalize_to_rust_relative(file_path),
        line_start,
        line_end: end_line,
        body_end: body_end_line,
        require_template,
        is_unsafe,
        trait_name,
        return_ty,
        symbol_match_hint,
        call_chains: Vec::new(),
        mut_ref_escape: None,
        mut_ref_escape_fields: Vec::new(),
        written_fields: Vec::new(),
        return_self_fields: Vec::new(),
    }
}

/// The report of a struct from its path, the file and lines of its span and
/// whether it is public; the file is taken relative to the `rust` checkout.
pub fn struct_info_from_parts(name: &str, file_path: &str, line: usize, end_line: usize, is_public: bool) -> (s: StructInfo)
    ensures
        s.name@ == name@,
        s.path@ == rust_relative(file_path@),
        s.line_start == line,
        s.body_end == end_line,
        s.is_public == is_public,
{
    StructInfo {
        name: name.to_string(),
        path: normalize_to_rust_relative(file_path),
        line_start: line,
        body_end: end_line,
        is_public,
    }
}

/// The key by which functions are told apart: name, path and first line.
pub open spec fn fn_key(f: FnInfo) -> (Seq<char>, Seq<char>, usize) {
    (f.name@, f.path@, f.line_start)
}

/// Some function of `s` has the key.
pub open spec fn has_fn_key(s: Seq<FnInfo>, key: (Seq<char>, Seq<char>, usize)) -> bool {
    exists|m: int| 0 <= m < s.len() && fn_key(#[trigger] s[m]) == key
}

/// What is kept of `rest` after `kept`: each function whose key is not taken
/// yet, in order.
pub open spec fn dedup_after(kept: Seq<FnInfo>, rest: Seq<FnInfo>) -> Seq<FnInfo>
    decreases rest.len(),
{
    if rest.len() == 0 {
        kept
    } else if has_fn_key(kept, fn_key(rest[0])) {
        dedup_after(kept, rest.drop_first())
    } else {
        dedup_after(kept.push(rest[0]), rest.drop_first())
    }
}

/// No two functions of `s` share their key.
pub open spec fn distinct_fn_keys(s: Seq<FnInfo>) -> bool {
    forall|i: int, j: int| 0 <= i < j < s.len() ==> fn_key(#[trigger] s[i]) != fn_key(#[trigger] s[j])
}

proof fn lemma_dedup_after(kept: Seq<FnInfo>, rest: Seq<FnInfo>)
    ensures
        dedup_after(kept, rest).len() >= kept.len(),
        dedup_after(kept, rest).take(kept.len() as int) == kept,
        distinct_fn_keys(kept) ==> distinct_fn_keys(dedup_after(kept, rest)),
        forall|k: int| 0 <= k < rest.len() ==> has_fn_key(dedup_after(kept, rest), fn_key(#[trigger] rest[k])),
        forall|k: int| 0 <= k < kept.len() ==> has_fn_key(dedup_after(kept, rest), fn_key(#[trigger] kept[k])),
        forall|m: int|
            kept.len() <= m < dedup_after(kept, rest).len() ==> exists|k: int|
                0 <= k < rest.len() && #[trigger] dedup_after(kept, rest)[m] == rest[k],
    decreases rest.len(),
{
    let r = dedup_after(kept, rest);
    if rest.len() == 0 {
        assert(r.take(kept.len() as int) =~= kept);
        assert forall|k: int| 0 <= k < kept.len() implies has_fn_key(r, fn_key(#[trigger] kept[k])) by {
            assert(fn_key(r[k]) == fn_key(kept[k]));
        }
    } else {
        let tail = rest.drop_first();
        let x = rest[0];
        if has_fn_key(kept, fn_key(x)) {
            lemma_dedup_after(kept, tail);
            assert forall|k: int| 0 <= k < rest.len() implies has_fn_key(r, fn_key(#[trigger] rest[k])) by {
                if k == 0 {
                    let m = choose|m: int| 0 <= m < kept.len() && fn_key(#[trigger] kept[m]) == fn_key(x);
                    assert(fn_key(kept[m]) == fn_key(x));
                } else {
                    assert(rest[k] == tail[k - 1]);
                }
            }
            assert forall|m: int| kept.len() <= m < r.len() implies exists|k: int|
                0 <= k < rest.len() && #[trigger] r[m] == rest[k] by {
                let k = choose|k: int| 0 <= k < tail.len() && r[m] == tail[k];
                assert(r[m] == rest[k + 1]);
            }
        } else {
            let kept2 = kept.push(x);
            lemma_dedup_after(kept2, tail);
            assert(r.take(kept2.len() as int) == kept2);
            assert(r.take(kept.len() as int) =~= kept2.take(kept.len() as int));
            assert(kept2.take(kept.len() as int) =~= kept);
            if distinct_fn_keys(kept) {
                assert forall|i: int, j: int| 0 <= i < j < kept2.len() implies fn_key(#[trigger] kept2[i]) != fn_key(
                    #[trigger] kept2[j],
                ) by {
                    if j == kept.len() {
                        if fn_key(kept2[i]) == fn_key(kept2[j]) {
                            assert(fn_key(kept[i]) == fn_key(x));
                        }
                    }
                }
            }
            assert forall|k: int| 0 <= k < rest.len() implies has_fn_key(r, fn_key(#[trigger] rest[k])) by {
                if k == 0 {
                    assert(kept2[kept.len() as int] == x);
                } else {
                    assert(rest[k] == tail[k - 1]);
                }
            }
            assert forall|k: int| 0 <= k < kept.len() implies has_fn_key(r, fn_key(#[trigger] kept[k])) by {
                assert(kept2[k] == kept[k]);
            }
            assert forall|m: int| kept.len() <= m < r.len() implies exists|k: int|
                0 <= k < rest.len() && #[trigger] r[m] == rest[k] by {
                if m == kept.len() {
                    assert(r[m] == r.take(kept2.len() as int)[m]);
                    assert(r[m] == rest[0]);
                } else {
                    let k = choose|k: int| 0 <= k < tail.len() && r[m] == tail[k];
                    assert(r[m] == rest[k + 1]);
                }
            }
        }
    }
}

/// What de-duplication keeps: no two kept functions share their name, path
/// and first line; every function given has its key kept; and every kept
/// function is one of those given.
pub proof fn law_dedup_fn_infos(items: Seq<FnInfo>)
    ensures
        distinct_fn_keys(dedup_after(Seq::empty(), items)),
        forall|k: int| 0 <= k < items.len() ==> has_fn_key(dedup_after(Seq::empty(), items), fn_key(#[trigger] items[k])),
        forall|m: int|
            0 <= m < dedup_after(Seq::empty(), items).len() ==> exists|k: int|
                0 <= k < items.len() && #[trigger] dedup_after(Seq::empty(), items)[m] == items[k],
{
    lemma_dedup_after(Seq::empty(), items);
}

fn same_fn_key(a: &FnInfo, b: &FnInfo) -> (r: bool)
    ensures
        r == (fn_key(*a) == fn_key(*b)),
{
    a.line_start == b.line_start && str_equal(a.name.as_str(), b.name.as_str()) && str_equal(
        a.path.as_str(),
        b.path.as_str(),
    )
}

fn has_fn_key_exec(s: &Vec<FnInfo>, f: &FnInfo) -> (r: bool)
    ensures
        r == has_fn_key(s@, fn_key(*f)),
{
    let mut m: usize = 0;
    while m < s.len()
        invariant
            m <= s.len(),
            forall|j: int| 0 <= j < m ==> fn_key(#[trigger] s@[j]) != fn_key(*f),
        decreases s.len() - m,
    {
        if same_fn_key(&s[m], f) {
            return true;
        }
        m += 1;
    }
    false
}

/// The functions with the first of each (name, path, first line), in order.
pub fn dedup_fn_infos(items: Vec<FnInfo>) -> (r: Vec<FnInfo>)
    ensures
        r@ == dedup_after(Seq::empty(), items@),
{
    let mut items = items;
    let mut out: Vec<FnInfo> = Vec::new();
    let ghost all = items@;
    while items.len() > 0
        invariant
            dedup_after(Seq::empty(), all) == dedup_after(out@, items@),
        decreases items.len(),
    {
        let ghost rest = items@;
        let item = items.remove(0);
        proof {
            assert(items@ =~= rest.drop_first());
        }
        if !has_fn_key_exec(&out, &item) {
            out.push(item);
        }
    }
    out
}

/// The depth to which calls are followed: the value of the setting when it
/// is a decimal number, else 1.
pub fn configured_max_call_depth(setting: Option<&str>) -> (depth: usize)
    ensures
        depth == match setting {
            Some(v) => match crate::fastcheck::parse_usize_spec(v@) {
                Some(n) => n,
                None => 1,
            },
            None => 1,
        },
{
    match setting {
        Some(v) => match crate::fastcheck::parse_usize(v) {
            Some(n) => n,
            None => 1,
        },
        None => 1,
    }
}

/// A trait method is already listed for that trait, method and implementor.
pub open spec fn has_trait_method(
    s: Seq<TraitMethodInfo>,
    trait_name: Seq<char>,
    method_name: Seq<char>,
    implementor: Seq<char>,
) -> bool {
    exists|m: int|
        0 <= m < s.len() && (#[trigger] s[m]).trait_name@ == trait_name && s[m].method_name@ == method_name
            && s[m].implementor_type@ == implementor
}

/// Lists a method that a type has through a trait, once per trait, method
/// and implementor; a method without a known return type returns `()`.
pub fn record_trait_method(
    methods: &mut Vec<TraitMethodInfo>,
    trait_name: &str,
    method_name: &str,
    implementor_type: &str,
    return_ty: Option<String>,
)
    ensures
        has_trait_method(old(methods)@, trait_name@, method_name@, implementor_type@) ==> final(methods)@
            == old(methods)@,
        !has_trait_method(old(methods)@, trait_name@, method_name@, implementor_type@) ==> {
            &&& final(methods)@.len() == old(methods)@.len() + 1
            &&& final(methods)@.take(old(methods)@.len() as int) == old(methods)@
            &&& final(methods)@.last().trait_name@ == trait_name@
            &&& final(methods)@.last().method_name@ == method_name@
            &&& final(methods)@.last().implementor_type@ == implementor_type@
            &&& final(methods)@.last().return_ty@ == match return_ty {
                Some(t) => t@,
                None => "()"@,
            }
            &&& final(methods)@.last().symbol_match_hint@ == symbol_hint_spec(trait_name@, method_name@)
        },
{
    let mut m: usize = 0;
    while m < methods.len()
        invariant
            m <= methods.len(),
            forall|j: int|
                0 <= j < m ==> !((#[trigger] methods@[j]).trait_name@ == trait_name@ && methods@[j].method_name@
                    == method_name@ && methods@[j].implementor_type@ == implementor_type@),
        decreases methods.len() - m,
    {
        let t = &methods[m];
        if str_equal(t.trait_name.as_str(), trait_name) && str_equal(t.method_name.as_str(), method_name)
            && str_equal(t.implementor_type.as_str(), implementor_type) {
            return;
        }
        m += 1;
    }
    let return_ty = match return_ty {
        Some(t) => t,
        None => "()".to_string(),
    };
    let ghost before = methods@;
    methods.push(TraitMethodInfo {
        trait_name: trait_name.to_string(),
        method_name: method_name.to_string(),
        implementor_type: implementor_type.to_string(),
        return_ty,
        symbol_match_hint: symbol_match_hint(trait_name, method_name),
    });
    proof {
        assert(methods@.take(before.len() as int) =~= before);
    }
}

/// A line of source that declares something public: it starts, after
/// leading whitespace, with `pub ` or `pub(`.
pub open spec fn pub_line(line: Seq<char>) -> bool {
    starts_with(trim_start(line), "pub "@) || starts_with(trim_start(line), "pub("@)
}

/// Some line of an item's source text declares it public (the text may begin
/// with documentation and attributes).
pub fn snippet_is_visible(source: &str) -> (b: bool)
    ensures
        b == exists|k: int| 0 <= k < lines(source@).len() && pub_line(#[trigger] lines(source@)[k]),
{
    let ls = lines_of(chars_of(source).as_slice());
    let ghost l = views(ls@);
    let mut k: usize = 0;
    while k < ls.len()
        invariant
            k <= ls.len(),
            l == views(ls@),
            l == lines(source@),
            forall|j: int| 0 <= j < k ==> !pub_line(#[trigger] l[j]),
        decreases ls.len() - k,
    {
        let t = trim_start_exec(ls[k].as_slice());
        proof {
            assert(l[k as int] == ls@[k as int]@);
        }
        if starts_with_exec(t.as_slice(), chars_of("pub ").as_slice()) || starts_with_exec(
            t.as_slice(),
            chars_of("pub(").as_slice(),
        ) {
            return true;
        }
        k += 1;
    }
    false
}

/// A trait whose methods count as public for an impl: any but `Drop`.
pub open spec fn reveals_impl_methods(trait_path: Seq<char>) -> bool {
    trait_path != "core::ops::drop::Drop"@ && !crate::text::ends_with(trait_path, "::Drop"@)
}

/// Whether a trait's methods count as public for an impl: any trait but
/// `Drop`.
pub fn trait_reveals_impl_methods(trait_path: &str) -> (b: bool)
    ensures
        b == reveals_impl_methods(trait_path@),
{
    !str_equal(trait_path, "core::ops::drop::Drop") && !crate::text::ends_with_exec(
        chars_of(trait_path).as_slice(),
        chars_of("::Drop").as_slice(),
    )
}

} // verus!
