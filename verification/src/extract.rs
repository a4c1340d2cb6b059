//! Documented declarations of Rust source files: which functions, structs,
//! traits and methods a file declares, with their doc comments, and the
//! selection of the unsafe ones that carry documentation.
use vstd::prelude::*;
use crate::text::{all_ws, chars_of, ends_with, is_blank, join, join_exec, str_equal, string_of, views};

verus! {

/// One declaration of a source file.
pub struct Unit {
    pub line_number_start: usize,
    pub line_number_end: usize,
    /// Function name, struct name, or trait name.
    pub name: String,
    /// The signature (for functions) or declaration (for structs and traits).
    pub declaration_text: String,
    /// For methods, the type or trait they belong to.
    pub parent_struct_or_trait: Option<String>,
    pub is_unsafe: bool,
    pub comment: String,
}

impl Unit {
    /// A unit with the given parts.
    pub fn new(
        line_number_start: usize,
        line_number_end: usize,
        name: String,
        declaration_text: String,
        is_unsafe: bool,
        parent_struct_or_trait: Option<String>,
        comment: String,
    ) -> (u: Self)
        ensures
            u.line_number_start == line_number_start,
            u.line_number_end == line_number_end,
            u.name == name,
            u.declaration_text == declaration_text,
            u.is_unsafe == is_unsafe,
            u.parent_struct_or_trait == parent_struct_or_trait,
            u.comment == comment,
    {
        Unit {
            line_number_start,
            line_number_end,
            name,
            declaration_text,
            is_unsafe,
            parent_struct_or_trait,
            comment,
        }
    }
}

/// The units of each file, by file path; a path occurs at most once.
pub struct Units {
    pub files: Vec<(String, Vec<Unit>)>,
}

impl Units {
    /// No file path occurs twice.
    pub open spec fn wf(&self) -> bool {
        forall|a: int, b: int|
            0 <= a < b < self.files.len() ==> (#[trigger] self.files@[a]).0@ != (
            #[trigger] self.files@[b]).0@
    }
}

/// A unit is kept: it is unsafe and its comment is not blank.
pub open spec fn is_kept(u: Unit) -> bool {
    u.is_unsafe && !all_ws(u.comment@)
}

/// The kept units, in order.
pub open spec fn kept_units(us: Seq<Unit>) -> Seq<Unit>
    decreases us.len(),
{
    if us.len() == 0 {
        seq![]
    } else if is_kept(us.last()) {
        kept_units(us.drop_last()).push(us.last())
    } else {
        kept_units(us.drop_last())
    }
}

/// The files with their kept units, leaving out files where none is kept.
pub open spec fn kept_files(fs: Seq<(String, Vec<Unit>)>) -> Seq<(Seq<char>, Seq<Unit>)>
    decreases fs.len(),
{
    if fs.len() == 0 {
        seq![]
    } else {
        let k = kept_units(fs.last().1@);
        if k.len() == 0 {
            kept_files(fs.drop_last())
        } else {
            kept_files(fs.drop_last()).push((fs.last().0@, k))
        }
    }
}

/// Every kept unit is kept again.
proof fn lemma_kept_units_idempotent(us: Seq<Unit>)
    ensures
        kept_units(kept_units(us)) == kept_units(us),
    decreases us.len(),
{
    if us.len() > 0 {
        lemma_kept_units_idempotent(us.drop_last());
        let k = kept_units(us.drop_last());
        if is_kept(us.last()) {
            assert(k.push(us.last()).drop_last() =~= k);
        }
    }
}

/// The selection on files given as mathematical values.
pub open spec fn kept_file_views(fs: Seq<(Seq<char>, Seq<Unit>)>) -> Seq<(Seq<char>, Seq<Unit>)>
    decreases fs.len(),
{
    if fs.len() == 0 {
        seq![]
    } else {
        let k = kept_units(fs.last().1);
        if k.len() == 0 {
            kept_file_views(fs.drop_last())
        } else {
            kept_file_views(fs.drop_last()).push((fs.last().0, k))
        }
    }
}

proof fn lemma_kept_files_by_view(fs: Seq<(String, Vec<Unit>)>)
    ensures
        kept_files(fs) == kept_file_views(files_view(fs)),
    decreases fs.len(),
{
    if fs.len() > 0 {
        lemma_kept_files_by_view(fs.drop_last());
        assert(files_view(fs).drop_last() =~= files_view(fs.drop_last()));
    }
}

proof fn lemma_kept_file_views_fixed(fs: Seq<(String, Vec<Unit>)>)
    ensures
        kept_file_views(kept_files(fs)) == kept_files(fs),
    decreases fs.len(),
{
    if fs.len() > 0 {
        lemma_kept_file_views_fixed(fs.drop_last());
        let k = kept_units(fs.last().1@);
        lemma_kept_units_idempotent(fs.last().1@);
        if k.len() > 0 {
            let prev = kept_files(fs.drop_last());
            assert(prev.push((fs.last().0@, k)).drop_last() =~= prev);
        }
    }
}

/// Keeping only the documented unsafe units twice keeps what once keeps:
/// the second pass changes nothing.
pub proof fn law_keep_only_idempotent(before: Seq<(String, Vec<Unit>)>, once: Seq<(String, Vec<Unit>)>)
    requires
        files_view(once) == kept_files(before),
    ensures
        kept_files(once) == files_view(once),
{
    lemma_kept_files_by_view(once);
    lemma_kept_file_views_fixed(before);
}

/// The files with their units, as mathematical values.
pub open spec fn files_view(fs: Seq<(String, Vec<Unit>)>) -> Seq<(Seq<char>, Seq<Unit>)> {
    fs.map_values(|f: (String, Vec<Unit>)| (f.0@, f.1@))
}

/// Only the units that are unsafe and carry a non-blank comment.
fn kept_of(list: Vec<Unit>) -> (out: Vec<Unit>)
    ensures
        out@ == kept_units(list@),
{
    let mut list = list;
    let n0 = list.len();
    let ghost orig = list@;
    let mut out: Vec<Unit> = Vec::new();
    let mut i: usize = 0;
    while list.len() > 0
        invariant
            i + list@.len() == orig.len(),
            orig.len() == n0,
            list@ == orig.skip(i as int),
            out@ == kept_units(orig.take(i as int)),
        decreases list.len(),
    {
        let u = list.remove(0);
        proof {
            assert(orig.take(i + 1).drop_last() =~= orig.take(i as int));
            assert(orig.take(i + 1).last() == orig[i as int]);
            assert(orig.skip(i as int)[0] == orig[i as int]);
            assert(orig.skip(i as int).subrange(1, orig.skip(i as int).len() as int) =~= orig.skip(i + 1));
        }
        let keep = u.is_unsafe && !is_blank(chars_of(u.comment.as_str()).as_slice());
        if keep {
            out.push(u);
        }
        i += 1;
    }
    proof {
        assert(orig.take(i as int) =~= orig);
    }
    out
}

/// Keeps, in every file, only the units that are unsafe and carry a
/// non-blank comment, then drops the files left without units.
pub fn keep_only_unsafe_fn_and_unsafe_trait(units: &mut Units)
    ensures
        files_view(final(units).files@) == kept_files(old(units).files@),
        old(units).wf() ==> final(units).wf(),
{
    let mut files: Vec<(String, Vec<Unit>)> = Vec::new();
    std::mem::swap(&mut files, &mut units.files);
    let n0 = files.len();
    let ghost orig = files@;
    let ghost mut idx: Seq<int> = seq![];
    let mut i: usize = 0;
    while files.len() > 0
        invariant
            i + files@.len() == orig.len(),
            orig.len() == n0,
            orig == old(units).files@,
            files@ == orig.skip(i as int),
            files_view(units.files@) == kept_files(orig.take(i as int)),
            idx.len() == units.files.len(),
            forall|k: int| 0 <= k < idx.len() ==> 0 <= #[trigger] idx[k] < i,
            forall|k: int| 0 <= k < idx.len() ==> (#[trigger] units.files@[k]).0@ == orig[idx[k]].0@,
            forall|a: int, b: int| 0 <= a < b < idx.len() ==> #[trigger] idx[a] < #[trigger] idx[b],
        decreases files.len(),
    {
        let (path, list) = files.remove(0);
        proof {
            assert(orig.take(i + 1).drop_last() =~= orig.take(i as int));
            assert(orig.take(i + 1).last() == orig[i as int]);
            assert(orig.skip(i as int)[0] == orig[i as int]);
            assert(orig.skip(i as int).subrange(1, orig.skip(i as int).len() as int) =~= orig.skip(i + 1));
        }
        let kept = kept_of(list);
        if kept.len() > 0 {
            let ghost before = units.files@;
            units.files.push((path, kept));
            proof {
                assert(files_view(units.files@) =~= files_view(before).push((path@, kept@)));
                idx = idx.push(i as int);
                assert forall|k: int| 0 <= k < idx.len() implies (#[trigger] units.files@[k]).0@ == orig[idx[k]].0@ by {
                    if k < before.len() {
                        assert(units.files@[k] == before[k]);
                    }
                }
            }
        }
        i += 1;
    }
    proof {
        assert(orig.take(i as int) =~= orig);
        if old(units).wf() {
            assert forall|a: int, b: int|
                0 <= a < b < units.files.len() implies (#[trigger] units.files@[a]).0@ != (
                #[trigger] units.files@[b]).0@ by {
                assert(idx[a] < idx[b]);
                assert(orig[idx[a]] == old(units).files@[idx[a]]);
                assert(orig[idx[b]] == old(units).files@[idx[b]]);
            }
        }
    }
}

/// An attribute, as far as doc comments go: its path when that is one
/// identifier, and its value when it is written `name = "string"`.
pub struct AttrDecl {
    pub path_ident: Option<String>,
    pub str_value: Option<String>,
}

/// The attribute is a doc string: `doc = "..."`.
pub open spec fn is_doc_string(a: AttrDecl) -> bool {
    a.path_ident matches Some(p) && p@ == "doc"@ && a.str_value is Some
}

/// The doc strings of the attributes, in order.
pub open spec fn doc_values(attrs: Seq<AttrDecl>) -> Seq<Seq<char>>
    decreases attrs.len(),
{
    if attrs.len() == 0 {
        seq![]
    } else if is_doc_string(attrs.last()) {
        doc_values(attrs.drop_last()).push(attrs.last().str_value->0@)
    } else {
        doc_values(attrs.drop_last())
    }
}

/// The doc comment of a declaration: the strings of its `doc` attributes,
/// one per line.
pub fn extract_doc_comment(attrs: &Vec<AttrDecl>) -> (c: String)
    ensures
        c@ == join(doc_values(attrs@), seq!['\n']),
{
    let mut parts: Vec<Vec<char>> = Vec::new();
    let mut i: usize = 0;
    while i < attrs.len()
        invariant
            i <= attrs.len(),
            views(parts@) == doc_values(attrs@.take(i as int)),
        decreases attrs.len() - i,
    {
        let a = &attrs[i];
        proof {
            assert(attrs@.take(i + 1).drop_last() =~= attrs@.take(i as int));
            assert(attrs@.take(i + 1).last() == *a);
        }
        let is_doc = match &a.path_ident {
            Some(p) => str_equal(p.as_str(), "doc"),
            None => false,
        };
        if is_doc {
            match &a.str_value {
                Some(v) => {
                    let ghost before = parts@;
                    parts.push(chars_of(v.as_str()));
                    proof {
                        assert(views(parts@) =~= views(before).push(v@));
                    }
                },
                None => {},
            }
        }
        i += 1;
    }
    proof {
        assert(attrs@.take(attrs@.len() as int) =~= attrs@);
    }
    let nl: [char; 1] = ['\n'];
    proof {
        assert(nl@ =~= seq!['\n']);
    }
    let joined = join_exec(&parts, &nl);
    string_of(joined.as_slice())
}

} // verus!

verus! {

// ---------------------------------------------------------------------------
// Declarations of a parsed source file
// ---------------------------------------------------------------------------

/// A function or method declaration.
pub struct FnDecl {
    /// Its attributes, in order.
    pub attrs: Vec<AttrDecl>,
    /// Its signature, as token text.
    pub signature: String,
    pub name: String,
    pub is_unsafe: bool,
    pub start_line: usize,
    pub end_line: usize,
}

/// A struct declaration.
pub struct StructDecl {
    pub attrs: Vec<AttrDecl>,
    pub name: String,
    /// Its generic parameters as token text, when it has any.
    pub generic_params: Option<String>,
    /// Its `where` clause as token text, when it has one.
    pub where_clause: Option<String>,
    /// Its fields as token text.
    pub fields: String,
    pub start_line: usize,
    pub end_line: usize,
}

/// A trait declaration.
pub struct TraitDecl {
    pub attrs: Vec<AttrDecl>,
    pub name: String,
    pub generic_params: Option<String>,
    /// Its supertrait bounds as token text, when it has any.
    pub supertraits: Option<String>,
    pub where_clause: Option<String>,
    pub is_unsafe: bool,
    pub start_line: usize,
    pub end_line: usize,
    /// Its members, in order.
    pub members: Vec<MemberDecl>,
}

/// An `impl` block.
pub struct ImplDecl {
    /// The implementing type as token text.
    pub self_ty: String,
    pub members: Vec<MemberDecl>,
}

/// A member of a trait or an impl block: a function, or something else.
pub enum MemberDecl {
    Fn(FnDecl),
    Other,
}

/// A top-level item of a source file, as far as the declarations go.
pub enum SourceItem {
    /// Tokens the parser kept verbatim; `fn_decl` is the function they
    /// declare when they are a bodyless function declaration.
    Verbatim { start_line: usize, end_line: usize, fn_decl: Option<FnDecl> },
    Fn(FnDecl),
    Struct(StructDecl),
    Trait(TraitDecl),
    Impl(ImplDecl),
    Other,
}

/// What a unit holds, as mathematical values.
pub struct UnitView {
    pub line_number_start: nat,
    pub line_number_end: nat,
    pub name: Seq<char>,
    pub declaration_text: Seq<char>,
    pub parent_struct_or_trait: Option<Seq<char>>,
    pub is_unsafe: bool,
    pub comment: Seq<char>,
}

impl View for Unit {
    type V = UnitView;

    open spec fn view(&self) -> UnitView {
        UnitView {
            line_number_start: self.line_number_start as nat,
            line_number_end: self.line_number_end as nat,
            name: self.name@,
            declaration_text: self.declaration_text@,
            parent_struct_or_trait: match self.parent_struct_or_trait {
                Some(p) => Some(p@),
                None => None,
            },
            is_unsafe: self.is_unsafe,
            comment: self.comment@,
        }
    }
}

/// The doc comment of a list of attributes.
pub open spec fn comment_of(attrs: Seq<AttrDecl>) -> Seq<char> {
    join(doc_values(attrs), seq!['\n'])
}

/// The unit of a function declaration, spanning the given lines.
pub open spec fn fn_unit(f: FnDecl, start: nat, end: nat, parent: Option<Seq<char>>) -> UnitView {
    UnitView {
        line_number_start: start,
        line_number_end: end,
        name: f.name@,
        declaration_text: f.signature@,
        parent_struct_or_trait: parent,
        is_unsafe: f.is_unsafe,
        comment: comment_of(f.attrs@),
    }
}

/// Parts joined with single spaces.
pub open spec fn spaced(parts: Seq<Seq<char>>) -> Seq<char> {
    join(parts, seq![' '])
}

/// `o` as a list of zero or one parts.
pub open spec fn opt_part(o: Option<String>) -> Seq<Seq<char>> {
    match o {
        Some(s) => seq![s@],
        None => seq![],
    }
}

/// `o` wrapped in `pre` and `post`, as a list of zero or one parts.
pub open spec fn opt_part_wrapped(o: Option<String>, pre: Seq<char>, post: Seq<char>) -> Seq<Seq<char>> {
    match o {
        Some(s) => seq![pre + s@ + post],
        None => seq![],
    }
}

/// `struct Name <params> <where> <fields>`.
pub open spec fn struct_declaration(s: StructDecl) -> Seq<char> {
    spaced(seq!["struct"@, s.name@] + opt_part(s.generic_params) + opt_part(s.where_clause) + seq![
        s.fields@,
    ])
}

/// `trait Name <<params>> <: supertraits> <where>`.
pub open spec fn trait_declaration(t: TraitDecl) -> Seq<char> {
    spaced(seq!["trait"@, t.name@] + opt_part_wrapped(t.generic_params, "<"@, ">"@)
        + opt_part_wrapped(t.supertraits, ": "@, seq![]) + opt_part(t.where_clause))
}

/// The unit that a top-level item is by itself, if any.
pub open spec fn item_unit(item: SourceItem) -> Option<UnitView> {
    match item {
        SourceItem::Verbatim { start_line, end_line, fn_decl } => match fn_decl {
            Some(f) => Some(fn_unit(f, start_line as nat, end_line as nat, None)),
            None => None,
        },
        SourceItem::Fn(f) => Some(fn_unit(f, f.start_line as nat, f.end_line as nat, None)),
        SourceItem::Struct(s) => Some(
            UnitView {
                line_number_start: s.start_line as nat,
                line_number_end: s.end_line as nat,
                name: s.name@,
                declaration_text: struct_declaration(s),
                parent_struct_or_trait: None,
                is_unsafe: false,
                comment: comment_of(s.attrs@),
            },
        ),
        SourceItem::Trait(t) => Some(
            UnitView {
                line_number_start: t.start_line as nat,
                line_number_end: t.end_line as nat,
                name: t.name@,
                declaration_text: trait_declaration(t),
                parent_struct_or_trait: None,
                is_unsafe: t.is_unsafe,
                comment: comment_of(t.attrs@),
            },
        ),
        _ => None,
    }
}

/// The functions among the members, in order.
pub open spec fn member_fns(ms: Seq<MemberDecl>) -> Seq<FnDecl>
    decreases ms.len(),
{
    if ms.len() == 0 {
        seq![]
    } else {
        match ms.last() {
            MemberDecl::Fn(f) => member_fns(ms.drop_last()).push(f),
            MemberDecl::Other => member_fns(ms.drop_last()),
        }
    }
}

/// The units of a list of methods with the given parent.
pub open spec fn method_units(ms: Seq<FnDecl>, parent: Seq<char>) -> Seq<UnitView> {
    ms.map_values(|m: FnDecl| fn_unit(m, m.start_line as nat, m.end_line as nat, Some(parent)))
}

/// All units of a top-level item: the item itself, then the methods of a
/// trait (under the trait's name) or of an impl block (under its type).
pub open spec fn item_units(item: SourceItem) -> Seq<UnitView> {
    let own = match item_unit(item) {
        Some(u) => seq![u],
        None => seq![],
    };
    match item {
        SourceItem::Trait(t) => own + method_units(member_fns(t.members@), t.name@),
        SourceItem::Impl(i) => own + method_units(member_fns(i.members@), i.self_ty@),
        _ => own,
    }
}

/// The units of the items, in order.
pub open spec fn file_units(items: Seq<SourceItem>) -> Seq<UnitView>
    decreases items.len(),
{
    if items.len() == 0 {
        seq![]
    } else {
        file_units(items.drop_last()) + item_units(items.last())
    }
}

/// The views of a list of units.
pub open spec fn unit_views(us: Seq<Unit>) -> Seq<UnitView> {
    us.map_values(|u: Unit| u@)
}

/// The unit of a function declaration.
fn unit_of_fn(f: &FnDecl, start: usize, end: usize, parent: Option<String>) -> (u: Unit)
    ensures
        u@ == fn_unit(*f, start as nat, end as nat, match parent {
            Some(p) => Some(p@),
            None => None,
        }),
{
    Unit::new(
        start,
        end,
        f.name.clone(),
        f.signature.clone(),
        f.is_unsafe,
        parent,
        extract_doc_comment(&f.attrs),
    )
}

fn push_part(parts: &mut Vec<Vec<char>>, s: &str)
    ensures
        views(final(parts)@) == views(old(parts)@).push(s@),
{
    let ghost before = parts@;
    parts.push(chars_of(s));
    proof {
        assert(views(parts@) =~= views(before).push(s@));
    }
}

/// The declaration text of a struct.
pub fn struct_declaration_text(s: &StructDecl) -> (t: String)
    ensures
        t@ == struct_declaration(*s),
{
    let mut parts: Vec<Vec<char>> = Vec::new();
    push_part(&mut parts, "struct");
    push_part(&mut parts, s.name.as_str());
    match &s.generic_params {
        Some(g) => push_part(&mut parts, g.as_str()),
        None => {},
    }
    match &s.where_clause {
        Some(w) => push_part(&mut parts, w.as_str()),
        None => {},
    }
    push_part(&mut parts, s.fields.as_str());
    proof {
        reveal_strlit("struct");
        assert(views(parts@) =~= seq!["struct"@, s.name@] + opt_part(s.generic_params) + opt_part(
            s.where_clause,
        ) + seq![s.fields@]);
    }
    let sp: [char; 1] = [' '];
    proof {
        assert(sp@ =~= seq![' ']);
    }
    string_of(join_exec(&parts, &sp).as_slice())
}

/// The declaration text of a trait.
pub fn trait_declaration_text(t: &TraitDecl) -> (r: String)
    ensures
        r@ == trait_declaration(*t),
{
    let mut parts: Vec<Vec<char>> = Vec::new();
    push_part(&mut parts, "trait");
    push_part(&mut parts, t.name.as_str());
    match &t.generic_params {
        Some(g) => {
            let mut p = chars_of("<");
            crate::text::extend_chars(&mut p, chars_of(g.as_str()).as_slice());
            crate::text::extend_chars(&mut p, chars_of(">").as_slice());
            let ghost before = parts@;
            parts.push(p);
            proof {
                assert(views(parts@) =~= views(before).push("<"@ + g@ + ">"@));
            }
        },
        None => {},
    }
    match &t.supertraits {
        Some(st) => {
            let mut p = chars_of(": ");
            crate::text::extend_chars(&mut p, chars_of(st.as_str()).as_slice());
            let ghost before = parts@;
            parts.push(p);
            proof {
                assert(views(parts@) =~= views(before).push(": "@ + st@ + seq![]));
            }
        },
        None => {},
    }
    match &t.where_clause {
        Some(w) => push_part(&mut parts, w.as_str()),
        None => {},
    }
    proof {
        assert(views(parts@) =~= seq!["trait"@, t.name@] + opt_part_wrapped(t.generic_params, "<"@, ">"@)
            + opt_part_wrapped(t.supertraits, ": "@, seq![]) + opt_part(t.where_clause));
    }
    let sp: [char; 1] = [' '];
    proof {
        assert(sp@ =~= seq![' ']);
    }
    string_of(join_exec(&parts, &sp).as_slice())
}

/// The unit that a top-level item is by itself, if any.
pub fn extract_unit_from_item(item: &SourceItem) -> (u: Option<Unit>)
    ensures
        match u {
            Some(x) => item_unit(*item) == Some(x@),
            None => item_unit(*item) is None,
        },
{
    match item {
        SourceItem::Verbatim { start_line, end_line, fn_decl } => match fn_decl {
            Some(f) => Some(unit_of_fn(f, *start_line, *end_line, None)),
            None => None,
        },
        SourceItem::Fn(f) => Some(unit_of_fn(f, f.start_line, f.end_line, None)),
        SourceItem::Struct(s) => Some(
            Unit::new(
                s.start_line,
                s.end_line,
                s.name.clone(),
                struct_declaration_text(s),
                false,
                None,
                extract_doc_comment(&s.attrs),
            ),
        ),
        SourceItem::Trait(t) => Some(
            Unit::new(
                t.start_line,
                t.end_line,
                t.name.clone(),
                trait_declaration_text(t),
                t.is_unsafe,
                None,
                extract_doc_comment(&t.attrs),
            ),
        ),
        _ => None,
    }
}

/// Appends the units of the function members under `parent`.
fn push_method_units(out: &mut Vec<Unit>, members: &Vec<MemberDecl>, parent: &String)
    ensures
        unit_views(final(out)@) == unit_views(old(out)@) + method_units(member_fns(members@), parent@),
{
    let mut i: usize = 0;
    while i < members.len()
        invariant
            i <= members.len(),
            unit_views(out@) == unit_views(old(out)@) + method_units(member_fns(members@.take(i as int)), parent@),
        decreases members.len() - i,
    {
        proof {
            assert(members@.take(i + 1).drop_last() =~= members@.take(i as int));
            assert(members@.take(i + 1).last() == members@[i as int]);
        }
        match &members[i] {
            MemberDecl::Fn(m) => {
                let u = unit_of_fn(m, m.start_line, m.end_line, Some(parent.clone()));
                let ghost before = out@;
                out.push(u);
                proof {
                    let fs = member_fns(members@.take(i as int));
                    assert(member_fns(members@.take(i + 1)) == fs.push(*m));
                    assert(unit_views(out@) =~= unit_views(before).push(u@));
                    assert(method_units(fs.push(*m), parent@) =~= method_units(fs, parent@).push(u@));
                }
            },
            MemberDecl::Other => {},
        }
        i += 1;
    }
    proof {
        assert(members@.take(members@.len() as int) =~= members@);
    }
}

/// Some unit is unsafe and has a non-empty comment.
pub open spec fn has_documented_unsafe(us: Seq<UnitView>) -> bool {
    exists|k: int| 0 <= k < us.len() && (#[trigger] us[k]).is_unsafe && us[k].comment.len() > 0
}

proof fn lemma_join_nonempty(parts: Seq<Seq<char>>, sep: Seq<char>, k: int)
    requires
        0 <= k < parts.len(),
        parts[k].len() > 0,
    ensures
        join(parts, sep).len() > 0,
    decreases parts.len(),
{
    if parts.len() > 1 && k < parts.len() - 1 {
        lemma_join_nonempty(parts.drop_last(), sep, k);
    }
}

proof fn lemma_doc_values(attrs: Seq<AttrDecl>)
    ensures
        (forall|k: int| 0 <= k < attrs.len() ==> !is_doc_string(#[trigger] attrs[k])) ==> doc_values(attrs).len() == 0,
        forall|k: int|
            0 <= k < attrs.len() && is_doc_string(#[trigger] attrs[k]) ==> exists|j: int|
                0 <= j < doc_values(attrs).len() && doc_values(attrs)[j] == attrs[k].str_value->0@,
    decreases attrs.len(),
{
    if attrs.len() > 0 {
        let init = attrs.drop_last();
        lemma_doc_values(init);
        if forall|k: int| 0 <= k < attrs.len() ==> !is_doc_string(#[trigger] attrs[k]) {
            assert forall|k: int| 0 <= k < init.len() implies !is_doc_string(#[trigger] init[k]) by {
                assert(init[k] == attrs[k]);
            }
            assert(!is_doc_string(attrs[attrs.len() - 1]));
        }
        assert forall|k: int| 0 <= k < attrs.len() && is_doc_string(#[trigger] attrs[k]) implies exists|j: int|
            0 <= j < doc_values(attrs).len() && doc_values(attrs)[j] == attrs[k].str_value->0@ by {
            let dv = doc_values(attrs);
            let prev = doc_values(init);
            if k < attrs.len() - 1 {
                assert(init[k] == attrs[k]);
                let j = choose|j: int| 0 <= j < prev.len() && prev[j] == init[k].str_value->0@;
                assert(dv[j] == prev[j]);
            } else {
                assert(dv[prev.len() as int] == attrs[k].str_value->0@);
            }
        }
    }
}

/// A doc comment is empty when no attribute is a doc string, and is not
/// empty when some doc string is not empty: every doc string contributes to
/// it, other attributes do not.
pub proof fn law_doc_comment_comes_from_doc_strings(attrs: Seq<AttrDecl>)
    ensures
        (forall|k: int| 0 <= k < attrs.len() ==> !is_doc_string(#[trigger] attrs[k])) ==> comment_of(attrs).len() == 0,
        (exists|k: int| 0 <= k < attrs.len() && is_doc_string(#[trigger] attrs[k]) && attrs[k].str_value->0@.len() > 0)
            ==> comment_of(attrs).len() > 0,
{
    lemma_doc_values(attrs);
    if exists|k: int| 0 <= k < attrs.len() && is_doc_string(#[trigger] attrs[k]) && attrs[k].str_value->0@.len() > 0 {
        let k = choose|k: int| 0 <= k < attrs.len() && is_doc_string(#[trigger] attrs[k]) && attrs[k].str_value->0@.len() > 0;
        let dv = doc_values(attrs);
        let j = choose|j: int| 0 <= j < dv.len() && dv[j] == attrs[k].str_value->0@;
        lemma_join_nonempty(dv, seq!['\n'], j);
    }
}

/// The units of an impl block are its methods, in order, each under the
/// block's type, with the method's own name, signature, safety, lines and
/// doc comment.
pub proof fn law_impl_units_are_its_methods(i: ImplDecl)
    ensures
        item_units(SourceItem::Impl(i)).len() == member_fns(i.members@).len(),
        forall|k: int| 0 <= k < member_fns(i.members@).len() ==> {
            let u = #[trigger] item_units(SourceItem::Impl(i))[k];
            let m = member_fns(i.members@)[k];
            &&& u.name == m.name@
            &&& u.declaration_text == m.signature@
            &&& u.is_unsafe == m.is_unsafe
            &&& u.line_number_start == m.start_line
            &&& u.line_number_end == m.end_line
            &&& u.parent_struct_or_trait == Some(i.self_ty@)
            &&& u.comment == join(doc_values(m.attrs@), seq!['\n'])
        },
{
    let own: Seq<UnitView> = seq![];
    assert(item_units(SourceItem::Impl(i)) =~= own + method_units(member_fns(i.members@), i.self_ty@));
}

/// The units of a file's top-level items, in order: each item's own unit,
/// then its trait or impl methods; and whether one of them is unsafe and
/// has a (non-empty) doc comment.
pub fn units_of_file(items: &Vec<SourceItem>) -> (r: (Vec<Unit>, bool))
    ensures
        unit_views(r.0@) == file_units(items@),
        r.1 == has_documented_unsafe(file_units(items@)),
{
    let mut out: Vec<Unit> = Vec::new();
    let mut i: usize = 0;
    while i < items.len()
        invariant
            i <= items.len(),
            unit_views(out@) == file_units(items@.take(i as int)),
        decreases items.len() - i,
    {
        let item = &items[i];
        let ghost before = out@;
        match extract_unit_from_item(item) {
            Some(u) => {
                out.push(u);
            },
            None => {},
        }
        let ghost mid = out@;
        proof {
            assert(unit_views(mid) =~= unit_views(before) + match item_unit(*item) {
                Some(u) => seq![u],
                None => seq![],
            });
        }
        match item {
            SourceItem::Trait(t) => push_method_units(&mut out, &t.members, &t.name),
            SourceItem::Impl(im) => push_method_units(&mut out, &im.members, &im.self_ty),
            _ => {},
        }
        proof {
            assert(items@.take(i + 1).drop_last() =~= items@.take(i as int));
            assert(items@.take(i + 1).last() == *item);
            assert(unit_views(out@) =~= file_units(items@.take(i + 1)));
        }
        i += 1;
    }
    proof {
        assert(items@.take(items@.len() as int) =~= items@);
    }
    let mut has = false;
    let mut k: usize = 0;
    while k < out.len()
        invariant
            k <= out.len(),
            has <==> exists|j: int| 0 <= j < k && out@[j].is_unsafe && out@[j].comment@.len() > 0,
        decreases out.len() - k,
    {
        if out[k].is_unsafe && !out[k].comment.as_str().is_empty() {
            has = true;
        }
        k += 1;
    }
    proof {
        let us = unit_views(out@);
        if has {
            let j = choose|j: int| 0 <= j < k && out@[j].is_unsafe && out@[j].comment@.len() > 0;
            assert(us[j].is_unsafe && us[j].comment.len() > 0);
        } else {
            assert forall|j: int| 0 <= j < us.len() implies !((#[trigger] us[j]).is_unsafe && us[j].comment.len() > 0) by {
                assert(!(out@[j].is_unsafe && out@[j].comment@.len() > 0));
            }
        }
    }
    (out, has)
}

/// The text to parse as a function when the parser kept `tokens` verbatim:
/// the text without trailing whitespace, without its final `;`, and with an
/// empty body `{}` after a space; `None` when it does not end with `;`.
pub fn verbatim_fn_source(tokens: &str) -> (r: Option<String>)
    ensures
        r is Some <==> ends_with(crate::text::trim_end(tokens@), seq![';']),
        r matches Some(s) ==> s@ == crate::text::trim_end(tokens@).drop_last() + " {}"@,
{
    let chars = chars_of(tokens);
    let trimmed = crate::text::trim_end_exec(chars.as_slice());
    let semi: [char; 1] = [';'];
    proof {
        assert(semi@ =~= seq![';']);
    }
    if !crate::text::ends_with_exec(trimmed.as_slice(), &semi) {
        return None;
    }
    let mut body = crate::text::take_exec(trimmed.as_slice(), trimmed.len() - 1);
    crate::text::extend_chars(&mut body, chars_of(" {}").as_slice());
    proof {
        assert(trimmed@.take(trimmed@.len() - 1) =~= trimmed@.drop_last());
    }
    Some(string_of(body.as_slice()))
}

impl Units {
    /// No files yet.
    pub fn empty() -> (u: Units)
        ensures
            u.files@.len() == 0,
            u.wf(),
    {
        Units { files: Vec::new() }
    }

    /// Adds the units of one file under its path: appended to the file's
    /// list when the path is already there, else as a new file at the end;
    /// nothing when there are no units.
    pub fn add_file_units(&mut self, path: String, units: Vec<Unit>)
        requires
            old(self).wf(),
        ensures
            final(self).wf(),
            units@.len() == 0 ==> final(self).files@ == old(self).files@,
            units@.len() > 0 ==> match find_path(old(self).files@, path@) {
                Some(k) => {
                    &&& final(self).files@.len() == old(self).files@.len()
                    &&& final(self).files@[k].0 == old(self).files@[k].0
                    &&& final(self).files@[k].1@ == old(self).files@[k].1@ + units@
                    &&& forall|j: int|
                        0 <= j < old(self).files@.len() && j != k ==> final(self).files@[j] == old(
                            self,
                        ).files@[j]
                },
                None => final(self).files@ == old(self).files@.push((path, units)),
            },
    {
        if units.len() == 0 {
            return;
        }
        let mut k: usize = 0;
        while k < self.files.len() && !str_equal(self.files[k].0.as_str(), path.as_str())
            invariant
                k <= self.files.len(),
                forall|j: int| 0 <= j < k ==> self.files@[j].0@ != path@,
            decreases self.files.len() - k,
        {
            k += 1;
        }
        if k < self.files.len() {
            proof {
                lemma_find_path(self.files@, path@, k as int);
            }
            let ghost before = self.files@;
            let mut units = units;
            self.files[k].1.append(&mut units);
            proof {
                assert forall|a: int, b: int|
                    0 <= a < b < self.files.len() implies (#[trigger] self.files@[a]).0@ != (
                    #[trigger] self.files@[b]).0@ by {
                    assert(self.files@[a].0@ == before[a].0@);
                    assert(self.files@[b].0@ == before[b].0@);
                }
            }
        } else {
            proof {
                assert forall|j: int| 0 <= j < self.files@.len() implies find_path(self.files@, path@)
                    != Some(j) by {
                    if find_path(self.files@, path@) == Some(j) {
                        lemma_find_path_some(self.files@, path@);
                    }
                }
                lemma_find_path_none(self.files@, path@);
            }
            let ghost before = self.files@;
            self.files.push((path, units));
        }
    }
}

/// The position of `path` among the files.
pub open spec fn find_path(fs: Seq<(String, Vec<Unit>)>, path: Seq<char>) -> Option<int> {
    if exists|k: int| 0 <= k < fs.len() && fs[k].0@ == path {
        Some(choose|k: int| 0 <= k < fs.len() && fs[k].0@ == path && forall|j: int| 0 <= j < k ==> fs[j].0@ != path)
    } else {
        None
    }
}

proof fn lemma_find_path(fs: Seq<(String, Vec<Unit>)>, path: Seq<char>, k: int)
    requires
        0 <= k < fs.len(),
        fs[k].0@ == path,
        forall|j: int| 0 <= j < k ==> fs[j].0@ != path,
    ensures
        find_path(fs, path) == Some(k),
{
    let c = choose|c: int| 0 <= c < fs.len() && fs[c].0@ == path && forall|j: int| 0 <= j < c ==> fs[j].0@ != path;
    assert(0 <= c < fs.len() && fs[c].0@ == path && forall|j: int| 0 <= j < c ==> fs[j].0@ != path);
    if c < k {
        assert(fs[c].0@ != path);
    }
    if k < c {
        assert(fs[k].0@ != path);
    }
}

proof fn lemma_find_path_some(fs: Seq<(String, Vec<Unit>)>, path: Seq<char>)
    requires
        find_path(fs, path) is Some,
    ensures
        exists|k: int| 0 <= k < fs.len() && fs[k].0@ == path,
{
}

proof fn lemma_find_path_none(fs: Seq<(String, Vec<Unit>)>, path: Seq<char>)
    requires
        forall|j: int| 0 <= j < fs.len() ==> fs[j].0@ != path,
    ensures
        find_path(fs, path) is None,
{
}

/// `s` with every `~const` taken out, scanning from the left as
/// `str::replace` does.
pub open spec fn without_tilde_const_spec(s: Seq<char>) -> Seq<char>
    decreases s.len(),
{
    if s.len() == 0 {
        s
    } else if s.len() >= 6 && crate::text::starts_with(s, "~const"@) {
        without_tilde_const_spec(s.skip(6))
    } else {
        seq![s[0]] + without_tilde_const_spec(s.drop_first())
    }
}

/// The source text with every `~const` taken out, which the parser does not
/// read.
pub fn without_tilde_const(content: &str) -> (r: String)
    ensures
        r@ == without_tilde_const_spec(content@),
{
    let s = chars_of(content);
    let pat = chars_of("~const");
    proof {
        reveal_strlit("~const");
        assert(s@.skip(0) =~= s@);
    }
    let mut out: Vec<char> = Vec::new();
    let mut i: usize = 0;
    while i < s.len()
        invariant
            i <= s.len(),
            pat@ == "~const"@,
            pat@.len() == 6,
            out@ + without_tilde_const_spec(s@.skip(i as int)) == without_tilde_const_spec(s@),
        decreases s.len() - i,
    {
        let ghost rest = s@.skip(i as int);
        let found = crate::text::occurs_at_exec(s.as_slice(), pat.as_slice(), i);
        proof {
            if i + 6 <= s.len() {
                assert(rest.subrange(0, 6) =~= s@.subrange(i as int, i + 6));
            }
            assert(found == (rest.len() >= 6 && crate::text::starts_with(rest, "~const"@)));
        }
        if found {
            proof {
                assert(rest.skip(6) =~= s@.skip(i + 6));
            }
            i += 6;
        } else {
            proof {
                assert(rest.drop_first() =~= s@.skip(i + 1));
                assert(rest[0] == s@[i as int]);
                assert(out@.push(s@[i as int]) + without_tilde_const_spec(s@.skip(i + 1)) =~= out@ + (seq![
                    rest[0],
                ] + without_tilde_const_spec(rest.drop_first())));
            }
            out.push(s[i]);
            i += 1;
        }
    }
    proof {
        assert(s@.skip(i as int) =~= Seq::<char>::empty());
        assert(out@ + Seq::<char>::empty() =~= out@);
    }
    string_of(out.as_slice())
}

} // verus!
