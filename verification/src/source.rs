//! Reading a Rust source file into its declarations: the file is parsed with
//! `syn`, each top-level item is turned into a [`SourceItem`], and the units
//! of the file are built from those.
use vstd::prelude::*;
use quote::ToTokens;
use syn::spanned::Spanned;
use crate::extract::{
    file_units, has_documented_unsafe, unit_views, units_of_file, verbatim_fn_source,
    without_tilde_const, without_tilde_const_spec, AttrDecl, FnDecl, ImplDecl, MemberDecl,
    SourceItem, StructDecl, TraitDecl, Unit,
};

verus! {

// ---------------------------------------------------------------------------
// The parser's types
// ---------------------------------------------------------------------------

#[verifier::external_type_specification]
#[verifier::external_body]
pub struct ExFile(syn::File);

#[verifier::external_type_specification]
#[verifier::external_body]
pub struct ExItem(syn::Item);

#[verifier::external_type_specification]
#[verifier::external_body]
pub struct ExItemFn(syn::ItemFn);

#[verifier::external_type_specification]
#[verifier::external_body]
pub struct ExItemStruct(syn::ItemStruct);

#[verifier::external_type_specification]
#[verifier::external_body]
pub struct ExItemTrait(syn::ItemTrait);

#[verifier::external_type_specification]
#[verifier::external_body]
pub struct ExItemImpl(syn::ItemImpl);

#[verifier::external_type_specification]
#[verifier::external_body]
pub struct ExTraitItem(syn::TraitItem);

#[verifier::external_type_specification]
#[verifier::external_body]
pub struct ExImplItem(syn::ImplItem);

#[verifier::external_type_specification]
#[verifier::external_body]
pub struct ExAttribute(syn::Attribute);

#[verifier::external_type_specification]
#[verifier::external_body]
pub struct ExSignature(syn::Signature);

#[verifier::external_type_specification]
#[verifier::external_body]
pub struct ExTokenStream(proc_macro2::TokenStream);

/// Where the parser gave up on a text: its message and the span it points at.
#[derive(Debug)]
pub struct ParseFailure {
    pub message: String,
    pub start_line: usize,
    pub start_column: usize,
    pub end_line: usize,
    pub end_column: usize,
}

/// A top-level item of a parsed file, told apart by its kind.
pub enum ParsedItem {
    Verbatim(proc_macro2::TokenStream),
    Fn(syn::ItemFn),
    Struct(syn::ItemStruct),
    Trait(syn::ItemTrait),
    Impl(syn::ItemImpl),
    Other,
}

/// The parts of a function, method or method declaration.
pub struct FnParts {
    pub attrs: Vec<syn::Attribute>,
    pub sig: syn::Signature,
    pub start_line: usize,
    pub end_line: usize,
}

/// The parts of a struct declaration, its tokens as text.
pub struct StructParts {
    pub attrs: Vec<syn::Attribute>,
    pub name: String,
    pub generic_params: String,
    pub where_clause: Option<String>,
    pub fields: String,
    pub start_line: usize,
    pub end_line: usize,
}

/// The parts of a trait declaration, its tokens as text.
pub struct TraitParts {
    pub attrs: Vec<syn::Attribute>,
    pub name: String,
    pub generic_params: String,
    pub supertraits: String,
    pub where_clause: Option<String>,
    pub is_unsafe: bool,
    pub start_line: usize,
    pub end_line: usize,
    pub items: Vec<syn::TraitItem>,
}

// ---------------------------------------------------------------------------
// Calls into the parser
// ---------------------------------------------------------------------------

/// What `syn::parse_file` makes of a text, read into declarations by
/// [`items_of_file`]: the items, or where parsing failed.
pub uninterp spec fn parsed_source_items(content: Seq<char>) -> Result<Seq<SourceItem>, ParseFailure>;

/// A parse result, with the items as a sequence.
pub open spec fn items_view(r: Result<Vec<SourceItem>, ParseFailure>) -> Result<Seq<SourceItem>, ParseFailure> {
    match r {
        Ok(v) => Ok(v@),
        Err(e) => Err(e),
    }
}

/// Parses a file's text with `syn::parse_file` and reads its top-level items
/// with the verified [`items_of_file`]; on a syntax error, returns the
/// error's message and the start and end of its span. The result depends on
/// the text alone, and is named [`parsed_source_items`]; what the parser
/// accepts is not spelled out.
#[verifier::external_body]
fn parse_source_items(content: &str) -> (r: Result<Vec<SourceItem>, ParseFailure>)
    ensures
        parsed_source_items(content@) == items_view(r),
{
    match syn::parse_file(content) {
        Ok(file) => Ok(items_of_file(&file)),
        Err(e) => {
            let (s, t) = (e.span().start(), e.span().end());
            Err(ParseFailure {
                message: e.to_string(),
                start_line: s.line,
                start_column: s.column,
                end_line: t.line,
                end_column: t.column,
            })
        },
    }
}

/// Parses a text as one function with `syn::parse_str::<syn::ItemFn>`;
/// `None` where it is not one.
#[verifier::external_body]
fn parse_item_fn(text: &str) -> (r: Option<syn::ItemFn>) {
    syn::parse_str::<syn::ItemFn>(text).ok()
}

/// The top-level items of a parsed file (`syn::File::items`).
#[verifier::external_body]
fn file_items(file: &syn::File) -> (r: Vec<syn::Item>) {
    file.items.clone()
}

/// The kind of an item (the variants of `syn::Item`), with its contents.
#[verifier::external_body]
fn item_kind(item: &syn::Item) -> (r: ParsedItem) {
    match item {
        syn::Item::Verbatim(tokens) => ParsedItem::Verbatim(tokens.clone()),
        syn::Item::Fn(f) => ParsedItem::Fn(f.clone()),
        syn::Item::Struct(s) => ParsedItem::Struct(s.clone()),
        syn::Item::Trait(t) => ParsedItem::Trait(t.clone()),
        syn::Item::Impl(i) => ParsedItem::Impl(i.clone()),
        _ => ParsedItem::Other,
    }
}

/// The attributes, signature and lines (`Spanned::span`) of a function.
#[verifier::external_body]
fn item_fn_parts(f: &syn::ItemFn) -> (r: FnParts) {
    let span = f.span();
    FnParts { attrs: f.attrs.clone(), sig: f.sig.clone(), start_line: span.start().line, end_line: span.end().line }
}

/// The parts of a trait member (`syn::TraitItem::Fn`) when it is a method.
#[verifier::external_body]
fn trait_member_fn_parts(member: &syn::TraitItem) -> (r: Option<FnParts>) {
    match member {
        syn::TraitItem::Fn(m) => {
            let span = m.span();
            Some(FnParts { attrs: m.attrs.clone(), sig: m.sig.clone(), start_line: span.start().line, end_line: span.end().line })
        },
        _ => None,
    }
}

/// The parts of an impl member (`syn::ImplItem::Fn`) when it is a method.
#[verifier::external_body]
fn impl_member_fn_parts(member: &syn::ImplItem) -> (r: Option<FnParts>) {
    match member {
        syn::ImplItem::Fn(m) => {
            let span = m.span();
            Some(FnParts { attrs: m.attrs.clone(), sig: m.sig.clone(), start_line: span.start().line, end_line: span.end().line })
        },
        _ => None,
    }
}

/// A signature's tokens as text (`ToTokens`), its name, and whether it has
/// `unsafe`.
#[verifier::external_body]
fn signature_parts(sig: &syn::Signature) -> (r: (String, String, bool)) {
    (sig.to_token_stream().to_string(), sig.ident.to_string(), sig.unsafety.is_some())
}

/// An attribute's path when it is one identifier (`Path::get_ident`).
#[verifier::external_body]
fn attr_path_ident(attr: &syn::Attribute) -> (r: Option<String>) {
    attr.path().get_ident().map(|i| i.to_string())
}

/// An attribute's value when it is written `name = "string"`
/// (`Meta::NameValue` holding a `Lit::Str`).
#[verifier::external_body]
fn attr_str_value(attr: &syn::Attribute) -> (r: Option<String>) {
    match &attr.meta {
        syn::Meta::NameValue(syn::MetaNameValue {
            value: syn::Expr::Lit(syn::ExprLit { lit: syn::Lit::Str(s), .. }),
            ..
        }) => Some(s.value()),
        _ => None,
    }
}

/// A struct's attributes, name, generic parameters, `where` clause and
/// fields as token text, and its lines.
#[verifier::external_body]
fn struct_parts(s: &syn::ItemStruct) -> (r: StructParts) {
    let span = s.span();
    StructParts {
        attrs: s.attrs.clone(),
        name: s.ident.to_string(),
        generic_params: s.generics.params.to_token_stream().to_string(),
        where_clause: s.generics.where_clause.as_ref().map(|w| w.to_token_stream().to_string()),
        fields: s.fields.to_token_stream().to_string(),
        start_line: span.start().line,
        end_line: span.end().line,
    }
}

/// A trait's attributes, name, generic parameters, supertraits and `where`
/// clause as token text, whether it is `unsafe`, its lines and its members.
#[verifier::external_body]
fn trait_parts(t: &syn::ItemTrait) -> (r: TraitParts) {
    let span = t.span();
    TraitParts {
        attrs: t.attrs.clone(),
        name: t.ident.to_string(),
        generic_params: t.generics.params.to_token_stream().to_string(),
        supertraits: t.supertraits.to_token_stream().to_string(),
        where_clause: t.generics.where_clause.as_ref().map(|w| w.to_token_stream().to_string()),
        is_unsafe: t.unsafety.is_some(),
        start_line: span.start().line,
        end_line: span.end().line,
        items: t.items.clone(),
    }
}

/// An impl block's type as token text, and its members.
#[verifier::external_body]
fn impl_parts(i: &syn::ItemImpl) -> (r: (String, Vec<syn::ImplItem>)) {
    (i.self_ty.to_token_stream().to_string(), i.items.clone())
}

/// Tokens as text (`TokenStream`'s `to_string`), with the line where the
/// first starts and the line where the last ends.
#[verifier::external_body]
fn verbatim_parts(tokens: &proc_macro2::TokenStream) -> (r: (String, Option<usize>, Option<usize>)) {
    (
        tokens.to_string(),
        tokens.clone().into_iter().next().map(|t| t.span().start().line),
        tokens.clone().into_iter().last().map(|t| t.span().end().line),
    )
}

// ---------------------------------------------------------------------------
// From the syntax tree to declarations
// ---------------------------------------------------------------------------

/// The attributes, as far as doc comments go.
fn attr_decls(attrs: &Vec<syn::Attribute>) -> (r: Vec<AttrDecl>)
    ensures
        r.len() == attrs.len(),
{
    let mut out: Vec<AttrDecl> = Vec::new();
    for i in 0..attrs.len()
        invariant
            out.len() == i,
    {
        out.push(AttrDecl { path_ident: attr_path_ident(&attrs[i]), str_value: attr_str_value(&attrs[i]) });
    }
    out
}

/// The declaration of a function from its parts: one attribute declaration
/// per attribute, and the same lines.
fn fn_decl(parts: &FnParts) -> (r: FnDecl)
    ensures
        r.attrs.len() == parts.attrs.len(),
        r.start_line == parts.start_line,
        r.end_line == parts.end_line,
{
    let (signature, name, is_unsafe) = signature_parts(&parts.sig);
    FnDecl {
        attrs: attr_decls(&parts.attrs),
        signature,
        name,
        is_unsafe,
        start_line: parts.start_line,
        end_line: parts.end_line,
    }
}

/// Token text, or nothing where it is empty.
fn non_empty(tokens: String) -> (r: Option<String>)
    ensures
        r is None <==> tokens@.len() == 0,
        r matches Some(t) ==> t@ == tokens@,
{
    if tokens.as_str().unicode_len() == 0 {
        None
    } else {
        Some(tokens)
    }
}

/// The declaration of a struct.
fn struct_decl(s: &syn::ItemStruct) -> (r: StructDecl) {
    let p = struct_parts(s);
    StructDecl {
        attrs: attr_decls(&p.attrs),
        name: p.name,
        generic_params: non_empty(p.generic_params),
        where_clause: p.where_clause,
        fields: p.fields,
        start_line: p.start_line,
        end_line: p.end_line,
    }
}

/// `m` is the declaration of a member with those parts: a method when it has
/// parts, with one attribute declaration per attribute of the method and the
/// method's lines; otherwise not a method.
pub open spec fn member_from_parts(m: MemberDecl, parts: Option<FnParts>) -> bool {
    match parts {
        Some(f) => m matches MemberDecl::Fn(d) && d.attrs.len() == f.attrs.len() && d.start_line
            == f.start_line && d.end_line == f.end_line,
        None => m is Other,
    }
}

/// The declarations of the members of a trait or impl block, in order.
fn member_decls(parts: &Vec<Option<FnParts>>) -> (r: Vec<MemberDecl>)
    ensures
        r.len() == parts.len(),
        forall|k: int| 0 <= k < parts.len() ==> member_from_parts(#[trigger] r@[k], parts@[k]),
{
    let mut out: Vec<MemberDecl> = Vec::new();
    for k in 0..parts.len()
        invariant
            out.len() == k,
            forall|j: int| 0 <= j < k ==> member_from_parts(#[trigger] out@[j], parts@[j]),
    {
        let m = match &parts[k] {
            Some(f) => MemberDecl::Fn(fn_decl(f)),
            None => MemberDecl::Other,
        };
        out.push(m);
    }
    out
}

/// The declaration of a trait, with its members in order.
fn trait_decl(t: &syn::ItemTrait) -> (r: TraitDecl) {
    let p = trait_parts(t);
    let mut parts: Vec<Option<FnParts>> = Vec::new();
    for i in 0..p.items.len()
        invariant
            parts.len() == i,
    {
        parts.push(trait_member_fn_parts(&p.items[i]));
    }
    TraitDecl {
        attrs: attr_decls(&p.attrs),
        name: p.name,
        generic_params: non_empty(p.generic_params),
        supertraits: non_empty(p.supertraits),
        where_clause: p.where_clause,
        is_unsafe: p.is_unsafe,
        start_line: p.start_line,
        end_line: p.end_line,
        members: member_decls(&parts),
    }
}

/// The declaration of an impl block of type `self_ty` whose members have
/// those parts.
fn impl_decl_of(self_ty: String, parts: &Vec<Option<FnParts>>) -> (r: ImplDecl)
    ensures
        r.self_ty@ == self_ty@,
        r.members.len() == parts.len(),
        forall|k: int| 0 <= k < parts.len() ==> member_from_parts(#[trigger] r.members@[k], parts@[k]),
{
    ImplDecl { self_ty, members: member_decls(parts) }
}

/// The declaration of an impl block, with its members in order.
fn impl_decl(i: &syn::ItemImpl) -> (r: ImplDecl) {
    let (self_ty, items) = impl_parts(i);
    let mut parts: Vec<Option<FnParts>> = Vec::new();
    for k in 0..items.len()
        invariant
            parts.len() == k,
    {
        parts.push(impl_member_fn_parts(&items[k]));
    }
    impl_decl_of(self_ty, &parts)
}

/// Tokens that the parser kept verbatim: their first and last lines (0 where
/// there are none), and the function they declare when they are a bodyless
/// function declaration, parsed with an empty body in place of the `;`.
fn verbatim_item(tokens: &proc_macro2::TokenStream) -> (r: SourceItem)
    ensures
        r is Verbatim,
{
    let (text, first, last) = verbatim_parts(tokens);
    let start_line = match first {
        Some(l) => l,
        None => 0,
    };
    let end_line = match last {
        Some(l) => l,
        None => 0,
    };
    let fn_decl = match verbatim_fn_source(&text) {
        Some(src) => match parse_item_fn(&src) {
            Some(f) => Some(fn_decl(&item_fn_parts(&f))),
            None => None,
        },
        None => None,
    };
    SourceItem::Verbatim { start_line, end_line, fn_decl }
}

/// The declaration that a top-level item is.
fn source_item(item: &syn::Item) -> (r: SourceItem) {
    match item_kind(item) {
        ParsedItem::Verbatim(tokens) => verbatim_item(&tokens),
        ParsedItem::Fn(f) => SourceItem::Fn(fn_decl(&item_fn_parts(&f))),
        ParsedItem::Struct(s) => SourceItem::Struct(struct_decl(&s)),
        ParsedItem::Trait(t) => SourceItem::Trait(trait_decl(&t)),
        ParsedItem::Impl(i) => SourceItem::Impl(impl_decl(&i)),
        ParsedItem::Other => SourceItem::Other,
    }
}

/// The declarations of a parsed file's top-level items, in order.
pub fn items_of_file(file: &syn::File) -> (r: Vec<SourceItem>) {
    let items = file_items(file);
    let mut out: Vec<SourceItem> = Vec::new();
    for i in 0..items.len()
        invariant
            out.len() == i,
    {
        out.push(source_item(&items[i]));
    }
    out
}

// ---------------------------------------------------------------------------
// The units of a source file
// ---------------------------------------------------------------------------

/// The units of a file's text, and whether one of them is unsafe and
/// documented; or where the text fails to parse. Every `~const` is taken out
/// of the text before it is parsed.
pub fn file_units_of_source(content: &str) -> (r: Result<(Vec<Unit>, bool), ParseFailure>)
    ensures
        match parsed_source_items(without_tilde_const_spec(content@)) {
            Ok(items) => r matches Ok((u, b)) && unit_views(u@) == file_units(items)
                && b == has_documented_unsafe(file_units(items)),
            Err(e) => r matches Err(f) && f == e,
        },
{
    let text = without_tilde_const(content);
    match parse_source_items(text.as_str()) {
        Ok(items) => Ok(units_of_file(&items)),
        Err(e) => Err(e),
    }
}

} // verus!
