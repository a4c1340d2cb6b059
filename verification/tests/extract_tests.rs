use raudit::extract::{
    extract_doc_comment, extract_unit_from_item, keep_only_unsafe_fn_and_unsafe_trait,
    struct_declaration_text, trait_declaration_text, units_of_file, verbatim_fn_source, AttrDecl,
    FnDecl, ImplDecl, MemberDecl, SourceItem, StructDecl, TraitDecl, Unit, Units,
};
use raudit::source::file_units_of_source;

fn doc(text: &str) -> AttrDecl {
    AttrDecl { path_ident: Some("doc".to_string()), str_value: Some(text.to_string()) }
}

fn unit(name: &str, is_unsafe: bool, comment: &str) -> Unit {
    Unit::new(1, 2, name.to_string(), format!("fn {name} ()"), is_unsafe, None, comment.to_string())
}

fn fn_decl(name: &str, is_unsafe: bool, docs: &[&str], start: usize, end: usize) -> FnDecl {
    FnDecl {
        attrs: docs.iter().map(|d| doc(d)).collect(),
        signature: format!("{}fn {name} ()", if is_unsafe { "unsafe " } else { "" }),
        name: name.to_string(),
        is_unsafe,
        start_line: start,
        end_line: end,
    }
}

#[test]
fn unit_new_keeps_its_parts() {
    let u = Unit::new(3, 9, "f".to_string(), "fn f ()".to_string(), true, Some("S".to_string()), "doc".to_string());
    assert_eq!((u.line_number_start, u.line_number_end), (3, 9));
    assert_eq!(u.name, "f");
    assert_eq!(u.declaration_text, "fn f ()");
    assert!(u.is_unsafe);
    assert_eq!(u.parent_struct_or_trait.as_deref(), Some("S"));
    assert_eq!(u.comment, "doc");
}

#[test]
fn keep_only_documented_unsafe_units() {
    let mut units = Units::empty();
    units.add_file_units(
        "a.rs".to_string(),
        vec![unit("safe", false, "doc"), unit("bare", true, "  \n "), unit("kept", true, " Safety: x")],
    );
    units.add_file_units("b.rs".to_string(), vec![unit("safe", false, "doc")]);
    keep_only_unsafe_fn_and_unsafe_trait(&mut units);
    assert_eq!(units.files.len(), 1);
    assert_eq!(units.files[0].0, "a.rs");
    assert_eq!(units.files[0].1.len(), 1);
    assert_eq!(units.files[0].1[0].name, "kept");
    // A second pass changes nothing.
    keep_only_unsafe_fn_and_unsafe_trait(&mut units);
    assert_eq!(units.files.len(), 1);
    assert_eq!(units.files[0].1.len(), 1);
}

#[test]
fn add_file_units_appends_to_a_known_path() {
    let mut units = Units::empty();
    units.add_file_units("a.rs".to_string(), vec![unit("f", true, "x")]);
    units.add_file_units("a.rs".to_string(), vec![unit("g", true, "y")]);
    units.add_file_units("c.rs".to_string(), vec![]);
    assert_eq!(units.files.len(), 1);
    assert_eq!(units.files[0].1.len(), 2);
    assert_eq!(units.files[0].1[1].name, "g");
}

#[test]
fn doc_comment_joins_lines() {
    let attrs = vec![doc(" First line."), doc(""), doc(" # Safety")];
    assert_eq!(extract_doc_comment(&attrs), " First line.\n\n # Safety");
    assert_eq!(extract_doc_comment(&vec![]), "");
}

#[test]
fn declaration_texts() {
    let s = StructDecl {
        attrs: vec![],
        name: "Bag".to_string(),
        generic_params: Some("T".to_string()),
        where_clause: Some("where T : Copy".to_string()),
        fields: "{ pub item : Option < T > , }".to_string(),
        start_line: 1,
        end_line: 4,
    };
    assert_eq!(struct_declaration_text(&s), "struct Bag T where T : Copy { pub item : Option < T > , }");
    let t = TraitDecl {
        attrs: vec![],
        name: "Alloc".to_string(),
        generic_params: Some("'a".to_string()),
        supertraits: Some("Sized".to_string()),
        where_clause: None,
        is_unsafe: true,
        start_line: 1,
        end_line: 3,
        members: vec![],
    };
    assert_eq!(trait_declaration_text(&t), "trait Alloc <'a> : Sized");
}

#[test]
fn units_of_items() {
    let items = vec![
        SourceItem::Fn(fn_decl("free", true, &[" Safety: aligned"], 2, 5)),
        SourceItem::Trait(TraitDecl {
            attrs: vec![],
            name: "Tr".to_string(),
            generic_params: None,
            supertraits: None,
            where_clause: None,
            is_unsafe: false,
            start_line: 7,
            end_line: 9,
            members: vec![MemberDecl::Other, MemberDecl::Fn(fn_decl("m", false, &[], 8, 8))],
        }),
        SourceItem::Impl(ImplDecl {
            self_ty: "Foo < T >".to_string(),
            members: vec![MemberDecl::Fn(fn_decl("g", true, &[], 11, 12)), MemberDecl::Other],
        }),
        SourceItem::Other,
        SourceItem::Verbatim { start_line: 14, end_line: 14, fn_decl: None },
    ];
    let (units, has) = units_of_file(&items);
    assert!(has);
    let names: Vec<&str> = units.iter().map(|u| u.name.as_str()).collect();
    assert_eq!(names, vec!["free", "Tr", "m", "g"]);
    assert_eq!(units[2].parent_struct_or_trait.as_deref(), Some("Tr"));
    assert_eq!(units[3].parent_struct_or_trait.as_deref(), Some("Foo < T >"));
    assert_eq!(units[0].comment, " Safety: aligned");
    assert_eq!(units[1].declaration_text, "trait Tr");
    let u = extract_unit_from_item(&SourceItem::Verbatim {
        start_line: 20,
        end_line: 21,
        fn_decl: Some(fn_decl("intrinsic", true, &[], 1, 1)),
    })
    .unwrap();
    assert_eq!((u.line_number_start, u.line_number_end), (20, 21));
    assert!(extract_unit_from_item(&SourceItem::Other).is_none());
    let (_, has) = units_of_file(&vec![SourceItem::Fn(fn_decl("f", true, &[], 1, 1))]);
    assert!(!has);
}

#[test]
fn verbatim_declarations_get_an_empty_body() {
    assert_eq!(
        verbatim_fn_source("pub unsafe fn foo () -> T ;  ").as_deref(),
        Some("pub unsafe fn foo () -> T  {}")
    );
    assert_eq!(verbatim_fn_source("macro_rules ! m { }"), None);
}

#[test]
fn doc_comment_keeps_only_doc_strings() {
    let attrs = vec![
        AttrDecl { path_ident: Some("inline".to_string()), str_value: None },
        doc(" Kept."),
        AttrDecl { path_ident: Some("doc".to_string()), str_value: None },
        AttrDecl { path_ident: Some("deprecated".to_string()), str_value: Some("old".to_string()) },
        AttrDecl { path_ident: None, str_value: Some("x".to_string()) },
        doc(" Also kept."),
    ];
    assert_eq!(extract_doc_comment(&attrs), " Kept.\n Also kept.");
}

const SOURCE: &str = "\
/// Reads the value.
///
/// # Safety
/// `p` must be valid.
pub unsafe fn read<T: ~const Copy>(p: *const T) -> T {
    *p
}

#[derive(Clone)]
/// A bag.
pub struct Bag<T> where T: Copy {
    item: T,
}

/// Allocates.
pub unsafe trait Alloc: Sized {
    const N: usize;
    /// Frees.
    unsafe fn free(&self);
}

impl Bag<u8> {
    type Out = u8;
    fn get(&self) -> u8 { self.item }
}
";

#[test]
fn units_of_a_parsed_source() {
    let (units, has) = file_units_of_source(SOURCE).unwrap();
    assert!(has);
    let names: Vec<&str> = units.iter().map(|u| u.name.as_str()).collect();
    assert_eq!(names, vec!["read", "Bag", "Alloc", "free", "get"]);
    assert_eq!(units[0].comment, " Reads the value.\n\n # Safety\n `p` must be valid.");
    assert_eq!((units[0].line_number_start, units[0].line_number_end), (1, 7));
    assert!(units[0].is_unsafe);
    assert!(!units[0].declaration_text.contains("~const"));
    assert_eq!(units[1].comment, " A bag.");
    assert_eq!(units[1].declaration_text, "struct Bag T where T : Copy { item : T , }");
    assert_eq!(units[2].declaration_text, "trait Alloc : Sized");
    assert!(units[2].is_unsafe);
    assert_eq!(units[3].parent_struct_or_trait.as_deref(), Some("Alloc"));
    assert_eq!(units[3].comment, " Frees.");
    assert_eq!(units[3].line_number_start, 18);
    assert_eq!(units[4].parent_struct_or_trait.as_deref(), Some("Bag < u8 >"));
    assert_eq!(units[4].declaration_text, "fn get (& self) -> u8");
    assert_eq!(units[4].comment, "");
}

#[test]
fn a_source_without_documented_unsafe_items() {
    let (units, has) = file_units_of_source("/// Safe.\nfn f() {}\nunsafe fn g() {}\n").unwrap();
    assert!(!has);
    assert_eq!(units.len(), 2);
    let (units, has) = file_units_of_source("").unwrap();
    assert!(units.is_empty());
    assert!(!has);
}

#[test]
fn a_source_that_does_not_parse() {
    let err = file_units_of_source("fn f( {\n").err().unwrap();
    assert!(!err.message.is_empty());
    assert_eq!(err.start_line, 1);
}

#[test]
fn a_bodyless_function_in_a_source() {
    let (units, has) = file_units_of_source("/// Safety: none.\npub unsafe fn foo() -> u8;\nstatic X: u8 = 1;\n").unwrap();
    assert!(has);
    assert_eq!(units.len(), 1);
    assert_eq!(units[0].name, "foo");
    assert!(units[0].is_unsafe);
    assert_eq!(units[0].comment, " Safety: none.");
    assert_eq!((units[0].line_number_start, units[0].line_number_end), (1, 2));
    assert_eq!(units[0].declaration_text, "unsafe fn foo () -> u8");
}
