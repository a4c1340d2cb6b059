use raudit::report::{
    configured_max_call_depth, dedup_fn_infos, fn_info_from_parts, get_doc_line_start_from_source,
    is_core_or_std_path, is_doc_attr_line, is_doc_comment_line, normalize_to_rust_relative,
    record_trait_method, snippet_is_visible, source_relative_path, struct_info_from_parts,
    symbol_match_hint, trait_reveals_impl_methods, AffectedPath, FnInfo, TraitMethodInfo,
};

fn fn_info(name: &str, path: &str, line_start: usize, line_end: usize) -> FnInfo {
    let mut f = fn_info_from_parts(name, path, line_start, line_end, line_end, false, false, None, None, None, None);
    f.path = path.to_string();
    f
}

#[test]
fn paths_relative_to_the_rust_checkout() {
    assert_eq!(
        normalize_to_rust_relative(r"C:\work\rust\library\core\src\ptr\mod.rs"),
        "rust/library/core/src/ptr/mod.rs"
    );
    assert_eq!(normalize_to_rust_relative("/home/u/rust/library/alloc/src/vec.rs"), "rust/library/alloc/src/vec.rs");
    assert_eq!(normalize_to_rust_relative("rust/library/std/src/lib.rs"), "rust/library/std/src/lib.rs");
    assert_eq!(normalize_to_rust_relative("src/lib.rs"), "src/lib.rs");
    assert_eq!(normalize_to_rust_relative("a/rust/b/rust/c.rs"), "rust/b/rust/c.rs");
}

#[test]
fn source_paths_relative_to_the_working_directory() {
    assert_eq!(source_relative_path("/home/u/crate/src/lib.rs", Some("/home/u/crate")), "src/lib.rs");
    assert_eq!(source_relative_path(r"C:\c\src\a.rs", Some(r"C:\c")), "src/a.rs");
    assert_eq!(
        source_relative_path("/opt/rust/library/core/src/lib.rs", Some("/home/u/crate")),
        "rust/library/core/src/lib.rs"
    );
    assert_eq!(source_relative_path("src/x.rs", None), "src/x.rs");
    assert!(is_core_or_std_path("core::ptr::write"));
    assert!(is_core_or_std_path("std::mem::swap"));
    assert!(!is_core_or_std_path("alloc::vec::Vec"));
}

#[test]
fn doc_line_kinds() {
    assert!(is_doc_attr_line("    #[doc = \"x\"]"));
    assert!(is_doc_attr_line("# [doc (hidden)]"));
    assert!(!is_doc_attr_line("#[inline]"));
    assert!(is_doc_comment_line("  /// Safety"));
    assert!(is_doc_comment_line("//! crate docs"));
    assert!(!is_doc_comment_line("// plain"));
}

#[test]
fn doc_start_skips_attributes_and_blank_lines() {
    let source = "use x;\n\n/// First.\n/// Second.\n#[doc = \"third\"]\n#[inline]\n\npub unsafe fn f() {}\n";
    assert_eq!(get_doc_line_start_from_source(source, 8), Some(3));
    assert_eq!(get_doc_line_start_from_source(source, 1), None);
    assert_eq!(get_doc_line_start_from_source("fn a() {}\nfn b() {}\n", 2), None);
    assert_eq!(get_doc_line_start_from_source("#[inline]\nfn b() {}\n", 2), None);
    assert_eq!(get_doc_line_start_from_source("", 5), None);
    assert_eq!(get_doc_line_start_from_source("/// d\nfn f() {}\n", 40), None);
    assert_eq!(get_doc_line_start_from_source("/// d\n/// e", 40), Some(1));
}

#[test]
fn symbol_hints_and_rendered_paths() {
    assert_eq!(symbol_match_hint("core::iter::Iterator", "next"), "Iterator::next");
    assert_eq!(symbol_match_hint("Source", "read"), "Source::read");
    let p = AffectedPath { root: "Root".to_string(), suffix: ".items[*].x".to_string() };
    assert_eq!(p.rendered(), "Root.items[*].x");
}

#[test]
fn fn_info_from_compiler_facts() {
    let f = fn_info_from_parts(
        "alloc::vec::Vec::<T>::as_mut_ptr",
        "/x/rust/library/alloc/src/vec/mod.rs",
        100,
        101,
        105,
        true,
        false,
        Some("core::ops::Deref".to_string()),
        Some("*mut T".to_string()),
        None,
        Some(97),
    );
    assert_eq!(f.path, "rust/library/alloc/src/vec/mod.rs");
    assert_eq!((f.line_start, f.line_end, f.body_end), (97, 101, 105));
    assert_eq!(f.symbol_match_hint.as_deref(), Some("Deref::as_mut_ptr"));
    assert!(f.require_template && !f.is_unsafe);
    let g = fn_info_from_parts("f", "src/lib.rs", 10, 10, 12, false, true, None, None, Some(8), Some(9));
    assert_eq!(g.line_start, 8);
    assert_eq!(g.symbol_match_hint, None);
    let h = fn_info_from_parts("f", "src/lib.rs", 10, 10, 12, false, true, None, None, None, None);
    assert_eq!(h.line_start, 10);
    let s = struct_info_from_parts("crate::Bag", r"src\bag.rs", 3, 9, true);
    assert_eq!((s.path.as_str(), s.line_start, s.body_end, s.is_public), ("src/bag.rs", 3, 9, true));
}

#[test]
fn dedup_keeps_the_first_of_each_key() {
    let items = vec![
        fn_info("a", "src/lib.rs", 1, 1),
        fn_info("b", "src/lib.rs", 5, 5),
        fn_info("a", "src/lib.rs", 1, 9),
        fn_info("a", "src/lib.rs", 2, 2),
    ];
    let out = dedup_fn_infos(items);
    assert_eq!(out.len(), 3);
    assert_eq!((out[0].name.as_str(), out[0].line_end), ("a", 1));
    assert_eq!(out[1].name, "b");
    assert_eq!(out[2].line_start, 2);
    assert!(dedup_fn_infos(vec![]).is_empty());
}

#[test]
fn call_depth_setting() {
    assert_eq!(configured_max_call_depth(None), 1);
    assert_eq!(configured_max_call_depth(Some("3")), 3);
    assert_eq!(configured_max_call_depth(Some("deep")), 1);
    assert_eq!(configured_max_call_depth(Some("")), 1);
}

#[test]
fn trait_methods_are_listed_once() {
    let mut methods: Vec<TraitMethodInfo> = Vec::new();
    record_trait_method(&mut methods, "crate::Source", "read", "Counter", Some("usize".to_string()));
    record_trait_method(&mut methods, "crate::Source", "read", "Counter", Some("u8".to_string()));
    record_trait_method(&mut methods, "crate::Source", "reset", "Counter", None);
    assert_eq!(methods.len(), 2);
    assert_eq!(methods[0].return_ty, "usize");
    assert_eq!(methods[0].symbol_match_hint, "Source::read");
    assert_eq!(methods[1].return_ty, "()");
}

#[test]
fn visibility_of_snippets_and_traits() {
    assert!(snippet_is_visible("/// doc\n#[inline]\n    pub fn f() {}"));
    assert!(snippet_is_visible("pub(crate) struct S;"));
    assert!(!snippet_is_visible("fn private() {}\n// pub fn in a comment? no: starts with //"));
    assert!(!snippet_is_visible("publicity fn x() {}"));
    assert!(trait_reveals_impl_methods("core::iter::Iterator"));
    assert!(!trait_reveals_impl_methods("core::ops::drop::Drop"));
    assert!(!trait_reveals_impl_methods("my::Drop"));
}
