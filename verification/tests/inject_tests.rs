use raudit::inject::{
    chain_positions_defined, const_fn_ranges, FnLines, ItemLines, MemberLines,
    arg_temp_name, callee_leaf, callee_leaf_matches, call_is_target, callsite_id, callsite_ret_ident,
    contains, expr_call_matches_callee, files_to_inject, first_marked, is_klee_ret_name,
    is_known_raw_pointer_operand, is_place_expr, is_scalar_index_bind_candidate, lex_less,
    line_in_ranges, manifest_entry_action, method_call_matches_callee, normalize_callsite_ids,
    order_injections_for_source, plan_file_injections, receiver_mode, relative_path_parts,
    simple_ident_name, skip_reasons, sorted_unique, source_line_starts_call_expr,
    source_statement_contains_callee, span_matches, span_starts_at_location, target_path, usage,
    Callsite, ExprShape, FnInfo, Injection, LineColumn, Meta, Report, Target,
};

fn injection(line: usize, col: usize) -> Injection {
    Injection {
        id: "src-vec-rs-206-20".to_string(),
        line,
        col,
        callee_name: None,
        raw_pointer_deref: false,
        source_line: None,
    }
}

fn target(path: Option<&str>, caller_path: Option<&str>, line: usize, col: usize, id: Option<&str>) -> Target {
    Target {
        caller: Some(FnInfo { name: None, path: caller_path.map(|p| p.to_string()) }),
        callee: None,
        callsite: Callsite { line, col, path: path.map(|p| p.to_string()), id: id.map(|i| i.to_string()) },
    }
}

fn meta_with(targets: Vec<Target>) -> Meta {
    Meta { crate_dir: None, crate_name: None, description: None, report: Report { targets } }
}

#[test]
fn callsite_id_uses_relative_path_line_and_col() {
    assert_eq!(callsite_id(r"src\nested/foo.rs", 43, 13), "src-nested-foo-rs-43-13");
}

#[test]
fn span_matches_accepts_adjacent_columns() {
    let expr: syn::Expr = syn::parse_str("ptr.add(index)").unwrap();
    let span = syn::spanned::Spanned::span(&expr);
    let start = span.start();
    let end = span.end();
    let s = LineColumn { line: start.line, column: start.column };
    let e = LineColumn { line: end.line, column: end.column };
    let start_col = start.column + 1;
    assert!(span_matches(&s, &e, &injection(start.line, start_col.saturating_sub(1))));
    assert!(span_matches(&s, &e, &injection(start.line, start_col + 1)));
}

#[test]
fn normalize_callsite_ids_replaces_existing_ids() {
    let mut meta = meta_with(vec![target(None, Some("src/lib.rs"), 10, 2, Some("stale"))]);
    normalize_callsite_ids(&mut meta);
    assert_eq!(meta.report.targets[0].callsite.id.as_deref(), Some("src-lib-rs-10-2"));
}

#[test]
fn normalize_callsite_ids_uses_unknown_without_a_path() {
    let mut meta = meta_with(vec![Target {
        caller: None,
        callee: None,
        callsite: Callsite { line: 3, col: 4, path: None, id: None },
    }]);
    normalize_callsite_ids(&mut meta);
    assert_eq!(meta.report.targets[0].callsite.id.as_deref(), Some("unknown-3-4"));
}

#[test]
fn normalize_callsite_ids_twice_keeps_the_ids() {
    let mut meta = meta_with(vec![
        target(Some("src/a.rs"), None, 1, 1, None),
        target(None, Some("src/b.rs"), 7, 30, Some("x")),
    ]);
    normalize_callsite_ids(&mut meta);
    let first: Vec<Option<String>> = meta.report.targets.iter().map(|t| t.callsite.id.clone()).collect();
    normalize_callsite_ids(&mut meta);
    let second: Vec<Option<String>> = meta.report.targets.iter().map(|t| t.callsite.id.clone()).collect();
    assert_eq!(first, second);
    assert_eq!(first[0].as_deref(), Some("src-a-rs-1-1"));
    assert_eq!(first[1].as_deref(), Some("src-b-rs-7-30"));
}

#[test]
fn callsite_ids_of_one_file_differ() {
    assert_ne!(callsite_id("src/lib.rs", 1, 23), callsite_id("src/lib.rs", 12, 3));
    assert_eq!(callsite_id("src/lib.rs", 1, 23), "src-lib-rs-1-23");
    assert_eq!(callsite_id("src/lib.rs", 12, 3), "src-lib-rs-12-3");
}

#[test]
fn target_path_prefers_the_call_site_path() {
    assert_eq!(target_path(&target(Some("a.rs"), Some("b.rs"), 1, 1, None)), Some("a.rs"));
    assert_eq!(target_path(&target(None, Some("b.rs"), 1, 1, None)), Some("b.rs"));
    assert_eq!(target_path(&target(None, None, 1, 1, None)), None);
}

#[test]
fn usage_names_the_arguments() {
    assert_eq!(usage(), "usage: autoinj <cargo-dir> <meta-json> <dest-dir>");
}

#[test]
fn callee_leaf_takes_the_last_segment() {
    assert_eq!(callee_leaf("core::ptr::write").as_deref(), Some("write"));
    assert_eq!(callee_leaf("write").as_deref(), Some("write"));
    assert_eq!(callee_leaf("core::slice::<impl [T]>::get_unchecked").as_deref(), Some("get_unchecked"));
    assert!(callee_leaf_matches("std::ptr::read_unaligned", "read_unaligned"));
    assert!(!callee_leaf_matches("std::ptr::read_unaligned", "read"));
}

#[test]
fn span_contains_uses_one_based_columns() {
    let s = LineColumn { line: 3, column: 8 };
    let e = LineColumn { line: 3, column: 20 };
    assert!(contains(&s, &e, 3, 9));
    assert!(!contains(&s, &e, 3, 8));
    assert!(contains(&s, &e, 3, 21));
    assert!(!contains(&s, &e, 3, 22));
    assert!(!contains(&s, &e, 2, 9));
    assert!(span_matches(&s, &e, &injection(3, 8)));
    assert!(!span_matches(&s, &e, &injection(3, 7)));
}

#[test]
fn span_starts_at_location_allows_one_column_either_way() {
    let s = LineColumn { line: 5, column: 17 };
    assert!(span_starts_at_location(&s, &injection(5, 18)));
    assert!(span_starts_at_location(&s, &injection(5, 17)));
    assert!(span_starts_at_location(&s, &injection(5, 19)));
    assert!(!span_starts_at_location(&s, &injection(5, 20)));
    assert!(!span_starts_at_location(&s, &injection(6, 18)));
}

#[test]
fn ret_ident_sanitizes_the_id_and_callee() {
    assert_eq!(
        callsite_ret_ident("src-lib-rs-3-30", Some("std::ptr::mut_ptr::<impl *mut T>::add")),
        "__klee_ret_src_lib_rs_3_30_add"
    );
    assert_eq!(
        callsite_ret_ident("src-lib-rs-3-15", Some("core::ptr::read_unaligned")),
        "__klee_ret_src_lib_rs_3_15_read_unaligned"
    );
    assert_eq!(callsite_ret_ident("a.b", None), "__klee_ret_a_b_call");
}

#[test]
fn arg_names_and_ret_names() {
    assert_eq!(arg_temp_name(0), "__klee_arg0");
    assert_eq!(arg_temp_name(12), "__klee_arg12");
    assert!(is_klee_ret_name("__klee_ret_src_lib_rs_3_9_add"));
    assert!(!is_klee_ret_name("__klee_arg0"));
}

#[test]
fn receiver_modes_of_methods() {
    let m = receiver_mode("get_unchecked_mut");
    assert!(m.mutable_receiver && m.binds_len_and_index && !m.bind_receiver_in_place);
    let m = receiver_mode("get_unchecked");
    assert!(!m.mutable_receiver && m.binds_len_and_index);
    let m = receiver_mode("pop_unsafe");
    assert!(m.mutable_receiver);
    let m = receiver_mode("copy_within");
    assert!(m.mutable_receiver);
    let m = receiver_mode("as_mut_ptr");
    assert!(m.mutable_receiver);
    let m = receiver_mode("set_len");
    assert!(m.bind_receiver_in_place && !m.mutable_receiver);
    let m = receiver_mode("add");
    assert!(!m.mutable_receiver && !m.bind_receiver_in_place && !m.binds_len_and_index);
}

#[test]
fn expression_shapes() {
    let field = ExprShape::Field { member: Some("end".to_string()) };
    assert!(is_place_expr(&field));
    assert!(is_place_expr(&ExprShape::Paren(Box::new(ExprShape::Unary { deref: true }))));
    assert!(!is_place_expr(&ExprShape::Unary { deref: false }));
    assert!(!is_place_expr(&ExprShape::Call));
    assert!(is_scalar_index_bind_candidate(&ExprShape::Other));
    assert!(!is_scalar_index_bind_candidate(&ExprShape::Group(Box::new(ExprShape::MethodCall {
        method: "len".to_string(),
        arg_count: 0,
    }))));
    let places = vec!["instruction_pointer".to_string()];
    assert!(is_known_raw_pointer_operand(
        &ExprShape::Field { member: Some("instruction_pointer".to_string()) },
        &places
    ));
    assert!(!is_known_raw_pointer_operand(&ExprShape::Field { member: Some("buf".to_string()) }, &places));
    assert!(is_known_raw_pointer_operand(&ExprShape::Cast { to_pointer: true }, &places));
    assert!(is_known_raw_pointer_operand(
        &ExprShape::MethodCall { method: "cast".to_string(), arg_count: 0 },
        &places
    ));
    assert_eq!(
        simple_ident_name(&ExprShape::Path { last: Some("ptr".to_string()), simple: true }).as_deref(),
        Some("ptr")
    );
    assert_eq!(simple_ident_name(&ExprShape::Path { last: Some("ptr".to_string()), simple: false }), None);
}

#[test]
fn source_line_call_start_and_statement() {
    let mut inj = injection(3, 9);
    inj.callee_name = Some("core::ptr::write".to_string());
    inj.source_line = Some("        core::ptr::write(ptr, 1);\n    }".to_string());
    assert!(source_statement_contains_callee(&inj));
    inj.source_line = Some("        self.buf.copy_within(1..2, 0);".to_string());
    assert!(source_line_starts_call_expr(&inj));
    inj.source_line = Some("        1 + x;".to_string());
    assert!(!source_line_starts_call_expr(&inj));
    assert!(!source_statement_contains_callee(&inj));
}

#[test]
fn callee_matching_of_calls() {
    assert!(method_call_matches_callee("add", Some("core::ptr::mut_ptr::<impl *mut T>::add")));
    assert!(!method_call_matches_callee("as_mut", Some("core::ptr::mut_ptr::<impl *mut T>::add")));
    assert!(method_call_matches_callee("anything", None));
    assert!(expr_call_matches_callee(Some("write"), Some("core::ptr::write")));
    assert!(!expr_call_matches_callee(Some("read"), Some("core::ptr::write")));
    assert!(expr_call_matches_callee(None, Some("core::ptr::write")));
    let s = LineColumn { line: 4, column: 8 };
    let e = LineColumn { line: 4, column: 30 };
    let mut inj = injection(4, 9);
    inj.callee_name = Some("core::ptr::write".to_string());
    assert!(call_is_target(&s, &e, Some("write"), &inj));
    assert!(!call_is_target(&s, &e, Some("read"), &injection(5, 9)));
}

#[test]
fn plan_keeps_report_order_and_ids() {
    let meta = meta_with(vec![
        target(Some("src/lib.rs"), None, 3, 9, Some("src-lib-rs-3-9")),
        target(Some("src/other.rs"), None, 1, 1, Some("src-other-rs-1-1")),
        target(None, Some("src/lib.rs"), 4, 15, Some("src-lib-rs-4-15")),
    ]);
    let plan = plan_file_injections(&meta, "src/lib.rs");
    assert_eq!(plan.len(), 2);
    assert_eq!(plan[0].id, "src-lib-rs-3-9");
    assert_eq!((plan[0].line, plan[0].col), (3, 9));
    assert_eq!(plan[1].id, "src-lib-rs-4-15");
}

#[test]
fn injections_at_distinct_locations_keep_their_order() {
    let a = injection(3, 9);
    let b = injection(1, 5);
    let out = order_injections_for_source("fn f() {}\n", &[a, b]);
    assert_eq!((out[0].line, out[1].line), (3, 1));
}

#[test]
fn files_to_inject_are_sorted_and_unique() {
    let meta = meta_with(vec![
        target(Some("src/z.rs"), None, 1, 1, None),
        target(Some("src/a.rs"), None, 1, 1, None),
        target(Some("src/z.rs"), None, 2, 1, None),
        target(Some("src/gone.rs"), None, 2, 1, None),
    ]);
    let files = files_to_inject(&meta, &vec![true, true, true, false]);
    assert_eq!(files, vec!["src/a.rs".to_string(), "src/z.rs".to_string()]);
    assert_eq!(
        sorted_unique(&vec!["b".to_string(), "a".to_string(), "b".to_string()]),
        vec!["a".to_string(), "b".to_string()]
    );
    assert!(lex_less(&['a', 'b'], &['a', 'c']));
    assert!(lex_less(&['a'], &['a', 'b']));
    assert!(!lex_less(&['b'], &['a', 'z']));
}

#[test]
fn skip_reasons_by_line_ranges() {
    let macros = vec![(10, 12)];
    let consts = vec![(20, 30), (40, 41)];
    assert!(line_in_ranges(12, &macros));
    assert!(!line_in_ranges(13, &macros));
    let r = skip_reasons(41, &macros, &consts);
    assert!(!r.in_macro && r.in_const);
    let r = skip_reasons(11, &macros, &consts);
    assert!(r.in_macro && !r.in_const);
}

#[test]
fn relative_paths_and_manifest_entries() {
    let from: Vec<String> = ["generated", "deep", "crate"].iter().map(|s| s.to_string()).collect();
    let to: Vec<String> = ["source", "local-dep"].iter().map(|s| s.to_string()).collect();
    assert_eq!(relative_path_parts(&from, &to), vec!["..", "..", "..", "source", "local-dep"]);
    let from: Vec<String> = ["a", "b"].iter().map(|s| s.to_string()).collect();
    let to: Vec<String> = ["a", "c"].iter().map(|s| s.to_string()).collect();
    assert_eq!(relative_path_parts(&from, &to), vec!["..", "c"]);
    let a = manifest_entry_action(false, "dependencies");
    assert!(a.nested_dependency_context && !a.rebase_path);
    let a = manifest_entry_action(true, "path");
    assert!(a.rebase_path);
    let a = manifest_entry_action(false, "path");
    assert!(!a.rebase_path && !a.nested_dependency_context);
    let a = manifest_entry_action(false, "lib");
    assert!(!a.nested_dependency_context);
    let names = vec!["x".to_string(), "y".to_string(), "z".to_string()];
    assert_eq!(first_marked(&names, &vec![false, true, true]), Some(1));
    assert_eq!(first_marked(&names, &vec![false, false, false]), None);
}

#[test]
fn chain_positions_need_character_boundaries() {
    let mut a = injection(1, 3);
    a.callee_name = Some("core::ptr::add".to_string());
    let mut b = injection(1, 3);
    b.callee_name = Some("core::ptr::as_mut".to_string());
    // Column 3 is byte 2, inside the two-byte `é`.
    assert!(!chain_positions_defined("xé.add(1).as_mut()\n", &[a, b]));
    let mut c = injection(1, 2);
    c.callee_name = Some("core::ptr::add".to_string());
    let mut d = injection(1, 2);
    d.callee_name = Some("core::ptr::as_mut".to_string());
    assert!(chain_positions_defined("xé.add(1).as_mut()\n", &[c, d]));
    assert!(chain_positions_defined("xé\n", &[injection(1, 3)]));
}

#[test]
fn injections_at_one_location_go_outer_call_last() {
    let source = "fn f() {\n    ptr.add(index).as_mut().unwrap();\n}\n";
    let mut add = injection(2, 5);
    add.id = "add".to_string();
    add.callee_name = Some("core::ptr::mut_ptr::<impl *mut T>::add".to_string());
    let mut as_mut = injection(2, 5);
    as_mut.id = "as_mut".to_string();
    as_mut.callee_name = Some("core::ptr::mut_ptr::<impl *mut T>::as_mut".to_string());
    let out = order_injections_for_source(source, &[add, as_mut]);
    assert_eq!(out[0].id, "as_mut");
    assert_eq!(out[1].id, "add");
}

#[test]
fn outcome_of_the_search_for_a_call_site() {
    use_outcome();
}

fn use_outcome() {
    assert!(raudit::inject::injection_outcome(true, true) == raudit::inject::InjectionOutcome::Inserted);
    assert!(raudit::inject::injection_outcome(false, true) == raudit::inject::InjectionOutcome::SkippedRawDeref);
    assert!(raudit::inject::injection_outcome(false, false) == raudit::inject::InjectionOutcome::NoCallFound);
}

#[test]
fn relative_path_leads_back_to_the_target() {
    let from: Vec<String> = ["/", "work", "generated", "deep", "crate"].iter().map(|s| s.to_string()).collect();
    let to: Vec<String> = ["/", "work", "source", "local-dep"].iter().map(|s| s.to_string()).collect();
    let parts = relative_path_parts(&from, &to);
    let mut at = from.clone();
    for p in &parts {
        if p == ".." {
            at.pop();
        } else {
            at.push(p.clone());
        }
    }
    assert_eq!(at, to);
}

#[test]
fn consecutive_locations_sort_by_chain_then_report_order() {
    let source = "fn f() {\n    ptr.add(i).as_mut().unwrap();\n    g();\n}\n";
    let mut add = injection(2, 5);
    add.id = "add".to_string();
    add.callee_name = Some("core::ptr::mut_ptr::<impl *mut T>::add".to_string());
    let mut as_mut = injection(2, 5);
    as_mut.id = "as_mut".to_string();
    as_mut.callee_name = Some("core::ptr::mut_ptr::<impl *mut T>::as_mut".to_string());
    let mut g = injection(3, 5);
    g.id = "g".to_string();
    let out = order_injections_for_source(source, &[add, as_mut, g]);
    let ids: Vec<&str> = out.iter().map(|i| i.id.as_str()).collect();
    assert_eq!(ids, vec!["as_mut", "add", "g"]);
}

#[test]
fn const_fn_ranges_of_items_and_impl_methods() {
    let f = |is_const: bool, start: usize, end: usize| FnLines { is_const, start_line: start, end_line: end };
    let items = vec![
        ItemLines::Fn(f(true, 1, 3)),
        ItemLines::Fn(f(false, 5, 6)),
        ItemLines::Other,
        ItemLines::Impl(vec![MemberLines::Fn(f(false, 9, 10)), MemberLines::Other, MemberLines::Fn(f(true, 12, 14))]),
        ItemLines::Fn(f(true, 20, 20)),
    ];
    assert_eq!(const_fn_ranges(&items), vec![(1, 3), (12, 14), (20, 20)]);
    assert!(const_fn_ranges(&vec![ItemLines::Impl(vec![]), ItemLines::Other]).is_empty());
    let reasons = skip_reasons(13, &vec![], &const_fn_ranges(&items));
    assert!(reasons.in_const && !reasons.in_macro);
}
