use raudit::fastcheck::{
    analyze_file, field_info, finding_line, is_blacklisted, is_skipped_dir, parse_args, parse_usize,
    path_starts_core_or_std, type_template_number, visibility_name, ArgError, CoreStdCollector,
    FieldDecl, FileItem, Finding, LineCol, ParsedArgs, ScannedFn, StructInfo, TypeArgs, TypeShape,
    UnsafeReference, Visibility, DEFAULT_THREADS,
};

fn strings(v: &[&str]) -> Vec<String> {
    v.iter().map(|s| s.to_string()).collect()
}

fn at(line: usize, column: usize) -> LineCol {
    LineCol { line, column }
}

/// The references that the walk of a body finds: each path is met at its
/// start, with its segments and token text, inside the `unsafe` block at
/// `unsafe_at`.
fn references_in_unsafe(unsafe_at: LineCol, paths: &[(LineCol, &[&str], &str)]) -> Vec<UnsafeReference> {
    let mut c = CoreStdCollector::new();
    c.enter_unsafe(unsafe_at);
    for (p, segments, text) in paths {
        c.visit_path(*p, &strings(segments), text.to_string());
    }
    c.exit_unsafe();
    c.into_references()
}

#[test]
fn finds_core_reference_under_public_safe_free_fn() {
    // pub fn init(ptr: *mut u8) {
    //     unsafe {
    //         core::ptr::write(ptr, 1);
    //     }
    // }
    let write: &[&str] = &["core", "ptr", "write"];
    let ptr: &[&str] = &["ptr"];
    let refs = references_in_unsafe(
        at(3, 4),
        &[
            (at(4, 8), write, "core :: ptr :: write"),
            (at(4, 8), write, "core :: ptr :: write"),
            (at(4, 25), ptr, "ptr"),
        ],
    );
    let items = vec![FileItem::Fn(ScannedFn {
        name: "init".to_string(),
        at: at(2, 7),
        is_public: true,
        is_unsafe: false,
        references: refs,
    })];

    let findings = analyze_file("sample.rs", &items);

    assert_eq!(findings.len(), 1);
    assert_eq!(findings[0].function, "init");
    assert_eq!(findings[0].function_kind, "free");
    assert_eq!(findings[0].reference, "core :: ptr :: write");
    assert!(findings[0].fields.is_empty());
}

#[test]
fn includes_struct_fields_for_public_safe_method() {
    // pub struct Bag<T> {
    //     pub item: Option<T>,
    //     secret: Vec<T>,
    // }
    let fields = vec![
        field_info(0, &FieldDecl {
            ident: Some("item".to_string()),
            vis: Visibility::Public,
            ty: TypeShape::Path(Some(TypeArgs::AngleBracketed(1))),
        }),
        field_info(1, &FieldDecl {
            ident: Some("secret".to_string()),
            vis: Visibility::Inherited,
            ty: TypeShape::Path(Some(TypeArgs::AngleBracketed(1))),
        }),
    ];
    let bag = StructInfo { name: "Bag".to_string(), visibility: "pub".to_string(), template_number: 1, fields };
    // impl<T> Bag<T> {
    //     pub fn put(&mut self, ptr: *mut T, value: T) {
    //         unsafe {
    //             std::ptr::write(ptr, value);
    //         }
    //     }
    // }
    let write: &[&str] = &["std", "ptr", "write"];
    let refs = references_in_unsafe(at(9, 8), &[(at(10, 12), write, "std :: ptr :: write")]);
    let items = vec![
        FileItem::Struct(bag),
        FileItem::Impl {
            self_type: Some("Bag".to_string()),
            methods: vec![ScannedFn {
                name: "put".to_string(),
                at: at(8, 11),
                is_public: true,
                is_unsafe: false,
                references: refs,
            }],
        },
    ];

    let findings = analyze_file("sample.rs", &items);

    assert_eq!(findings.len(), 1);
    assert_eq!(findings[0].function, "put");
    assert_eq!(findings[0].function_kind, "method");
    assert_eq!(findings[0].struct_name.as_deref(), Some("Bag"));
    assert_eq!(findings[0].struct_template_number, Some(1));
    assert_eq!(findings[0].fields.len(), 2);
    assert_eq!(findings[0].fields[0].name, "item");
    assert_eq!(findings[0].fields[0].visibility, "pub");
    assert_eq!(findings[0].fields[0].template_number, 1);
    assert_eq!(findings[0].fields[1].name, "secret");
    assert_eq!(findings[0].fields[1].visibility, "private");
    assert_eq!(findings[0].fields[1].template_number, 1);
}

#[test]
fn private_and_unsafe_functions_are_not_reported() {
    let write: &[&str] = &["core", "ptr", "write"];
    let items = vec![
        FileItem::Fn(ScannedFn {
            name: "hidden".to_string(),
            at: at(1, 3),
            is_public: false,
            is_unsafe: false,
            references: references_in_unsafe(at(2, 4), &[(at(3, 8), write, "core :: ptr :: write")]),
        }),
        FileItem::Fn(ScannedFn {
            name: "danger".to_string(),
            at: at(5, 14),
            is_public: true,
            is_unsafe: true,
            references: references_in_unsafe(at(6, 4), &[(at(7, 8), write, "core :: ptr :: write")]),
        }),
        FileItem::Impl {
            self_type: None,
            methods: vec![ScannedFn {
                name: "m".to_string(),
                at: at(9, 11),
                is_public: true,
                is_unsafe: false,
                references: references_in_unsafe(at(10, 4), &[(at(11, 8), write, "core :: ptr :: write")]),
            }],
        },
    ];
    assert!(analyze_file("x.rs", &items).is_empty());
}

#[test]
fn method_of_unknown_struct_has_no_struct() {
    let read: &[&str] = &["core", "ptr", "read"];
    let items = vec![FileItem::Impl {
        self_type: Some("Elsewhere".to_string()),
        methods: vec![ScannedFn {
            name: "get".to_string(),
            at: at(2, 11),
            is_public: true,
            is_unsafe: false,
            references: references_in_unsafe(at(3, 8), &[(at(3, 17), read, "core :: ptr :: read")]),
        }],
    }];
    let findings = analyze_file("x.rs", &items);
    assert_eq!(findings.len(), 1);
    assert_eq!(findings[0].struct_name, None);
    assert_eq!((findings[0].unsafe_line, findings[0].unsafe_col), (3, 8));
    assert_eq!((findings[0].reference_line, findings[0].reference_col), (3, 17));
    assert_eq!((findings[0].function_line, findings[0].function_col), (2, 11));
    assert_eq!(finding_line(&findings[0]), "x.rs:3,core::ptr::read,no");
}

#[test]
fn later_struct_of_the_same_name_is_used() {
    let first = StructInfo { name: "S".to_string(), visibility: "private".to_string(), template_number: 0, fields: vec![] };
    let second = StructInfo { name: "S".to_string(), visibility: "pub".to_string(), template_number: 2, fields: vec![] };
    let write: &[&str] = &["std", "ptr", "write"];
    let items = vec![
        FileItem::Struct(first),
        FileItem::Impl {
            self_type: Some("S".to_string()),
            methods: vec![ScannedFn {
                name: "f".to_string(),
                at: at(1, 1),
                is_public: true,
                is_unsafe: false,
                references: references_in_unsafe(at(2, 2), &[(at(3, 3), write, "std :: ptr :: write")]),
            }],
        },
        FileItem::Struct(second),
        FileItem::Other,
    ];
    let findings = analyze_file("s.rs", &items);
    assert_eq!(findings[0].struct_visibility.as_deref(), Some("pub"));
    assert_eq!(findings[0].struct_template_number, Some(2));
    assert_eq!(finding_line(&findings[0]), "s.rs:3,std::ptr::write,yes");
}

#[test]
fn collector_records_each_path_once_and_only_inside_unsafe() {
    let mut c = CoreStdCollector::new();
    c.visit_path(at(1, 1), &strings(&["core", "mem", "swap"]), "core :: mem :: swap".to_string());
    c.enter_unsafe(at(2, 0));
    c.enter_unsafe(at(3, 4));
    c.visit_path(at(4, 1), &strings(&["std", "ptr", "read"]), "std :: ptr :: read".to_string());
    c.visit_path(at(4, 1), &strings(&["std", "ptr", "read"]), "std :: ptr :: read".to_string());
    c.exit_unsafe();
    c.visit_path(at(5, 1), &strings(&["alloc", "vec"]), "alloc :: vec".to_string());
    c.visit_path(at(6, 1), &strings(&["core", "hint", "unreachable_unchecked"]), "core :: hint :: unreachable_unchecked".to_string());
    c.exit_unsafe();
    c.exit_unsafe();
    let refs = c.into_references();
    assert_eq!(refs.len(), 2);
    assert_eq!(refs[0].text, "std :: ptr :: read");
    assert!(refs[0].unsafe_at == at(3, 4));
    assert!(refs[1].unsafe_at == at(2, 0));
    assert!(path_starts_core_or_std(&strings(&["core"])));
    assert!(!path_starts_core_or_std(&strings(&["corex", "a"])));
    assert!(!path_starts_core_or_std(&vec![]));
}

#[test]
fn finding_line_strips_spaces() {
    let f = Finding {
        file: "src/a.rs".to_string(),
        function: "f".to_string(),
        function_kind: "free".to_string(),
        function_line: 1,
        function_col: 7,
        unsafe_line: 2,
        unsafe_col: 4,
        reference: "core :: ptr :: write".to_string(),
        reference_line: 120,
        reference_col: 8,
        struct_name: None,
        struct_visibility: None,
        struct_template_number: None,
        fields: vec![],
    };
    assert_eq!(finding_line(&f), "src/a.rs:120,core::ptr::write,no");
}

#[test]
fn thread_counts_parse_like_usize() {
    assert_eq!(parse_usize("8"), Some(8));
    assert_eq!(parse_usize("+12"), Some(12));
    assert_eq!(parse_usize("007"), Some(7));
    assert_eq!(parse_usize(""), None);
    assert_eq!(parse_usize("+"), None);
    assert_eq!(parse_usize("-1"), None);
    assert_eq!(parse_usize("1x"), None);
    assert_eq!(parse_usize("99999999999999999999999"), None);
    assert_eq!(parse_usize(&usize::MAX.to_string()), Some(usize::MAX));
}

#[test]
fn parse_args_reads_threads_and_directory() {
    match parse_args(&strings(&["-j", "4", "crates"])) {
        Ok(ParsedArgs::Run(c)) => {
            assert_eq!(c.threads, 4);
            assert_eq!(c.root, "crates");
            assert_eq!(c.blacklist, vec!["windows".to_string()]);
        },
        _ => panic!("expected a run"),
    }
    match parse_args(&strings(&[])) {
        Ok(ParsedArgs::Run(c)) => {
            assert_eq!(c.threads, DEFAULT_THREADS);
            assert_eq!(c.root, ".");
        },
        _ => panic!("expected a run"),
    }
    assert!(matches!(parse_args(&strings(&["--help", "-x"])), Ok(ParsedArgs::Help)));
}

#[test]
fn thread_flag_forms_agree() {
    let a = parse_args(&strings(&["dir", "-j", "3"]));
    let b = parse_args(&strings(&["dir", "--threads=3"]));
    let c = parse_args(&strings(&["dir", "--threads", "3"]));
    for r in [a, b, c] {
        match r {
            Ok(ParsedArgs::Run(c)) => assert_eq!((c.threads, c.root.as_str()), (3, "dir")),
            _ => panic!("expected a run"),
        }
    }
}

#[test]
fn parse_args_errors() {
    let e = |args: &[&str]| match parse_args(&strings(args)) {
        Err(e) => e.message(),
        Ok(_) => panic!("expected an error"),
    };
    assert_eq!(e(&["-j"]), "-j requires a value");
    assert_eq!(e(&["--threads", "x"]), "invalid thread count: x");
    assert_eq!(e(&["--threads=-3"]), "invalid thread count: -3");
    assert_eq!(e(&["--verbose"]), "unknown option: --verbose");
    assert_eq!(e(&["a", "b"]), "only one directory argument is supported");
    assert_eq!(e(&["-j", "0"]), "thread count must be greater than zero");
    assert!(matches!(parse_args(&strings(&["a", "b"])), Err(ArgError::MultipleDirectories)));
    assert!(matches!(parse_args(&strings(&["--threads=0"])), Err(ArgError::ZeroThreads)));
}

#[test]
fn skipped_dirs_and_blacklist() {
    assert!(is_skipped_dir(Some("target")));
    assert!(is_skipped_dir(Some(".git")));
    assert!(!is_skipped_dir(Some("src")));
    assert!(!is_skipped_dir(None));
    let bl = vec!["windows".to_string(), String::new()];
    assert!(is_blacklisted("./crates/windows-sys/src/lib.rs", &bl));
    assert!(!is_blacklisted("./crates/libc/src/lib.rs", &bl));
    assert!(!is_blacklisted("x", &vec![String::new()]));
}

#[test]
fn declarations_are_reported() {
    assert_eq!(visibility_name(&Visibility::Public), "pub");
    assert_eq!(visibility_name(&Visibility::Restricted("pub (crate)".to_string())), "pub (crate)");
    assert_eq!(visibility_name(&Visibility::Inherited), "private");
    assert_eq!(type_template_number(&TypeShape::Path(Some(TypeArgs::AngleBracketed(2)))), 2);
    assert_eq!(
        type_template_number(&TypeShape::Path(Some(TypeArgs::Parenthesized { inputs: 2, has_output: true }))),
        3
    );
    assert_eq!(type_template_number(&TypeShape::Path(Some(TypeArgs::Bare))), 0);
    assert_eq!(type_template_number(&TypeShape::Path(None)), 0);
    assert_eq!(type_template_number(&TypeShape::Other), 0);
    let f = field_info(3, &FieldDecl { ident: None, vis: Visibility::Inherited, ty: TypeShape::Other });
    assert_eq!((f.name.as_str(), f.visibility.as_str(), f.template_number), ("3", "private", 0));
}

#[test]
fn repeated_threads_prefixes_are_all_taken_off() {
    match parse_args(&strings(&["--threads=--threads=4"])) {
        Ok(ParsedArgs::Run(c)) => assert_eq!(c.threads, 4),
        _ => panic!("expected a run"),
    }
    match parse_args(&strings(&["--threads=--threads=x"])) {
        Err(e) => assert_eq!(e.message(), "invalid thread count: x"),
        Ok(_) => panic!("expected an error"),
    }
    match parse_args(&strings(&["-j", "--threads=4"])) {
        Err(e) => assert_eq!(e.message(), "invalid thread count: --threads=4"),
        Ok(_) => panic!("expected an error"),
    }
}
