use raudit::driver::{default_args, driver_step, rustc_arguments, DriverStep};

fn parts(v: &[&str]) -> Vec<String> {
    v.iter().map(|s| s.to_string()).collect()
}

#[test]
fn compiler_arguments_put_the_defaults_after_the_program() {
    let args = rustc_arguments(&parts(&["raudit", "--crate-name", "x", "src/lib.rs"]));
    assert_eq!(
        args,
        parts(&[
            "raudit",
            "-Zalways-encode-mir",
            "-Zextra-const-ub-checks",
            "-Zmir-emit-retag",
            "-Zmir-opt-level=0",
            "-Zdeduplicate-diagnostics=no",
            "--crate-name",
            "x",
            "src/lib.rs",
        ])
    );
    assert!(rustc_arguments(&vec![]).is_empty());
    assert_eq!(rustc_arguments(&parts(&["rustc"])).len(), 1 + default_args().len());
}

#[test]
fn report_is_written_only_for_the_crate_in_the_working_directory() {
    let out = parts(&["/", "work", "c", "target", "debug", "deps"]);
    let cwd = parts(&["/", "work", "c"]);
    match driver_step(Some(&out), &cwd, Some("/work/c/report.json".to_string())) {
        DriverStep::Analyze(p) => assert_eq!(p, "/work/c/report.json"),
        _ => panic!("expected the report to be written"),
    }
    assert!(matches!(driver_step(Some(&out), &cwd, None), DriverStep::Continue));
    let other = parts(&["/", "work", "dep"]);
    assert!(matches!(driver_step(Some(&out), &other, Some("r.json".to_string())), DriverStep::Continue));
    assert!(matches!(driver_step(None, &cwd, Some("r.json".to_string())), DriverStep::Stop));
    let shallow = parts(&["/", "deps"]);
    assert!(matches!(driver_step(Some(&shallow), &parts(&["/"]), Some("r".to_string())), DriverStep::Analyze(_)));
}
