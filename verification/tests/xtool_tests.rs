use raudit::xtool::{
    resolve_step, run_check_spec_equal, Command, LevelFilter, LogLevel, Options, ResolveAction, ResolveStage,
};

#[test]
fn log_levels_map_to_filters() {
    assert!(LogLevel::Error.to_level_filter() == LevelFilter::Error);
    assert!(LogLevel::Warn.to_level_filter() == LevelFilter::Warn);
    assert!(LogLevel::Info.to_level_filter() == LevelFilter::Info);
    assert!(LogLevel::Debug.to_level_filter() == LevelFilter::Debug);
    assert!(LogLevel::Trace.to_level_filter() == LevelFilter::Trace);
}

#[test]
fn check_spec_equal_succeeds() {
    let options = Options { log_level: LogLevel::Info, command: Command::CheckSpecEqual };
    assert!(run_check_spec_equal(&options).is_ok());
}

#[test]
fn setting_wins() {
    let (stage, action) = resolve_step(ResolveStage::Start, None);
    assert!(stage == ResolveStage::Setting);
    assert!(matches!(action, ResolveAction::ReadSetting));
    let (_, action) = resolve_step(stage, Some("/opt/raudit".to_string()));
    assert!(matches!(action, ResolveAction::Use(p) if p == "/opt/raudit"));
}

#[test]
fn search_order_without_anything_found() {
    let mut stage = ResolveStage::Start;
    let mut seen: Vec<String> = Vec::new();
    loop {
        let (next, action) = resolve_step(stage, None);
        match action {
            ResolveAction::ReadSetting => seen.push("setting".to_string()),
            ResolveAction::CheckLocalBinary => seen.push("local".to_string()),
            ResolveAction::BuildLocal => seen.push("build".to_string()),
            ResolveAction::SearchPath(n) => seen.push(format!("path:{n}")),
            ResolveAction::Use(p) => panic!("unexpected driver {p}"),
            ResolveAction::Fail(m) => {
                assert!(m.starts_with("could not find mirscan rustc binary"));
                break;
            },
        }
        stage = next;
    }
    assert_eq!(seen, vec!["setting", "local", "build", "local", "path:raudit", "path:mirscan"]);
}

#[test]
fn built_driver_is_used() {
    let (stage, action) = resolve_step(ResolveStage::Built, None);
    assert!(matches!(action, ResolveAction::CheckLocalBinary));
    let (_, action) = resolve_step(stage, Some("tools/mirscan/target/debug/raudit".to_string()));
    assert!(matches!(action, ResolveAction::Use(p) if p == "tools/mirscan/target/debug/raudit"));
}
