use ci_tool::api_diff::ApiItem;
use ci_tool::pipeline::{api_changes, Action, CrateBuild, Event, Phase, Pipeline, PipelineError};

fn item(key: &str, text: &str) -> ApiItem {
    ApiItem { key: key.to_string(), text: text.to_string() }
}

fn build(name: &str, items: Result<Vec<ApiItem>, String>) -> CrateBuild {
    CrateBuild { manifest: format!("crates/{name}/Cargo.toml"), name: name.to_string(), items }
}

fn checkout_target(p: &Pipeline) -> String {
    match p.action() {
        Action::Checkout { target } => target,
        other => panic!("expected a checkout, got {:?}", other),
    }
}

#[test]
fn crate_new_at_base_lists_all_items_as_added() {
    let dev = vec![build("web", Ok(vec![item("fn a", "pub fn a()")]))];
    let base = vec![build("web", Err("no manifest".to_string()))];
    assert_eq!(api_changes(&dev, &base), "## web\n### Added\n\n- `pub fn a()`\n\n\n");
    assert_eq!(api_changes(&dev, &Vec::new()), "## web\n### Added\n\n- `pub fn a()`\n\n\n");
}

#[test]
fn unchanged_crates_are_left_out() {
    let dev = vec![
        build("core", Ok(vec![item("fn a", "pub fn a()")])),
        build("web", Ok(vec![item("fn a", "pub fn a()"), item("fn b", "pub fn b()")])),
    ];
    let base = vec![
        build("web", Ok(vec![item("fn a", "pub fn a()")])),
        build("core", Ok(vec![item("fn a", "pub fn a()")])),
    ];
    assert_eq!(api_changes(&dev, &base), "## web\n### Added\n\n- `pub fn b()`\n\n\n");
}

#[test]
fn successful_run_restores_and_reports() {
    let mut p = Pipeline::new("feature".to_string(), "master".to_string());
    assert!(matches!(p.action(), Action::QueryStaged));
    p.step(Event::Flag(false));
    assert!(matches!(p.action(), Action::QueryUnstaged));
    p.step(Event::Flag(false));
    match p.action() {
        Action::ListCommits { dev, base } => {
            assert_eq!(dev, "feature");
            assert_eq!(base, "master");
        }
        other => panic!("unexpected {:?}", other),
    }
    p.step(Event::Text("d0aec01 fix(web): patch bug".to_string()));
    assert!(matches!(p.action(), Action::PrepareToolchain));
    p.step(Event::Done);
    assert!(matches!(p.action(), Action::QueryCurrentRevision));
    p.step(Event::Text("main".to_string()));
    assert_eq!(checkout_target(&p), "feature");
    p.step(Event::Done);
    assert!(matches!(p.action(), Action::CollectSnapshots));
    p.step(Event::Snapshots(vec![build("web", Ok(vec![item("fn a", "pub fn a(x: u8)")]))]));
    assert_eq!(checkout_target(&p), "master");
    p.step(Event::Done);
    p.step(Event::Snapshots(vec![build("web", Ok(vec![item("fn a", "pub fn a()")]))]));
    assert_eq!(checkout_target(&p), "main");
    p.step(Event::Done);
    assert_eq!(p.phase, Phase::Finished);
    assert!(matches!(p.action(), Action::Stop));
    assert!(p.error.is_none());
    assert_eq!(
        p.report,
        "# Commits\n\n## Fix\n\n- `d0aec01` fix: patch bug\n\n# API Changes\n\n\
         ## web\n### Changed\n\n- `pub fn a()` becomes `pub fn a(x: u8)`\n\n\n"
    );
}

#[test]
fn dirty_tree_stops_before_any_checkout() {
    let mut p = Pipeline::new("feature".to_string(), "master".to_string());
    p.step(Event::Flag(false));
    p.step(Event::Flag(true));
    assert_eq!(p.phase, Phase::Failed);
    assert!(matches!(p.error, Some(PipelineError::DirtyWorkingTree)));
    assert!(matches!(p.action(), Action::Stop));
}

#[test]
fn malformed_log_fails_the_run() {
    let mut p = Pipeline::new("feature".to_string(), "master".to_string());
    p.step(Event::Flag(false));
    p.step(Event::Flag(false));
    p.step(Event::Text("garbage".to_string()));
    assert_eq!(p.phase, Phase::Failed);
    assert!(matches!(p.error, Some(PipelineError::MalformedCommitLine { .. })));
}

fn at_dev_snapshots() -> Pipeline {
    let mut p = Pipeline::new("feature".to_string(), "master".to_string());
    p.step(Event::Flag(false));
    p.step(Event::Flag(false));
    p.step(Event::Text(String::new()));
    p.step(Event::Done);
    p.step(Event::Text("abc1234".to_string()));
    p.step(Event::Done);
    assert_eq!(p.phase, Phase::CollectDev);
    p
}

#[test]
fn dev_build_failure_rolls_back() {
    let mut p = at_dev_snapshots();
    p.step(Event::Snapshots(vec![build("web", Err("does not compile".to_string()))]));
    assert_eq!(p.phase, Phase::Rollback);
    assert_eq!(checkout_target(&p), "abc1234");
    match &p.error {
        Some(PipelineError::SnapshotBuild { name, message }) => {
            assert_eq!(name, "web");
            assert_eq!(message, "does not compile");
        }
        other => panic!("unexpected {:?}", other),
    }
    p.step(Event::Done);
    assert_eq!(p.phase, Phase::Failed);
    assert!(p.error.is_some());
}

#[test]
fn failed_restore_keeps_its_cause() {
    let mut p = at_dev_snapshots();
    p.step(Event::Snapshots(Vec::new()));
    p.step(Event::Failed("cannot check out master".to_string()));
    assert_eq!(p.phase, Phase::Rollback);
    p.step(Event::Failed("cannot check out abc1234".to_string()));
    assert_eq!(p.phase, Phase::RestoreFailed);
    match &p.error {
        Some(PipelineError::RestoreFailure { message, cause }) => {
            assert_eq!(message, "cannot check out abc1234");
            assert!(matches!(cause.as_deref(), Some(PipelineError::Checkout { .. })));
        }
        other => panic!("unexpected {:?}", other),
    }
}
