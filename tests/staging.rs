use cargo_5730::staging::rerun_directive;
use cargo_5730::toolchain::ToolchainConfig;
use cargo_5730::{advance, Action, Event, Mode, Phase, StagingPlan};

fn config() -> ToolchainConfig {
    ToolchainConfig {
        cargo: "cargo".to_string(),
        path: "/bin".to_string(),
        ssh_auth_sock: String::new(),
        rustup_home: String::new(),
        rustup_toolchain: String::new(),
        base_dir: "/proj".to_string(),
    }
}

const RANDOM: [u8; 16] = [1, 2, 3, 4, 5, 6, 7, 8, 9, 10, 11, 12, 13, 14, 15, 16];
const WS: &str = "/tmp/build-script-0102030405060708090a0b0c0d0e0f10";

fn synthesized(manifest: &str) -> StagingPlan {
    StagingPlan::synthesized(config(), "/tmp", &RANDOM, manifest)
}

/// Runs the plan, answering each action from `answer`, and returns the actions.
fn drive(plan: &StagingPlan, answer: &dyn Fn(&Action) -> Event) -> Vec<Action> {
    let mut actions = Vec::new();
    let (mut phase, mut action) = advance(plan, Phase::Begin, Event::Done);
    loop {
        actions.push(action.clone());
        match action {
            Action::Finish { .. } | Action::RefuseRemoval { .. } => return actions,
            _ => {}
        }
        assert!(actions.len() <= 12, "staging did not finish");
        let ev = answer(&action);
        let (p, a) = advance(plan, phase, ev);
        phase = p;
        action = a;
    }
}

fn removals(actions: &[Action]) -> usize {
    actions.iter().filter(|a| matches!(a, Action::RemoveWorkspace { .. })).count()
}

#[test]
fn plan_paths() {
    let plan = synthesized("");
    assert_eq!(plan.mode, Mode::Synthesized);
    assert_eq!(plan.workspace, WS);
    assert_eq!(plan.source, "/proj/build.rs");
    assert_eq!(plan.saved_lock, "/proj/Cargo.build.lock");
    assert_eq!(plan.executable, "workaround-build-script");
    assert_eq!(plan.deps_section, "");
}

#[test]
fn synthesized_staging_with_empty_dependencies_succeeds() {
    let plan = synthesized("[package]\nname = \"host\"\n");
    let actions = drive(&plan, &|a| match a {
        Action::ProbeFile { .. } => Event::Absent,
        _ => Event::Done,
    });
    assert_eq!(actions[0], Action::CreateDir { path: WS.to_string() });
    assert_eq!(actions[1], Action::CreateDir { path: format!("{}/src", WS) });
    assert_eq!(
        actions[2],
        Action::CopyFile { from: "/proj/build.rs".to_string(), to: format!("{}/src/main.rs", WS) }
    );
    match &actions[3] {
        Action::WriteFile { path, contents } => {
            assert_eq!(path, &format!("{}/Cargo.toml", WS));
            assert!(contents.ends_with("[dependencies]\n\n"));
            assert!(contents.contains("name = \"workaround-build-script\""));
        }
        other => panic!("unexpected {:?}", other),
    }
    assert_eq!(actions[4], Action::ProbeFile { path: "/proj/Cargo.build.lock".to_string() });
    assert!(matches!(&actions[5], Action::Run { invocation } if invocation.program == "cargo" && invocation.current_dir == WS));
    assert_eq!(
        actions[6],
        Action::CopyFile { from: format!("{}/Cargo.lock", WS), to: "/proj/Cargo.build.lock".to_string() }
    );
    assert!(matches!(&actions[7], Action::Run { invocation }
        if invocation.program == "/proj/build-script-target/debug/workaround-build-script"
            && invocation.current_dir == "/proj"));
    assert_eq!(actions[8], Action::RemoveWorkspace { path: WS.to_string() });
    assert_eq!(actions[9], Action::Finish { succeeded: true });
    assert_eq!(actions.len(), 10);
}

#[test]
fn synthesized_manifest_gets_qualified_dependencies() {
    let plan = synthesized("[workaround-build-dependencies]\nlib-crate = { path = \"../../lib-crate\" }\n");
    let actions = drive(&plan, &|_| Event::Done);
    match &actions[3] {
        Action::WriteFile { contents, .. } => {
            assert!(contents.ends_with("[dependencies]\nlib-crate = { path = \"/proj/../../lib-crate\" }\n\n"));
        }
        other => panic!("unexpected {:?}", other),
    }
}

#[test]
fn saved_lockfile_is_copied_in() {
    let plan = synthesized("");
    let actions = drive(&plan, &|a| match a {
        Action::ProbeFile { .. } => Event::Present,
        _ => Event::Done,
    });
    assert_eq!(
        actions[5],
        Action::CopyFile { from: "/proj/Cargo.build.lock".to_string(), to: format!("{}/Cargo.lock", WS) }
    );
    assert!(matches!(actions[6], Action::Run { .. }));
    assert_eq!(*actions.last().unwrap(), Action::Finish { succeeded: true });
}

#[test]
fn compile_failure_still_tears_down_once() {
    let plan = synthesized("");
    let actions = drive(&plan, &|a| match a {
        Action::ProbeFile { .. } => Event::Absent,
        Action::Run { invocation } if invocation.program == "cargo" => Event::Failed,
        _ => Event::Done,
    });
    assert_eq!(removals(&actions), 1);
    assert_eq!(actions[actions.len() - 2], Action::RemoveWorkspace { path: WS.to_string() });
    assert_eq!(*actions.last().unwrap(), Action::Finish { succeeded: false });
    assert!(!actions.iter().any(|a| matches!(a, Action::CopyFile { to, .. } if to == "/proj/Cargo.build.lock")));
}

#[test]
fn every_failure_point_tears_down_once() {
    for fail_at in 0..10 {
        let plan = synthesized("");
        let count = std::cell::Cell::new(0);
        let actions = drive(&plan, &|a| {
            let n = count.get();
            count.set(n + 1);
            if n == fail_at && !matches!(a, Action::RemoveWorkspace { .. }) {
                Event::Failed
            } else {
                match a {
                    Action::ProbeFile { .. } => Event::Absent,
                    _ => Event::Done,
                }
            }
        });
        assert_eq!(removals(&actions), 1, "failure at {}", fail_at);
        assert!(matches!(actions.last(), Some(Action::Finish { .. })));
    }
}

#[test]
fn failed_removal_fails_the_staging() {
    let plan = synthesized("");
    let actions = drive(&plan, &|a| match a {
        Action::ProbeFile { .. } => Event::Absent,
        Action::RemoveWorkspace { .. } => Event::Failed,
        _ => Event::Done,
    });
    assert_eq!(*actions.last().unwrap(), Action::Finish { succeeded: false });
}

#[test]
fn workspace_outside_temp_root_is_never_removed() {
    let mut plan = synthesized("");
    plan.workspace = "/home/user".to_string();
    let actions = drive(&plan, &|_| Event::Failed);
    assert_eq!(removals(&actions), 0);
    assert_eq!(
        *actions.last().unwrap(),
        Action::RefuseRemoval { path: "/home/user".to_string() }
    );
}

#[test]
fn whole_crate_staging_patches_copied_manifest() {
    let plan = StagingPlan::whole_crate(config(), "/tmp/", &RANDOM, "/proj/build-tool", "build-tool");
    assert_eq!(plan.workspace, WS);
    let actions = drive(&plan, &|a| match a {
        Action::ReadFile { .. } => Event::Contents("[dependencies]\nx = { path='../x' }\n".to_string()),
        Action::ProbeFile { .. } => Event::Absent,
        _ => Event::Done,
    });
    assert_eq!(actions[0], Action::CopyTree { from: "/proj/build-tool".to_string(), to: WS.to_string() });
    assert_eq!(actions[1], Action::ReadFile { path: format!("{}/Cargo.toml", WS) });
    assert_eq!(
        actions[2],
        Action::WriteFile {
            path: format!("{}/Cargo.toml", WS),
            contents: "[dependencies]\nx = { path='/proj/build-tool/../x' }\n".to_string(),
        }
    );
    assert!(matches!(&actions[4], Action::Run { invocation } if invocation.current_dir == WS));
    assert!(matches!(&actions[6], Action::Run { invocation }
        if invocation.program == "/proj/build-script-target/debug/build-tool"));
    assert_eq!(*actions.last().unwrap(), Action::Finish { succeeded: true });
}

#[test]
fn unreadable_manifest_aborts_whole_crate_staging() {
    let plan = StagingPlan::whole_crate(config(), "/tmp", &RANDOM, "/proj/t", "t");
    let actions = drive(&plan, &|a| match a {
        Action::ReadFile { .. } => Event::Failed,
        _ => Event::Done,
    });
    assert_eq!(actions.len(), 4);
    assert_eq!(actions[2], Action::RemoveWorkspace { path: WS.to_string() });
    assert_eq!(actions[3], Action::Finish { succeeded: false });
}

#[test]
fn rerun_directive_format() {
    assert_eq!(rerun_directive("/proj/build.rs"), "cargo:rerun-if-changed=/proj/build.rs");
}
