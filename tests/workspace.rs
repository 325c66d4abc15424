use cargo_5730::toolchain::{build_script_path, compile_invocation, script_invocation, target_dir, ToolchainConfig};
use cargo_5730::workspace::{join_path, random_hex, removal_allowed, workspace_dir_name};

#[test]
fn hex_has_two_digits_per_byte() {
    assert_eq!(random_hex(&[0x00, 0x05, 0x0f, 0x10, 0xab, 0xff]), "00050f10abff");
    assert_eq!(random_hex(&[]), "");
}

#[test]
fn workspace_name_from_random_bytes() {
    let bytes = [0xde, 0xad, 0xbe, 0xef, 0x01, 0x23, 0x45, 0x67, 0x89, 0xab, 0xcd, 0xef, 0x00, 0x11, 0x22, 0x33];
    assert_eq!(
        workspace_dir_name(&bytes),
        "build-script-deadbeef0123456789abcdef00112233"
    );
}

#[test]
fn join_adds_separator_only_when_needed() {
    assert_eq!(join_path("/tmp", "x"), "/tmp/x");
    assert_eq!(join_path("/tmp/", "x"), "/tmp/x");
    assert_eq!(join_path("", "x"), "x");
}

#[test]
fn removal_allowed_inside_temp_root() {
    assert!(removal_allowed("/tmp/build-script-abc", "/tmp"));
    assert!(removal_allowed("/tmp/build-script-abc", "/tmp/"));
    assert!(removal_allowed("/tmp/a/b", "/tmp"));
}

#[test]
fn removal_refused_outside_temp_root() {
    assert!(!removal_allowed("/home/user", "/tmp"));
    assert!(!removal_allowed("/tmpfoo/x", "/tmp"));
    assert!(!removal_allowed("/tmp", "/tmp"));
    assert!(!removal_allowed("/tmp/", "/tmp"));
    assert!(!removal_allowed("/tmp/.", "/tmp"));
    assert!(!removal_allowed("/tmp/../etc", "/tmp"));
    assert!(!removal_allowed("/tmp/x/../..", "/tmp"));
    assert!(!removal_allowed("/tmp/x", ""));
}

#[test]
fn zero_bytes_give_full_width_name() {
    assert_eq!(
        workspace_dir_name(&[0u8; 16]),
        "build-script-00000000000000000000000000000000"
    );
}

#[test]
fn distinct_bytes_give_distinct_names() {
    let mut a = [0u8; 16];
    let mut b = [0u8; 16];
    a[0] = 0x01;
    a[1] = 0x11;
    b[0] = 0x11;
    b[1] = 0x01;
    assert_ne!(workspace_dir_name(&a), workspace_dir_name(&b));
}

#[test]
fn dotted_names_are_not_parent_components() {
    assert!(removal_allowed("/tmp/...", "/tmp"));
    assert!(removal_allowed("/tmp/./x", "/tmp"));
    assert!(removal_allowed("/tmp//x/", "/tmp"));
    assert!(!removal_allowed("/tmp/./.", "/tmp"));
    assert!(!removal_allowed("/tmp//", "/tmp"));
    assert!(removal_allowed("/tmp/..x", "/tmp"));
    assert!(removal_allowed("/tmp/x..", "/tmp"));
}

fn config() -> ToolchainConfig {
    ToolchainConfig {
        cargo: "/usr/bin/cargo".to_string(),
        path: "/usr/bin:/bin".to_string(),
        ssh_auth_sock: "/run/agent.sock".to_string(),
        rustup_home: "/home/u/.rustup".to_string(),
        rustup_toolchain: "stable".to_string(),
        base_dir: "/work/proj".to_string(),
    }
}

#[test]
fn compile_environment_is_explicit() {
    let inv = compile_invocation(&config(), "/tmp/build-script-1");
    assert_eq!(inv.program, "/usr/bin/cargo");
    assert_eq!(inv.args, vec!["build".to_string(), "-vv".to_string()]);
    assert!(inv.clear_env);
    assert_eq!(inv.current_dir, "/tmp/build-script-1");
    let env: Vec<(&str, &str)> = inv.env.iter().map(|(k, v)| (k.as_str(), v.as_str())).collect();
    assert_eq!(
        env,
        vec![
            ("PATH", "/usr/bin:/bin"),
            ("SSH_AUTH_SOCK", "/run/agent.sock"),
            ("RUSTUP_HOME", "/home/u/.rustup"),
            ("RUSTUP_TOOLCHAIN", "stable"),
            ("CARGO_TARGET_DIR", "/work/proj/build-script-target"),
            ("RUSTFLAGS", "--cfg workaround_build"),
        ]
    );
}

#[test]
fn script_runs_from_original_directory() {
    assert_eq!(target_dir("/work/proj"), "/work/proj/build-script-target");
    assert_eq!(
        build_script_path("/work/proj", "workaround-build-script"),
        "/work/proj/build-script-target/debug/workaround-build-script"
    );
    let inv = script_invocation("/work/proj", "tool");
    assert_eq!(inv.program, "/work/proj/build-script-target/debug/tool");
    assert_eq!(inv.current_dir, "/work/proj");
    assert!(inv.args.is_empty());
    assert!(inv.env.is_empty());
    assert!(!inv.clear_env);
}
