//! The subprocess invocations of a staging: compiling the staged package with
//! an environment built from a fixed list, and running the compiled script.
use vstd::prelude::*;
use crate::workspace::{join_spec, join_path};

verus! {

/// Directory, under the host project, that receives the staged build's output.
pub const TARGET_DIR_NAME: &'static str = "build-script-target";

/// The configuration flag set for the staged compile.
pub const BUILD_RUSTFLAGS: &'static str = "--cfg workaround_build";

/// What a staging reads from its environment, once, at its start.
#[derive(Clone, Debug, PartialEq, Eq)]
pub struct ToolchainConfig {
    /// The package-manager binary.
    pub cargo: String,
    /// The executable search path.
    pub path: String,
    /// The credential-agent socket, empty when unset.
    pub ssh_auth_sock: String,
    /// The toolchain home, empty when unset.
    pub rustup_home: String,
    /// The toolchain selector, empty when unset.
    pub rustup_toolchain: String,
    /// The host project's root directory.
    pub base_dir: String,
}

/// A subprocess to start: program, arguments, environment and directory.
#[derive(Clone, Debug, PartialEq, Eq)]
pub struct Invocation {
    pub program: String,
    pub args: Vec<String>,
    /// Variables set for the child.
    pub env: Vec<(String, String)>,
    /// When set, the child inherits no other variable.
    pub clear_env: bool,
    pub current_dir: String,
}

pub struct InvocationView {
    pub program: Seq<char>,
    pub args: Seq<Seq<char>>,
    pub env: Seq<(Seq<char>, Seq<char>)>,
    pub clear_env: bool,
    pub current_dir: Seq<char>,
}

impl View for Invocation {
    type V = InvocationView;

    open spec fn view(&self) -> InvocationView {
        InvocationView {
            program: self.program@,
            args: self.args@.map_values(|a: String| a@),
            env: self.env@.map_values(|p: (String, String)| (p.0@, p.1@)),
            clear_env: self.clear_env,
            current_dir: self.current_dir@,
        }
    }
}

/// The output directory of staged builds for the project at `base`.
pub open spec fn target_dir_spec(base: Seq<char>) -> Seq<char> {
    join_spec(base, TARGET_DIR_NAME@)
}

/// Where the compiled script named `name` lands for the project at `base`.
pub open spec fn script_path_spec(base: Seq<char>, name: Seq<char>) -> Seq<char> {
    join_spec(join_spec(target_dir_spec(base), "debug"@), name)
}

/// The environment of the staged compile: the forwarded variables, the
/// output directory and the configuration flag, nothing else.
pub open spec fn compile_env_spec(config: ToolchainConfig) -> Seq<(Seq<char>, Seq<char>)> {
    seq![
        ("PATH"@, config.path@),
        ("SSH_AUTH_SOCK"@, config.ssh_auth_sock@),
        ("RUSTUP_HOME"@, config.rustup_home@),
        ("RUSTUP_TOOLCHAIN"@, config.rustup_toolchain@),
        ("CARGO_TARGET_DIR"@, target_dir_spec(config.base_dir@)),
        ("RUSTFLAGS"@, BUILD_RUSTFLAGS@),
    ]
}

/// The compile of the package staged in `workspace`.
pub open spec fn compile_spec(config: ToolchainConfig, workspace: Seq<char>) -> InvocationView {
    InvocationView {
        program: config.cargo@,
        args: seq!["build"@, "-vv"@],
        env: compile_env_spec(config),
        clear_env: true,
        current_dir: workspace,
    }
}

/// The run of the compiled script named `name`, from the project directory `base`.
pub open spec fn script_run_spec(base: Seq<char>, name: Seq<char>) -> InvocationView {
    InvocationView {
        program: script_path_spec(base, name),
        args: seq![],
        env: seq![],
        clear_env: false,
        current_dir: base,
    }
}

fn owned(s: &str) -> (r: String)
    ensures
        r@ == s@,
{
    String::from_str(s)
}

/// The output directory of staged builds for the project at `base_dir`.
pub fn target_dir(base_dir: &str) -> (r: String)
    ensures
        r@ == target_dir_spec(base_dir@),
{
    join_path(base_dir, TARGET_DIR_NAME)
}

/// Where the compiled script named `executable_name` lands for the project at `base_dir`.
pub fn build_script_path(base_dir: &str, executable_name: &str) -> (r: String)
    ensures
        r@ == script_path_spec(base_dir@, executable_name@),
{
    let t = target_dir(base_dir);
    let d = join_path(t.as_str(), "debug");
    join_path(d.as_str(), executable_name)
}

/// The verbose build of the package staged in `workspace`, run there, with an
/// environment cleared and then filled from `config` alone.
pub fn compile_invocation(config: &ToolchainConfig, workspace: &str) -> (r: Invocation)
    ensures
        r@ == compile_spec(*config, workspace@),
{
    let mut args: Vec<String> = Vec::new();
    args.push(owned("build"));
    args.push(owned("-vv"));
    let mut env: Vec<(String, String)> = Vec::new();
    env.push((owned("PATH"), config.path.clone()));
    env.push((owned("SSH_AUTH_SOCK"), config.ssh_auth_sock.clone()));
    env.push((owned("RUSTUP_HOME"), config.rustup_home.clone()));
    env.push((owned("RUSTUP_TOOLCHAIN"), config.rustup_toolchain.clone()));
    env.push((owned("CARGO_TARGET_DIR"), target_dir(config.base_dir.as_str())));
    env.push((owned("RUSTFLAGS"), owned(BUILD_RUSTFLAGS)));
    let r = Invocation {
        program: config.cargo.clone(),
        args,
        env,
        clear_env: true,
        current_dir: owned(workspace),
    };
    assert(r@.args =~= seq!["build"@, "-vv"@]);
    assert(r@.env =~= compile_env_spec(*config));
    r
}

/// The run of the compiled script named `executable_name`, with the project
/// directory `base_dir` as its working directory and the environment inherited.
pub fn script_invocation(base_dir: &str, executable_name: &str) -> (r: Invocation)
    ensures
        r@ == script_run_spec(base_dir@, executable_name@),
{
    let r = Invocation {
        program: build_script_path(base_dir, executable_name),
        args: Vec::new(),
        env: Vec::new(),
        clear_env: false,
        current_dir: owned(base_dir),
    };
    assert(r@.args =~= seq![]);
    assert(r@.env =~= seq![]);
    r
}

} // verus!
