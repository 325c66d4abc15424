//! The staging of a build script as a state machine. Each step takes the
//! outcome of the previous action and names the next action; the caller
//! performs the actions (file operations, subprocesses) and reports back.
use vstd::prelude::*;
use crate::manifest::{
    declaration_free, header_of, is_header_line, join_lines, opener, plain_line,
    lemma_declaration_free_line, lemma_last_single_line_section, lemma_qualify_single_declaration,
    SYNTHESIZED_MANIFEST_HEAD, qualify_spec, section_spec, synthesized_manifest_spec, qualify_cargo_toml_paths_in_text,
    read_toml_section, synthesized_manifest, BUILD_DEPENDENCIES_SECTION, SYNTHESIZED_PACKAGE_NAME,
};
use crate::toolchain::{
    compile_spec, script_run_spec, compile_invocation, script_invocation, Invocation,
    InvocationView, ToolchainConfig,
};
use crate::workspace::{
    inside_spec, join_spec, workspace_name_spec, join_path, removal_allowed, workspace_dir_name,
    lemma_workspace_inside_root,
};

verus! {

/// How the build-script package is put together in the workspace.
#[derive(Clone, Copy, PartialEq, Eq, Debug, Structural)]
pub enum Mode {
    /// A lone script file, and a manifest made around a dependencies section
    /// lifted out of the host manifest.
    Synthesized,
    /// An independently buildable package directory, copied whole.
    WholeCrate,
}

/// Everything a staging needs, fixed before its first step.
pub struct StagingPlan {
    pub mode: Mode,
    pub config: ToolchainConfig,
    /// The system temp directory.
    pub temp_root: String,
    /// The scratch directory, inside `temp_root`.
    pub workspace: String,
    /// The script file (synthesized mode) or the package directory (whole-package mode).
    pub source: String,
    /// The dependency lines of a synthesized manifest, paths not yet qualified.
    pub deps_section: String,
    /// The name of the compiled executable.
    pub executable: String,
    /// The host project's saved lockfile.
    pub saved_lock: String,
}

/// Where a staging stands.
#[derive(Clone, Copy, PartialEq, Eq, Debug, Structural)]
pub enum Phase {
    Begin,
    CreatingRoot,
    CreatingSrc,
    CopyingScript,
    WritingManifest,
    CopyingTree,
    ReadingManifest,
    PatchingManifest,
    ProbingLock,
    CopyingLockIn,
    Compiling,
    CopyingLockOut,
    RunningScript,
    Removing { succeeded: bool },
    Finished { succeeded: bool },
}

/// The outcome of the last action.
#[derive(Clone, Debug, PartialEq, Eq)]
pub enum Event {
    Done,
    Failed,
    /// The probed file exists.
    Present,
    /// The probed file does not exist.
    Absent,
    /// The text of the file that was read.
    Contents(String),
}

/// What the caller is to do next.
#[derive(Clone, Debug, PartialEq, Eq)]
pub enum Action {
    CreateDir { path: String },
    CopyTree { from: String, to: String },
    CopyFile { from: String, to: String },
    ReadFile { path: String },
    WriteFile { path: String, contents: String },
    /// Report whether the file exists, by `Present` or `Absent`.
    ProbeFile { path: String },
    /// Start the process, wait for it, and report whether it exited with success.
    Run { invocation: Invocation },
    /// Delete the workspace tree.
    RemoveWorkspace { path: String },
    /// The workspace path failed the safety check: abort without deleting anything.
    RefuseRemoval { path: String },
    /// The staging is over.
    Finish { succeeded: bool },
}

pub enum ActionView {
    CreateDir { path: Seq<char> },
    CopyTree { from: Seq<char>, to: Seq<char> },
    CopyFile { from: Seq<char>, to: Seq<char> },
    ReadFile { path: Seq<char> },
    WriteFile { path: Seq<char>, contents: Seq<char> },
    ProbeFile { path: Seq<char> },
    Run { invocation: InvocationView },
    RemoveWorkspace { path: Seq<char> },
    RefuseRemoval { path: Seq<char> },
    Finish { succeeded: bool },
}

impl View for Action {
    type V = ActionView;

    open spec fn view(&self) -> ActionView {
        match self {
            Action::CreateDir { path } => ActionView::CreateDir { path: path@ },
            Action::CopyTree { from, to } => ActionView::CopyTree { from: from@, to: to@ },
            Action::CopyFile { from, to } => ActionView::CopyFile { from: from@, to: to@ },
            Action::ReadFile { path } => ActionView::ReadFile { path: path@ },
            Action::WriteFile { path, contents } => ActionView::WriteFile {
                path: path@,
                contents: contents@,
            },
            Action::ProbeFile { path } => ActionView::ProbeFile { path: path@ },
            Action::Run { invocation } => ActionView::Run { invocation: invocation@ },
            Action::RemoveWorkspace { path } => ActionView::RemoveWorkspace { path: path@ },
            Action::RefuseRemoval { path } => ActionView::RefuseRemoval { path: path@ },
            Action::Finish { succeeded } => ActionView::Finish { succeeded: *succeeded },
        }
    }
}

impl StagingPlan {
    /// The workspace lies strictly inside the temp root, so tearing it down is allowed.
    pub open spec fn well_formed(&self) -> bool {
        inside_spec(self.workspace@, self.temp_root@)
    }

    /// Plans the staging of the project's `build.rs` in a package made
    /// around the build-dependencies section of `host_manifest`, in a
    /// workspace under `temp_root` named after `random`.
    pub fn synthesized(config: ToolchainConfig, temp_root: &str, random: &[u8], host_manifest: &str) -> (r: StagingPlan)
        ensures
            r.mode == Mode::Synthesized,
            r.config == config,
            r.temp_root@ == temp_root@,
            r.workspace@ == join_spec(temp_root@, workspace_name_spec(random@)),
            r.source@ == join_spec(config.base_dir@, "build.rs"@),
            r.deps_section@ == section_spec(host_manifest@, BUILD_DEPENDENCIES_SECTION@),
            r.executable@ == SYNTHESIZED_PACKAGE_NAME@,
            r.saved_lock@ == join_spec(config.base_dir@, "Cargo.build.lock"@),
            temp_root@.len() > 0 ==> r.well_formed(),
    {
        let name = workspace_dir_name(random);
        let workspace = join_path(temp_root, name.as_str());
        let source = join_path(config.base_dir.as_str(), "build.rs");
        let saved_lock = join_path(config.base_dir.as_str(), "Cargo.build.lock");
        let deps_section = read_toml_section(host_manifest, BUILD_DEPENDENCIES_SECTION);
        proof {
            if temp_root@.len() > 0 {
                lemma_workspace_inside_root(temp_root@, random@);
            }
        }
        StagingPlan {
            mode: Mode::Synthesized,
            config,
            temp_root: String::from_str(temp_root),
            workspace,
            source,
            deps_section,
            executable: String::from_str(SYNTHESIZED_PACKAGE_NAME),
            saved_lock,
        }
    }

    /// Plans the staging of the package directory `crate_dir`, whose
    /// executable is `crate_name`, in a workspace under `temp_root` named
    /// after `random`.
    pub fn whole_crate(
        config: ToolchainConfig,
        temp_root: &str,
        random: &[u8],
        crate_dir: &str,
        crate_name: &str,
    ) -> (r: StagingPlan)
        ensures
            r.mode == Mode::WholeCrate,
            r.config == config,
            r.temp_root@ == temp_root@,
            r.workspace@ == join_spec(temp_root@, workspace_name_spec(random@)),
            r.source@ == crate_dir@,
            r.deps_section@.len() == 0,
            r.executable@ == crate_name@,
            r.saved_lock@ == join_spec(config.base_dir@, "Cargo.build.lock"@),
            temp_root@.len() > 0 ==> r.well_formed(),
    {
        let name = workspace_dir_name(random);
        let workspace = join_path(temp_root, name.as_str());
        let saved_lock = join_path(config.base_dir.as_str(), "Cargo.build.lock");
        proof {
            if temp_root@.len() > 0 {
                lemma_workspace_inside_root(temp_root@, random@);
            }
        }
        StagingPlan {
            mode: Mode::WholeCrate,
            config,
            temp_root: String::from_str(temp_root),
            workspace,
            source: String::from_str(crate_dir),
            deps_section: String::new(),
            executable: String::from_str(crate_name),
            saved_lock,
        }
    }
}

/// The most steps a staging takes before it is finished.
pub const MAX_STEPS: u64 = 11;

/// How far along a phase stands; every step that does not stay finished
/// moves to a higher rank.
pub open spec fn rank(phase: Phase) -> int {
    match phase {
        Phase::Begin => 0,
        Phase::CreatingRoot => 1,
        Phase::CopyingTree => 1,
        Phase::CreatingSrc => 2,
        Phase::ReadingManifest => 2,
        Phase::CopyingScript => 3,
        Phase::PatchingManifest => 3,
        Phase::WritingManifest => 4,
        Phase::ProbingLock => 5,
        Phase::CopyingLockIn => 6,
        Phase::Compiling => 7,
        Phase::CopyingLockOut => 8,
        Phase::RunningScript => 9,
        Phase::Removing { .. } => 10,
        Phase::Finished { .. } => 11,
    }
}

pub open spec fn is_teardown(phase: Phase) -> bool {
    phase is Removing
}

pub open spec fn is_finished(phase: Phase) -> bool {
    phase is Finished
}

/// The phase after the first `n` outcomes of `events`, from the beginning.
pub open spec fn phase_after(mode: Mode, events: Seq<Event>, n: nat) -> Phase
    decreases n,
{
    if n == 0 {
        Phase::Begin
    } else {
        next_phase(mode, phase_after(mode, events, (n - 1) as nat), events[n - 1])
    }
}

proof fn lemma_step_rank(mode: Mode, phase: Phase, event: Event)
    ensures
        is_finished(phase) ==> is_finished(next_phase(mode, phase, event)),
        !is_finished(phase) ==> rank(next_phase(mode, phase, event)) > rank(phase),
        is_finished(next_phase(mode, phase, event)) ==> is_teardown(phase) || is_finished(phase),
{
}

proof fn lemma_rank_grows(mode: Mode, events: Seq<Event>, m: nat, n: nat)
    requires
        m <= n <= events.len(),
    ensures
        is_finished(phase_after(mode, events, n))
            || rank(phase_after(mode, events, n)) >= rank(phase_after(mode, events, m)) + (n - m),
        is_finished(phase_after(mode, events, m)) ==> is_finished(phase_after(mode, events, n)),
    decreases n - m,
{
    if m < n {
        lemma_rank_grows(mode, events, m, (n - 1) as nat);
        lemma_step_rank(mode, phase_after(mode, events, (n - 1) as nat), events[n - 1]);
    }
}

proof fn lemma_finish_follows_teardown(mode: Mode, events: Seq<Event>, n: nat)
    requires
        n <= events.len(),
        is_finished(phase_after(mode, events, n)),
    ensures
        exists|r: nat| r < n && #[trigger] is_teardown(phase_after(mode, events, r)),
    decreases n,
{
    if n > 0 {
        let prev = phase_after(mode, events, (n - 1) as nat);
        lemma_step_rank(mode, prev, events[n - 1]);
        if is_finished(prev) {
            lemma_finish_follows_teardown(mode, events, (n - 1) as nat);
        } else {
            assert(is_teardown(phase_after(mode, events, (n - 1) as nat)));
        }
    }
}

/// Teardown runs exactly once per staging, whatever the outcomes of the
/// actions: whichever steps fail, the compile among them, the staging is
/// finished after at most `MAX_STEPS` steps, it has then passed through
/// the removal of its workspace, and it never passes through it twice.
pub proof fn lemma_teardown_exactly_once(mode: Mode, events: Seq<Event>)
    ensures
        events.len() >= MAX_STEPS ==> is_finished(phase_after(mode, events, MAX_STEPS as nat)),
        forall|n: nat| n <= events.len() && #[trigger] is_finished(phase_after(mode, events, n))
            ==> exists|r: nat| r < n && #[trigger] is_teardown(phase_after(mode, events, r)),
        forall|m: nat, n: nat| m < n <= events.len()
            && #[trigger] is_teardown(phase_after(mode, events, m))
            ==> !#[trigger] is_teardown(phase_after(mode, events, n)),
{
    if events.len() >= MAX_STEPS {
        lemma_rank_grows(mode, events, 0, MAX_STEPS as nat);
    }
    assert forall|n: nat| n <= events.len() && #[trigger] is_finished(phase_after(mode, events, n))
        implies exists|r: nat| r < n && #[trigger] is_teardown(phase_after(mode, events, r)) by {
        lemma_finish_follows_teardown(mode, events, n);
    }
    assert forall|m: nat, n: nat| m < n <= events.len()
        && #[trigger] is_teardown(phase_after(mode, events, m))
        implies !#[trigger] is_teardown(phase_after(mode, events, n)) by {
        lemma_rank_grows(mode, events, m, n);
    }
}

/// For a well-formed plan the teardown step is always the removal of the
/// plan's own workspace, whatever outcome led to it: the safety check never
/// has to refuse it. Every plan made from a non-empty temp root is well formed.
pub proof fn lemma_well_formed_teardown_removes(plan: StagingPlan, succeeded: bool, event: Event)
    requires
        plan.well_formed(),
    ensures
        action_spec(plan, Phase::Removing { succeeded }, event)
            == (ActionView::RemoveWorkspace { path: plan.workspace@ }),
{
}

/// A staging whose workspace path is outside the temp root is never torn
/// down by deletion: its teardown step refuses instead.
pub proof fn lemma_outside_workspace_refused(plan: StagingPlan, succeeded: bool, event: Event)
    requires
        !plan.well_formed(),
    ensures
        action_spec(plan, Phase::Removing { succeeded }, event)
            == (ActionView::RefuseRemoval { path: plan.workspace@ }),
{
}

/// End to end, for a synthesized staging: when the host manifest ends with
/// the build-dependencies section holding one line with one path
/// declaration, the staged manifest lists that line under `[dependencies]`
/// with the project directory and a separator inserted after the
/// declaration's opener, and nothing else changed.
pub proof fn lemma_staged_declaration_qualified(
    plan: StagingPlan,
    earlier: Seq<Seq<char>>,
    before: Seq<char>,
    after: Seq<char>,
    k: int,
    event: Event,
)
    requires
        0 <= k < 4,
        forall|i: int| 0 <= i < earlier.len() ==> plain_line(#[trigger] earlier[i]),
        forall|i: int| 0 <= i < earlier.len() ==> #[trigger] earlier[i] != header_of(BUILD_DEPENDENCIES_SECTION@),
        plain_line(before + opener(k) + after),
        !is_header_line(before + opener(k) + after),
        declaration_free(before),
        declaration_free(after),
        declaration_free(plan.config.base_dir@),
        plan.deps_section@ == section_spec(
            join_lines(earlier.push(header_of(BUILD_DEPENDENCIES_SECTION@)).push(before + opener(k) + after)),
            BUILD_DEPENDENCIES_SECTION@,
        ),
    ensures
        action_spec(plan, Phase::WritingManifest, event) == (ActionView::WriteFile {
            path: staged_manifest(plan),
            contents: SYNTHESIZED_MANIFEST_HEAD@ + before + opener(k) + plan.config.base_dir@
                + seq!['/'] + after + seq!['\n'] + seq!['\n'],
        }),
{
    reveal_strlit("workaround-build-dependencies");
    let line = before + opener(k) + after;
    let base = plan.config.base_dir@;
    lemma_last_single_line_section(earlier, BUILD_DEPENDENCIES_SECTION@, line);
    lemma_declaration_free_line(after);
    let after2 = after + seq!['\n'];
    assert(line + seq!['\n'] =~= before + opener(k) + after2);
    lemma_qualify_single_declaration(before, after2, base, k);
    assert(SYNTHESIZED_MANIFEST_HEAD@ + (before + opener(k) + base + seq!['/'] + after2) + seq!['\n']
        =~= SYNTHESIZED_MANIFEST_HEAD@ + before + opener(k) + base + seq!['/'] + after + seq!['\n'] + seq!['\n']);
}

/// The phase that follows `phase` on `event`. Any failure, or an outcome that
/// does not fit the phase, leads to the removal of the workspace; once that
/// is over the staging is finished for good.
pub open spec fn next_phase(mode: Mode, phase: Phase, event: Event) -> Phase {
    match phase {
        Phase::Begin => if mode == Mode::Synthesized {
            Phase::CreatingRoot
        } else {
            Phase::CopyingTree
        },
        Phase::Removing { succeeded } => if event == Event::Done {
            Phase::Finished { succeeded }
        } else {
            Phase::Finished { succeeded: false }
        },
        Phase::Finished { succeeded } => Phase::Finished { succeeded },
        Phase::ReadingManifest => match event {
            Event::Contents(_) => Phase::PatchingManifest,
            _ => Phase::Removing { succeeded: false },
        },
        Phase::ProbingLock => if event == Event::Present {
            Phase::CopyingLockIn
        } else if event == Event::Absent {
            Phase::Compiling
        } else {
            Phase::Removing { succeeded: false }
        },
        _ => if event != Event::Done {
            Phase::Removing { succeeded: false }
        } else {
            match phase {
                Phase::CreatingRoot => Phase::CreatingSrc,
                Phase::CreatingSrc => Phase::CopyingScript,
                Phase::CopyingScript => Phase::WritingManifest,
                Phase::WritingManifest => Phase::ProbingLock,
                Phase::CopyingTree => Phase::ReadingManifest,
                Phase::PatchingManifest => Phase::ProbingLock,
                Phase::CopyingLockIn => Phase::Compiling,
                Phase::Compiling => Phase::CopyingLockOut,
                Phase::CopyingLockOut => Phase::RunningScript,
                _ => Phase::Removing { succeeded: true },
            }
        },
    }
}

/// The staged manifest's path.
pub open spec fn staged_manifest(plan: StagingPlan) -> Seq<char> {
    join_spec(plan.workspace@, "Cargo.toml"@)
}

/// The staged lockfile's path.
pub open spec fn staged_lock(plan: StagingPlan) -> Seq<char> {
    join_spec(plan.workspace@, "Cargo.lock"@)
}

/// The text read in the last step, if that is what `event` reports.
pub open spec fn event_text(event: Event) -> Seq<char> {
    match event {
        Event::Contents(t) => t@,
        _ => seq![],
    }
}

/// The action that entering `phase` calls for; `event` is the outcome that led there.
pub open spec fn action_spec(plan: StagingPlan, phase: Phase, event: Event) -> ActionView {
    match phase {
        Phase::Begin => ActionView::Finish { succeeded: false },
        Phase::CreatingRoot => ActionView::CreateDir { path: plan.workspace@ },
        Phase::CreatingSrc => ActionView::CreateDir { path: join_spec(plan.workspace@, "src"@) },
        Phase::CopyingScript => ActionView::CopyFile {
            from: plan.source@,
            to: join_spec(join_spec(plan.workspace@, "src"@), "main.rs"@),
        },
        Phase::WritingManifest => ActionView::WriteFile {
            path: staged_manifest(plan),
            contents: synthesized_manifest_spec(
                qualify_spec(plan.deps_section@, plan.config.base_dir@),
            ),
        },
        Phase::CopyingTree => ActionView::CopyTree { from: plan.source@, to: plan.workspace@ },
        Phase::ReadingManifest => ActionView::ReadFile { path: staged_manifest(plan) },
        Phase::PatchingManifest => ActionView::WriteFile {
            path: staged_manifest(plan),
            contents: qualify_spec(event_text(event), plan.source@),
        },
        Phase::ProbingLock => ActionView::ProbeFile { path: plan.saved_lock@ },
        Phase::CopyingLockIn => ActionView::CopyFile {
            from: plan.saved_lock@,
            to: staged_lock(plan),
        },
        Phase::Compiling => ActionView::Run {
            invocation: compile_spec(plan.config, plan.workspace@),
        },
        Phase::CopyingLockOut => ActionView::CopyFile {
            from: staged_lock(plan),
            to: plan.saved_lock@,
        },
        Phase::RunningScript => ActionView::Run {
            invocation: script_run_spec(plan.config.base_dir@, plan.executable@),
        },
        Phase::Removing { .. } => if inside_spec(plan.workspace@, plan.temp_root@) {
            ActionView::RemoveWorkspace { path: plan.workspace@ }
        } else {
            ActionView::RefuseRemoval { path: plan.workspace@ }
        },
        Phase::Finished { succeeded } => ActionView::Finish { succeeded },
    }
}

fn next_phase_exec(mode: Mode, phase: Phase, event: &Event) -> (r: Phase)
    ensures
        r == next_phase(mode, phase, *event),
{
    let done = match event {
        Event::Done => true,
        _ => false,
    };
    match phase {
        Phase::Begin => match mode {
            Mode::Synthesized => Phase::CreatingRoot,
            Mode::WholeCrate => Phase::CopyingTree,
        },
        Phase::Removing { succeeded } => if done {
            Phase::Finished { succeeded }
        } else {
            Phase::Finished { succeeded: false }
        },
        Phase::Finished { succeeded } => Phase::Finished { succeeded },
        Phase::ReadingManifest => match event {
            Event::Contents(_) => Phase::PatchingManifest,
            _ => Phase::Removing { succeeded: false },
        },
        Phase::ProbingLock => match event {
            Event::Present => Phase::CopyingLockIn,
            Event::Absent => Phase::Compiling,
            _ => Phase::Removing { succeeded: false },
        },
        _ => if !done {
            Phase::Removing { succeeded: false }
        } else {
            match phase {
                Phase::CreatingRoot => Phase::CreatingSrc,
                Phase::CreatingSrc => Phase::CopyingScript,
                Phase::CopyingScript => Phase::WritingManifest,
                Phase::WritingManifest => Phase::ProbingLock,
                Phase::CopyingTree => Phase::ReadingManifest,
                Phase::PatchingManifest => Phase::ProbingLock,
                Phase::CopyingLockIn => Phase::Compiling,
                Phase::Compiling => Phase::CopyingLockOut,
                Phase::CopyingLockOut => Phase::RunningScript,
                _ => Phase::Removing { succeeded: true },
            }
        },
    }
}

/// Takes the staging from `phase` on the outcome `event` of the last action:
/// returns the new phase and the action it calls for. Start a staging with
/// `Phase::Begin` (the event is then ignored) and stop after `Action::Finish`
/// or `Action::RefuseRemoval`.
pub fn advance(plan: &StagingPlan, phase: Phase, event: Event) -> (r: (Phase, Action))
    ensures
        r.0 == next_phase(plan.mode, phase, event),
        r.1@ == action_spec(*plan, r.0, event),
{
    let next = next_phase_exec(plan.mode, phase, &event);
    let ws = plan.workspace.as_str();
    let action = match next {
        Phase::Begin => Action::Finish { succeeded: false },
        Phase::CreatingRoot => Action::CreateDir { path: plan.workspace.clone() },
        Phase::CreatingSrc => Action::CreateDir { path: join_path(ws, "src") },
        Phase::CopyingScript => {
            let src = join_path(ws, "src");
            Action::CopyFile { from: plan.source.clone(), to: join_path(src.as_str(), "main.rs") }
        },
        Phase::WritingManifest => {
            let deps = qualify_cargo_toml_paths_in_text(
                plan.deps_section.as_str(),
                plan.config.base_dir.as_str(),
            );
            Action::WriteFile {
                path: join_path(ws, "Cargo.toml"),
                contents: synthesized_manifest(deps.as_str()),
            }
        },
        Phase::CopyingTree => Action::CopyTree {
            from: plan.source.clone(),
            to: plan.workspace.clone(),
        },
        Phase::ReadingManifest => Action::ReadFile { path: join_path(ws, "Cargo.toml") },
        Phase::PatchingManifest => {
            let text = match &event {
                Event::Contents(t) => t.clone(),
                _ => String::new(),
            };
            Action::WriteFile {
                path: join_path(ws, "Cargo.toml"),
                contents: qualify_cargo_toml_paths_in_text(text.as_str(), plan.source.as_str()),
            }
        },
        Phase::ProbingLock => Action::ProbeFile { path: plan.saved_lock.clone() },
        Phase::CopyingLockIn => Action::CopyFile {
            from: plan.saved_lock.clone(),
            to: join_path(ws, "Cargo.lock"),
        },
        Phase::Compiling => Action::Run { invocation: compile_invocation(&plan.config, ws) },
        Phase::CopyingLockOut => Action::CopyFile {
            from: join_path(ws, "Cargo.lock"),
            to: plan.saved_lock.clone(),
        },
        Phase::RunningScript => Action::Run {
            invocation: script_invocation(plan.config.base_dir.as_str(), plan.executable.as_str()),
        },
        Phase::Removing { .. } => if removal_allowed(ws, plan.temp_root.as_str()) {
            Action::RemoveWorkspace { path: plan.workspace.clone() }
        } else {
            Action::RefuseRemoval { path: plan.workspace.clone() }
        },
        Phase::Finished { succeeded } => Action::Finish { succeeded },
    };
    (next, action)
}

/// The line that tells the invoking build to rerun when the file at `path` changes.
pub fn rerun_directive(path: &str) -> (r: String)
    ensures
        r@ == "cargo:rerun-if-changed="@ + path@,
{
    let mut r = String::from_str("cargo:rerun-if-changed=");
    r.append(path);
    r
}

} // verus!
