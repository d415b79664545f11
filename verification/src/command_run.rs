//! The course of one command of a hook, as a state machine: the library decides
//! every step; the program performs the reads and the launches that a step asks
//! for and hands back what came of them.
use vstd::prelude::*;
use crate::cache::{compute_cache_hash, spec_cache_hash, CacheStore};
use crate::config::{CommandSeverity, HookCommand, Verbosity};
use crate::error::{ErrorView, HooxError};
use crate::hooks::{
    cache_enabled, command_label, command_line, copy_files, copy_pairs, decide_attempt, effective_severity,
    effective_verbosity, env_plan, max_attempts, pair_views, precheck, prepare_command, retry_message, run_message,
    shows_stderr, shows_stdout, skip_message, skip_reason_text, spec_command_label, spec_decide_attempt,
    spec_env_plan, spec_precheck, spec_program, spec_retry_message, spec_run_message, AttemptDecision,
    AttemptDecisionView, AttemptOutcome, ChangedFile, EnvPlan, Precheck, PrecheckView, Prepared, RunResult,
    ScriptSource, SkipReason,
};
use crate::text::{extend_strings, views};

verus! {

/// What the program hands back to a command in progress.
#[derive(Debug)]
pub enum Event {
    /// The contents of the files asked for, in order; `None` for a file that could not be read.
    Contents(Vec<Option<Vec<u8>>>),
    /// The text of the script file asked for.
    Script(String),
    /// How the attempt asked for ended.
    Ended(AttemptOutcome),
}

/// The view of an [`Event`].
pub enum EventView {
    Contents(Seq<Option<Vec<u8>>>),
    Script(Seq<char>),
    Ended(AttemptOutcome),
}

impl View for Event {
    type V = EventView;

    open spec fn view(&self) -> EventView {
        match self {
            Event::Contents(c) => EventView::Contents(c@),
            Event::Script(s) => EventView::Script(s@),
            Event::Ended(o) => EventView::Ended(*o),
        }
    }
}

/// What a command in progress asks of the program next.
#[derive(Debug, PartialEq, Eq)]
pub enum Step {
    /// Read these files, relative to the repository root, and hand their
    /// contents back in the same order.
    ReadFiles(Vec<ChangedFile>),
    /// Read this script file, relative to the repository root, and hand its text back.
    ReadScript(String),
    /// Print `notice` on standard error when there is one; then start attempt
    /// `attempt`: run `argv` in the environment `env`, in the directory `cwd`
    /// relative to the repository root (the inherited one when there is none),
    /// with the files `input` on its standard input; show the output streams
    /// that the flags name, and hand back how the attempt ended.
    Launch {
        attempt: u64,
        argv: Vec<String>,
        env: EnvPlan,
        cwd: Option<String>,
        input: Vec<ChangedFile>,
        show_stdout: bool,
        show_stderr: bool,
        notice: Option<String>,
    },
    /// The command is over with `result`: print `notice` on standard output
    /// when there is one, and store `cache_entry` in the cache when there is one.
    Done { result: RunResult, notice: Option<String>, cache_entry: Option<(String, String)> },
    /// The command failed in a way that aborts the hook.
    Failed(HooxError),
}

/// An environment set-up as a value: whether the inherited environment is
/// cleared, and the variables set, in order.
pub open spec fn env_view(e: EnvPlan) -> (bool, Seq<(Seq<char>, Seq<char>)>) {
    (e.clear, pair_views(e.set@))
}

/// The view of an optional string.
pub open spec fn opt_view(o: Option<String>) -> Option<Seq<char>> {
    match o {
        Some(s) => Some(s@),
        None => None,
    }
}

/// The view of an optional cache entry.
pub open spec fn entry_view(o: Option<(String, String)>) -> Option<(Seq<char>, Seq<char>)> {
    match o {
        Some(e) => Some((e.0@, e.1@)),
        None => None,
    }
}

/// The view of a [`Step`].
pub enum StepView {
    ReadFiles(Seq<ChangedFile>),
    ReadScript(Seq<char>),
    Launch {
        attempt: u64,
        argv: Seq<Seq<char>>,
        env: (bool, Seq<(Seq<char>, Seq<char>)>),
        cwd: Option<Seq<char>>,
        input: Seq<ChangedFile>,
        show_stdout: bool,
        show_stderr: bool,
        notice: Option<Seq<char>>,
    },
    Done { result: RunResult, notice: Option<Seq<char>>, cache_entry: Option<(Seq<char>, Seq<char>)> },
    Failed(ErrorView),
}

impl View for Step {
    type V = StepView;

    open spec fn view(&self) -> StepView {
        match self {
            Step::ReadFiles(f) => StepView::ReadFiles(f@),
            Step::ReadScript(s) => StepView::ReadScript(s@),
            Step::Launch { attempt, argv, env, cwd, input, show_stdout, show_stderr, notice } => StepView::Launch {
                attempt: *attempt,
                argv: views(argv@),
                env: env_view(*env),
                cwd: opt_view(*cwd),
                input: input@,
                show_stdout: *show_stdout,
                show_stderr: *show_stderr,
                notice: opt_view(*notice),
            },
            Step::Done { result, notice, cache_entry } => StepView::Done {
                result: *result,
                notice: opt_view(*notice),
                cache_entry: entry_view(*cache_entry),
            },
            Step::Failed(e) => StepView::Failed(e@),
        }
    }
}

/// What a command run is given.
pub struct RunInputs<'a> {
    /// The command.
    pub cmd: &'a HookCommand,
    /// The hook it belongs to.
    pub hook: &'a str,
    /// Its index in the hook.
    pub index: usize,
    /// The path of the configuration file, handed to the command.
    pub hoox_path: &'a str,
    /// The hook's own arguments, handed to the command.
    pub hook_args: &'a Vec<String>,
    /// The inherited environment.
    pub parent_env: &'a Vec<(String, String)>,
    /// Only report what would happen.
    pub dry_run: bool,
    /// The configuration's verbosity.
    pub default_verbosity: Verbosity,
    /// The configuration's severity.
    pub default_severity: CommandSeverity,
}

/// The setting of a command run, as values.
pub struct RunSetting {
    pub cmd: HookCommand,
    pub label: Seq<char>,
    pub hoox_path: Seq<char>,
    pub args: Seq<Seq<char>>,
    pub parent: Seq<(Seq<char>, Seq<char>)>,
    pub dry_run: bool,
    pub verbosity: Verbosity,
    pub severity: CommandSeverity,
}

impl<'a> RunInputs<'a> {
    /// The setting these inputs describe; the label is `hook:index`.
    pub open spec fn setting(&self) -> RunSetting {
        RunSetting {
            cmd: *self.cmd,
            label: spec_command_label(self.hook@, self.index as nat),
            hoox_path: self.hoox_path@,
            args: views(self.hook_args@),
            parent: pair_views(self.parent_env@),
            dry_run: self.dry_run,
            verbosity: self.default_verbosity,
            severity: self.default_severity,
        }
    }
}

/// The verbosity that applies to the command.
pub open spec fn run_verbosity(s: RunSetting) -> Verbosity {
    match s.cmd.verbosity {
        Some(v) => v,
        None => s.verbosity,
    }
}

/// The severity that applies to the command.
pub open spec fn run_severity(s: RunSetting) -> CommandSeverity {
    match s.cmd.severity {
        Some(v) => v,
        None => s.severity,
    }
}

/// How many times the command may be attempted.
pub open spec fn run_max_attempts(s: RunSetting) -> u64 {
    match s.cmd.retry {
        Some(r) => (r + 1) as u64,
        None => 1,
    }
}

/// Where a command run stands, as a value.
pub enum PhaseView {
    /// Waiting for the contents of the matched files, to consult the cache.
    Hashing { matched: Seq<ChangedFile> },
    /// Waiting for the text of the script file.
    Loading { matched: Seq<ChangedFile>, program: Seq<Seq<char>> },
    /// Waiting for the end of attempt `attempt` of `max`.
    Running {
        matched: Seq<ChangedFile>,
        argv: Seq<Seq<char>>,
        env: (bool, Seq<(Seq<char>, Seq<char>)>),
        attempt: u64,
        max: u64,
    },
    /// Waiting for the contents of the matched files, to refresh the cache after a success.
    Refreshing { matched: Seq<ChangedFile>, result: RunResult },
    /// Nothing more to do.
    Over,
}

/// The command ends with `result`.
pub open spec fn finish(
    result: RunResult,
    notice: Option<Seq<char>>,
    entry: Option<(Seq<char>, Seq<char>)>,
) -> (PhaseView, StepView) {
    (PhaseView::Over, StepView::Done { result, notice, cache_entry: entry })
}

/// The command fails with `e`.
pub open spec fn fail(e: ErrorView) -> (PhaseView, StepView) {
    (PhaseView::Over, StepView::Failed(e))
}

/// A line printed in a dry run only.
pub open spec fn dry_notice(s: RunSetting, line: Seq<char>) -> Option<Seq<char>> {
    if s.dry_run {
        Some(line)
    } else {
        None
    }
}

/// The dry-run line of a skipped command.
pub open spec fn skip_line(label: Seq<char>, r: SkipReason) -> Seq<char> {
    "[skip] "@ + label + " ("@ + skip_reason_text(r) + ")"@
}

/// Attempt `attempt` of `max` is launched.
pub open spec fn launch(
    s: RunSetting,
    matched: Seq<ChangedFile>,
    argv: Seq<Seq<char>>,
    env: (bool, Seq<(Seq<char>, Seq<char>)>),
    attempt: u64,
    max: u64,
    notice: Option<Seq<char>>,
) -> (PhaseView, StepView) {
    let v = run_verbosity(s);
    (
        PhaseView::Running { matched, argv, env, attempt, max },
        StepView::Launch {
            attempt,
            argv,
            env,
            cwd: opt_view(s.cmd.cwd),
            input: matched,
            show_stdout: v == Verbosity::All || v == Verbosity::Stdout,
            show_stderr: v == Verbosity::All || v == Verbosity::Stderr,
            notice,
        },
    )
}

/// Once the script is known: a dry run ends with the line saying that the
/// command would run; otherwise the environment is set up and attempt 1 is
/// launched with the full command line.
pub open spec fn after_script(
    s: RunSetting,
    matched: Seq<ChangedFile>,
    program: Seq<Seq<char>>,
    script: Seq<char>,
) -> (PhaseView, StepView) {
    if s.dry_run {
        finish(RunResult::Ran, Some(spec_run_message(s.label, matched.len(), script)), None)
    } else {
        match spec_env_plan(s.cmd, s.parent, matched) {
            Err(e) => fail(e),
            Ok(env) => launch(
                s,
                matched,
                program + seq![script, s.hoox_path] + s.args,
                env,
                1,
                run_max_attempts(s),
                None,
            ),
        }
    }
}

/// Once the cache can be consulted (`hash` is the files' hash when caching is
/// on): a command whose hash is the stored one is over, cached; otherwise its
/// program and script are resolved, and a script file is asked for.
pub open spec fn after_hash(
    s: RunSetting,
    cache: Map<Seq<char>, Seq<char>>,
    matched: Seq<ChangedFile>,
    hash: Option<Seq<char>>,
) -> (PhaseView, StepView) {
    if hash matches Some(h) && cache.contains_key(s.label) && cache[s.label] == h {
        finish(RunResult::Cached, dry_notice(s, skip_line(s.label, SkipReason::Cached)), None)
    } else {
        match spec_program(s.cmd) {
            Err(e) => fail(e),
            Ok(p) => match (s.cmd.command.inline, s.cmd.command.file) {
                (Some(t), None) => after_script(s, matched, p, t@),
                (None, Some(f)) => (PhaseView::Loading { matched, program: p }, StepView::ReadScript(f@)),
                _ => fail(ErrorView::InvalidCommandSpec),
            },
        }
    }
}

/// The first step of a command: the branch and file checks, which may skip it;
/// then, with caching on, the matched files are asked for.
pub open spec fn spec_start(
    s: RunSetting,
    branch: Option<Seq<char>>,
    all: Seq<ChangedFile>,
    cache: Map<Seq<char>, Seq<char>>,
) -> (PhaseView, StepView) {
    match spec_precheck(s.cmd, branch, all) {
        Err(e) => fail(e),
        Ok(PrecheckView::Skip(r)) => finish(RunResult::Skipped, dry_notice(s, skip_line(s.label, r)), None),
        Ok(PrecheckView::Proceed(m)) => if s.cmd.cache == Some(true) {
            (PhaseView::Hashing { matched: m }, StepView::ReadFiles(m))
        } else {
            after_hash(s, cache, m, None)
        },
    }
}

/// Whether a command run in `phase` takes `event`: the contents of exactly the
/// files asked for, the script, or the end of an attempt, as asked.
pub open spec fn accepts_event(phase: PhaseView, event: EventView) -> bool {
    match phase {
        PhaseView::Hashing { matched } => event matches EventView::Contents(c) && c.len() == matched.len(),
        PhaseView::Loading { .. } => event is Script,
        PhaseView::Running { attempt, max, .. } => event is Ended && 1 <= attempt <= max,
        PhaseView::Refreshing { matched, .. } => event matches EventView::Contents(c) && c.len() == matched.len(),
        PhaseView::Over => false,
    }
}

/// The step after `event`: the contents of the files give the hash that the
/// cache is consulted with, or that is stored after a success; the script
/// leads to the launch; the end of an attempt is decided on, and a retry
/// launches the next attempt with a notice.
pub open spec fn spec_resume(
    s: RunSetting,
    phase: PhaseView,
    event: EventView,
    cache: Map<Seq<char>, Seq<char>>,
) -> (PhaseView, StepView) {
    match phase {
        PhaseView::Hashing { matched } => match event {
            EventView::Contents(c) => after_hash(s, cache, matched, Some(spec_cache_hash(matched, c))),
            _ => arbitrary(),
        },
        PhaseView::Loading { matched, program } => match event {
            EventView::Script(t) => after_script(s, matched, program, t),
            _ => arbitrary(),
        },
        PhaseView::Running { matched, argv, env, attempt, max } => match event {
            EventView::Ended(o) => match spec_decide_attempt(
                s.label,
                attempt,
                max,
                o,
                run_severity(s),
                s.cmd.cache == Some(true),
            ) {
                AttemptDecisionView::Retry => launch(
                    s,
                    matched,
                    argv,
                    env,
                    (attempt + 1) as u64,
                    max,
                    Some(spec_retry_message(s.label, attempt as nat, max as nat, o is TimedOut)),
                ),
                AttemptDecisionView::Finish { result, update_cache } => if update_cache {
                    (PhaseView::Refreshing { matched, result }, StepView::ReadFiles(matched))
                } else {
                    finish(result, None, None)
                },
                AttemptDecisionView::Fail(e) => fail(e),
            },
            _ => arbitrary(),
        },
        PhaseView::Refreshing { matched, result } => match event {
            EventView::Contents(c) => finish(result, None, Some((s.label, spec_cache_hash(matched, c)))),
            _ => arbitrary(),
        },
        PhaseView::Over => arbitrary(),
    }
}

/// A dry run executes nothing and writes no cache: no step of it launches an
/// attempt, waits for one, or refreshes the cache.
pub proof fn law_dry_run_runs_nothing(
    s: RunSetting,
    branch: Option<Seq<char>>,
    all: Seq<ChangedFile>,
    cache: Map<Seq<char>, Seq<char>>,
    phase: PhaseView,
    event: EventView,
)
    requires
        s.dry_run,
        accepts_event(phase, event),
        !(phase is Running),
        !(phase is Refreshing),
    ensures
        !(spec_start(s, branch, all, cache).0 is Running),
        !(spec_start(s, branch, all, cache).0 is Refreshing),
        !(spec_start(s, branch, all, cache).1 is Launch),
        !(spec_resume(s, phase, event, cache).0 is Running),
        !(spec_resume(s, phase, event, cache).0 is Refreshing),
        !(spec_resume(s, phase, event, cache).1 is Launch),
        !(spec_resume(s, phase, event, cache).1 matches StepView::Done { cache_entry: Some(_), .. }),
{
}

/// Attempts are launched one after the other, starting from 1, and never
/// beyond the number of attempts the command allows.
pub proof fn law_attempts_in_order(
    s: RunSetting,
    branch: Option<Seq<char>>,
    all: Seq<ChangedFile>,
    cache: Map<Seq<char>, Seq<char>>,
    phase: PhaseView,
    event: EventView,
)
    requires
        accepts_event(phase, event),
    ensures
        spec_start(s, branch, all, cache).1 matches StepView::Launch { attempt, .. } ==> attempt == 1,
        spec_start(s, branch, all, cache).0 matches PhaseView::Running { attempt, max, .. } ==> attempt == 1 && max
            == run_max_attempts(s),
        !(phase is Running) ==> (spec_resume(s, phase, event, cache).1 matches StepView::Launch { attempt, .. }
            ==> attempt == 1),
        !(phase is Running) ==> (spec_resume(s, phase, event, cache).0 matches PhaseView::Running { attempt, max, .. }
            ==> attempt == 1 && max == run_max_attempts(s)),
        phase matches PhaseView::Running { attempt: a, max: m, .. } ==> (spec_resume(s, phase, event, cache).1 matches StepView::Launch {
            attempt,
            ..
        } ==> attempt == a + 1 && attempt <= m),
{
}

/// The cache is written only after a successful attempt of a command that
/// caches, under the command's own label, with the hash of its matched files
/// as they are after the run.
pub proof fn law_cache_written_only_after_success(
    s: RunSetting,
    branch: Option<Seq<char>>,
    all: Seq<ChangedFile>,
    cache: Map<Seq<char>, Seq<char>>,
    phase: PhaseView,
    event: EventView,
)
    requires
        accepts_event(phase, event),
    ensures
        !(spec_start(s, branch, all, cache).0 is Refreshing),
        !(spec_start(s, branch, all, cache).1 matches StepView::Done { cache_entry: Some(_), .. }),
        spec_resume(s, phase, event, cache).0 is Refreshing ==> {
            &&& phase is Running
            &&& event matches EventView::Ended(AttemptOutcome::Exited { success: true, .. })
            &&& s.cmd.cache == Some(true)
        },
        spec_resume(s, phase, event, cache).1 matches StepView::Done { cache_entry: Some(e), .. } ==> {
            &&& phase matches PhaseView::Refreshing { matched, .. }
            &&& event matches EventView::Contents(c)
            &&& e == (s.label, spec_cache_hash(matched, c))
        },
{
}

/// A command whose files hash as stored under its label is over, cached,
/// without running.
pub proof fn law_unchanged_files_are_cached(
    s: RunSetting,
    cache: Map<Seq<char>, Seq<char>>,
    matched: Seq<ChangedFile>,
    contents: Seq<Option<Vec<u8>>>,
)
    requires
        contents.len() == matched.len(),
        cache.contains_key(s.label),
        cache[s.label] == spec_cache_hash(matched, contents),
    ensures
        spec_resume(s, PhaseView::Hashing { matched }, EventView::Contents(contents), cache) == finish(
            RunResult::Cached,
            dry_notice(s, skip_line(s.label, SkipReason::Cached)),
            None,
        ),
{
}

/// A timeout on the last attempt fails the hook, whatever the severity.
pub proof fn law_last_timeout_fails(
    s: RunSetting,
    cache: Map<Seq<char>, Seq<char>>,
    matched: Seq<ChangedFile>,
    argv: Seq<Seq<char>>,
    env: (bool, Seq<(Seq<char>, Seq<char>)>),
    max: u64,
    seconds: u64,
)
    requires
        1 <= max,
    ensures
        spec_resume(
            s,
            PhaseView::Running { matched, argv, env, attempt: max, max },
            EventView::Ended(AttemptOutcome::TimedOut { seconds }),
            cache,
        ) == fail(ErrorView::TimedOut { label: s.label, seconds }),
{
}

enum Phase {
    Hashing { matched: Vec<ChangedFile> },
    Loading { matched: Vec<ChangedFile>, program: Vec<String> },
    Running { matched: Vec<ChangedFile>, argv: Vec<String>, env: EnvPlan, attempt: u64, max: u64 },
    Refreshing { matched: Vec<ChangedFile>, result: RunResult },
    Over,
}

spec fn phase_view(p: Phase) -> PhaseView {
    match p {
        Phase::Hashing { matched } => PhaseView::Hashing { matched: matched@ },
        Phase::Loading { matched, program } => PhaseView::Loading { matched: matched@, program: views(program@) },
        Phase::Running { matched, argv, env, attempt, max } => PhaseView::Running {
            matched: matched@,
            argv: views(argv@),
            env: env_view(env),
            attempt,
            max,
        },
        Phase::Refreshing { matched, result } => PhaseView::Refreshing { matched: matched@, result },
        Phase::Over => PhaseView::Over,
    }
}

/// What each phase keeps of the command: caching is on while hashing, and a
/// script is loaded for the program that the command names.
spec fn phase_ok(cmd: HookCommand, p: Phase) -> bool {
    match p {
        Phase::Hashing { .. } => cmd.cache == Some(true),
        Phase::Loading { program, .. } => spec_program(cmd) == Ok::<Seq<Seq<char>>, ErrorView>(views(program@)),
        _ => true,
    }
}

/// One command of a hook on its way from the checks to its result.
pub struct CommandRun<'a> {
    inputs: RunInputs<'a>,
    label: String,
    phase: Phase,
}

fn copy_strings(v: &Vec<String>) -> (res: Vec<String>)
    ensures
        views(res@) == views(v@),
{
    let mut out: Vec<String> = Vec::new();
    extend_strings(&mut out, v);
    proof {
        assert(views(Seq::<String>::empty()) + views(v@) =~= views(v@));
    }
    out
}

fn copy_env(e: &EnvPlan) -> (res: EnvPlan)
    ensures
        env_view(res) == env_view(*e),
{
    let mut set: Vec<(String, String)> = Vec::new();
    copy_pairs(&e.set, &mut set);
    proof {
        assert(pair_views(Seq::<(String, String)>::empty()) + pair_views(e.set@) =~= pair_views(e.set@));
    }
    EnvPlan { clear: e.clear, set }
}

fn launch_step(
    inputs: &RunInputs,
    matched: &Vec<ChangedFile>,
    argv: &Vec<String>,
    env: &EnvPlan,
    attempt: u64,
    max: u64,
    notice: Option<String>,
) -> (res: Step)
    ensures
        res@ == launch(inputs.setting(), matched@, views(argv@), env_view(*env), attempt, max, opt_view(notice)).1,
{
    let v = effective_verbosity(inputs.cmd, inputs.default_verbosity);
    Step::Launch {
        attempt,
        argv: copy_strings(argv),
        env: copy_env(env),
        cwd: match &inputs.cmd.cwd {
            Some(c) => Some(c.clone()),
            None => None,
        },
        input: copy_files(matched),
        show_stdout: shows_stdout(v),
        show_stderr: shows_stderr(v),
        notice,
    }
}

fn after_script_exec(
    inputs: &RunInputs,
    label: &String,
    matched: Vec<ChangedFile>,
    program: Vec<String>,
    script: &str,
) -> (res: (Phase, Step))
    requires
        label@ == spec_command_label(inputs.hook@, inputs.index as nat),
        spec_program(*inputs.cmd) == Ok::<Seq<Seq<char>>, ErrorView>(views(program@)),
    ensures
        (phase_view(res.0), res.1@) == after_script(inputs.setting(), matched@, views(program@), script@),
        phase_ok(*inputs.cmd, res.0),
{
    if inputs.dry_run {
        let line = run_message(label.as_str(), matched.len(), script);
        return (Phase::Over, Step::Done { result: RunResult::Ran, notice: Some(line), cache_entry: None });
    }
    match env_plan(inputs.cmd, inputs.parent_env, &matched) {
        Err(e) => (Phase::Over, Step::Failed(e)),
        Ok(env) => {
            proof {
                assert(views(program@).len() == program@.len());
                if let Some(p) = &inputs.cmd.program {
                    assert(views(p@).len() == p@.len());
                }
            }
            let argv = command_line(&program, script, inputs.hoox_path, inputs.hook_args);
            let max = max_attempts(inputs.cmd);
            let step = launch_step(inputs, &matched, &argv, &env, 1, max, None);
            (Phase::Running { matched, argv, env, attempt: 1, max }, step)
        },
    }
}

fn after_hash_exec(
    inputs: &RunInputs,
    label: &String,
    cache: &CacheStore,
    matched: Vec<ChangedFile>,
    hash: Option<String>,
) -> (res: (Phase, Step))
    requires
        label@ == spec_command_label(inputs.hook@, inputs.index as nat),
        hash is Some <==> inputs.cmd.cache == Some(true),
    ensures
        (phase_view(res.0), res.1@) == after_hash(inputs.setting(), cache@, matched@, opt_view(hash)),
        phase_ok(*inputs.cmd, res.0),
{
    let current: Option<&str> = match &hash {
        Some(h) => Some(h.as_str()),
        None => None,
    };
    match prepare_command(inputs.cmd, cache, label.as_str(), current) {
        Err(e) => (Phase::Over, Step::Failed(e)),
        Ok(Prepared::Cached) => {
            let notice = if inputs.dry_run {
                Some(skip_message(label.as_str(), SkipReason::Cached))
            } else {
                None
            };
            (Phase::Over, Step::Done { result: RunResult::Cached, notice, cache_entry: None })
        },
        Ok(Prepared::Ready { program, source }) => match source {
            ScriptSource::Inline(t) => after_script_exec(inputs, label, matched, program, t.as_str()),
            ScriptSource::File(f) => (Phase::Loading { matched, program }, Step::ReadScript(f)),
        },
    }
}

impl<'a> CommandRun<'a> {
    #[verifier::type_invariant]
    spec fn inv(self) -> bool {
        &&& self.label@ == spec_command_label(self.inputs.hook@, self.inputs.index as nat)
        &&& phase_ok(*self.inputs.cmd, self.phase)
    }

    /// The setting of this run.
    pub closed spec fn setting(&self) -> RunSetting {
        self.inputs.setting()
    }

    /// Where this run stands.
    pub closed spec fn phase(&self) -> PhaseView {
        phase_view(self.phase)
    }

    /// Starts a command: its checks against the current branch and the changed
    /// files, and the first step.
    pub fn start(inputs: RunInputs<'a>, branch: Option<&str>, all_changed: &Vec<ChangedFile>, cache: &CacheStore) -> (res:
        (CommandRun<'a>, Step))
        ensures
            res.0.setting() == inputs.setting(),
            (res.0.phase(), res.1@) == spec_start(
                inputs.setting(),
                crate::hooks::opt_str_view(branch),
                all_changed@,
                cache@,
            ),
    {
        let label = command_label(inputs.hook, inputs.index);
        let (phase, step) = match precheck(inputs.cmd, branch, all_changed) {
            Err(e) => (Phase::Over, Step::Failed(e)),
            Ok(Precheck::Skip(r)) => {
                let notice = if inputs.dry_run {
                    Some(skip_message(label.as_str(), r))
                } else {
                    None
                };
                (Phase::Over, Step::Done { result: RunResult::Skipped, notice, cache_entry: None })
            },
            Ok(Precheck::Proceed(m)) => {
                if cache_enabled(inputs.cmd) {
                    let files = copy_files(&m);
                    (Phase::Hashing { matched: m }, Step::ReadFiles(files))
                } else {
                    after_hash_exec(&inputs, &label, cache, m, None)
                }
            },
        };
        (CommandRun { inputs, label, phase }, step)
    }

    /// Whether this run takes `event` now.
    pub fn accepts(&self, event: &Event) -> (res: bool)
        ensures
            res == accepts_event(self.phase(), event@),
    {
        match &self.phase {
            Phase::Hashing { matched } => match event {
                Event::Contents(c) => c.len() == matched.len(),
                _ => false,
            },
            Phase::Loading { .. } => match event {
                Event::Script(_) => true,
                _ => false,
            },
            Phase::Running { attempt, max, .. } => match event {
                Event::Ended(_) => 1 <= *attempt && *attempt <= *max,
                _ => false,
            },
            Phase::Refreshing { matched, .. } => match event {
                Event::Contents(c) => c.len() == matched.len(),
                _ => false,
            },
            Phase::Over => false,
        }
    }

    /// Hands `event` to the run and returns the next step.
    pub fn resume(&mut self, event: Event, cache: &CacheStore) -> (step: Step)
        requires
            accepts_event(old(self).phase(), event@),
        ensures
            final(self).setting() == old(self).setting(),
            (final(self).phase(), step@) == spec_resume(old(self).setting(), old(self).phase(), event@, cache@),
    {
        proof {
            use_type_invariant(&*self);
        }
        let mut phase = Phase::Over;
        std::mem::swap(&mut phase, &mut self.phase);
        let (next, step) = match phase {
            Phase::Hashing { matched } => match event {
                Event::Contents(c) => {
                    let h = compute_cache_hash(&matched, &c);
                    after_hash_exec(&self.inputs, &self.label, cache, matched, Some(h))
                },
                _ => vstd::pervasive::unreached(),
            },
            Phase::Loading { matched, program } => match event {
                Event::Script(t) => after_script_exec(&self.inputs, &self.label, matched, program, t.as_str()),
                _ => vstd::pervasive::unreached(),
            },
            Phase::Running { matched, argv, env, attempt, max } => match event {
                Event::Ended(o) => {
                    let severity = effective_severity(self.inputs.cmd, self.inputs.default_severity);
                    let caching = cache_enabled(self.inputs.cmd);
                    match decide_attempt(self.label.as_str(), attempt, max, o, severity, caching) {
                        AttemptDecision::Retry => {
                            let timed_out = match o {
                                AttemptOutcome::TimedOut { .. } => true,
                                AttemptOutcome::Exited { .. } => false,
                            };
                            let notice = retry_message(self.label.as_str(), attempt, max, timed_out);
                            let next_attempt = attempt + 1;
                            let step = launch_step(&self.inputs, &matched, &argv, &env, next_attempt, max, Some(notice));
                            (Phase::Running { matched, argv, env, attempt: next_attempt, max }, step)
                        },
                        AttemptDecision::Finish { result, update_cache } => {
                            if update_cache {
                                let files = copy_files(&matched);
                                (Phase::Refreshing { matched, result }, Step::ReadFiles(files))
                            } else {
                                (Phase::Over, Step::Done { result, notice: None, cache_entry: None })
                            }
                        },
                        AttemptDecision::Fail(e) => (Phase::Over, Step::Failed(e)),
                    }
                },
                _ => vstd::pervasive::unreached(),
            },
            Phase::Refreshing { matched, result } => match event {
                Event::Contents(c) => {
                    let h = compute_cache_hash(&matched, &c);
                    let key = self.label.clone();
                    (Phase::Over, Step::Done { result, notice: None, cache_entry: Some((key, h)) })
                },
                _ => vstd::pervasive::unreached(),
            },
            Phase::Over => vstd::pervasive::unreached(),
        };
        self.phase = next;
        step
    }
}

} // verus!
