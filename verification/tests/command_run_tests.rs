use hoox::cache::{compute_cache_hash, CacheStore};
use hoox::command_run::{CommandRun, Event, RunInputs, Step};
use hoox::config::{CommandSeverity, CommandSpec, FileSelector, HookCommand, PatternList, Verbosity};
use hoox::error::HooxError;
use hoox::hooks::{AttemptOutcome, ChangeType, ChangedFile, EnvPlan, RunResult};

fn inline(s: &str) -> HookCommand {
    HookCommand {
        command: CommandSpec { inline: Some(s.to_string()), file: None },
        program: None,
        severity: None,
        verbosity: None,
        files: None,
        cwd: None,
        parallel: None,
        env: None,
        timeout: None,
        branch: None,
        cache: None,
        retry: None,
    }
}

fn strings(v: &[&str]) -> Vec<String> {
    v.iter().map(|s| s.to_string()).collect()
}

fn changed() -> Vec<ChangedFile> {
    vec![ChangedFile { path: "src/a.rs".to_string(), change_type: ChangeType::Modified }]
}

struct Fixture {
    args: Vec<String>,
    env: Vec<(String, String)>,
}

impl Fixture {
    fn new() -> Self {
        Fixture { args: strings(&["msg"]), env: vec![("HOME".to_string(), "/home/u".to_string())] }
    }

    fn inputs<'a>(&'a self, cmd: &'a HookCommand, dry_run: bool) -> RunInputs<'a> {
        RunInputs {
            cmd,
            hook: "pre-commit",
            index: 0,
            hoox_path: "/repo/.hoox.conf",
            hook_args: &self.args,
            parent_env: &self.env,
            dry_run,
            default_verbosity: Verbosity::All,
            default_severity: CommandSeverity::Error,
        }
    }
}

fn hoox_var(value: &str) -> EnvPlan {
    EnvPlan { clear: false, set: vec![("HOOX_CHANGED_FILES".to_string(), value.to_string())] }
}

fn failed(code: i32) -> Event {
    Event::Ended(AttemptOutcome::Exited { success: false, code: Some(code) })
}

fn succeeded() -> Event {
    Event::Ended(AttemptOutcome::Exited { success: true, code: Some(0) })
}

#[test]
fn inline_command_launches_then_finishes() {
    let fx = Fixture::new();
    let cmd = inline("cargo test");
    let cache = CacheStore::new();
    let (mut run, step) = CommandRun::start(fx.inputs(&cmd, false), Some("main"), &changed(), &cache);
    assert_eq!(
        step,
        Step::Launch {
            attempt: 1,
            argv: strings(&["sh", "-c", "cargo test", "/repo/.hoox.conf", "msg"]),
            env: hoox_var("src/a.rs"),
            cwd: None,
            input: changed(),
            show_stdout: true,
            show_stderr: true,
            notice: None,
        }
    );
    assert!(run.accepts(&succeeded()));
    assert!(!run.accepts(&Event::Contents(vec![None])));
    assert!(!run.accepts(&Event::Script("x".to_string())));
    let done = run.resume(succeeded(), &cache);
    assert_eq!(done, Step::Done { result: RunResult::Ran, notice: None, cache_entry: None });
    assert!(!run.accepts(&succeeded()));
}

#[test]
fn dry_run_reports_instead_of_running() {
    let fx = Fixture::new();
    let cache = CacheStore::new();
    let cmd = inline("echo one\necho two");
    let (_, step) = CommandRun::start(fx.inputs(&cmd, true), None, &changed(), &cache);
    assert_eq!(
        step,
        Step::Done {
            result: RunResult::Ran,
            notice: Some("[ run] pre-commit:0 (1 file) echo one".to_string()),
            cache_entry: None,
        }
    );
    let on_main = HookCommand { branch: Some("^main$".to_string()), ..inline("x") };
    let (_, step) = CommandRun::start(fx.inputs(&on_main, true), Some("dev"), &changed(), &cache);
    assert_eq!(
        step,
        Step::Done {
            result: RunResult::Skipped,
            notice: Some("[skip] pre-commit:0 (branch mismatch)".to_string()),
            cache_entry: None,
        }
    );
    let (_, step) = CommandRun::start(fx.inputs(&on_main, false), Some("dev"), &changed(), &cache);
    assert_eq!(step, Step::Done { result: RunResult::Skipped, notice: None, cache_entry: None });
}

#[test]
fn script_file_is_asked_for_then_launched() {
    let fx = Fixture::new();
    let cache = CacheStore::new();
    let cmd = HookCommand {
        command: CommandSpec { inline: None, file: Some("./lint.py".to_string()) },
        program: Some(strings(&["python3", "-c"])),
        verbosity: Some(Verbosity::Stderr),
        ..inline("x")
    };
    let (mut run, step) = CommandRun::start(fx.inputs(&cmd, false), None, &vec![], &cache);
    assert_eq!(step, Step::ReadScript("./lint.py".to_string()));
    assert!(run.accepts(&Event::Script(String::new())));
    let step = run.resume(Event::Script("print(1)\n".to_string()), &cache);
    assert_eq!(
        step,
        Step::Launch {
            attempt: 1,
            argv: strings(&["python3", "-c", "print(1)\n", "/repo/.hoox.conf", "msg"]),
            env: hoox_var(""),
            cwd: None,
            input: vec![],
            show_stdout: false,
            show_stderr: true,
            notice: None,
        }
    );
}

#[test]
fn cache_is_consulted_and_refreshed() {
    let fx = Fixture::new();
    let cmd = HookCommand {
        cache: Some(true),
        files: Some(FileSelector { glob: Some(PatternList::Single("**/*.rs".to_string())), regex: None }),
        ..inline("cargo test")
    };
    let contents = vec![Some(b"fn a() {}".to_vec())];
    let hash = compute_cache_hash(&changed(), &contents);

    let mut cache = CacheStore::new();
    let (mut run, step) = CommandRun::start(fx.inputs(&cmd, false), None, &changed(), &cache);
    assert_eq!(step, Step::ReadFiles(changed()));
    assert!(!run.accepts(&Event::Contents(vec![])));
    let step = run.resume(Event::Contents(contents.clone()), &cache);
    assert!(matches!(step, Step::Launch { attempt: 1, .. }));
    let step = run.resume(succeeded(), &cache);
    assert_eq!(step, Step::ReadFiles(changed()));
    let step = run.resume(Event::Contents(contents.clone()), &cache);
    assert_eq!(
        step,
        Step::Done {
            result: RunResult::Ran,
            notice: None,
            cache_entry: Some(("pre-commit:0".to_string(), hash.clone())),
        }
    );

    cache.insert("pre-commit:0".to_string(), hash);
    let (mut run, _) = CommandRun::start(fx.inputs(&cmd, true), None, &changed(), &cache);
    let step = run.resume(Event::Contents(contents.clone()), &cache);
    assert_eq!(
        step,
        Step::Done {
            result: RunResult::Cached,
            notice: Some("[skip] pre-commit:0 (cached)".to_string()),
            cache_entry: None,
        }
    );
    let (mut run, _) = CommandRun::start(fx.inputs(&cmd, false), None, &changed(), &cache);
    let step = run.resume(Event::Contents(vec![Some(b"changed".to_vec())]), &cache);
    assert!(matches!(step, Step::Launch { attempt: 1, .. }));
}

#[test]
fn failure_is_retried_then_fails_the_hook() {
    let fx = Fixture::new();
    let cache = CacheStore::new();
    let cmd = HookCommand { retry: Some(1), cache: Some(false), ..inline("npm audit") };
    let (mut run, _) = CommandRun::start(fx.inputs(&cmd, false), None, &changed(), &cache);
    match run.resume(failed(2), &cache) {
        Step::Launch { attempt, notice, .. } => {
            assert_eq!(attempt, 2);
            assert_eq!(notice, Some("hoox: pre-commit:0: failed (attempt 1/2, retrying)".to_string()));
        },
        other => panic!("unexpected: {:?}", other),
    }
    assert_eq!(run.resume(failed(3), &cache), Step::Done { result: RunResult::Failed(3), notice: None, cache_entry: None });
}

#[test]
fn warn_severity_counts_a_failure_as_run() {
    let fx = Fixture::new();
    let cache = CacheStore::new();
    let cmd = HookCommand { severity: Some(CommandSeverity::Warn), ..inline("x") };
    let (mut run, _) = CommandRun::start(fx.inputs(&cmd, false), None, &changed(), &cache);
    assert_eq!(run.resume(failed(1), &cache), Step::Done { result: RunResult::Ran, notice: None, cache_entry: None });
}

#[test]
fn timeout_on_the_last_attempt_fails() {
    let fx = Fixture::new();
    let cache = CacheStore::new();
    let cmd = HookCommand { timeout: Some(30), retry: Some(1), ..inline("slow") };
    let (mut run, _) = CommandRun::start(fx.inputs(&cmd, false), None, &changed(), &cache);
    let timed_out = || Event::Ended(AttemptOutcome::TimedOut { seconds: 30 });
    match run.resume(timed_out(), &cache) {
        Step::Launch { attempt, notice, .. } => {
            assert_eq!(attempt, 2);
            assert_eq!(notice, Some("hoox: pre-commit:0: timed out (attempt 1/2)".to_string()));
        },
        other => panic!("unexpected: {:?}", other),
    }
    assert_eq!(
        run.resume(timed_out(), &cache),
        Step::Failed(HooxError::TimedOut { label: "pre-commit:0".to_string(), seconds: 30 })
    );
}

#[test]
fn configuration_errors_fail_the_command() {
    let fx = Fixture::new();
    let cache = CacheStore::new();
    let bad_branch = HookCommand { branch: Some("(".to_string()), ..inline("x") };
    let (_, step) = CommandRun::start(fx.inputs(&bad_branch, false), Some("main"), &changed(), &cache);
    assert!(matches!(step, Step::Failed(HooxError::InvalidBranchRegex { .. })));
    let empty = HookCommand { program: Some(vec![]), ..inline("x") };
    let (_, step) = CommandRun::start(fx.inputs(&empty, false), None, &changed(), &cache);
    assert_eq!(step, Step::Failed(HooxError::EmptyProgram));
    let neither = HookCommand { command: CommandSpec { inline: None, file: None }, ..inline("x") };
    let (_, step) = CommandRun::start(fx.inputs(&neither, false), None, &changed(), &cache);
    assert_eq!(step, Step::Failed(HooxError::InvalidCommandSpec));
}

#[test]
fn launch_carries_the_working_directory() {
    let fx = Fixture::new();
    let cache = CacheStore::new();
    let cmd = HookCommand { cwd: Some("crates/api".to_string()), ..inline("cargo test") };
    let (_, step) = CommandRun::start(fx.inputs(&cmd, false), None, &changed(), &cache);
    match step {
        Step::Launch { cwd, .. } => assert_eq!(cwd, Some("crates/api".to_string())),
        other => panic!("unexpected: {:?}", other),
    }
}
