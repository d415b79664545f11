use hoox::cache::CacheStore;
use hoox::config::{
    CommandSeverity, CommandSpec, EnvConfig, FileSelector, HookCommand, Hoox, PatternList, Verbosity,
};
use hoox::error::HooxError;
use hoox::hooks::{
    cache_enabled, change_from_delta, changed_files_value, command_label, command_line, decide_attempt,
    default_severity, default_verbosity, effective_severity, effective_verbosity, env_plan, group_commands,
    max_attempts, precheck, prepare_command, resolve_program, retry_message, run_message, script_source,
    select_hook, shows_stderr, shows_stdout, skip_message, AttemptDecision, AttemptOutcome, Batch, ChangeType,
    ChangedFile, DeltaStatus, Precheck, Prepared, RunResult, RunState, RunStats, ScriptSource, SkipReason,
};
use hoox::strmap::StrMap;

fn inline(s: &str) -> HookCommand {
    HookCommand {
        command: CommandSpec { inline: Some(s.to_string()), file: None },
        program: None,
        severity: None,
        verbosity: None,
        files: None,
        cwd: None,
        parallel: None,
        env: None,
        timeout: None,
        branch: None,
        cache: None,
        retry: None,
    }
}

fn parallel(s: &str) -> HookCommand {
    HookCommand { parallel: Some(true), ..inline(s) }
}

fn file(path: &str, change_type: ChangeType) -> ChangedFile {
    ChangedFile { path: path.to_string(), change_type }
}

fn strings(v: &[&str]) -> Vec<String> {
    v.iter().map(|s| s.to_string()).collect()
}

fn config(hooks: Vec<(&str, Vec<HookCommand>)>) -> Hoox {
    let mut table = StrMap::new();
    for (name, cmds) in hooks {
        table.insert(name.to_string(), cmds);
    }
    Hoox { version: "0.0.0".to_string(), verbosity: None, severity: None, hooks: table, includes: None }
}

#[test]
fn consecutive_parallel_commands_form_one_batch() {
    let cmds = vec![inline("a"), parallel("b"), parallel("c"), inline("d"), parallel("e")];
    assert_eq!(
        group_commands(&cmds),
        vec![Batch::Sequential(0), Batch::Parallel(vec![1, 2]), Batch::Sequential(3), Batch::Parallel(vec![4])]
    );
}

#[test]
fn parallel_false_is_sequential() {
    let off = HookCommand { parallel: Some(false), ..inline("x") };
    let cmds = vec![off.clone(), off];
    assert_eq!(group_commands(&cmds), vec![Batch::Sequential(0), Batch::Sequential(1)]);
    assert_eq!(group_commands(&vec![]), vec![]);
    assert_eq!(group_commands(&vec![parallel("p")]), vec![Batch::Parallel(vec![0])]);
}

#[test]
fn summary_lists_passed_failed_skipped_cached() {
    let mut s = RunStats::new();
    assert_eq!(s.summary_line(), None);
    for r in [RunResult::Ran, RunResult::Skipped, RunResult::Ran, RunResult::Cached, RunResult::Failed(3)] {
        s.record(r);
    }
    s.record(RunResult::Ran);
    s.record(RunResult::Skipped);
    assert_eq!(s, RunStats { ran: 3, skipped: 2, cached: 1, failed: 1 });
    assert_eq!(s.summary_line(), Some("hoox: 3 passed, 1 failed, 2 skipped, 1 cached".to_string()));
}

#[test]
fn summary_leaves_out_zero_counts() {
    let mut s = RunStats::new();
    s.record(RunResult::Skipped);
    s.record(RunResult::Skipped);
    assert_eq!(s.summary_line(), Some("hoox: 2 skipped".to_string()));
    s.record(RunResult::Cached);
    assert_eq!(s.summary_line(), Some("hoox: 2 skipped, 1 cached".to_string()));
}

#[test]
fn first_failure_sets_the_exit_code() {
    let mut st = RunState::new();
    assert!(!st.is_stopped());
    st.record(RunResult::Ran);
    assert_eq!(st.exit_code, None);
    st.record(RunResult::Failed(2));
    st.record(RunResult::Failed(5));
    assert!(st.is_stopped());
    assert_eq!(st.exit_code, Some(2));
    assert_eq!(st.stats.failed, 2);
    assert_eq!(st.stats.ran, 1);
}

#[test]
fn deltas_become_changed_files() {
    let old = || Some("old.rs".to_string());
    let new = || Some("new.rs".to_string());
    assert_eq!(change_from_delta(DeltaStatus::Deleted, old(), new()), Some(file("old.rs", ChangeType::Deleted)));
    assert_eq!(change_from_delta(DeltaStatus::Added, old(), new()), Some(file("new.rs", ChangeType::Added)));
    assert_eq!(change_from_delta(DeltaStatus::Modified, old(), new()), Some(file("new.rs", ChangeType::Modified)));
    assert_eq!(change_from_delta(DeltaStatus::Renamed, old(), new()), Some(file("new.rs", ChangeType::Renamed)));
    assert_eq!(change_from_delta(DeltaStatus::Copied, old(), new()), Some(file("new.rs", ChangeType::Copied)));
    assert_eq!(change_from_delta(DeltaStatus::Renamed, old(), None), None);
    assert_eq!(change_from_delta(DeltaStatus::Unmodified, old(), new()), None);
    assert_eq!(change_from_delta(DeltaStatus::Untracked, old(), new()), None);
    assert_eq!(change_from_delta(DeltaStatus::Typechange, old(), new()), None);
}

#[test]
fn defaults_are_all_and_error() {
    let mut h = config(vec![]);
    assert_eq!(default_verbosity(&h), Verbosity::All);
    assert_eq!(default_severity(&h), CommandSeverity::Error);
    h.verbosity = Some(Verbosity::Stderr);
    h.severity = Some(CommandSeverity::Warn);
    assert_eq!(default_verbosity(&h), Verbosity::Stderr);
    assert_eq!(default_severity(&h), CommandSeverity::Warn);
    let cmd = HookCommand { verbosity: Some(Verbosity::Quiet), ..inline("x") };
    assert_eq!(effective_verbosity(&cmd, Verbosity::All), Verbosity::Quiet);
    assert_eq!(effective_verbosity(&inline("x"), Verbosity::Stdout), Verbosity::Stdout);
    let cmd = HookCommand { severity: Some(CommandSeverity::Warn), ..inline("x") };
    assert_eq!(effective_severity(&cmd, CommandSeverity::Error), CommandSeverity::Warn);
    assert_eq!(effective_severity(&inline("x"), CommandSeverity::Error), CommandSeverity::Error);
}

#[test]
fn verbosity_selects_streams() {
    assert!(shows_stdout(Verbosity::All) && shows_stderr(Verbosity::All));
    assert!(shows_stdout(Verbosity::Stdout) && !shows_stderr(Verbosity::Stdout));
    assert!(!shows_stdout(Verbosity::Stderr) && shows_stderr(Verbosity::Stderr));
    assert!(!shows_stdout(Verbosity::Quiet) && !shows_stderr(Verbosity::Quiet));
}

#[test]
fn missing_hook_is_an_error_unless_ignored() {
    let h = config(vec![("pre-commit", vec![inline("a")])]);
    assert_eq!(select_hook(&h, "pre-commit", false).unwrap().unwrap().len(), 1);
    assert_eq!(select_hook(&h, "pre-push", true), Ok(None));
    assert_eq!(select_hook(&h, "pre-push", false), Err(HooxError::HookNotFound { hook: "pre-push".to_string() }));
}

#[test]
fn labels_are_hook_colon_index() {
    assert_eq!(command_label("pre-commit", 0), "pre-commit:0");
    assert_eq!(command_label("pre-push", 12), "pre-push:12");
}

#[test]
fn branch_filter_needs_a_matching_branch() {
    let all = vec![file("a.rs", ChangeType::Modified)];
    let cmd = HookCommand { branch: Some("main|develop".to_string()), ..inline("x") };
    assert_eq!(precheck(&cmd, Some("main"), &all), Ok(Precheck::Proceed(all.clone())));
    assert_eq!(precheck(&cmd, Some("develop"), &all), Ok(Precheck::Proceed(all.clone())));
    assert_eq!(precheck(&cmd, Some("feature/x"), &all), Ok(Precheck::Skip(SkipReason::BranchMismatch)));
    assert_eq!(precheck(&cmd, None, &all), Ok(Precheck::Skip(SkipReason::BranchMismatch)));
    let bad = HookCommand { branch: Some("(".to_string()), ..inline("x") };
    assert!(matches!(precheck(&bad, Some("main"), &all), Err(HooxError::InvalidBranchRegex { pattern, .. }) if pattern == "("));
}

#[test]
fn file_filter_skips_without_matches() {
    let all = vec![file("a.rs", ChangeType::Modified), file("b.md", ChangeType::Added)];
    let sel = |p: &str| Some(FileSelector { glob: Some(PatternList::Single(p.to_string())), regex: None });
    let rs = HookCommand { files: sel("*.rs"), ..inline("x") };
    assert_eq!(precheck(&rs, None, &all), Ok(Precheck::Proceed(vec![file("a.rs", ChangeType::Modified)])));
    assert_eq!(precheck(&rs, None, &vec![]), Ok(Precheck::Skip(SkipReason::NoChangedFiles)));
    let py = HookCommand { files: sel("*.py"), ..inline("x") };
    assert_eq!(precheck(&py, None, &all), Ok(Precheck::Skip(SkipReason::NoMatchingFiles)));
    let empty_sel = HookCommand { files: Some(FileSelector { glob: None, regex: None }), ..inline("x") };
    assert_eq!(precheck(&empty_sel, None, &all), Ok(Precheck::Proceed(all.clone())));
    assert_eq!(precheck(&inline("x"), None, &vec![]), Ok(Precheck::Proceed(vec![])));
}

#[test]
fn program_defaults_to_sh_c() {
    assert_eq!(resolve_program(&inline("x")), Ok(strings(&["sh", "-c"])));
    let py = HookCommand { program: Some(strings(&["python3", "-c"])), ..inline("x") };
    assert_eq!(resolve_program(&py), Ok(strings(&["python3", "-c"])));
    let empty = HookCommand { program: Some(vec![]), ..inline("x") };
    assert_eq!(resolve_program(&empty), Err(HooxError::EmptyProgram));
}

#[test]
fn exactly_one_script_source() {
    assert_eq!(script_source(&inline("echo")), Ok(ScriptSource::Inline("echo".to_string())));
    let f = HookCommand { command: CommandSpec { inline: None, file: Some("./s.sh".to_string()) }, ..inline("x") };
    assert_eq!(script_source(&f), Ok(ScriptSource::File("./s.sh".to_string())));
    let both = HookCommand {
        command: CommandSpec { inline: Some("a".to_string()), file: Some("b".to_string()) },
        ..inline("x")
    };
    assert_eq!(script_source(&both), Err(HooxError::InvalidCommandSpec));
    let neither = HookCommand { command: CommandSpec { inline: None, file: None }, ..inline("x") };
    assert_eq!(script_source(&neither), Err(HooxError::InvalidCommandSpec));
}

#[test]
fn command_line_order_is_program_script_config_args() {
    let line = command_line(&strings(&["sh", "-c"]), "echo hi", "/repo/.hoox.conf", &strings(&["msg", "x"]));
    assert_eq!(line, strings(&["sh", "-c", "echo hi", "/repo/.hoox.conf", "msg", "x"]));
    let line = command_line(&strings(&["node"]), "s", "c", &vec![]);
    assert_eq!(line, strings(&["node", "s", "c"]));
}

#[test]
fn changed_files_variable_is_newline_separated() {
    let m = vec![file("a.rs", ChangeType::Added), file("b/c.rs", ChangeType::Deleted)];
    assert_eq!(changed_files_value(&m), "a.rs\nb/c.rs");
    assert_eq!(changed_files_value(&vec![]), "");
}

#[test]
fn env_without_config_only_sets_changed_files() {
    let m = vec![file("a.rs", ChangeType::Added)];
    let p = env_plan(&inline("x"), &vec![("PATH".to_string(), "/bin".to_string())], &m).unwrap();
    assert!(!p.clear);
    assert_eq!(p.set, vec![("HOOX_CHANGED_FILES".to_string(), "a.rs".to_string())]);
}

#[test]
fn env_keep_clears_and_keeps_matching_names() {
    let mut vars = StrMap::new();
    vars.insert("CI".to_string(), "true".to_string());
    vars.insert("PATH".to_string(), "/override".to_string());
    let cmd = HookCommand {
        env: Some(EnvConfig { vars: Some(vars), keep: Some(strings(&["^PATH$", "RUST_.*"])) }),
        ..inline("x")
    };
    let parent = vec![
        ("PATH".to_string(), "/bin".to_string()),
        ("HOME".to_string(), "/home".to_string()),
        ("RUST_LOG".to_string(), "debug".to_string()),
    ];
    let p = env_plan(&cmd, &parent, &vec![]).unwrap();
    assert!(p.clear);
    let pair = |k: &str, v: &str| (k.to_string(), v.to_string());
    assert_eq!(
        p.set,
        vec![
            pair("PATH", "/bin"),
            pair("RUST_LOG", "debug"),
            pair("CI", "true"),
            pair("PATH", "/override"),
            pair("HOOX_CHANGED_FILES", ""),
        ]
    );
}

#[test]
fn env_vars_without_keep_inherit_everything() {
    let mut vars = StrMap::new();
    vars.insert("NODE_ENV".to_string(), "test".to_string());
    let cmd = HookCommand { env: Some(EnvConfig { vars: Some(vars), keep: None }), ..inline("x") };
    let p = env_plan(&cmd, &vec![("HOME".to_string(), "/h".to_string())], &vec![]).unwrap();
    assert!(!p.clear);
    assert_eq!(p.set[0], ("NODE_ENV".to_string(), "test".to_string()));
    assert_eq!(p.set.len(), 2);
}

#[test]
fn invalid_keep_pattern_is_an_error() {
    let cmd = HookCommand { env: Some(EnvConfig { vars: None, keep: Some(strings(&["PATH", "("])) }), ..inline("x") };
    assert!(matches!(env_plan(&cmd, &vec![], &vec![]), Err(HooxError::InvalidKeepRegex { pattern, .. }) if pattern == "("));
}

#[test]
fn cache_and_retry_options() {
    assert!(!cache_enabled(&inline("x")));
    assert!(cache_enabled(&HookCommand { cache: Some(true), ..inline("x") }));
    assert!(!cache_enabled(&HookCommand { cache: Some(false), ..inline("x") }));
    assert_eq!(max_attempts(&inline("x")), 1);
    assert_eq!(max_attempts(&HookCommand { retry: Some(3), ..inline("x") }), 4);
    assert_eq!(max_attempts(&HookCommand { retry: Some(u32::MAX), ..inline("x") }), u32::MAX as u64 + 1);
}

#[test]
fn attempt_decisions() {
    let ok = AttemptOutcome::Exited { success: true, code: Some(0) };
    let fail = |code| AttemptOutcome::Exited { success: false, code };
    let e = CommandSeverity::Error;
    let w = CommandSeverity::Warn;
    assert_eq!(
        decide_attempt("h:0", 1, 1, ok, e, true),
        AttemptDecision::Finish { result: RunResult::Ran, update_cache: true }
    );
    assert_eq!(
        decide_attempt("h:0", 2, 4, ok, e, false),
        AttemptDecision::Finish { result: RunResult::Ran, update_cache: false }
    );
    assert_eq!(decide_attempt("h:0", 1, 4, fail(Some(2)), e, true), AttemptDecision::Retry);
    assert_eq!(
        decide_attempt("h:0", 4, 4, fail(Some(2)), e, true),
        AttemptDecision::Finish { result: RunResult::Failed(2), update_cache: false }
    );
    assert_eq!(
        decide_attempt("h:0", 1, 1, fail(None), e, false),
        AttemptDecision::Finish { result: RunResult::Failed(1), update_cache: false }
    );
    assert_eq!(
        decide_attempt("h:0", 1, 1, fail(Some(7)), w, true),
        AttemptDecision::Finish { result: RunResult::Ran, update_cache: false }
    );
    let timeout = AttemptOutcome::TimedOut { seconds: 30 };
    assert_eq!(decide_attempt("h:0", 1, 2, timeout, w, false), AttemptDecision::Retry);
    assert_eq!(
        decide_attempt("h:0", 2, 2, timeout, w, false),
        AttemptDecision::Fail(HooxError::TimedOut { label: "h:0".to_string(), seconds: 30 })
    );
}

#[test]
fn dry_run_and_retry_messages() {
    assert_eq!(skip_message("pre-commit:0", SkipReason::BranchMismatch), "[skip] pre-commit:0 (branch mismatch)");
    assert_eq!(skip_message("pre-commit:1", SkipReason::NoChangedFiles), "[skip] pre-commit:1 (no changed files)");
    assert_eq!(
        skip_message("pre-commit:2", SkipReason::NoMatchingFiles),
        "[skip] pre-commit:2 (no files match filter)"
    );
    assert_eq!(skip_message("pre-commit:3", SkipReason::Cached), "[skip] pre-commit:3 (cached)");
    assert_eq!(run_message("pre-commit:0", 1, "echo a\necho b"), "[ run] pre-commit:0 (1 file) echo a");
    assert_eq!(run_message("pre-push:2", 3, "cargo test\r\nmore"), "[ run] pre-push:2 (3 files) cargo test");
    assert_eq!(run_message("x:0", 0, ""), "[ run] x:0 (0 files) ");
    assert_eq!(retry_message("pre-commit:0", 1, 4, false), "hoox: pre-commit:0: failed (attempt 1/4, retrying)");
    assert_eq!(retry_message("pre-commit:0", 2, 3, true), "hoox: pre-commit:0: timed out (attempt 2/3)");
}

#[test]
fn cached_command_is_skipped_only_on_equal_hash() {
    let mut cache = CacheStore::new();
    cache.insert("pre-commit:0".to_string(), "h1".to_string());
    let cmd = HookCommand { cache: Some(true), ..inline("cargo test") };
    assert_eq!(prepare_command(&cmd, &cache, "pre-commit:0", Some("h1")), Ok(Prepared::Cached));
    assert_eq!(
        prepare_command(&cmd, &cache, "pre-commit:0", Some("h2")),
        Ok(Prepared::Ready { program: strings(&["sh", "-c"]), source: ScriptSource::Inline("cargo test".to_string()) })
    );
    assert_eq!(
        prepare_command(&inline("x"), &cache, "pre-commit:0", None),
        Ok(Prepared::Ready { program: strings(&["sh", "-c"]), source: ScriptSource::Inline("x".to_string()) })
    );
    let empty = HookCommand { program: Some(vec![]), ..inline("x") };
    assert_eq!(prepare_command(&empty, &cache, "pre-commit:1", None), Err(HooxError::EmptyProgram));
    let neither = HookCommand { command: CommandSpec { inline: None, file: None }, ..inline("x") };
    assert_eq!(prepare_command(&neither, &cache, "pre-commit:1", None), Err(HooxError::InvalidCommandSpec));
}
