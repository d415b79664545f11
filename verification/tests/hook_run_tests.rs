use hoox::cache::CacheStore;
use hoox::config::{CommandSpec, HookCommand};
use hoox::hook_run::HookRun;
use hoox::hooks::{Batch, RunResult};

fn inline(s: &str, parallel: bool) -> HookCommand {
    HookCommand {
        command: CommandSpec { inline: Some(s.to_string()), file: None },
        program: None,
        severity: None,
        verbosity: None,
        files: None,
        cwd: None,
        parallel: Some(parallel),
        env: None,
        timeout: None,
        branch: None,
        cache: None,
        retry: None,
    }
}

fn commands() -> Vec<HookCommand> {
    vec![inline("a", false), inline("b", true), inline("c", true), inline("d", false)]
}

#[test]
fn batches_are_handed_out_in_order() {
    let mut run = HookRun::new(&commands(), CacheStore::new());
    assert_eq!(run.next_batch(), Some(Batch::Sequential(0)));
    run.finish_command(RunResult::Ran, None);
    assert_eq!(run.next_batch(), Some(Batch::Parallel(vec![1, 2])));
    run.record(RunResult::Skipped);
    run.record(RunResult::Cached);
    assert_eq!(run.next_batch(), Some(Batch::Sequential(3)));
    run.finish_command(RunResult::Ran, None);
    assert_eq!(run.next_batch(), None);
    assert_eq!(run.next_batch(), None);
    assert_eq!(run.exit_code(), None);
    assert_eq!(run.summary_line(), Some("hoox: 2 passed, 1 skipped, 1 cached".to_string()));
    assert!(!run.dirty());
}

#[test]
fn a_failure_stops_the_run_after_its_batch() {
    let mut run = HookRun::new(&commands(), CacheStore::new());
    assert_eq!(run.next_batch(), Some(Batch::Sequential(0)));
    run.finish_command(RunResult::Ran, None);
    assert_eq!(run.next_batch(), Some(Batch::Parallel(vec![1, 2])));
    run.record(RunResult::Failed(4));
    run.record(RunResult::Failed(9));
    assert_eq!(run.next_batch(), None);
    assert_eq!(run.exit_code(), Some(4));
    assert_eq!(run.summary_line(), Some("hoox: 1 passed, 2 failed".to_string()));
}

#[test]
fn empty_hook_has_no_batches_and_no_summary() {
    let mut run = HookRun::new(&vec![], CacheStore::new());
    assert_eq!(run.next_batch(), None);
    assert_eq!(run.summary_line(), None);
}

#[test]
fn cache_entries_are_kept_and_mark_the_cache_dirty() {
    let mut run = HookRun::new(&commands(), CacheStore::new());
    run.next_batch();
    run.finish_command(RunResult::Ran, Some(("pre-commit:0".to_string(), "h0".to_string())));
    assert!(run.dirty());
    assert!(run.cache().is_hit("pre-commit:0", "h0"));

    let snapshot = run.cache().clone();
    let mut local = snapshot.clone();
    run.absorb(&snapshot, &local, "pre-commit:1");
    assert_eq!(run.cache().entries().len(), 1);
    local.insert("pre-commit:1".to_string(), "h1".to_string());
    run.absorb(&snapshot, &local, "pre-commit:1");
    assert!(run.cache().is_hit("pre-commit:1", "h1"));
    assert!(run.has_room(RunResult::Ran));
}

#[test]
fn an_unchanged_parallel_entry_leaves_the_cache_clean() {
    let mut start = CacheStore::new();
    start.insert("pre-commit:1".to_string(), "h1".to_string());
    let mut run = HookRun::new(&commands(), start.clone());
    run.absorb(&start, &start.clone(), "pre-commit:1");
    assert!(!run.dirty());
}
