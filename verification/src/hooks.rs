//! Running a hook: changed files, command batches, per-command decisions and results.
use vstd::prelude::*;
use crate::config::{CommandSeverity, HookCommand, Hoox, Verbosity, commands_of};
use crate::error::{ErrorView, HooxError};
use crate::matching::{
    compile_regex, regex_is_match, regex_compile_error, regex_matches, spec_filter_files, filter_files,
    first_regex_error, any_regex_matches, CompiledRegex, compile_regexes, any_regex_is_match,
};
use crate::strmap::StrMap;
use crate::cache::CacheStore;
use crate::text::{concat2, decimal, dec, first_line, first_line_of, join, join_strings, str_eq, views};

verus! {

/// How a file changed.
#[derive(Debug, Clone, Copy, PartialEq, Eq, Structural)]
pub enum ChangeType {
    Added,
    Deleted,
    Modified,
    Renamed,
    Copied,
}

/// A changed file with its path and change type.
#[derive(Debug, PartialEq, Eq)]
pub struct ChangedFile {
    pub path: String,
    pub change_type: ChangeType,
}

impl Clone for ChangedFile {
    fn clone(&self) -> (res: Self)
        ensures
            res == *self,
    {
        ChangedFile { path: self.path.clone(), change_type: self.change_type }
    }
}


/// Whether a command asks to run in parallel with its neighbours.
pub open spec fn is_parallel(c: HookCommand) -> bool {
    c.parallel == Some(true)
}

/// A group of commands run together: one sequential command, or a run of
/// consecutive parallel ones. Commands are given by their index in the hook.
#[derive(Debug, PartialEq, Eq)]
pub enum Batch {
    Sequential(usize),
    Parallel(Vec<usize>),
}

/// The command indices of a batch, in order.
pub open spec fn batch_indices(b: Batch) -> Seq<usize> {
    match b {
        Batch::Sequential(i) => seq![i],
        Batch::Parallel(v) => v@,
    }
}

/// The command indices of all batches, in order.
pub open spec fn flatten_batches(bs: Seq<Batch>) -> Seq<usize>
    decreases bs.len(),
{
    if bs.len() == 0 {
        Seq::empty()
    } else {
        flatten_batches(bs.drop_last()) + batch_indices(bs.last())
    }
}

/// The indices `0..n` in order.
pub open spec fn index_range(n: nat) -> Seq<usize> {
    Seq::new(n, |i: int| i as usize)
}

/// A batch is a non-parallel command alone, or a non-empty list of parallel commands.
pub open spec fn batch_ok(b: Batch, cmds: Seq<HookCommand>) -> bool {
    match b {
        Batch::Sequential(i) => i < cmds.len() && !is_parallel(cmds[i as int]),
        Batch::Parallel(v) => v@.len() > 0 && indices_parallel(v@, cmds),
    }
}

/// The index is in range and names a parallel command.
pub open spec fn parallel_at(cmds: Seq<HookCommand>, i: usize) -> bool {
    i < cmds.len() && is_parallel(cmds[i as int])
}

/// Every index is in range and names a parallel command.
pub open spec fn indices_parallel(v: Seq<usize>, cmds: Seq<HookCommand>) -> bool {
    forall|j: int| 0 <= j < v.len() ==> #[trigger] parallel_at(cmds, v[j])
}

/// No two parallel batches are adjacent.
pub open spec fn no_adjacent_parallel(bs: Seq<Batch>) -> bool {
    forall|k: int| 0 <= k < bs.len() - 1 ==> !((#[trigger] bs[k]) is Parallel && bs[k + 1] is Parallel)
}

/// The batches of a hook: every command in order, each exactly once; a
/// sequential batch holds a non-parallel command; a parallel batch holds a
/// non-empty run of parallel commands; and no two parallel batches are adjacent,
/// so each run of consecutive parallel commands forms one batch.
pub open spec fn batches_well_formed(bs: Seq<Batch>, cmds: Seq<HookCommand>) -> bool {
    &&& flatten_batches(bs) == index_range(cmds.len())
    &&& forall|k: int| 0 <= k < bs.len() ==> batch_ok(#[trigger] bs[k], cmds)
    &&& no_adjacent_parallel(bs)
}

proof fn lemma_flatten_push(bs: Seq<Batch>, b: Batch)
    ensures
        flatten_batches(bs.push(b)) == flatten_batches(bs) + batch_indices(b),
{
    assert(bs.push(b).drop_last() =~= bs);
}

proof fn lemma_push_batch(bs: Seq<Batch>, b: Batch, cmds: Seq<HookCommand>)
    requires
        forall|k: int| 0 <= k < bs.len() ==> batch_ok(#[trigger] bs[k], cmds),
        no_adjacent_parallel(bs),
        batch_ok(b, cmds),
        b is Parallel ==> bs.len() == 0 || bs.last() is Sequential,
    ensures
        forall|k: int| 0 <= k < bs.push(b).len() ==> batch_ok(#[trigger] bs.push(b)[k], cmds),
        no_adjacent_parallel(bs.push(b)),
        flatten_batches(bs.push(b)) == flatten_batches(bs) + batch_indices(b),
{
    lemma_flatten_push(bs, b);
    let n = bs.push(b);
    assert forall|k: int| 0 <= k < n.len() implies batch_ok(#[trigger] n[k], cmds) by {
        if k < bs.len() {
            assert(n[k] == bs[k]);
        }
    }
    assert forall|k: int| 0 <= k < n.len() - 1 implies !((#[trigger] n[k]) is Parallel && n[k + 1] is Parallel) by {
        assert(n[k] == bs[k]);
        if k + 1 < bs.len() {
            assert(n[k + 1] == bs[k + 1]);
        }
    }
}

/// Groups the commands of a hook into batches: consecutive `parallel` commands
/// form one batch, every other command forms a batch of its own.
pub fn group_commands(commands: &Vec<HookCommand>) -> (res: Vec<Batch>)
    ensures
        batches_well_formed(res@, commands@),
{
    let mut batches: Vec<Batch> = Vec::new();
    let mut pending: Vec<usize> = Vec::new();
    let mut i: usize = 0;
    while i < commands.len()
        invariant
            i <= commands@.len(),
            flatten_batches(batches@) + pending@ == index_range(i as nat),
            indices_parallel(pending@, commands@),
            batches@.len() == 0 || batches@.last() is Sequential,
            forall|k: int| 0 <= k < batches@.len() ==> batch_ok(#[trigger] batches@[k], commands@),
            no_adjacent_parallel(batches@),
        decreases commands@.len() - i,
    {
        let par = match commands[i].parallel {
            Some(p) => p,
            None => false,
        };
        proof {
            assert(index_range((i + 1) as nat) =~= index_range(i as nat).push(i));
        }
        if par {
            let ghost before = pending@;
            pending.push(i);
            proof {
                assert(is_parallel(commands@[i as int]));
                assert(pending@ == before.push(i));
                assert(flatten_batches(batches@) + pending@ =~= index_range((i + 1) as nat));
                assert(indices_parallel(pending@, commands@)) by {
                    assert forall|j: int| 0 <= j < pending@.len() implies #[trigger] parallel_at(commands@, pending@[j]) by {
                        if j < before.len() {
                            assert(pending@[j] == before[j]);
                            assert(parallel_at(commands@, before[j]));
                        } else {
                            assert(pending@[j] == i);
                        }
                    }
                }
            }
        } else {
            if pending.len() > 0 {
                let mut taken: Vec<usize> = Vec::new();
                std::mem::swap(&mut taken, &mut pending);
                let ghost before = batches@;
                proof {
                    lemma_push_batch(before, Batch::Parallel(taken), commands@);
                }
                batches.push(Batch::Parallel(taken));
            }
            let ghost before = batches@;
            proof {
                lemma_push_batch(before, Batch::Sequential(i), commands@);
            }
            batches.push(Batch::Sequential(i));
            proof {
                assert(flatten_batches(batches@) + pending@ =~= index_range((i + 1) as nat));
            }
        }
        i = i + 1;
    }
    if pending.len() > 0 {
        let ghost before = batches@;
        proof {
            lemma_push_batch(before, Batch::Parallel(pending), commands@);
        }
        batches.push(Batch::Parallel(pending));
    } else {
        proof {
            assert(flatten_batches(batches@) + pending@ =~= flatten_batches(batches@));
        }
    }
    batches
}

/// What happened to one command.
#[derive(Debug, Clone, Copy, PartialEq, Eq, Structural)]
pub enum RunResult {
    Ran,
    Skipped,
    Cached,
    Failed(i32),
}

/// Counts of command results.
#[derive(Debug, Clone, Copy, PartialEq, Eq, Structural)]
pub struct RunStats {
    pub ran: u32,
    pub skipped: u32,
    pub cached: u32,
    pub failed: u32,
}

/// The counts after recording `r`.
pub open spec fn stats_after(s: RunStats, r: RunResult) -> RunStats {
    match r {
        RunResult::Ran => RunStats { ran: (s.ran + 1) as u32, ..s },
        RunResult::Skipped => RunStats { skipped: (s.skipped + 1) as u32, ..s },
        RunResult::Cached => RunStats { cached: (s.cached + 1) as u32, ..s },
        RunResult::Failed(_) => RunStats { failed: (s.failed + 1) as u32, ..s },
    }
}

/// Whether recording `r` keeps every count within `u32`.
pub open spec fn can_record(s: RunStats, r: RunResult) -> bool {
    match r {
        RunResult::Ran => s.ran < u32::MAX,
        RunResult::Skipped => s.skipped < u32::MAX,
        RunResult::Cached => s.cached < u32::MAX,
        RunResult::Failed(_) => s.failed < u32::MAX,
    }
}

/// The parts of the summary line, in the order passed, failed, skipped, cached.
pub open spec fn summary_parts(s: RunStats) -> Seq<Seq<char>> {
    let a = if s.ran > 0 { seq![dec(s.ran as nat) + " passed"@] } else { Seq::empty() };
    let b = if s.failed > 0 { seq![dec(s.failed as nat) + " failed"@] } else { Seq::empty() };
    let c = if s.skipped > 0 { seq![dec(s.skipped as nat) + " skipped"@] } else { Seq::empty() };
    let d = if s.cached > 0 { seq![dec(s.cached as nat) + " cached"@] } else { Seq::empty() };
    a + b + c + d
}

/// The summary names each non-zero count once, in the order passed, failed,
/// skipped, cached, and nothing else.
pub proof fn law_summary_parts(s: RunStats)
    ensures
        summary_parts(s).len() == (if s.ran > 0 { 1int } else { 0 }) + (if s.failed > 0 { 1int } else { 0 }) + (
        if s.skipped > 0 { 1int } else { 0 }) + (if s.cached > 0 { 1int } else { 0 }),
        s.ran > 0 ==> summary_parts(s)[0] == dec(s.ran as nat) + " passed"@,
        s.failed > 0 ==> summary_parts(s)[if s.ran > 0 { 1int } else { 0 }] == dec(s.failed as nat) + " failed"@,
        s.skipped > 0 ==> summary_parts(s)[(if s.ran > 0 { 1int } else { 0 }) + (if s.failed > 0 { 1int } else {
            0
        })] == dec(s.skipped as nat) + " skipped"@,
        s.cached > 0 ==> summary_parts(s).last() == dec(s.cached as nat) + " cached"@,
{
}

fn count_part(n: u32, word: &str) -> (res: String)
    ensures
        res@ == dec(n as nat) + word@,
{
    let mut s = decimal(n as u64);
    s.append(word);
    s
}

impl RunStats {
    /// All counts zero.
    pub fn new() -> (res: Self)
        ensures
            res == (RunStats { ran: 0, skipped: 0, cached: 0, failed: 0 }),
    {
        RunStats { ran: 0, skipped: 0, cached: 0, failed: 0 }
    }

    /// Counts one more result of its kind.
    pub fn record(&mut self, r: RunResult)
        requires
            can_record(*old(self), r),
        ensures
            *final(self) == stats_after(*old(self), r),
    {
        match r {
            RunResult::Ran => self.ran = self.ran + 1,
            RunResult::Skipped => self.skipped = self.skipped + 1,
            RunResult::Cached => self.cached = self.cached + 1,
            RunResult::Failed(_) => self.failed = self.failed + 1,
        }
    }

    /// The status line printed after a run, e.g. `hoox: 3 passed, 1 failed`;
    /// none when nothing was recorded.
    pub fn summary_line(&self) -> (res: Option<String>)
        ensures
            match res {
                None => self.ran == 0 && self.skipped == 0 && self.cached == 0 && self.failed == 0,
                Some(line) => !(self.ran == 0 && self.skipped == 0 && self.cached == 0 && self.failed == 0)
                    && line@ == "hoox: "@ + join(summary_parts(*self), ", "@),
            },
    {
        if self.ran == 0 && self.skipped == 0 && self.cached == 0 && self.failed == 0 {
            return None;
        }
        let mut parts: Vec<String> = Vec::new();
        if self.ran > 0 {
            parts.push(count_part(self.ran, " passed"));
        }
        if self.failed > 0 {
            parts.push(count_part(self.failed, " failed"));
        }
        if self.skipped > 0 {
            parts.push(count_part(self.skipped, " skipped"));
        }
        if self.cached > 0 {
            parts.push(count_part(self.cached, " cached"));
        }
        proof {
            assert(views(parts@) =~= summary_parts(*self));
        }
        let mut line = "hoox: ".to_owned();
        let joined = join_strings(&parts, ", ");
        line.append(joined.as_str());
        Some(line)
    }
}

/// The progress of a hook run: the result counts and the exit code of the first
/// failure, after which no further batch is started.
#[derive(Debug, Clone, Copy, PartialEq, Eq, Structural)]
pub struct RunState {
    pub stats: RunStats,
    pub exit_code: Option<i32>,
}

/// The exit code after recording `r`: the first failure's code is kept.
pub open spec fn exit_after(code: Option<i32>, r: RunResult) -> Option<i32> {
    match code {
        Some(c) => Some(c),
        None => match r {
            RunResult::Failed(c) => Some(c),
            _ => None,
        },
    }
}

impl RunState {
    /// Nothing recorded yet.
    pub fn new() -> (res: Self)
        ensures
            res.stats == (RunStats { ran: 0, skipped: 0, cached: 0, failed: 0 }),
            res.exit_code is None,
    {
        RunState { stats: RunStats::new(), exit_code: None }
    }

    /// Whether a failure was recorded, so that no further batch is started.
    pub fn is_stopped(&self) -> (res: bool)
        ensures
            res == self.exit_code is Some,
    {
        self.exit_code.is_some()
    }

    /// Records the result of one command.
    pub fn record(&mut self, r: RunResult)
        requires
            can_record(old(self).stats, r),
        ensures
            final(self).stats == stats_after(old(self).stats, r),
            final(self).exit_code == exit_after(old(self).exit_code, r),
    {
        self.stats.record(r);
        if self.exit_code.is_none() {
            if let RunResult::Failed(code) = r {
                self.exit_code = Some(code);
            }
        }
    }
}

/// The exit code after recording all of `rs` from `code`.
pub open spec fn exit_after_all(code: Option<i32>, rs: Seq<RunResult>) -> Option<i32>
    decreases rs.len(),
{
    if rs.len() == 0 {
        code
    } else {
        exit_after(exit_after_all(code, rs.drop_last()), rs.last())
    }
}

/// Starting from no failure, the exit code after any sequence of results is the
/// code of the first failure among them, and none when nothing failed.
pub proof fn law_first_failure_sets_exit_code(rs: Seq<RunResult>)
    ensures
        (forall|i: int| 0 <= i < rs.len() ==> !(#[trigger] rs[i] is Failed)) ==> exit_after_all(None, rs) is None,
        forall|i: int|
            0 <= i < rs.len() && (#[trigger] rs[i] matches RunResult::Failed(c)) && (forall|j: int| 0 <= j < i ==> !(rs[j] is Failed))
                ==> exit_after_all(None, rs) == Some(rs[i]->Failed_0),
    decreases rs.len(),
{
    if rs.len() > 0 {
        let t = rs.drop_last();
        law_first_failure_sets_exit_code(t);
        assert forall|i: int| 0 <= i < t.len() implies t[i] == rs[i] by {}
        if forall|i: int| 0 <= i < t.len() ==> !(#[trigger] t[i] is Failed) {
            assert(exit_after_all(None, t) is None);
        }
        assert forall|i: int|
            0 <= i < rs.len() && (#[trigger] rs[i] matches RunResult::Failed(c)) && (forall|j: int| 0 <= j < i ==> !(rs[j] is Failed))
            implies exit_after_all(None, rs) == Some(rs[i]->Failed_0) by {
            if i < t.len() {
                assert(t[i] == rs[i]);
                assert forall|j: int| 0 <= j < i implies !(#[trigger] t[j] is Failed) by {
                    assert(t[j] == rs[j]);
                }
            } else {
                assert forall|j: int| 0 <= j < t.len() implies !(#[trigger] t[j] is Failed) by {
                    assert(t[j] == rs[j]);
                }
            }
        }
    }
}


/// The counts after recording all of `rs` from `s`, in order.
pub open spec fn stats_after_all(s: RunStats, rs: Seq<RunResult>) -> RunStats
    decreases rs.len(),
{
    if rs.len() == 0 {
        s
    } else {
        stats_after(stats_after_all(s, rs.drop_last()), rs.last())
    }
}

/// The kind of a result: 0 passed, 1 skipped, 2 cached, 3 failed.
pub open spec fn result_kind(r: RunResult) -> nat {
    match r {
        RunResult::Ran => 0,
        RunResult::Skipped => 1,
        RunResult::Cached => 2,
        RunResult::Failed(_) => 3,
    }
}

/// How many results of `rs` are of kind `k`.
pub open spec fn count_kind(rs: Seq<RunResult>, k: nat) -> nat
    decreases rs.len(),
{
    if rs.len() == 0 {
        0
    } else {
        count_kind(rs.drop_last(), k) + if result_kind(rs.last()) == k {
            1nat
        } else {
            0nat
        }
    }
}

/// No counts at all.
pub open spec fn zero_stats() -> RunStats {
    RunStats { ran: 0, skipped: 0, cached: 0, failed: 0 }
}

/// Recording fewer than `u32::MAX` results one by one from zero counts is
/// always allowed, and leaves each count equal to the number of results of its
/// kind, so that the counts add up to the number of results.
pub proof fn law_stats_count_results(rs: Seq<RunResult>)
    requires
        rs.len() < u32::MAX,
    ensures
        stats_after_all(zero_stats(), rs) == (RunStats {
            ran: count_kind(rs, 0) as u32,
            skipped: count_kind(rs, 1) as u32,
            cached: count_kind(rs, 2) as u32,
            failed: count_kind(rs, 3) as u32,
        }),
        count_kind(rs, 0) + count_kind(rs, 1) + count_kind(rs, 2) + count_kind(rs, 3) == rs.len(),
        forall|i: int| 0 <= i < rs.len() ==> can_record(stats_after_all(zero_stats(), rs.take(i)), #[trigger] rs[i]),
    decreases rs.len(),
{
    if rs.len() > 0 {
        let t = rs.drop_last();
        law_stats_count_results(t);
        assert forall|i: int| 0 <= i < rs.len() implies can_record(
            stats_after_all(zero_stats(), rs.take(i)),
            #[trigger] rs[i],
        ) by {
            if i < t.len() {
                assert(rs.take(i) =~= t.take(i));
                assert(t[i] == rs[i]);
            } else {
                assert(rs.take(i) =~= t);
            }
        }
    }
}

proof fn lemma_count_remove(rs: Seq<RunResult>, j: int, k: nat)
    requires
        0 <= j < rs.len(),
    ensures
        count_kind(rs, k) == count_kind(rs.remove(j), k) + if result_kind(rs[j]) == k {
            1nat
        } else {
            0nat
        },
    decreases rs.len(),
{
    if j == rs.len() - 1 {
        assert(rs.remove(j) =~= rs.drop_last());
    } else {
        let t = rs.drop_last();
        lemma_count_remove(t, j, k);
        assert(rs.remove(j).drop_last() =~= t.remove(j));
        assert(rs.remove(j).last() == rs.last());
    }
}

proof fn lemma_count_multiset(a: Seq<RunResult>, b: Seq<RunResult>, k: nat)
    requires
        a.to_multiset() == b.to_multiset(),
    ensures
        count_kind(a, k) == count_kind(b, k),
    decreases a.len(),
{
    broadcast use vstd::seq_lib::group_to_multiset_ensures;
    if a.len() == 0 {
        assert(b.to_multiset().len() == 0);
    } else {
        let x = a.last();
        let t = a.drop_last();
        assert(a =~= t.push(x));
        assert(a.to_multiset() =~= t.to_multiset().insert(x));
        assert(b.to_multiset().count(x) > 0);
        assert(b.contains(x));
        let j = choose|j: int| 0 <= j < b.len() && b[j] == x;
        assert(b.remove(j).to_multiset() =~= t.to_multiset());
        lemma_count_multiset(t, b.remove(j), k);
        lemma_count_remove(b, j, k);
    }
}

/// The counts do not depend on the order in which the results are recorded.
pub proof fn law_stats_ignore_order(rs1: Seq<RunResult>, rs2: Seq<RunResult>)
    requires
        rs1.to_multiset() == rs2.to_multiset(),
        rs1.len() < u32::MAX,
    ensures
        stats_after_all(zero_stats(), rs1) == stats_after_all(zero_stats(), rs2),
{
    broadcast use vstd::seq_lib::group_to_multiset_ensures;
    vstd::seq_lib::to_multiset_len(rs1);
    vstd::seq_lib::to_multiset_len(rs2);
    law_stats_count_results(rs1);
    law_stats_count_results(rs2);
    lemma_count_multiset(rs1, rs2, 0);
    lemma_count_multiset(rs1, rs2, 1);
    lemma_count_multiset(rs1, rs2, 2);
    lemma_count_multiset(rs1, rs2, 3);
}

/// The status of a delta between two trees, as Git reports it.
#[derive(Debug, Clone, Copy, PartialEq, Eq, Structural)]
pub enum DeltaStatus {
    Unmodified,
    Added,
    Deleted,
    Modified,
    Renamed,
    Copied,
    Ignored,
    Untracked,
    Typechange,
    Unreadable,
    Conflicted,
}

/// The change type of a delta status; none for the statuses hoox ignores.
pub open spec fn spec_change_type(status: DeltaStatus) -> Option<ChangeType> {
    match status {
        DeltaStatus::Added => Some(ChangeType::Added),
        DeltaStatus::Modified => Some(ChangeType::Modified),
        DeltaStatus::Deleted => Some(ChangeType::Deleted),
        DeltaStatus::Renamed => Some(ChangeType::Renamed),
        DeltaStatus::Copied => Some(ChangeType::Copied),
        _ => None,
    }
}

/// The changed file a delta stands for: added, modified, deleted, renamed and
/// copied deltas count, with the old path for a deletion and the new path
/// otherwise; a delta whose path is missing (or not UTF-8) is left out.
pub fn change_from_delta(status: DeltaStatus, old_path: Option<String>, new_path: Option<String>) -> (res: Option<
    ChangedFile,
>)
    ensures
        match spec_change_type(status) {
            None => res is None,
            Some(t) => {
                let path = if status == DeltaStatus::Deleted { old_path } else { new_path };
                match path {
                    None => res is None,
                    Some(p) => res == Some(ChangedFile { path: p, change_type: t }),
                }
            },
        },
{
    let change_type = match status {
        DeltaStatus::Added => ChangeType::Added,
        DeltaStatus::Modified => ChangeType::Modified,
        DeltaStatus::Deleted => ChangeType::Deleted,
        DeltaStatus::Renamed => ChangeType::Renamed,
        DeltaStatus::Copied => ChangeType::Copied,
        _ => return None,
    };
    let path = match status {
        DeltaStatus::Deleted => old_path,
        _ => new_path,
    };
    match path {
        Some(p) => Some(ChangedFile { path: p, change_type }),
        None => None,
    }
}

/// The default verbosity of a configuration: `all` unless set.
pub open spec fn spec_default_verbosity(h: Hoox) -> Verbosity {
    match h.verbosity {
        Some(v) => v,
        None => Verbosity::All,
    }
}

/// The default severity of a configuration: `error` unless set.
pub open spec fn spec_default_severity(h: Hoox) -> CommandSeverity {
    match h.severity {
        Some(v) => v,
        None => CommandSeverity::Error,
    }
}

/// The verbosity that applies to commands that do not set their own.
pub fn default_verbosity(h: &Hoox) -> (res: Verbosity)
    ensures
        res == spec_default_verbosity(*h),
{
    match h.verbosity {
        Some(v) => v,
        None => Verbosity::All,
    }
}

/// The severity that applies to commands that do not set their own.
pub fn default_severity(h: &Hoox) -> (res: CommandSeverity)
    ensures
        res == spec_default_severity(*h),
{
    match h.severity {
        Some(v) => v,
        None => CommandSeverity::Error,
    }
}

/// The commands to run for `hook`: `None` when the hook is not configured and
/// missing hooks are to be ignored, an error when they are not.
pub fn select_hook<'a>(h: &'a Hoox, hook: &str, ignore_missing: bool) -> (res: Result<
    Option<&'a Vec<HookCommand>>,
    HooxError,
>)
    ensures
        h.hooks@.contains_key(hook@) ==> (res matches Ok(Some(v)) && v@ == commands_of(h.hooks@, hook@)),
        !h.hooks@.contains_key(hook@) && ignore_missing ==> (res matches Ok(None)),
        !h.hooks@.contains_key(hook@) && !ignore_missing ==> (res matches Err(e) && e@ == (ErrorView::HookNotFound {
            hook: hook@,
        })),
{
    match h.hook_commands(hook) {
        Some(cmds) => Ok(Some(cmds)),
        None => {
            if ignore_missing {
                Ok(None)
            } else {
                Err(HooxError::HookNotFound { hook: hook.to_owned() })
            }
        },
    }
}

/// The label of the command at `index` of `hook`, `hook:index`; also its cache key.
pub open spec fn spec_command_label(hook: Seq<char>, index: nat) -> Seq<char> {
    hook + ":"@ + dec(index)
}

/// The label of a command, as used in messages and as its cache key.
pub fn command_label(hook: &str, index: usize) -> (res: String)
    ensures
        res@ == spec_command_label(hook@, index as nat),
{
    let mut s = concat2(hook, ":");
    let n = decimal(index as u64);
    s.append(n.as_str());
    s
}

/// Why a command is skipped before it would run.
#[derive(Debug, Clone, Copy, PartialEq, Eq, Structural)]
pub enum SkipReason {
    BranchMismatch,
    NoChangedFiles,
    NoMatchingFiles,
    Cached,
}

/// The outcome of the checks before a command runs.
#[derive(Debug, PartialEq, Eq)]
pub enum Precheck {
    Skip(SkipReason),
    /// The command runs on these files.
    Proceed(Vec<ChangedFile>),
}

/// The view of a [`Precheck`].
pub enum PrecheckView {
    Skip(SkipReason),
    Proceed(Seq<ChangedFile>),
}

impl View for Precheck {
    type V = PrecheckView;

    open spec fn view(&self) -> PrecheckView {
        match self {
            Precheck::Skip(r) => PrecheckView::Skip(*r),
            Precheck::Proceed(v) => PrecheckView::Proceed(v@),
        }
    }
}

/// The file part of the checks: with a selector that names patterns, the
/// command is skipped when nothing changed or nothing matches; without one it
/// runs on all changed files.
pub open spec fn spec_file_check(cmd: HookCommand, all: Seq<ChangedFile>) -> Result<PrecheckView, ErrorView> {
    match cmd.files {
        Some(sel) if sel.glob is Some || sel.regex is Some => {
            if all.len() == 0 {
                Ok(PrecheckView::Skip(SkipReason::NoChangedFiles))
            } else {
                match spec_filter_files(sel, all) {
                    Err(e) => Err(e),
                    Ok(m) => if m.len() == 0 {
                        Ok(PrecheckView::Skip(SkipReason::NoMatchingFiles))
                    } else {
                        Ok(PrecheckView::Proceed(m))
                    },
                }
            }
        },
        _ => Ok(PrecheckView::Proceed(all)),
    }
}

/// The checks before a command runs: its branch pattern must compile and match
/// the current branch (a detached HEAD never matches), then its file selector
/// must pick at least one changed file.
pub open spec fn spec_precheck(cmd: HookCommand, branch: Option<Seq<char>>, all: Seq<ChangedFile>) -> Result<
    PrecheckView,
    ErrorView,
> {
    match cmd.branch {
        Some(p) => match regex_compile_error(p@) {
            Some(m) => Err(ErrorView::InvalidBranchRegex { pattern: p@, message: m }),
            None => if branch matches Some(b) && regex_matches(p@, b) {
                spec_file_check(cmd, all)
            } else {
                Ok(PrecheckView::Skip(SkipReason::BranchMismatch))
            },
        },
        None => spec_file_check(cmd, all),
    }
}

/// The view of an optional string.
pub open spec fn opt_str_view(o: Option<&str>) -> Option<Seq<char>> {
    match o {
        Some(s) => Some(s@),
        None => None,
    }
}

/// A copy of the files.
pub(crate) fn copy_files(files: &Vec<ChangedFile>) -> (res: Vec<ChangedFile>)
    ensures
        res@ == files@,
{
    let mut out: Vec<ChangedFile> = Vec::new();
    let mut i: usize = 0;
    while i < files.len()
        invariant
            i <= files@.len(),
            out@ == files@.take(i as int),
        decreases files@.len() - i,
    {
        out.push(files[i].clone());
        proof {
            assert(files@.take(i + 1) =~= files@.take(i as int).push(files@[i as int]));
        }
        i = i + 1;
    }
    proof {
        assert(files@.take(files@.len() as int) =~= files@);
    }
    out
}

/// The branch and file checks of a command, before its cache is consulted.
pub fn precheck(cmd: &HookCommand, current_branch: Option<&str>, all_changed: &Vec<ChangedFile>) -> (res: Result<
    Precheck,
    HooxError,
>)
    ensures
        match res {
            Ok(p) => spec_precheck(*cmd, opt_str_view(current_branch), all_changed@) == Ok::<PrecheckView, ErrorView>(p@),
            Err(e) => spec_precheck(*cmd, opt_str_view(current_branch), all_changed@) == Err::<PrecheckView, ErrorView>(e@),
        },
{
    if let Some(pattern) = &cmd.branch {
        let re = match compile_regex(pattern.as_str()) {
            Ok(r) => r,
            Err(m) => return Err(HooxError::InvalidBranchRegex { pattern: pattern.clone(), message: m }),
        };
        let matches = match current_branch {
            Some(b) => regex_is_match(&re, b),
            None => false,
        };
        if !matches {
            return Ok(Precheck::Skip(SkipReason::BranchMismatch));
        }
    }
    match &cmd.files {
        Some(selector) => {
            if selector.has_patterns() {
                if all_changed.len() == 0 {
                    return Ok(Precheck::Skip(SkipReason::NoChangedFiles));
                }
                let matched = match filter_files(selector, all_changed) {
                    Ok(m) => m,
                    Err(e) => return Err(e),
                };
                if matched.len() == 0 {
                    return Ok(Precheck::Skip(SkipReason::NoMatchingFiles));
                }
                Ok(Precheck::Proceed(matched))
            } else {
                Ok(Precheck::Proceed(copy_files(all_changed)))
            }
        },
        None => Ok(Precheck::Proceed(copy_files(all_changed))),
    }
}

/// A command with neither a branch pattern nor file patterns always runs, on
/// all changed files.
pub proof fn law_unfiltered_command_always_runs(cmd: HookCommand, branch: Option<Seq<char>>, all: Seq<ChangedFile>)
    requires
        cmd.branch is None,
        cmd.files is None,
    ensures
        spec_precheck(cmd, branch, all) == Ok::<PrecheckView, ErrorView>(PrecheckView::Proceed(all)),
{
}

/// On a detached HEAD (no current branch) a command with a branch pattern is
/// skipped, whatever the pattern (unless it does not compile).
pub proof fn law_detached_head_skips_branch_filter(cmd: HookCommand, all: Seq<ChangedFile>)
    requires
        cmd.branch matches Some(p) && regex_compile_error(p@) is None,
    ensures
        spec_precheck(cmd, None, all) == Ok::<PrecheckView, ErrorView>(PrecheckView::Skip(SkipReason::BranchMismatch)),
{
}

/// The branch filter: with a pattern that compiles, a command whose branch
/// does not match (or with no branch at all) is skipped for that reason, and
/// one whose branch matches goes on to the file checks as if it had no filter.
pub proof fn law_branch_filter(cmd: HookCommand, branch: Option<Seq<char>>, all: Seq<ChangedFile>)
    requires
        cmd.branch matches Some(p) && regex_compile_error(p@) is None,
    ensures
        (branch matches Some(b) && regex_matches(cmd.branch->0@, b)) ==> spec_precheck(cmd, branch, all)
            == spec_precheck(HookCommand { branch: None, ..cmd }, branch, all),
        !(branch matches Some(b) && regex_matches(cmd.branch->0@, b)) ==> spec_precheck(cmd, branch, all)
            == Ok::<PrecheckView, ErrorView>(PrecheckView::Skip(SkipReason::BranchMismatch)),
{
}

/// The file filter of a command without a branch pattern: a selector with
/// patterns skips the command when nothing changed, or when no changed file
/// matches, and otherwise runs it on exactly the matched files; a selector
/// without patterns, or none, runs it on all changed files.
pub proof fn law_file_filter(cmd: HookCommand, branch: Option<Seq<char>>, all: Seq<ChangedFile>)
    requires
        cmd.branch is None,
    ensures
        (cmd.files matches Some(sel) && (sel.glob is Some || sel.regex is Some)) ==> {
            &&& all.len() == 0 ==> spec_precheck(cmd, branch, all) == Ok::<PrecheckView, ErrorView>(
                PrecheckView::Skip(SkipReason::NoChangedFiles),
            )
            &&& (all.len() > 0 && spec_filter_files(cmd.files->0, all) is Ok) ==> spec_precheck(cmd, branch, all)
                == Ok::<PrecheckView, ErrorView>(
                if spec_filter_files(cmd.files->0, all)->Ok_0.len() == 0 {
                    PrecheckView::Skip(SkipReason::NoMatchingFiles)
                } else {
                    PrecheckView::Proceed(spec_filter_files(cmd.files->0, all)->Ok_0)
                },
            )
            &&& (all.len() > 0 && spec_filter_files(cmd.files->0, all) is Err) ==> spec_precheck(cmd, branch, all)
                == Err::<PrecheckView, ErrorView>(spec_filter_files(cmd.files->0, all)->Err_0)
        },
        !(cmd.files matches Some(sel) && (sel.glob is Some || sel.regex is Some)) ==> spec_precheck(cmd, branch, all)
            == Ok::<PrecheckView, ErrorView>(PrecheckView::Proceed(all)),
{
}

/// The program that runs a command: `sh -c` unless the command names one.
pub open spec fn spec_program(cmd: HookCommand) -> Result<Seq<Seq<char>>, ErrorView> {
    match cmd.program {
        None => Ok(seq!["sh"@, "-c"@]),
        Some(p) => if p@.len() == 0 {
            Err(ErrorView::EmptyProgram)
        } else {
            Ok(views(p@))
        },
    }
}

/// A command without `program` runs under `sh -c`; one with a non-empty
/// `program` runs under exactly that; an empty `program` is an error.
pub proof fn law_program_choice(cmd: HookCommand)
    ensures
        cmd.program is None ==> spec_program(cmd) == Ok::<Seq<Seq<char>>, ErrorView>(seq!["sh"@, "-c"@]),
        (cmd.program matches Some(p) && p@.len() > 0) ==> spec_program(cmd) == Ok::<Seq<Seq<char>>, ErrorView>(
            views(cmd.program->0@),
        ),
        (cmd.program matches Some(p) && p@.len() == 0) ==> spec_program(cmd) == Err::<Seq<Seq<char>>, ErrorView>(
            ErrorView::EmptyProgram,
        ),
{
}

/// The program and its leading arguments for a command; an empty `program` is an error.
pub fn resolve_program(cmd: &HookCommand) -> (res: Result<Vec<String>, HooxError>)
    ensures
        match res {
            Ok(v) => spec_program(*cmd) == Ok::<Seq<Seq<char>>, ErrorView>(views(v@)),
            Err(e) => spec_program(*cmd) == Err::<Seq<Seq<char>>, ErrorView>(e@),
        },
{
    match &cmd.program {
        None => {
            let mut v: Vec<String> = Vec::new();
            v.push("sh".to_owned());
            v.push("-c".to_owned());
            proof {
                assert(views(v@) =~= seq!["sh"@, "-c"@]);
            }
            Ok(v)
        },
        Some(p) => {
            if p.len() == 0 {
                return Err(HooxError::EmptyProgram);
            }
            let mut v: Vec<String> = Vec::new();
            let mut i: usize = 0;
            while i < p.len()
                invariant
                    i <= p@.len(),
                    views(v@) == views(p@.take(i as int)),
                decreases p@.len() - i,
            {
                v.push(p[i].clone());
                proof {
                    assert(views(p@.take(i + 1)) =~= views(p@.take(i as int)).push(p@[i as int]@));
                    assert(views(v@) =~= views(p@.take(i + 1)));
                }
                i = i + 1;
            }
            proof {
                assert(p@.take(p@.len() as int) =~= p@);
            }
            Ok(v)
        },
    }
}

/// Where a command's script comes from.
#[derive(Debug, Clone, PartialEq, Eq)]
pub enum ScriptSource {
    /// The script text itself.
    Inline(String),
    /// A path, relative to the repository root, of the file holding the script.
    File(String),
}

/// The script source of a command: exactly one of `inline` and `file` must be set.
pub fn script_source(cmd: &HookCommand) -> (res: Result<ScriptSource, HooxError>)
    ensures
        match (cmd.command.inline, cmd.command.file) {
            (Some(s), None) => res matches Ok(ScriptSource::Inline(t)) && t@ == s@,
            (None, Some(f)) => res matches Ok(ScriptSource::File(t)) && t@ == f@,
            _ => res matches Err(e) && e@ == ErrorView::InvalidCommandSpec,
        },
{
    match (&cmd.command.inline, &cmd.command.file) {
        (Some(s), None) => Ok(ScriptSource::Inline(s.clone())),
        (None, Some(f)) => Ok(ScriptSource::File(f.clone())),
        _ => Err(HooxError::InvalidCommandSpec),
    }
}

/// The full command line: the program, its leading arguments, the script, the
/// path of the configuration file and the hook's arguments, in that order.
pub fn command_line(program: &Vec<String>, script: &str, hoox_path: &str, hook_args: &Vec<String>) -> (res: Vec<
    String,
>)
    requires
        program@.len() > 0,
    ensures
        views(res@) == views(program@) + seq![script@, hoox_path@] + views(hook_args@),
{
    let mut v: Vec<String> = Vec::new();
    let mut i: usize = 0;
    while i < program.len()
        invariant
            i <= program@.len(),
            views(v@) == views(program@.take(i as int)),
        decreases program@.len() - i,
    {
        v.push(program[i].clone());
        proof {
            assert(views(program@.take(i + 1)) =~= views(program@.take(i as int)).push(program@[i as int]@));
            assert(views(v@) =~= views(program@.take(i + 1)));
        }
        i = i + 1;
    }
    proof {
        assert(program@.take(program@.len() as int) =~= program@);
    }
    v.push(script.to_owned());
    v.push(hoox_path.to_owned());
    let ghost mid = views(v@);
    proof {
        assert(mid =~= views(program@) + seq![script@, hoox_path@]);
    }
    let mut j: usize = 0;
    while j < hook_args.len()
        invariant
            j <= hook_args@.len(),
            views(v@) == mid + views(hook_args@.take(j as int)),
        decreases hook_args@.len() - j,
    {
        let ghost before = v@;
        v.push(hook_args[j].clone());
        proof {
            assert(views(v@) =~= views(before).push(hook_args@[j as int]@));
            assert(views(hook_args@.take(j + 1)) =~= views(hook_args@.take(j as int)).push(hook_args@[j as int]@));
            assert(views(v@) =~= mid + views(hook_args@.take(j + 1)));
        }
        j = j + 1;
    }
    proof {
        assert(hook_args@.take(hook_args@.len() as int) =~= hook_args@);
    }
    v
}


/// The views of a sequence of string pairs.
pub open spec fn pair_views(s: Seq<(String, String)>) -> Seq<(Seq<char>, Seq<char>)> {
    s.map_values(|p: (String, String)| (p.0@, p.1@))
}

/// The inherited variables whose names match one of the patterns, in order.
pub open spec fn kept_vars(parent: Seq<(Seq<char>, Seq<char>)>, pats: Seq<Seq<char>>) -> Seq<(Seq<char>, Seq<char>)>
    decreases parent.len(),
{
    if parent.len() == 0 {
        Seq::empty()
    } else {
        let r = kept_vars(parent.drop_last(), pats);
        if any_regex_matches(pats, parent.last().0) {
            r.push(parent.last())
        } else {
            r
        }
    }
}

/// The paths of the files, one per line.
pub open spec fn changed_files_var(files: Seq<ChangedFile>) -> Seq<char> {
    join(files.map_values(|f: ChangedFile| f.path@), "\n"@)
}

/// The environment of a command: whether the inherited environment is cleared
/// first, and the variables set, in order (a later one wins). With `env.keep`
/// the environment is cleared and the inherited variables whose names match a
/// keep pattern come back; then `env.vars`; last `HOOX_CHANGED_FILES`, always.
pub open spec fn spec_env_plan(cmd: HookCommand, parent: Seq<(Seq<char>, Seq<char>)>, matched: Seq<ChangedFile>) -> Result<
    (bool, Seq<(Seq<char>, Seq<char>)>),
    ErrorView,
> {
    let hoox_var = seq![("HOOX_CHANGED_FILES"@, changed_files_var(matched))];
    match cmd.env {
        None => Ok((false, hoox_var)),
        Some(ec) => {
            let vars = match ec.vars {
                Some(m) => pair_views(m.entry_seq()),
                None => Seq::empty(),
            };
            match ec.keep {
                None => Ok((false, vars + hoox_var)),
                Some(k) => match first_regex_error(views(k@)) {
                    Some(e) => Err(ErrorView::InvalidKeepRegex { pattern: e.0, message: e.1 }),
                    None => Ok((true, kept_vars(parent, views(k@)) + vars + hoox_var)),
                },
            }
        },
    }
}

/// How to set up a command's environment.
#[derive(Debug, Clone, PartialEq, Eq)]
pub struct EnvPlan {
    /// Start from an empty environment.
    pub clear: bool,
    /// Variables to set, in order.
    pub set: Vec<(String, String)>,
}

pub(crate) fn copy_pairs(src: &Vec<(String, String)>, out: &mut Vec<(String, String)>)
    ensures
        pair_views(final(out)@) == pair_views(old(out)@) + pair_views(src@),
{
    let mut i: usize = 0;
    while i < src.len()
        invariant
            i <= src@.len(),
            pair_views(out@) == pair_views(old(out)@) + pair_views(src@.take(i as int)),
        decreases src@.len() - i,
    {
        let ghost before = out@;
        let k = src[i].0.clone();
        let v = src[i].1.clone();
        out.push((k, v));
        proof {
            assert(pair_views(out@) =~= pair_views(before).push((src@[i as int].0@, src@[i as int].1@)));
            assert(pair_views(src@.take(i + 1)) =~= pair_views(src@.take(i as int)).push((src@[i as int].0@, src@[i as int].1@)));
        }
        i = i + 1;
    }
    proof {
        assert(src@.take(src@.len() as int) =~= src@);
    }
}

/// The value of `HOOX_CHANGED_FILES`: the matched paths, one per line.
pub fn changed_files_value(matched: &Vec<ChangedFile>) -> (res: String)
    ensures
        res@ == changed_files_var(matched@),
{
    let mut paths: Vec<String> = Vec::new();
    let mut i: usize = 0;
    while i < matched.len()
        invariant
            i <= matched@.len(),
            views(paths@) == matched@.take(i as int).map_values(|f: ChangedFile| f.path@),
        decreases matched@.len() - i,
    {
        let ghost before = paths@;
        paths.push(matched[i].path.clone());
        proof {
            assert(views(paths@) =~= views(before).push(matched@[i as int].path@));
            assert(matched@.take(i + 1).map_values(|f: ChangedFile| f.path@) =~= matched@.take(i as int).map_values(
                |f: ChangedFile| f.path@,
            ).push(matched@[i as int].path@));
        }
        i = i + 1;
    }
    proof {
        assert(matched@.take(matched@.len() as int) =~= matched@);
    }
    join_strings(&paths, "\n")
}

/// The environment set-up of a command, given the inherited environment.
pub fn env_plan(cmd: &HookCommand, parent_env: &Vec<(String, String)>, matched: &Vec<ChangedFile>) -> (res: Result<
    EnvPlan,
    HooxError,
>)
    ensures
        match res {
            Ok(p) => spec_env_plan(*cmd, pair_views(parent_env@), matched@) == Ok::<(bool, Seq<(Seq<char>, Seq<char>)>), ErrorView>((p.clear, pair_views(p.set@))),
            Err(e) => spec_env_plan(*cmd, pair_views(parent_env@), matched@) == Err::<(bool, Seq<(Seq<char>, Seq<char>)>), ErrorView>(e@),
        },
{
    let mut set: Vec<(String, String)> = Vec::new();
    let mut clear = false;
    if let Some(ec) = &cmd.env {
        if let Some(keep) = &ec.keep {
            let mut pats: Vec<&str> = Vec::new();
            let mut i: usize = 0;
            while i < keep.len()
                invariant
                    i <= keep@.len(),
                    pats@.map_values(|p: &str| p@) == views(keep@.take(i as int)),
                decreases keep@.len() - i,
            {
                let ghost before = pats@;
                pats.push(keep[i].as_str());
                proof {
                    assert(pats@.map_values(|p: &str| p@) =~= before.map_values(|p: &str| p@).push(keep@[i as int]@));
                    assert(views(keep@.take(i + 1)) =~= views(keep@.take(i as int)).push(keep@[i as int]@));
                }
                i = i + 1;
            }
            proof {
                assert(keep@.take(keep@.len() as int) =~= keep@);
            }
            let regexes = match compile_regexes(&pats) {
                Ok(r) => r,
                Err(e) => {
                    let err = match e {
                        HooxError::InvalidRegex { pattern, message } => HooxError::InvalidKeepRegex { pattern, message },
                        other => other,
                    };
                    return Err(err);
                },
            };
            clear = true;
            let ghost pv = pair_views(parent_env@);
            let ghost kp = views(keep@);
            let mut j: usize = 0;
            while j < parent_env.len()
                invariant
                    j <= parent_env@.len(),
                    pv == pair_views(parent_env@),
                    regexes@.map_values(|c: CompiledRegex| c.pattern()) == kp,
                    pair_views(set@) == kept_vars(pv.take(j as int), kp),
                decreases parent_env@.len() - j,
            {
                proof {
                    assert(pv.take(j + 1).drop_last() =~= pv.take(j as int));
                    assert(pv.take(j + 1).last() == pv[j as int]);
                }
                if any_regex_is_match(&regexes, parent_env[j].0.as_str()) {
                    let ghost before = set@;
                    let k = parent_env[j].0.clone();
                    let v = parent_env[j].1.clone();
                    set.push((k, v));
                    proof {
                        assert(pair_views(set@) =~= pair_views(before).push(pv[j as int]));
                    }
                }
                j = j + 1;
            }
            proof {
                assert(pv.take(parent_env@.len() as int) =~= pv);
            }
        }
        if let Some(vars) = &ec.vars {
            copy_pairs(vars.entries(), &mut set);
        }
    }
    let ghost before = set@;
    let value = changed_files_value(matched);
    set.push(("HOOX_CHANGED_FILES".to_owned(), value));
    proof {
        assert(pair_views(set@) =~= pair_views(before) + seq![("HOOX_CHANGED_FILES"@, changed_files_var(matched@))]);
    }
    Ok(EnvPlan { clear, set })
}

/// Every command gets `HOOX_CHANGED_FILES`, set last so that nothing overrides
/// it; the inherited environment is cleared exactly when `env.keep` is given;
/// and the only error is a keep pattern that does not compile.
pub proof fn law_env_plan_shape(cmd: HookCommand, parent: Seq<(Seq<char>, Seq<char>)>, matched: Seq<ChangedFile>)
    ensures
        spec_env_plan(cmd, parent, matched) matches Ok((clear, vars)) ==> {
            &&& vars.len() > 0
            &&& vars.last() == ("HOOX_CHANGED_FILES"@, changed_files_var(matched))
            &&& clear == (cmd.env matches Some(ec) && ec.keep is Some)
        },
        spec_env_plan(cmd, parent, matched) is Err <==> (cmd.env matches Some(ec) && ec.keep matches Some(k)
            && first_regex_error(views(k@)) is Some),
{
}

/// With `env.keep`, an inherited variable comes back exactly when its name
/// matches one of the keep patterns.
pub proof fn law_keep_selects_matching_names(
    parent: Seq<(Seq<char>, Seq<char>)>,
    pats: Seq<Seq<char>>,
    v: (Seq<char>, Seq<char>),
)
    ensures
        kept_vars(parent, pats).contains(v) <==> (parent.contains(v) && any_regex_matches(pats, v.0)),
    decreases parent.len(),
{
    if parent.len() > 0 {
        let init = parent.drop_last();
        law_keep_selects_matching_names(init, pats, v);
        assert(parent =~= init.push(parent.last()));
        if parent.contains(v) && !init.contains(v) {
            let j = choose|j: int| 0 <= j < parent.len() && parent[j] == v;
            if j < init.len() {
                assert(init[j] == v);
            }
        }
        if init.contains(v) {
            let j = choose|j: int| 0 <= j < init.len() && init[j] == v;
            assert(parent[j] == v);
        }
        let r = kept_vars(init, pats);
        if any_regex_matches(pats, parent.last().0) {
            assert(r.push(parent.last())[r.len() as int] == parent.last());
            if r.push(parent.last()).contains(v) && !r.contains(v) {
                let j = choose|j: int| 0 <= j < r.len() + 1 && r.push(parent.last())[j] == v;
                if j < r.len() {
                    assert(r[j] == v);
                }
            }
            if r.contains(v) {
                let j = choose|j: int| 0 <= j < r.len() && r[j] == v;
                assert(r.push(parent.last())[j] == v);
            }
        }
        assert(parent[parent.len() - 1] == parent.last());
    }
}

/// Whether a command opts in to caching.
pub fn cache_enabled(cmd: &HookCommand) -> (res: bool)
    ensures
        res == (cmd.cache == Some(true)),
{
    match cmd.cache {
        Some(b) => b,
        None => false,
    }
}

/// The verbosity of a command: its own, else the configuration's default.
pub fn effective_verbosity(cmd: &HookCommand, default: Verbosity) -> (res: Verbosity)
    ensures
        res == (match cmd.verbosity {
            Some(v) => v,
            None => default,
        }),
{
    match cmd.verbosity {
        Some(v) => v,
        None => default,
    }
}

/// The severity of a command: its own, else the configuration's default.
pub fn effective_severity(cmd: &HookCommand, default: CommandSeverity) -> (res: CommandSeverity)
    ensures
        res == (match cmd.severity {
            Some(v) => v,
            None => default,
        }),
{
    match cmd.severity {
        Some(v) => v,
        None => default,
    }
}

/// Whether a command's standard output is shown.
pub fn shows_stdout(v: Verbosity) -> (res: bool)
    ensures
        res == (v == Verbosity::All || v == Verbosity::Stdout),
{
    match v {
        Verbosity::All | Verbosity::Stdout => true,
        _ => false,
    }
}

/// Whether a command's standard error is shown.
pub fn shows_stderr(v: Verbosity) -> (res: bool)
    ensures
        res == (v == Verbosity::All || v == Verbosity::Stderr),
{
    match v {
        Verbosity::All | Verbosity::Stderr => true,
        _ => false,
    }
}

/// How many times a command may be attempted: once plus its retries.
pub fn max_attempts(cmd: &HookCommand) -> (res: u64)
    ensures
        res == (match cmd.retry {
            Some(r) => r as u64 + 1,
            None => 1int,
        }),
        res >= 1,
{
    match cmd.retry {
        Some(r) => r as u64 + 1,
        None => 1,
    }
}

/// How one attempt of a command ended.
#[derive(Debug, Clone, Copy, PartialEq, Eq, Structural)]
pub enum AttemptOutcome {
    /// The command was killed after running for this many seconds.
    TimedOut { seconds: u64 },
    /// The command exited, successfully or with an exit code (none when killed by a signal).
    Exited { success: bool, code: Option<i32> },
}

/// What to do after an attempt.
#[derive(Debug, Clone, PartialEq, Eq)]
pub enum AttemptDecision {
    /// Run the command again.
    Retry,
    /// The command is done with this result; on success with caching on, the
    /// cache entry is to be refreshed.
    Finish { result: RunResult, update_cache: bool },
    /// The command failed in a way that aborts the hook.
    Fail(HooxError),
}

/// The decision after attempt `attempt` (counting from 1) of `max_attempts`:
/// success finishes the command; a failure or a timeout with attempts left
/// retries; a timeout on the last attempt is an error whatever the severity; a
/// failure on the last attempt fails the hook with the exit code (1 without
/// one) under `error` severity and counts as run under `warn`.
pub open spec fn spec_decide_attempt(
    label: Seq<char>,
    attempt: u64,
    max_attempts: u64,
    outcome: AttemptOutcome,
    severity: CommandSeverity,
    cache: bool,
) -> AttemptDecisionView {
    match outcome {
        AttemptOutcome::TimedOut { seconds } => if attempt < max_attempts {
            AttemptDecisionView::Retry
        } else {
            AttemptDecisionView::Fail(ErrorView::TimedOut { label, seconds })
        },
        AttemptOutcome::Exited { success, code } => if success {
            AttemptDecisionView::Finish { result: RunResult::Ran, update_cache: cache }
        } else if attempt < max_attempts {
            AttemptDecisionView::Retry
        } else if severity == CommandSeverity::Error {
            AttemptDecisionView::Finish {
                result: RunResult::Failed(match code {
                    Some(c) => c,
                    None => 1,
                }),
                update_cache: false,
            }
        } else {
            AttemptDecisionView::Finish { result: RunResult::Ran, update_cache: false }
        },
    }
}

/// The view of an [`AttemptDecision`].
pub enum AttemptDecisionView {
    Retry,
    Finish { result: RunResult, update_cache: bool },
    Fail(ErrorView),
}

impl View for AttemptDecision {
    type V = AttemptDecisionView;

    open spec fn view(&self) -> AttemptDecisionView {
        match self {
            AttemptDecision::Retry => AttemptDecisionView::Retry,
            AttemptDecision::Finish { result, update_cache } => AttemptDecisionView::Finish {
                result: *result,
                update_cache: *update_cache,
            },
            AttemptDecision::Fail(e) => AttemptDecisionView::Fail(e@),
        }
    }
}

/// Decides what follows an attempt of a command.
pub fn decide_attempt(
    label: &str,
    attempt: u64,
    max_attempts: u64,
    outcome: AttemptOutcome,
    severity: CommandSeverity,
    cache: bool,
) -> (res: AttemptDecision)
    requires
        1 <= attempt <= max_attempts,
    ensures
        res@ == spec_decide_attempt(label@, attempt, max_attempts, outcome, severity, cache),
{
    match outcome {
        AttemptOutcome::TimedOut { seconds } => {
            if attempt < max_attempts {
                AttemptDecision::Retry
            } else {
                AttemptDecision::Fail(HooxError::TimedOut { label: label.to_owned(), seconds })
            }
        },
        AttemptOutcome::Exited { success, code } => {
            if success {
                AttemptDecision::Finish { result: RunResult::Ran, update_cache: cache }
            } else if attempt < max_attempts {
                AttemptDecision::Retry
            } else {
                match severity {
                    CommandSeverity::Error => AttemptDecision::Finish {
                        result: RunResult::Failed(
                            match code {
                                Some(c) => c,
                                None => 1,
                            },
                        ),
                        update_cache: false,
                    },
                    CommandSeverity::Warn => AttemptDecision::Finish { result: RunResult::Ran, update_cache: false },
                }
            }
        },
    }
}

/// A command is attempted at most `max_attempts` times: no retry after the
/// last attempt, and none after a success.
pub proof fn law_attempts_bounded(
    label: Seq<char>,
    attempt: u64,
    max_attempts: u64,
    outcome: AttemptOutcome,
    severity: CommandSeverity,
    cache: bool,
)
    requires
        1 <= attempt <= max_attempts,
    ensures
        spec_decide_attempt(label, attempt, max_attempts, outcome, severity, cache) is Retry ==> attempt < max_attempts,
        outcome matches AttemptOutcome::Exited { success, .. } && success ==> !(spec_decide_attempt(
            label,
            attempt,
            max_attempts,
            outcome,
            severity,
            cache,
        ) is Retry),
{
}

/// The cache is refreshed only after a successful attempt, so a failing
/// command keeps its stale entry.
pub proof fn law_cache_refreshed_only_on_success(
    label: Seq<char>,
    attempt: u64,
    max_attempts: u64,
    outcome: AttemptOutcome,
    severity: CommandSeverity,
    cache: bool,
)
    requires
        1 <= attempt <= max_attempts,
    ensures
        spec_decide_attempt(label, attempt, max_attempts, outcome, severity, cache) matches AttemptDecisionView::Finish {
            update_cache,
            ..
        } && update_cache ==> (outcome matches AttemptOutcome::Exited { success, .. } && success && cache),
{
}

/// A failure on the last attempt fails the hook only under `error` severity.
pub proof fn law_warn_never_fails_hook(
    label: Seq<char>,
    attempt: u64,
    max_attempts: u64,
    code: Option<i32>,
    cache: bool,
)
    requires
        1 <= attempt <= max_attempts,
    ensures
        !(spec_decide_attempt(label, attempt, max_attempts, AttemptOutcome::Exited { success: false, code }, CommandSeverity::Warn, cache) matches AttemptDecisionView::Finish {
            result: RunResult::Failed(_),
            ..
        }),
{
}


/// A failed or timed-out attempt with attempts left is retried, whatever the
/// severity and whether or not the command caches.
pub proof fn law_attempts_left_retry(
    label: Seq<char>,
    attempt: u64,
    max_attempts: u64,
    outcome: AttemptOutcome,
    severity: CommandSeverity,
    cache: bool,
)
    requires
        1 <= attempt < max_attempts,
        !(outcome matches AttemptOutcome::Exited { success: true, .. }),
    ensures
        spec_decide_attempt(label, attempt, max_attempts, outcome, severity, cache) is Retry,
{
}

/// A successful attempt ends the command as passed, and refreshes the cache
/// exactly when the command caches.
pub proof fn law_success_finishes(
    label: Seq<char>,
    attempt: u64,
    max_attempts: u64,
    code: Option<i32>,
    severity: CommandSeverity,
    cache: bool,
)
    requires
        1 <= attempt <= max_attempts,
    ensures
        spec_decide_attempt(label, attempt, max_attempts, AttemptOutcome::Exited { success: true, code }, severity, cache)
            == (AttemptDecisionView::Finish { result: RunResult::Ran, update_cache: cache }),
{
}

/// A failure on the last attempt fails the hook with the command's exit code
/// (1 when it has none) under `error` severity, and counts as passed under
/// `warn`; the cache is not refreshed either way.
pub proof fn law_last_failure_outcome(
    label: Seq<char>,
    max_attempts: u64,
    code: Option<i32>,
    severity: CommandSeverity,
    cache: bool,
)
    requires
        1 <= max_attempts,
    ensures
        severity == CommandSeverity::Error ==> spec_decide_attempt(
            label,
            max_attempts,
            max_attempts,
            AttemptOutcome::Exited { success: false, code },
            severity,
            cache,
        ) == (AttemptDecisionView::Finish {
            result: RunResult::Failed(if code is Some { code->0 } else { 1 }),
            update_cache: false,
        }),
        severity == CommandSeverity::Warn ==> spec_decide_attempt(
            label,
            max_attempts,
            max_attempts,
            AttemptOutcome::Exited { success: false, code },
            severity,
            cache,
        ) == (AttemptDecisionView::Finish { result: RunResult::Ran, update_cache: false }),
{
}

/// A timeout on the last attempt is an error naming the command and the
/// timeout, whatever the severity.
pub proof fn law_last_timeout_is_error(
    label: Seq<char>,
    max_attempts: u64,
    seconds: u64,
    severity: CommandSeverity,
    cache: bool,
)
    requires
        1 <= max_attempts,
    ensures
        spec_decide_attempt(label, max_attempts, max_attempts, AttemptOutcome::TimedOut { seconds }, severity, cache)
            == AttemptDecisionView::Fail(ErrorView::TimedOut { label, seconds }),
{
}

/// The words that say why a command is skipped.
pub open spec fn skip_reason_text(r: SkipReason) -> Seq<char> {
    match r {
        SkipReason::BranchMismatch => "branch mismatch"@,
        SkipReason::NoChangedFiles => "no changed files"@,
        SkipReason::NoMatchingFiles => "no files match filter"@,
        SkipReason::Cached => "cached"@,
    }
}

/// The dry-run line of a skipped command: `[skip] <label> (<reason>)`.
pub fn skip_message(label: &str, reason: SkipReason) -> (res: String)
    ensures
        res@ == "[skip] "@ + label@ + " ("@ + skip_reason_text(reason) + ")"@,
{
    let text = match reason {
        SkipReason::BranchMismatch => "branch mismatch",
        SkipReason::NoChangedFiles => "no changed files",
        SkipReason::NoMatchingFiles => "no files match filter",
        SkipReason::Cached => "cached",
    };
    let mut s = "[skip] ".to_owned();
    s.append(label);
    s.append(" (");
    s.append(text);
    s.append(")");
    proof {
        assert(s@ =~= "[skip] "@ + label@ + " ("@ + skip_reason_text(reason) + ")"@);
    }
    s
}

/// The dry-run line of a command that would run:
/// `[ run] <label> (<n> file[s]) <first line of the script>`.
pub open spec fn spec_run_message(label: Seq<char>, file_count: nat, script: Seq<char>) -> Seq<char> {
    "[ run] "@ + label + " ("@ + dec(file_count) + (if file_count == 1 { " file"@ } else { " files"@ }) + ") "@
        + first_line(script)
}

/// The dry-run line of a command that would run.
pub fn run_message(label: &str, file_count: usize, script: &str) -> (res: String)
    ensures
        res@ == spec_run_message(label@, file_count as nat, script@),
{
    let mut s = "[ run] ".to_owned();
    s.append(label);
    s.append(" (");
    let n = decimal(file_count as u64);
    s.append(n.as_str());
    if file_count == 1 {
        s.append(" file");
    } else {
        s.append(" files");
    }
    s.append(") ");
    let line = first_line_of(script);
    s.append(line.as_str());
    proof {
        assert(s@ =~= spec_run_message(label@, file_count as nat, script@));
    }
    s
}

/// The message printed before a retry:
/// `hoox: <label>: timed out (attempt a/m)` after a timeout, and
/// `hoox: <label>: failed (attempt a/m, retrying)` after a failure.
pub open spec fn spec_retry_message(label: Seq<char>, attempt: nat, max_attempts: nat, timed_out: bool) -> Seq<char> {
    if timed_out {
        "hoox: "@ + label + ": timed out (attempt "@ + dec(attempt) + "/"@ + dec(max_attempts) + ")"@
    } else {
        "hoox: "@ + label + ": failed (attempt "@ + dec(attempt) + "/"@ + dec(max_attempts) + ", retrying)"@
    }
}

/// The message printed before a retry.
pub fn retry_message(label: &str, attempt: u64, max_attempts: u64, timed_out: bool) -> (res: String)
    ensures
        res@ == spec_retry_message(label@, attempt as nat, max_attempts as nat, timed_out),
{
    let mut s = "hoox: ".to_owned();
    s.append(label);
    if timed_out {
        s.append(": timed out (attempt ");
    } else {
        s.append(": failed (attempt ");
    }
    let a = decimal(attempt);
    s.append(a.as_str());
    s.append("/");
    let m = decimal(max_attempts);
    s.append(m.as_str());
    if timed_out {
        s.append(")");
    } else {
        s.append(", retrying)");
    }
    proof {
        assert(s@ =~= spec_retry_message(label@, attempt as nat, max_attempts as nat, timed_out));
    }
    s
}


/// What a command that passed its checks does next.
#[derive(Debug, Clone, PartialEq, Eq)]
pub enum Prepared {
    /// Its files hash as on its last success: skipped.
    Cached,
    /// It runs with this program on this script.
    Ready { program: Vec<String>, source: ScriptSource },
}

/// The step after the checks: with caching on, a command whose current hash is
/// the stored one is skipped; otherwise its program and script are resolved, in
/// that order, and either may be an error.
pub fn prepare_command(cmd: &HookCommand, cache: &CacheStore, label: &str, current_hash: Option<&str>) -> (res:
    Result<Prepared, HooxError>)
    requires
        current_hash is Some <==> cmd.cache == Some(true),
    ensures
        (current_hash matches Some(h) && cache@.contains_key(label@) && cache@[label@] == h@) ==> (res matches Ok(
            Prepared::Cached,
        )),
        !(current_hash matches Some(h) && cache@.contains_key(label@) && cache@[label@] == h@) ==> match spec_program(*cmd) {
            Err(e) => res matches Err(r) && r@ == e,
            Ok(p) => match (cmd.command.inline, cmd.command.file) {
                (Some(s), None) => (res matches Ok(Prepared::Ready { program, source: ScriptSource::Inline(t) }) && views(
                    program@,
                ) == p && t@ == s@),
                (None, Some(f)) => (res matches Ok(Prepared::Ready { program, source: ScriptSource::File(t) }) && views(
                    program@,
                ) == p && t@ == f@),
                _ => (res matches Err(r) && r@ == ErrorView::InvalidCommandSpec),
            },
        },
{
    if let Some(h) = current_hash {
        if cache.is_hit(label, h) {
            return Ok(Prepared::Cached);
        }
    }
    let program = match resolve_program(cmd) {
        Ok(p) => p,
        Err(e) => return Err(e),
    };
    let source = match script_source(cmd) {
        Ok(s) => s,
        Err(e) => return Err(e),
    };
    Ok(Prepared::Ready { program, source })
}

} // verus!
