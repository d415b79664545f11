//! The course of a hook run: its batches in order, the results recorded so far
//! and the shared cache; the first failure stops it.
use vstd::prelude::*;
use crate::cache::{parallel_update, spec_parallel_update, CacheStore};
use crate::config::HookCommand;
use crate::hooks::{
    batch_indices, batches_well_formed, can_record, exit_after, group_commands, stats_after, summary_parts, Batch,
    RunResult, RunState, RunStats,
};
use crate::text::join;

verus! {

/// A hook run in progress.
pub struct HookRun {
    batches: Vec<Batch>,
    next: usize,
    state: RunState,
    cache: CacheStore,
    dirty: bool,
}

fn copy_batch(b: &Batch) -> (res: Batch)
    ensures
        batch_indices(res) == batch_indices(*b),
        res is Sequential <==> b is Sequential,
{
    match b {
        Batch::Sequential(i) => Batch::Sequential(*i),
        Batch::Parallel(v) => {
            let mut out: Vec<usize> = Vec::new();
            let mut k: usize = 0;
            while k < v.len()
                invariant
                    k <= v@.len(),
                    out@ == v@.take(k as int),
                decreases v@.len() - k,
            {
                out.push(v[k]);
                proof {
                    assert(v@.take(k + 1) =~= v@.take(k as int).push(v@[k as int]));
                }
                k = k + 1;
            }
            proof {
                assert(v@.take(v@.len() as int) =~= v@);
            }
            Batch::Parallel(out)
        },
    }
}

impl HookRun {
    /// The batches of the hook, in order.
    pub closed spec fn batches(&self) -> Seq<Batch> {
        self.batches@
    }

    /// How many batches have been handed out.
    pub closed spec fn position(&self) -> nat {
        self.next as nat
    }

    /// The results recorded so far.
    pub closed spec fn run_state(&self) -> RunState {
        self.state
    }

    /// The shared cache.
    pub closed spec fn cache_view(&self) -> Map<Seq<char>, Seq<char>> {
        self.cache@
    }

    /// Whether the shared cache changed since the run started.
    pub closed spec fn is_dirty(&self) -> bool {
        self.dirty
    }

    /// A run of `commands` that starts from `cache`.
    pub fn new(commands: &Vec<HookCommand>, cache: CacheStore) -> (res: Self)
        ensures
            batches_well_formed(res.batches(), commands@),
            res.position() == 0,
            res.run_state() == (RunState {
                stats: RunStats { ran: 0, skipped: 0, cached: 0, failed: 0 },
                exit_code: None,
            }),
            res.cache_view() == cache@,
            !res.is_dirty(),
    {
        let batches = group_commands(commands);
        HookRun { batches, next: 0, state: RunState::new(), cache, dirty: false }
    }

    /// The next batch to run: none once a command has failed, and none after
    /// the last batch.
    pub fn next_batch(&mut self) -> (res: Option<Batch>)
        ensures
            final(self).batches() == old(self).batches(),
            final(self).run_state() == old(self).run_state(),
            final(self).cache_view() == old(self).cache_view(),
            final(self).is_dirty() == old(self).is_dirty(),
            (old(self).run_state().exit_code is Some || old(self).position() == old(self).batches().len()) ==> (
            res is None && final(self).position() == old(self).position()),
            (old(self).run_state().exit_code is None && old(self).position() < old(self).batches().len()) ==> (
            res matches Some(b) && batch_indices(b) == batch_indices(old(self).batches()[old(self).position() as int])
                && (b is Sequential <==> old(self).batches()[old(self).position() as int] is Sequential)
                && final(self).position() == old(self).position() + 1),
    {
        if self.state.is_stopped() || self.next >= self.batches.len() {
            return None;
        }
        let b = copy_batch(&self.batches[self.next]);
        self.next = self.next + 1;
        Some(b)
    }

    /// The shared cache.
    pub fn cache(&self) -> (res: &CacheStore)
        ensures
            res@ == self.cache_view(),
    {
        &self.cache
    }

    /// Whether `r` can be recorded without a count overflowing.
    pub fn has_room(&self, r: RunResult) -> (res: bool)
        ensures
            res == can_record(self.run_state().stats, r),
    {
        match r {
            RunResult::Ran => self.state.stats.ran < u32::MAX,
            RunResult::Skipped => self.state.stats.skipped < u32::MAX,
            RunResult::Cached => self.state.stats.cached < u32::MAX,
            RunResult::Failed(_) => self.state.stats.failed < u32::MAX,
        }
    }

    /// Records the result of a command that ran on the shared cache, and
    /// stores the entry it asks for.
    pub fn finish_command(&mut self, result: RunResult, entry: Option<(String, String)>)
        requires
            can_record(old(self).run_state().stats, result),
        ensures
            final(self).run_state().stats == stats_after(old(self).run_state().stats, result),
            final(self).run_state().exit_code == exit_after(old(self).run_state().exit_code, result),
            final(self).cache_view() == match entry {
                Some(e) => old(self).cache_view().insert(e.0@, e.1@),
                None => old(self).cache_view(),
            },
            final(self).is_dirty() == (old(self).is_dirty() || entry is Some),
            final(self).batches() == old(self).batches(),
            final(self).position() == old(self).position(),
    {
        if let Some((k, v)) = entry {
            self.cache.insert(k, v);
            self.dirty = true;
        }
        self.state.record(result);
    }

    /// Keeps what a command that ran on its own copy `local` of the cache
    /// stored under `key`, when it differs from the `snapshot` the copy was
    /// taken from.
    pub fn absorb(&mut self, snapshot: &CacheStore, local: &CacheStore, key: &str)
        ensures
            final(self).cache_view() == match spec_parallel_update(snapshot@, local@, key@) {
                Some(u) => old(self).cache_view().insert(u.0, u.1),
                None => old(self).cache_view(),
            },
            final(self).is_dirty() == (old(self).is_dirty() || spec_parallel_update(snapshot@, local@, key@) is Some),
            final(self).run_state() == old(self).run_state(),
            final(self).batches() == old(self).batches(),
            final(self).position() == old(self).position(),
    {
        if let Some((k, v)) = parallel_update(snapshot, local, key) {
            self.cache.insert(k, v);
            self.dirty = true;
        }
    }

    /// Records the result of a command whose cache entry was absorbed already.
    pub fn record(&mut self, result: RunResult)
        requires
            can_record(old(self).run_state().stats, result),
        ensures
            final(self).run_state().stats == stats_after(old(self).run_state().stats, result),
            final(self).run_state().exit_code == exit_after(old(self).run_state().exit_code, result),
            final(self).cache_view() == old(self).cache_view(),
            final(self).is_dirty() == old(self).is_dirty(),
            final(self).batches() == old(self).batches(),
            final(self).position() == old(self).position(),
    {
        self.state.record(result);
    }

    /// Whether the shared cache changed, so that it is to be saved.
    pub fn dirty(&self) -> (res: bool)
        ensures
            res == self.is_dirty(),
    {
        self.dirty
    }

    /// The exit code of the first failure, if any.
    pub fn exit_code(&self) -> (res: Option<i32>)
        ensures
            res == self.run_state().exit_code,
    {
        self.state.exit_code
    }

    /// The status line of the results recorded so far; none when there are none.
    pub fn summary_line(&self) -> (res: Option<String>)
        ensures
            match res {
                None => self.run_state().stats == (RunStats { ran: 0, skipped: 0, cached: 0, failed: 0 }),
                Some(line) => self.run_state().stats != (RunStats { ran: 0, skipped: 0, cached: 0, failed: 0 })
                    && line@ == "hoox: "@ + join(summary_parts(self.run_state().stats), ", "@),
            },
    {
        self.state.stats.summary_line()
    }
}

} // verus!
