//! Run statistics: the per-file outcomes of one walk, folded into
//! counters and, for incremental runs, the list of newly created files.
use vstd::prelude::*;

use crate::fs_ops::SyncDecision;

verus! {

/// What processing one eligible file came to.
#[derive(Clone, Copy, Debug, PartialEq, Eq, Structural)]
pub enum FileOutcome {
    New,
    Updated,
    Skipped,
    Failed,
}

/// Counters of one invocation, plus the names of files placed as `New`.
pub struct RunStatistics {
    pub success_count: u64,
    pub skipped_count: u64,
    pub error_count: u64,
    pub new_files: Vec<String>,
}

impl RunStatistics {
    /// Every recorded file is counted exactly once.
    pub open spec fn total(self) -> int {
        self.success_count + self.skipped_count + self.error_count
    }

    /// Fresh statistics: nothing recorded yet.
    pub fn new() -> (r: RunStatistics)
        ensures
            r.success_count == 0,
            r.skipped_count == 0,
            r.error_count == 0,
            r.new_files@ == Seq::<String>::empty(),
            r.total() == 0,
    {
        RunStatistics { success_count: 0, skipped_count: 0, error_count: 0, new_files: Vec::new() }
    }

    /// Folds a synchronization decision into the statistics: `New` and
    /// `Updated` count as successes, `Skipped` as a skip; a `New` file's
    /// name is recorded.  Exactly one counter moves, by one.
    pub fn record_decision(&mut self, decision: SyncDecision, filename: String)
        requires
            old(self).success_count < u64::MAX,
            old(self).skipped_count < u64::MAX,
        ensures
            final(self).total() == old(self).total() + 1,
            decision is New ==> final(self).success_count == old(self).success_count + 1
                && final(self).new_files@ == old(self).new_files@.push(filename),
            decision is Updated ==> final(self).success_count == old(self).success_count + 1
                && final(self).new_files@ == old(self).new_files@,
            decision is New || decision is Updated ==> final(self).skipped_count == old(
                self,
            ).skipped_count && final(self).error_count == old(self).error_count,
            decision is Skipped ==> final(self).skipped_count == old(self).skipped_count + 1
                && final(self).success_count == old(self).success_count && final(self).error_count
                == old(self).error_count && final(self).new_files@ == old(self).new_files@,
    {
        match decision {
            SyncDecision::New => {
                self.success_count = self.success_count + 1;
                self.new_files.push(filename);
            },
            SyncDecision::Updated => {
                self.success_count = self.success_count + 1;
            },
            SyncDecision::Skipped => {
                self.skipped_count = self.skipped_count + 1;
            },
        }
    }

    /// Folds a per-file failure into the statistics; the walk goes on.
    pub fn record_error(&mut self)
        requires
            old(self).error_count < u64::MAX,
        ensures
            final(self).total() == old(self).total() + 1,
            final(self).error_count == old(self).error_count + 1,
            final(self).success_count == old(self).success_count,
            final(self).skipped_count == old(self).skipped_count,
            final(self).new_files@ == old(self).new_files@,
    {
        self.error_count = self.error_count + 1;
    }
}

/// The counters a sequence of outcomes folds to: successes, skips,
/// errors.
pub open spec fn spec_tally(outcomes: Seq<FileOutcome>) -> (int, int, int)
    decreases outcomes.len(),
{
    if outcomes.len() == 0 {
        (0, 0, 0)
    } else {
        let (s, k, e) = spec_tally(outcomes.drop_last());
        match outcomes.last() {
            FileOutcome::New => (s + 1, k, e),
            FileOutcome::Updated => (s + 1, k, e),
            FileOutcome::Skipped => (s, k + 1, e),
            FileOutcome::Failed => (s, k, e + 1),
        }
    }
}

/// The aggregate invariant of a run: however the walk went, successes,
/// skips and errors add up to the number of eligible files processed.
pub proof fn lemma_tally_total(outcomes: Seq<FileOutcome>)
    ensures
        ({
            let (s, k, e) = spec_tally(outcomes);
            s + k + e == outcomes.len()
        }),
    decreases outcomes.len(),
{
    if outcomes.len() > 0 {
        lemma_tally_total(outcomes.drop_last());
    }
}

} // verus!
