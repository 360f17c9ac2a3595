use vstd::prelude::*;

verus! {

/// How the build of one reverse dependency ended.
#[derive(Debug, Clone, Copy, PartialEq, Eq, Structural)]
pub enum Verdict {
    /// The reverse dependency did not even build with its own requirements.
    Skipped,
    /// It built unmodified, but not against the local crate.
    Failed,
    /// It built against the local crate.
    Successful,
}

/// Counts of the reverse dependencies that were skipped, failed or succeeded.
pub struct Statistics {
    skipped: usize,
    failed: usize,
    successful: usize,
}

/// The counters of a [`Statistics`].
pub struct StatisticsView {
    pub skipped: nat,
    pub failed: nat,
    pub successful: nat,
}

impl View for Statistics {
    type V = StatisticsView;

    closed spec fn view(&self) -> StatisticsView {
        StatisticsView {
            skipped: self.skipped as nat,
            failed: self.failed as nat,
            successful: self.successful as nat,
        }
    }
}

impl StatisticsView {
    /// The number of reverse dependencies counted so far.
    pub open spec fn total(self) -> nat {
        self.skipped + self.failed + self.successful
    }

    /// The counters after one more reverse dependency ended with `verdict`.
    pub open spec fn record(self, verdict: Verdict) -> StatisticsView {
        match verdict {
            Verdict::Skipped => StatisticsView { skipped: self.skipped + 1, ..self },
            Verdict::Failed => StatisticsView { failed: self.failed + 1, ..self },
            Verdict::Successful => StatisticsView { successful: self.successful + 1, ..self },
        }
    }

    /// The counter that `verdict` increments.
    pub open spec fn count_of(self, verdict: Verdict) -> nat {
        match verdict {
            Verdict::Skipped => self.skipped,
            Verdict::Failed => self.failed,
            Verdict::Successful => self.successful,
        }
    }
}

impl Statistics {
    /// All counters at zero.
    pub fn new() -> (statistics: Self)
        ensures
            statistics@.skipped == 0,
            statistics@.failed == 0,
            statistics@.successful == 0,
    {
        Statistics { skipped: 0, failed: 0, successful: 0 }
    }

    pub fn increment_skipped(&mut self)
        requires
            old(self)@.skipped < usize::MAX,
        ensures
            final(self)@ == old(self)@.record(Verdict::Skipped),
    {
        self.skipped = self.skipped + 1;
    }

    pub fn increment_failed(&mut self)
        requires
            old(self)@.failed < usize::MAX,
        ensures
            final(self)@ == old(self)@.record(Verdict::Failed),
    {
        self.failed = self.failed + 1;
    }

    pub fn increment_successful(&mut self)
        requires
            old(self)@.successful < usize::MAX,
        ensures
            final(self)@ == old(self)@.record(Verdict::Successful),
    {
        self.successful = self.successful + 1;
    }

    /// Counts one more reverse dependency that ended with `verdict`.
    pub fn record(&mut self, verdict: Verdict)
        requires
            old(self)@.count_of(verdict) < usize::MAX,
        ensures
            final(self)@ == old(self)@.record(verdict),
    {
        match verdict {
            Verdict::Skipped => self.increment_skipped(),
            Verdict::Failed => self.increment_failed(),
            Verdict::Successful => self.increment_successful(),
        }
    }

    pub fn skipped(&self) -> (count: usize)
        ensures
            count == self@.skipped,
    {
        self.skipped
    }

    pub fn failed(&self) -> (count: usize)
        ensures
            count == self@.failed,
    {
        self.failed
    }

    pub fn successful(&self) -> (count: usize)
        ensures
            count == self@.successful,
    {
        self.successful
    }

    /// The sum of the three counters, as the report prints it; `None` where it
    /// does not fit in a `usize`.
    pub fn total(&self) -> (total: Option<usize>)
        ensures
            match total {
                Some(t) => t == self@.total(),
                None => self@.total() > usize::MAX,
            },
    {
        match self.skipped.checked_add(self.failed) {
            Some(partial) => partial.checked_add(self.successful),
            None => None,
        }
    }
}

/// Recording a verdict raises its own counter by one and leaves the other two
/// as they were, so the total grows by exactly one.
pub proof fn lemma_record_counts_once(statistics: StatisticsView, verdict: Verdict, other: Verdict)
    ensures
        statistics.record(verdict).count_of(verdict) == statistics.count_of(verdict) + 1,
        other != verdict ==> statistics.record(verdict).count_of(other) == statistics.count_of(other),
        statistics.record(verdict).total() == statistics.total() + 1,
{
}

/// The counters after recording `verdicts`, in order.
pub open spec fn record_all(statistics: StatisticsView, verdicts: Seq<Verdict>) -> StatisticsView
    decreases verdicts.len(),
{
    if verdicts.len() == 0 {
        statistics
    } else {
        record_all(statistics, verdicts.drop_last()).record(verdicts.last())
    }
}

/// How many of `verdicts` are `verdict`.
pub open spec fn occurrences(verdicts: Seq<Verdict>, verdict: Verdict) -> nat
    decreases verdicts.len(),
{
    if verdicts.len() == 0 {
        0
    } else {
        occurrences(verdicts.drop_last(), verdict) + if verdicts.last() == verdict {
            1nat
        } else {
            0nat
        }
    }
}

/// After any mix of recordings (each `increment_*` call records one verdict),
/// each counter has grown by the number of its verdicts, and the total by the
/// number of recordings.
pub proof fn lemma_counts_are_occurrences(statistics: StatisticsView, verdicts: Seq<Verdict>)
    ensures
        forall|verdict: Verdict|
            #[trigger] record_all(statistics, verdicts).count_of(verdict) == statistics.count_of(
                verdict,
            ) + occurrences(verdicts, verdict),
        record_all(statistics, verdicts).total() == statistics.total() + verdicts.len(),
    decreases verdicts.len(),
{
    if verdicts.len() > 0 {
        lemma_counts_are_occurrences(statistics, verdicts.drop_last());
        assert forall|verdict: Verdict|
            #[trigger] record_all(statistics, verdicts).count_of(verdict) == statistics.count_of(
                verdict,
            ) + occurrences(verdicts, verdict) by {
            assert(record_all(statistics, verdicts.drop_last()).count_of(verdict)
                == statistics.count_of(verdict) + occurrences(verdicts.drop_last(), verdict));
        }
    }
}

/// Each verdict raises its own counter, by one: skipped, failed or
/// successful, the two others unchanged.
pub proof fn lemma_record_raises_its_counter(statistics: StatisticsView)
    ensures
        statistics.record(Verdict::Skipped) == (StatisticsView {
            skipped: statistics.skipped + 1,
            failed: statistics.failed,
            successful: statistics.successful,
        }),
        statistics.record(Verdict::Failed) == (StatisticsView {
            skipped: statistics.skipped,
            failed: statistics.failed + 1,
            successful: statistics.successful,
        }),
        statistics.record(Verdict::Successful) == (StatisticsView {
            skipped: statistics.skipped,
            failed: statistics.failed,
            successful: statistics.successful + 1,
        }),
        statistics.total() == statistics.skipped + statistics.failed + statistics.successful,
{
}

/// The counters do not depend on the order in which verdicts are recorded.
pub proof fn lemma_record_commutes(statistics: StatisticsView, first: Verdict, second: Verdict)
    ensures
        statistics.record(first).record(second) == statistics.record(second).record(first),
{
}

} // verus!
