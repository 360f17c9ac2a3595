use vstd::prelude::*;

use crate::statistics::Verdict;

verus! {

/// The steps taken for one reverse dependency: find or download its archive,
/// unpack it afresh, build it as published, then build it against the local
/// crate.
#[derive(Debug, Clone, Copy, PartialEq, Eq, Structural)]
pub enum Stage {
    /// Look for the archive in the cache.
    CheckCache,
    /// Download the archive from the CDN into the cache.
    Download,
    /// Look for an unpacked copy of the archive.
    CheckUnpacked,
    /// Delete the unpacked copy.
    RemoveUnpacked,
    /// Unpack the archive.
    Unpack,
    /// Build the crate as published.
    BuildUnmodified,
    /// Write the override that points the crate at the local crate.
    WriteOverride,
    /// Build the crate against the local crate.
    BuildPatched,
    /// Keep the error output of the failed build.
    SaveStderr,
    /// Finished, with how it ended.
    Done(Verdict),
    /// Stopped on an error that ends the whole run.
    Abort,
}

/// What the work of a stage gave: for a look-up, `Succeeded` where the thing
/// is there and `Failed` where it is not; for a command, `Failed` where it ran
/// and did not succeed; `Errored` where the work could not be done at all.
/// Any stage but a build of the crate or the saving of its error output stops
/// the whole run unless its work succeeded (or, for a look-up, found nothing).
#[derive(Debug, Clone, Copy, PartialEq, Eq, Structural)]
pub enum Outcome {
    Succeeded,
    Failed,
    Errored,
}

/// The stage that follows `stage` once its work gave `outcome`.
pub open spec fn step(stage: Stage, outcome: Outcome) -> Stage {
    match (stage, outcome) {
        (Stage::CheckCache, Outcome::Succeeded) => Stage::CheckUnpacked,
        (Stage::CheckCache, Outcome::Failed) => Stage::Download,
        (Stage::Download, Outcome::Succeeded) => Stage::CheckUnpacked,
        (Stage::CheckUnpacked, Outcome::Succeeded) => Stage::RemoveUnpacked,
        (Stage::CheckUnpacked, Outcome::Failed) => Stage::Unpack,
        (Stage::RemoveUnpacked, Outcome::Succeeded) => Stage::Unpack,
        (Stage::Unpack, Outcome::Succeeded) => Stage::BuildUnmodified,
        (Stage::BuildUnmodified, Outcome::Succeeded) => Stage::WriteOverride,
        (Stage::BuildUnmodified, Outcome::Failed) => Stage::Done(Verdict::Skipped),
        (Stage::WriteOverride, Outcome::Succeeded) => Stage::BuildPatched,
        (Stage::BuildPatched, Outcome::Succeeded) => Stage::Done(Verdict::Successful),
        (Stage::BuildPatched, Outcome::Failed) => Stage::SaveStderr,
        (Stage::SaveStderr, _) => Stage::Done(Verdict::Failed),
        (Stage::Done(verdict), _) => Stage::Done(verdict),
        _ => Stage::Abort,
    }
}

/// Whether nothing is left to do.
pub open spec fn is_finished(stage: Stage) -> bool {
    stage is Done || stage is Abort
}

/// How many steps are left at most.
pub open spec fn steps_left(stage: Stage) -> nat {
    match stage {
        Stage::CheckCache => 9,
        Stage::Download => 8,
        Stage::CheckUnpacked => 7,
        Stage::RemoveUnpacked => 6,
        Stage::Unpack => 5,
        Stage::BuildUnmodified => 4,
        Stage::WriteOverride => 3,
        Stage::BuildPatched => 2,
        Stage::SaveStderr => 1,
        Stage::Done(_) => 0,
        Stage::Abort => 0,
    }
}

/// The stage reached from `stage` after works that gave `outcomes`, in order.
pub open spec fn run(stage: Stage, outcomes: Seq<Outcome>) -> Stage
    decreases outcomes.len(),
{
    if outcomes.len() == 0 {
        stage
    } else {
        step(run(stage, outcomes.drop_last()), outcomes.last())
    }
}

/// The stage at which the work that gave `outcomes[k]` was done.
pub open spec fn stage_at(stage: Stage, outcomes: Seq<Outcome>, k: int) -> Stage {
    run(stage, outcomes.take(k))
}

/// The stages that come only after the crate built as published.
pub open spec fn built_unmodified(stage: Stage) -> bool {
    match stage {
        Stage::WriteOverride | Stage::BuildPatched | Stage::SaveStderr => true,
        Stage::Done(Verdict::Failed) | Stage::Done(Verdict::Successful) => true,
        _ => false,
    }
}

/// The stage that follows `stage` once its work gave `outcome`.
pub fn next_stage(stage: Stage, outcome: Outcome) -> (next: Stage)
    ensures
        next == step(stage, outcome),
{
    match (stage, outcome) {
        (Stage::CheckCache, Outcome::Succeeded) => Stage::CheckUnpacked,
        (Stage::CheckCache, Outcome::Failed) => Stage::Download,
        (Stage::Download, Outcome::Succeeded) => Stage::CheckUnpacked,
        (Stage::CheckUnpacked, Outcome::Succeeded) => Stage::RemoveUnpacked,
        (Stage::CheckUnpacked, Outcome::Failed) => Stage::Unpack,
        (Stage::RemoveUnpacked, Outcome::Succeeded) => Stage::Unpack,
        (Stage::Unpack, Outcome::Succeeded) => Stage::BuildUnmodified,
        (Stage::BuildUnmodified, Outcome::Succeeded) => Stage::WriteOverride,
        (Stage::BuildUnmodified, Outcome::Failed) => Stage::Done(Verdict::Skipped),
        (Stage::WriteOverride, Outcome::Succeeded) => Stage::BuildPatched,
        (Stage::BuildPatched, Outcome::Succeeded) => Stage::Done(Verdict::Successful),
        (Stage::BuildPatched, Outcome::Failed) => Stage::SaveStderr,
        (Stage::SaveStderr, _) => Stage::Done(Verdict::Failed),
        (Stage::Done(verdict), _) => Stage::Done(verdict),
        _ => Stage::Abort,
    }
}

/// Whether nothing is left to do for this reverse dependency.
pub fn finished(stage: Stage) -> (done: bool)
    ensures
        done == is_finished(stage),
{
    match stage {
        Stage::Done(_) | Stage::Abort => true,
        _ => false,
    }
}

/// Every step from an unfinished stage comes closer to the end, so the steps
/// for one reverse dependency end after at most nine works.
pub proof fn lemma_step_progresses(stage: Stage, outcome: Outcome)
    ensures
        !is_finished(stage) ==> steps_left(step(stage, outcome)) < steps_left(stage),
        is_finished(stage) ==> step(stage, outcome) == stage,
{
}

/// From the first stage, any nine works lead to the end.
pub proof fn lemma_run_finishes(outcomes: Seq<Outcome>)
    requires
        outcomes.len() >= 9,
    ensures
        is_finished(run(Stage::CheckCache, outcomes)),
{
    lemma_steps_left_bound(Stage::CheckCache, outcomes);
}

proof fn lemma_steps_left_bound(stage: Stage, outcomes: Seq<Outcome>)
    ensures
        is_finished(run(stage, outcomes)) || steps_left(run(stage, outcomes)) + outcomes.len()
            <= steps_left(stage),
    decreases outcomes.len(),
{
    if outcomes.len() > 0 {
        lemma_steps_left_bound(stage, outcomes.drop_last());
        lemma_step_progresses(run(stage, outcomes.drop_last()), outcomes.last());
    }
}

/// Reaching a stage that follows the unmodified build, from one that does not,
/// takes a work at the unmodified build that succeeded.
proof fn lemma_built_unmodified_before(stage: Stage, outcomes: Seq<Outcome>)
    requires
        !built_unmodified(stage),
        built_unmodified(run(stage, outcomes)),
    ensures
        exists|k: int|
            0 <= k < outcomes.len() && stage_at(stage, outcomes, k) == Stage::BuildUnmodified
                && outcomes[k] == Outcome::Succeeded,
    decreases outcomes.len(),
{
    let prefix = outcomes.drop_last();
    let last: int = outcomes.len() - 1;
    assert(outcomes.take(last) =~= prefix);
    if built_unmodified(run(stage, prefix)) {
        lemma_built_unmodified_before(stage, prefix);
        let k: int = choose|k: int|
            0 <= k < prefix.len() && stage_at(stage, prefix, k) == Stage::BuildUnmodified
                && prefix[k] == Outcome::Succeeded;
        assert(outcomes.take(k) =~= prefix.take(k));
        assert(stage_at(stage, outcomes, k) == Stage::BuildUnmodified);
    } else {
        assert(stage_at(stage, outcomes, last) == Stage::BuildUnmodified);
    }
}

/// Where the steps for a reverse dependency end with `verdict` from the first
/// stage: `Skipped` only after its unmodified build failed; `Successful` only
/// after its unmodified build and then its build against the local crate
/// succeeded; `Failed` only after its unmodified build succeeded and its build
/// against the local crate failed.
pub proof fn lemma_verdict_follows_builds(outcomes: Seq<Outcome>, verdict: Verdict)
    requires
        run(Stage::CheckCache, outcomes) == Stage::Done(verdict),
    ensures
        verdict == Verdict::Skipped ==> exists|k: int|
            0 <= k < outcomes.len() && stage_at(Stage::CheckCache, outcomes, k)
                == Stage::BuildUnmodified && outcomes[k] == Outcome::Failed,
        verdict != Verdict::Skipped ==> exists|k: int|
            0 <= k < outcomes.len() && stage_at(Stage::CheckCache, outcomes, k)
                == Stage::BuildUnmodified && outcomes[k] == Outcome::Succeeded,
        verdict == Verdict::Successful ==> exists|k: int|
            0 <= k < outcomes.len() && stage_at(Stage::CheckCache, outcomes, k)
                == Stage::BuildPatched && outcomes[k] == Outcome::Succeeded,
        verdict == Verdict::Failed ==> exists|k: int|
            0 <= k < outcomes.len() && stage_at(Stage::CheckCache, outcomes, k)
                == Stage::BuildPatched && outcomes[k] == Outcome::Failed,
{
    if verdict != Verdict::Skipped {
        lemma_built_unmodified_before(Stage::CheckCache, outcomes);
    }
    lemma_last_build(Stage::CheckCache, outcomes, verdict);
}

/// The work that decided the verdict.
proof fn lemma_last_build(stage: Stage, outcomes: Seq<Outcome>, verdict: Verdict)
    requires
        !(stage is Done),
        stage != Stage::SaveStderr,
        run(stage, outcomes) == Stage::Done(verdict),
    ensures
        verdict == Verdict::Skipped ==> exists|k: int|
            0 <= k < outcomes.len() && stage_at(stage, outcomes, k) == Stage::BuildUnmodified
                && outcomes[k] == Outcome::Failed,
        verdict == Verdict::Successful ==> exists|k: int|
            0 <= k < outcomes.len() && stage_at(stage, outcomes, k) == Stage::BuildPatched
                && outcomes[k] == Outcome::Succeeded,
        verdict == Verdict::Failed ==> exists|k: int|
            0 <= k < outcomes.len() && stage_at(stage, outcomes, k) == Stage::BuildPatched
                && outcomes[k] == Outcome::Failed,
    decreases outcomes.len(),
{
    let prefix = outcomes.drop_last();
    let last: int = outcomes.len() - 1;
    assert(outcomes.take(last) =~= prefix);
    let before = run(stage, prefix);
    if before is Done {
        lemma_last_build(stage, prefix, verdict);
        assert forall|k: int| 0 <= k < prefix.len() implies stage_at(stage, outcomes, k)
            == stage_at(stage, prefix, k) && outcomes[k] == prefix[k] by {
            assert(outcomes.take(k) =~= prefix.take(k));
        }
    } else if before == Stage::SaveStderr {
        lemma_saved_stderr_after_failed_build(stage, prefix);
        let k: int = choose|k: int|
            0 <= k < prefix.len() && stage_at(stage, prefix, k) == Stage::BuildPatched
                && prefix[k] == Outcome::Failed;
        assert(outcomes.take(k) =~= prefix.take(k));
        assert(stage_at(stage, outcomes, k) == Stage::BuildPatched);
    } else {
        assert(stage_at(stage, outcomes, last) == before);
    }
}

proof fn lemma_saved_stderr_after_failed_build(stage: Stage, outcomes: Seq<Outcome>)
    requires
        !(stage is Done),
        stage != Stage::SaveStderr,
        run(stage, outcomes) == Stage::SaveStderr,
    ensures
        exists|k: int|
            0 <= k < outcomes.len() && stage_at(stage, outcomes, k) == Stage::BuildPatched
                && outcomes[k] == Outcome::Failed,
{
    let prefix = outcomes.drop_last();
    let last: int = outcomes.len() - 1;
    assert(outcomes.take(last) =~= prefix);
    assert(stage_at(stage, outcomes, last) == run(stage, prefix));
}

/// The works whose outcome ends the whole run: any work that could not be done
/// at all (but the saving of error output), and a download, a removal, an
/// unpacking or an override that did not succeed.
pub open spec fn is_fatal(stage: Stage, outcome: Outcome) -> bool {
    match outcome {
        Outcome::Errored => !is_finished(stage) && stage != Stage::SaveStderr,
        Outcome::Failed => stage == Stage::Download || stage == Stage::RemoveUnpacked || stage
            == Stage::Unpack || stage == Stage::WriteOverride,
        Outcome::Succeeded => false,
    }
}

/// Saving the error output of the failed build, whatever that saving gives,
/// ends with the reverse dependency counted as failed.
pub proof fn lemma_saving_stderr_ends_failed(outcome: Outcome)
    ensures
        step(Stage::SaveStderr, outcome) == Stage::Done(Verdict::Failed),
        step(step(Stage::BuildPatched, Outcome::Failed), outcome) == Stage::Done(Verdict::Failed),
{
}

/// Running over works splits at any point.
pub proof fn lemma_run_splits(stage: Stage, outcomes: Seq<Outcome>, m: int)
    requires
        0 <= m <= outcomes.len(),
    ensures
        run(stage, outcomes) == run(run(stage, outcomes.take(m)), outcomes.skip(m)),
    decreases outcomes.len(),
{
    if outcomes.len() == m {
        assert(outcomes.take(m) =~= outcomes);
        assert(outcomes.skip(m) =~= Seq::<Outcome>::empty());
    } else {
        let prefix = outcomes.drop_last();
        lemma_run_splits(stage, prefix, m);
        assert(prefix.take(m) =~= outcomes.take(m));
        assert(outcomes.skip(m).drop_last() =~= prefix.skip(m));
        assert(outcomes.skip(m).last() == outcomes.last());
    }
}

/// A finished stage stays finished, whatever follows.
pub proof fn lemma_finished_stays(stage: Stage, outcomes: Seq<Outcome>)
    requires
        is_finished(stage),
    ensures
        run(stage, outcomes) == stage,
    decreases outcomes.len(),
{
    if outcomes.len() > 0 {
        lemma_finished_stays(stage, outcomes.drop_last());
    }
}

/// Where the work at step `k` finishes the steps, the run ends there.
proof fn lemma_decided_at(stage: Stage, outcomes: Seq<Outcome>, k: int)
    requires
        0 <= k < outcomes.len(),
        is_finished(step(stage_at(stage, outcomes, k), outcomes[k])),
    ensures
        run(stage, outcomes) == step(stage_at(stage, outcomes, k), outcomes[k]),
{
    lemma_run_splits(stage, outcomes, k + 1);
    assert(outcomes.take(k + 1).drop_last() =~= outcomes.take(k));
    assert(outcomes.take(k + 1).last() == outcomes[k]);
    lemma_finished_stays(run(stage, outcomes.take(k + 1)), outcomes.skip(k + 1));
}

/// A build against the local crate that fails, once its error output is
/// saved, ends the run with the reverse dependency counted as failed, never
/// with an abort; one that succeeds ends it as successful; a build as
/// published that fails ends it as skipped.
pub proof fn lemma_builds_decide_verdict(stage: Stage, outcomes: Seq<Outcome>, k: int)
    requires
        0 <= k < outcomes.len(),
    ensures
        stage_at(stage, outcomes, k) == Stage::BuildPatched && outcomes[k] == Outcome::Failed && k
            + 1 < outcomes.len() ==> run(stage, outcomes) == Stage::Done(Verdict::Failed),
        stage_at(stage, outcomes, k) == Stage::BuildPatched && outcomes[k] == Outcome::Succeeded
            ==> run(stage, outcomes) == Stage::Done(Verdict::Successful),
        stage_at(stage, outcomes, k) == Stage::BuildUnmodified && outcomes[k] == Outcome::Failed
            ==> run(stage, outcomes) == Stage::Done(Verdict::Skipped),
{
    let at = stage_at(stage, outcomes, k);
    if at == Stage::BuildPatched && outcomes[k] == Outcome::Failed && k + 1 < outcomes.len() {
        lemma_run_splits(stage, outcomes.take(k + 2), k + 1);
        assert(outcomes.take(k + 2).take(k + 1) =~= outcomes.take(k + 1));
        assert(outcomes.take(k + 1).drop_last() =~= outcomes.take(k));
        assert(stage_at(stage, outcomes, k + 1) == Stage::SaveStderr);
        lemma_decided_at(stage, outcomes, k + 1);
    }
    if (at == Stage::BuildPatched && outcomes[k] == Outcome::Succeeded) || (at
        == Stage::BuildUnmodified && outcomes[k] == Outcome::Failed) {
        lemma_decided_at(stage, outcomes, k);
    }
}

/// The run aborts exactly where some work before its end was fatal.
pub proof fn lemma_abort_exactly_on_fatal_work(stage: Stage, outcomes: Seq<Outcome>)
    requires
        stage != Stage::Abort,
    ensures
        (run(stage, outcomes) == Stage::Abort) <==> exists|k: int|
            0 <= k < outcomes.len() && !is_finished(#[trigger] stage_at(stage, outcomes, k))
                && is_fatal(stage_at(stage, outcomes, k), outcomes[k]),
    decreases outcomes.len(),
{
    if exists|k: int|
        0 <= k < outcomes.len() && !is_finished(#[trigger] stage_at(stage, outcomes, k)) && is_fatal(
            stage_at(stage, outcomes, k),
            outcomes[k],
        ) {
        let k: int = choose|k: int|
            0 <= k < outcomes.len() && !is_finished(#[trigger] stage_at(stage, outcomes, k))
                && is_fatal(stage_at(stage, outcomes, k), outcomes[k]);
        lemma_decided_at(stage, outcomes, k);
    }
    if run(stage, outcomes) == Stage::Abort {
        let prefix = outcomes.drop_last();
        let last: int = outcomes.len() - 1;
        assert(outcomes.len() > 0);
        assert(outcomes.take(last) =~= prefix);
        if run(stage, prefix) == Stage::Abort {
            lemma_abort_exactly_on_fatal_work(stage, prefix);
            let k: int = choose|k: int|
                0 <= k < prefix.len() && !is_finished(#[trigger] stage_at(stage, prefix, k))
                    && is_fatal(stage_at(stage, prefix, k), prefix[k]);
            assert(outcomes.take(k) =~= prefix.take(k));
            assert(stage_at(stage, outcomes, k) == stage_at(stage, prefix, k));
        } else {
            assert(stage_at(stage, outcomes, last) == run(stage, prefix));
        }
    }
}

/// Where each stage comes from: the archive is downloaded only after the cache
/// check found nothing; the unpacked copy is looked for right after the
/// archive is at hand; it is removed only where it was found; the archive is
/// unpacked only where no copy is left; each build follows the success of the
/// step before it; the error output is saved only after the build against the
/// local crate failed.
pub proof fn lemma_stage_origins(stage: Stage, outcome: Outcome)
    requires
        !is_finished(stage),
    ensures
        step(stage, outcome) == Stage::Download ==> stage == Stage::CheckCache && outcome
            == Outcome::Failed,
        step(stage, outcome) == Stage::CheckUnpacked ==> (stage == Stage::CheckCache || stage
            == Stage::Download) && outcome == Outcome::Succeeded,
        step(stage, outcome) == Stage::RemoveUnpacked ==> stage == Stage::CheckUnpacked && outcome
            == Outcome::Succeeded,
        step(stage, outcome) == Stage::Unpack ==> (stage == Stage::CheckUnpacked && outcome
            == Outcome::Failed) || (stage == Stage::RemoveUnpacked && outcome == Outcome::Succeeded),
        step(stage, outcome) == Stage::BuildUnmodified ==> stage == Stage::Unpack && outcome
            == Outcome::Succeeded,
        step(stage, outcome) == Stage::WriteOverride ==> stage == Stage::BuildUnmodified && outcome
            == Outcome::Succeeded,
        step(stage, outcome) == Stage::BuildPatched ==> stage == Stage::WriteOverride && outcome
            == Outcome::Succeeded,
        step(stage, outcome) == Stage::SaveStderr ==> stage == Stage::BuildPatched && outcome
            == Outcome::Failed,
        step(stage, outcome) != Stage::CheckCache,
        step(stage, outcome) != stage,
{
}

} // verus!
