use did_i_break_it::pipeline::Outcome::{Errored, Failed, Succeeded};
use did_i_break_it::pipeline::{finished, next_stage, Outcome, Stage};
use did_i_break_it::statistics::Verdict;

fn run(outcomes: &[Outcome]) -> Stage {
    let mut stage = Stage::CheckCache;
    for outcome in outcomes {
        stage = next_stage(stage, *outcome);
    }
    stage
}

#[test]
fn cached_crate_that_builds_both_ways_is_successful() {
    // cached, no unpacked copy, unpack, build, override, patched build
    let stage = run(&[Succeeded, Failed, Succeeded, Succeeded, Succeeded, Succeeded]);
    assert_eq!(stage, Stage::Done(Verdict::Successful));
    assert!(finished(stage));
}

#[test]
fn downloaded_crate_with_stale_copy_that_fails_patched_is_failed() {
    let stages: Vec<Stage> = {
        let mut stage = Stage::CheckCache;
        let mut seen = vec![stage];
        for outcome in [Failed, Succeeded, Succeeded, Succeeded, Succeeded, Succeeded, Succeeded, Failed, Errored] {
            stage = next_stage(stage, outcome);
            seen.push(stage);
        }
        seen
    };
    assert_eq!(
        stages,
        vec![
            Stage::CheckCache,
            Stage::Download,
            Stage::CheckUnpacked,
            Stage::RemoveUnpacked,
            Stage::Unpack,
            Stage::BuildUnmodified,
            Stage::WriteOverride,
            Stage::BuildPatched,
            Stage::SaveStderr,
            Stage::Done(Verdict::Failed),
        ]
    );
}

#[test]
fn crate_that_does_not_build_unmodified_is_skipped() {
    assert_eq!(run(&[Succeeded, Failed, Succeeded, Failed]), Stage::Done(Verdict::Skipped));
}

#[test]
fn errors_abort() {
    assert_eq!(run(&[Failed, Failed]), Stage::Abort);
    assert_eq!(run(&[Failed, Errored]), Stage::Abort);
    assert_eq!(run(&[Succeeded, Succeeded, Errored]), Stage::Abort);
    assert_eq!(run(&[Succeeded, Failed, Failed]), Stage::Abort);
    assert_eq!(run(&[Succeeded, Failed, Succeeded, Errored]), Stage::Abort);
    assert_eq!(run(&[Succeeded, Failed, Succeeded, Succeeded, Failed]), Stage::Abort);
    assert_eq!(run(&[Succeeded, Failed, Succeeded, Succeeded, Succeeded, Errored]), Stage::Abort);
    assert!(finished(Stage::Abort));
    assert!(!finished(Stage::BuildPatched));
}

#[test]
fn finished_stages_stay() {
    assert_eq!(next_stage(Stage::Abort, Outcome::Succeeded), Stage::Abort);
    assert_eq!(
        next_stage(Stage::Done(Verdict::Skipped), Outcome::Succeeded),
        Stage::Done(Verdict::Skipped)
    );
}

#[test]
fn nine_steps_always_finish() {
    for outcomes in [[Failed; 9], [Succeeded; 9], [Errored; 9]] {
        assert!(finished(run(&outcomes)));
    }
}
