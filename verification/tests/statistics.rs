use did_i_break_it::statistics::{Statistics, Verdict};

#[test]
fn new_statistics_count_nothing() {
    let statistics = Statistics::new();
    assert_eq!(statistics.skipped(), 0);
    assert_eq!(statistics.failed(), 0);
    assert_eq!(statistics.successful(), 0);
    assert_eq!(statistics.total(), Some(0));
}

#[test]
fn each_increment_raises_its_own_counter() {
    let mut statistics = Statistics::new();
    statistics.increment_skipped();
    statistics.increment_failed();
    statistics.increment_failed();
    statistics.increment_successful();
    statistics.increment_successful();
    statistics.increment_successful();
    assert_eq!(statistics.skipped(), 1);
    assert_eq!(statistics.failed(), 2);
    assert_eq!(statistics.successful(), 3);
    assert_eq!(statistics.total(), Some(6));
}

#[test]
fn record_matches_the_increments() {
    let mut recorded = Statistics::new();
    recorded.record(Verdict::Failed);
    recorded.record(Verdict::Skipped);
    recorded.record(Verdict::Failed);
    assert_eq!(recorded.skipped(), 1);
    assert_eq!(recorded.failed(), 2);
    assert_eq!(recorded.successful(), 0);
}

#[test]
fn recording_order_does_not_matter() {
    let mut first = Statistics::new();
    first.record(Verdict::Successful);
    first.record(Verdict::Skipped);
    let mut second = Statistics::new();
    second.record(Verdict::Skipped);
    second.record(Verdict::Successful);
    assert_eq!(first.skipped(), second.skipped());
    assert_eq!(first.failed(), second.failed());
    assert_eq!(first.successful(), second.successful());
    assert_eq!(first.total(), Some(2));
}

#[test]
fn counts_after_a_mix_of_increments() {
    let mut statistics = Statistics::new();
    statistics.increment_failed();
    statistics.increment_skipped();
    statistics.increment_successful();
    statistics.increment_failed();
    assert_eq!(statistics.skipped(), 1);
    assert_eq!(statistics.failed(), 2);
    assert_eq!(statistics.successful(), 1);
    assert_eq!(statistics.total(), Some(4));
}
