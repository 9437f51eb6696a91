use cheburcheck::counter::{Counter, Verbosity};
use cheburcheck::probe::Outcome;
use cheburcheck::reports::Evidence;

#[test]
fn counter_starts_empty() {
    let counter = Counter::new();
    assert_eq!(counter.total(), 0);
    assert_eq!(counter.early(), 0);
    assert_eq!(counter.counts(), (0, 0, 0));
    assert!(counter.rows().is_empty());
}

#[test]
fn counter_add_counts_by_evidence() {
    let mut counter = Counter::new();
    counter.add("a.com", Evidence::Okay);
    counter.add("b.com", Evidence::Blocked);
    counter.add("c.com", Evidence::ConnectError);
    counter.add("d.com", Evidence::Error);
    counter.add("e.com", Evidence::Okay);
    assert_eq!(counter.counts(), (2, 1, 2));
    assert_eq!(counter.total(), 5);
    assert_eq!(counter.early(), 0);
}

#[test]
fn counter_add_records_evidence_by_target() {
    let mut counter = Counter::new();
    counter.add("a.com", Evidence::Okay);
    counter.add("b.com", Evidence::Blocked);
    assert_eq!(counter.evidence_of("a.com"), Some(Evidence::Okay));
    assert_eq!(counter.evidence_of("b.com"), Some(Evidence::Blocked));
    assert_eq!(counter.evidence_of("c.com"), None);
}

#[test]
fn counter_add_twice_keeps_one_row_with_the_later_evidence() {
    let mut counter = Counter::new();
    counter.add("a.com", Evidence::Okay);
    counter.add("b.com", Evidence::Okay);
    counter.add("a.com", Evidence::Blocked);
    assert_eq!(counter.evidence_of("a.com"), Some(Evidence::Blocked));
    assert_eq!(counter.rows().len(), 2);
    assert_eq!(counter.total(), 3);
    assert_eq!(counter.counts(), (2, 1, 0));
}

#[test]
fn counter_record_counts_early_blocks() {
    let mut counter = Counter::new();
    counter.record("a.com", Outcome::Blocked { early: true });
    counter.record("b.com", Outcome::Blocked { early: false });
    counter.record("c.com", Outcome::Accepted);
    counter.record("d.com", Outcome::ConnectError);
    counter.record("e.com", Outcome::Error);
    assert_eq!(counter.counts(), (1, 2, 2));
    assert_eq!(counter.early(), 1);
    assert_eq!(counter.total(), 5);
    assert_eq!(counter.evidence_of("a.com"), Some(Evidence::Blocked));
    assert_eq!(counter.evidence_of("d.com"), Some(Evidence::ConnectError));
}

fn sample() -> Counter {
    let mut counter = Counter::new();
    counter.add("ok.com", Evidence::Okay);
    counter.add("blocked.com", Evidence::Blocked);
    counter.add("refused.com", Evidence::ConnectError);
    counter.add("broken.com", Evidence::Error);
    counter
}

#[test]
fn shown_lines_at_silent_are_none() {
    assert!(sample().shown(Verbosity::Silent).is_empty());
}

#[test]
fn shown_lines_at_error_are_connect_errors() {
    assert_eq!(sample().shown(Verbosity::Error), vec!["    [ConnectError] refused.com"]);
}

#[test]
fn shown_lines_at_block_add_blocked_targets() {
    assert_eq!(
        sample().shown(Verbosity::Block),
        vec!["    [Blocked] blocked.com", "    [ConnectError] refused.com"]
    );
}

#[test]
fn shown_lines_at_all_add_reachable_targets() {
    assert_eq!(
        sample().shown(Verbosity::All),
        vec!["    [Ok] ok.com", "    [Blocked] blocked.com", "    [ConnectError] refused.com"]
    );
}

#[test]
fn verbosity_levels_are_ordered() {
    assert_eq!(Verbosity::Silent.level(), 0);
    assert_eq!(Verbosity::Error.level(), 1);
    assert_eq!(Verbosity::Block.level(), 2);
    assert_eq!(Verbosity::All.level(), 3);
}

#[test]
fn export_has_a_header_and_a_row_for_each_target() {
    let table = sample().export();
    assert_eq!(
        table,
        vec![
            vec!["target", "evidence"],
            vec!["ok.com", "ok"],
            vec!["blocked.com", "blocked"],
            vec!["refused.com", "connect_error"],
            vec!["broken.com", "unknown_error"],
        ]
    );
}

#[test]
fn export_of_an_empty_tally_is_the_header() {
    assert_eq!(Counter::new().export(), vec![vec!["target", "evidence"]]);
}
