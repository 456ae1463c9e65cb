use fractal::escape::{escape_count_from_flags, EscapeCounter, ITER_CAP};

#[test]
fn counter_counts_to_the_cap_without_escape() {
    let flags = vec![false; 300];
    assert_eq!(escape_count_from_flags(&flags), ITER_CAP);
    let short = vec![false; 100];
    assert_eq!(escape_count_from_flags(&short), 100);
}

#[test]
fn counter_stops_at_first_escape() {
    let flags = vec![false, false, true, false, false];
    assert_eq!(escape_count_from_flags(&flags), 2);
}

#[test]
fn counter_stops_at_once_when_already_escaped() {
    let flags = vec![true, false, false];
    assert_eq!(escape_count_from_flags(&flags), 0);
}

#[test]
fn counter_runs_dry_keeps_partial_count() {
    let flags: Vec<bool> = Vec::new();
    assert_eq!(escape_count_from_flags(&flags), 0);
}

#[test]
fn counter_stays_stopped_after_escape() {
    let mut c = EscapeCounter::new();
    assert!(c.observe(false));
    assert!(c.observe(false));
    assert!(!c.observe(true));
    assert_eq!(c.count(), 2);
    // Once stopped, later tests change nothing.
    assert!(!c.observe(false));
    assert_eq!(c.count(), 2);
}

#[test]
fn counter_never_passes_the_cap() {
    let mut c = EscapeCounter::new();
    let mut steps = 0u32;
    while c.observe(false) {
        steps += 1;
        assert!(steps <= 255);
    }
    assert_eq!(steps, 255);
    assert_eq!(c.count(), ITER_CAP);
}
