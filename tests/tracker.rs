use pagechain::tracker::{Event, WorkTracker};

fn feed(t: &mut WorkTracker, es: &[Event]) {
    for e in es {
        t.record(*e);
    }
}

#[test]
fn chain_of_two_pages_drains() {
    let mut t = WorkTracker::new();
    feed(&mut t, &[Event::Seeded, Event::SeedingDone]);
    assert!(!t.is_drained());
    t.record(Event::Extracted { successor: true });
    assert!(!t.is_drained());
    t.record(Event::Extracted { successor: false });
    assert!(t.is_drained());
}

#[test]
fn not_drained_before_seeding_is_done() {
    let mut t = WorkTracker::new();
    assert!(!t.is_drained());
    feed(&mut t, &[Event::Seeded, Event::Extracted { successor: false }]);
    assert!(!t.is_drained());
    t.record(Event::SeedingDone);
    assert!(t.is_drained());
}

#[test]
fn failures_end_their_chain_only() {
    let mut t = WorkTracker::new();
    feed(&mut t, &[Event::Seeded, Event::Seeded, Event::SeedingDone, Event::FetchFailed]);
    assert_eq!(t.outstanding, 1);
    assert!(!t.is_drained());
    t.record(Event::Rejected);
    assert!(t.is_drained());
}

#[test]
fn two_seeds_fan_in_and_drain() {
    let mut t = WorkTracker::new();
    feed(&mut t, &[Event::Seeded, Event::Seeded, Event::SeedingDone]);
    t.record(Event::Extracted { successor: false });
    assert!(!t.is_drained());
    t.record(Event::Extracted { successor: false });
    assert!(t.is_drained());
}
