use pitch::presses::KeyPress;
use pitch::presses::KeyPresses;

#[test]
fn touching_presses_coalesce() {
    // (0, 100) then (100, 50) merge into the single interval (0, 150).
    let mut presses = KeyPresses::new();
    presses.add(KeyPress::new(0, 100, 7));
    presses.add(KeyPress::new(100, 50, 3));
    assert_eq!(presses.len(), 1);
    let stored = presses.get(0);
    assert_eq!(stored.start(), 0);
    assert_eq!(stored.duration(), 150);
}

#[test]
fn separated_presses_stay_distinct() {
    // (0, 100) then (101, 50): one millisecond apart, so two intervals.
    let mut presses = KeyPresses::new();
    presses.add(KeyPress::new(0, 100, 7));
    presses.add(KeyPress::new(101, 50, 3));
    assert_eq!(presses.len(), 2);
    assert_eq!(presses.get(0).start(), 0);
    assert_eq!(presses.get(0).duration(), 100);
    assert_eq!(presses.get(1).start(), 101);
    assert_eq!(presses.get(1).duration(), 50);
}

#[test]
fn merge_with_following_interval() {
    // The new press (0, 100) ends exactly where (100, 50) starts.
    let mut presses = KeyPresses::new();
    presses.add(KeyPress::new(100, 50, 3));
    presses.add(KeyPress::new(0, 100, 7));
    assert_eq!(presses.len(), 1);
    let stored = presses.get(0);
    assert_eq!(stored.start(), 0);
    assert_eq!(stored.duration(), 150);
}

#[test]
fn merge_keeps_louder_intensity() {
    let mut presses = KeyPresses::new();
    presses.add(KeyPress::new(0, 100, 7));
    presses.add(KeyPress::new(100, 50, 9));
    assert_eq!(presses.get(0).intensity(), 9);

    let mut presses = KeyPresses::new();
    presses.add(KeyPress::new(0, 100, 7));
    presses.add(KeyPress::new(100, 50, 2));
    assert_eq!(presses.get(0).intensity(), 7);
}

#[test]
fn overlapping_presses_stay_distinct() {
    // Only exactly touching intervals merge; overlap is kept as-is.
    let mut presses = KeyPresses::new();
    presses.add(KeyPress::new(0, 300, 5));
    presses.add(KeyPress::new(100, 400, 5));
    assert_eq!(presses.len(), 2);
    assert_eq!(presses.get(0).start(), 0);
    assert_eq!(presses.get(0).duration(), 300);
    assert_eq!(presses.get(1).start(), 100);
    assert_eq!(presses.get(1).duration(), 400);
}

#[test]
fn equal_start_replaces() {
    let mut presses = KeyPresses::new();
    presses.add(KeyPress::new(10, 40, 1));
    presses.add(KeyPress::new(10, 60, 2));
    assert_eq!(presses.len(), 1);
    assert_eq!(presses.get(0).start(), 10);
    assert_eq!(presses.get(0).duration(), 60);
    assert_eq!(presses.get(0).intensity(), 2);
}

#[test]
fn remove_validates_duration() {
    let mut presses = KeyPresses::new();
    presses.add(KeyPress::new(0, 100, 7));
    // A mismatched duration removes nothing and reports the mismatch.
    assert!(!presses.remove(&KeyPress::new(0, 99, 7)));
    assert_eq!(presses.len(), 1);
    // An exact match removes the interval.
    assert!(presses.remove(&KeyPress::new(0, 100, 7)));
    assert_eq!(presses.len(), 0);
    // Removing from an empty set reports a miss.
    assert!(!presses.remove(&KeyPress::new(0, 100, 7)));
}

#[test]
fn first_last_and_ordering() {
    let mut presses = KeyPresses::new();
    assert_eq!(presses.first(), None);
    assert_eq!(presses.last(), None);
    presses.add(KeyPress::new(500, 10, 1));
    presses.add(KeyPress::new(0, 10, 1));
    presses.add(KeyPress::new(250, 10, 1));
    assert_eq!(presses.len(), 3);
    assert_eq!(presses.first().unwrap().start(), 0);
    assert_eq!(presses.last().unwrap().start(), 500);
    let all = presses.to_vec();
    assert_eq!(all.len(), 3);
    assert_eq!(all[1].start(), 250);
    assert_eq!(presses.get(0).end(), 10);
}
