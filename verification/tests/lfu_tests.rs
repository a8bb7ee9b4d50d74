use lfu::Lfu;
use lfu::LfuError;
use lfu::lfu::LfuInner;

fn tracker(capacity: u32) -> Lfu {
    Lfu::new(capacity).expect("capacity must be at least 1")
}

#[test]
fn scenario_capacity_two_evicts_unique_minimum() {
    let mut t = tracker(2);
    assert_eq!(t.refer("a".to_string()), None);
    assert_eq!(t.refer("b".to_string()), None);
    assert_eq!(t.refer("a".to_string()), None);
    // "b" holds the unique minimum frequency (1 against a's 2)
    assert_eq!(t.refer("c".to_string()), Some("b".to_string()));
}

#[test]
fn scenario_capacity_one_evicts_on_second_key() {
    let mut t = tracker(1);
    assert_eq!(t.refer("x".to_string()), None);
    assert_eq!(t.refer("y".to_string()), Some("x".to_string()));
}

#[test]
fn scenario_tie_evicts_some_minimum_key() {
    let mut t = tracker(2);
    assert_eq!(t.refer("a".to_string()), None);
    assert_eq!(t.refer("b".to_string()), None);
    // both tracked keys have frequency 1; either is a valid victim
    let evicted = t.refer("c".to_string()).expect("an eviction must occur");
    assert!(evicted == "a" || evicted == "b");
}

#[test]
fn scenario_capacity_zero_is_rejected_at_construction() {
    assert!(matches!(Lfu::new(0), Err(LfuError::InvalidCapacity)));
}

#[test]
fn a_hit_is_not_a_miss() {
    let mut t = tracker(1);
    assert_eq!(t.refer("a".to_string()), None);
    // a hit: were the key treated as untracked, this call would evict "a"
    assert_eq!(t.refer("a".to_string()), None);
    assert_eq!(t.refer("b".to_string()), Some("a".to_string()));
}

#[test]
fn an_evicted_key_can_be_admitted_again() {
    let mut t = tracker(1);
    assert_eq!(t.refer("a".to_string()), None);
    assert_eq!(t.refer("b".to_string()), Some("a".to_string()));
    // "a" left the tracked set entirely: re-admitting it evicts "b"
    assert_eq!(t.refer("a".to_string()), Some("b".to_string()));
}

#[test]
fn eviction_picks_the_least_frequent_of_three() {
    let mut t = tracker(3);
    t.refer("a".to_string());
    t.refer("a".to_string());
    t.refer("a".to_string());
    t.refer("b".to_string());
    t.refer("b".to_string());
    t.refer("c".to_string());
    // frequencies: a = 3, b = 2, c = 1
    assert_eq!(t.refer("d".to_string()), Some("c".to_string()));
}

#[test]
fn bumps_reorder_the_heap_before_eviction() {
    let mut t = tracker(3);
    t.refer("a".to_string());
    t.refer("b".to_string());
    t.refer("c".to_string());
    // bump the earliest keys so that "c" becomes the unique minimum
    t.refer("a".to_string());
    t.refer("b".to_string());
    t.refer("b".to_string());
    assert_eq!(t.refer("d".to_string()), Some("c".to_string()));
    // frequencies now: a = 2, b = 3, d = 1
    assert_eq!(t.refer("e".to_string()), Some("d".to_string()));
    // frequencies now: a = 2, b = 3, e = 1
    assert_eq!(t.refer("e".to_string()), None);
    assert_eq!(t.refer("e".to_string()), None);
    // frequencies now: a = 2, b = 3, e = 3
    assert_eq!(t.refer("f".to_string()), Some("a".to_string()));
}

#[test]
fn capacities_larger_than_the_working_set_never_evict() {
    let mut t = tracker(10);
    for round in 0..4u32 {
        for key in ["p", "q", "r", "s"] {
            assert_eq!(t.refer(key.to_string()), None, "round {round}");
        }
    }
}

#[test]
fn the_core_behaves_like_the_boundary_type() {
    let mut t = LfuInner::new(2).expect("capacity must be at least 1");
    assert_eq!(t.refer("a".to_string()), None);
    assert_eq!(t.refer("b".to_string()), None);
    assert_eq!(t.refer("a".to_string()), None);
    assert_eq!(t.refer("c".to_string()), Some("b".to_string()));
}

#[test]
fn the_core_rejects_zero_capacity() {
    assert!(matches!(LfuInner::new(0), Err(LfuError::InvalidCapacity)));
}

#[test]
fn distinct_keys_do_not_share_frequency() {
    // were bumps applied to the wrong slot, "b" would outweigh "c"
    let mut t = tracker(3);
    t.refer("a".to_string());
    t.refer("b".to_string());
    t.refer("c".to_string());
    t.refer("c".to_string());
    t.refer("a".to_string());
    // frequencies: a = 2, b = 1, c = 2
    assert_eq!(t.refer("d".to_string()), Some("b".to_string()));
}
