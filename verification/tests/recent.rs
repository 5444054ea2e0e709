use sovright_p2p_ingress::recent::RecentForwardedHashes;

const SECOND: u128 = 1_000_000_000;
const T0: u128 = 5_000 * SECOND;

#[test]
fn recent_forwarded_initially_empty() {
    let mut r = RecentForwardedHashes::new(4, 30 * SECOND);
    assert!(!r.contains(&[1u8; 32], T0));
}

#[test]
fn recent_forwarded_records_and_finds() {
    let mut r = RecentForwardedHashes::new(4, 30 * SECOND);
    r.record([7u8; 32], T0);
    assert!(r.contains(&[7u8; 32], T0));
    assert!(!r.contains(&[1u8; 32], T0));
}

#[test]
fn recent_forwarded_evicts_expired() {
    let mut r = RecentForwardedHashes::new(4, 30 * SECOND);
    r.record([7u8; 32], T0);
    assert!(!r.contains(&[7u8; 32], T0 + 31 * SECOND));
}

#[test]
fn recent_forwarded_capacity_evicts_oldest() {
    let mut r = RecentForwardedHashes::new(2, 30 * SECOND);
    r.record([1u8; 32], T0);
    r.record([2u8; 32], T0);
    r.record([3u8; 32], T0);
    // Oldest entry [1; 32] should be evicted.
    assert!(!r.contains(&[1u8; 32], T0));
    assert!(r.contains(&[2u8; 32], T0));
    assert!(r.contains(&[3u8; 32], T0));
}

#[test]
fn recent_forwarded_zero_capacity_is_no_op() {
    let mut r = RecentForwardedHashes::new(0, 30 * SECOND);
    r.record([7u8; 32], T0);
    // Zero-capacity ring never retains, never reports a hit.
    assert!(!r.contains(&[7u8; 32], T0));
}

#[test]
fn an_entry_counts_up_to_the_end_of_the_window() {
    let mut r = RecentForwardedHashes::new(4, 30 * SECOND);
    r.record([7u8; 32], T0);
    assert!(r.contains(&[7u8; 32], T0 + 30 * SECOND));
    assert!(!r.contains(&[7u8; 32], T0 + 30 * SECOND + 1));
}

#[test]
fn an_entry_from_the_future_has_no_age() {
    let mut r = RecentForwardedHashes::new(4, 0);
    r.record([7u8; 32], T0);
    assert!(r.contains(&[7u8; 32], T0 - SECOND));
    assert!(r.contains(&[7u8; 32], T0));
    assert!(!r.contains(&[7u8; 32], T0 + 1));
}

#[test]
fn expired_entries_make_room() {
    let mut r = RecentForwardedHashes::new(2, 30 * SECOND);
    r.record([1u8; 32], T0);
    r.record([2u8; 32], T0 + 20 * SECOND);
    r.record([3u8; 32], T0 + 31 * SECOND);
    assert!(!r.contains(&[1u8; 32], T0 + 31 * SECOND));
    assert!(r.contains(&[2u8; 32], T0 + 31 * SECOND));
    assert!(r.contains(&[3u8; 32], T0 + 31 * SECOND));
}

#[test]
fn an_entry_outlasts_fewer_others_than_the_capacity() {
    let mut r = RecentForwardedHashes::new(3, 30 * SECOND);
    r.record([1u8; 32], T0);
    r.record([2u8; 32], T0 + SECOND);
    r.record([3u8; 32], T0 + 2 * SECOND);
    assert!(r.contains(&[1u8; 32], T0 + 30 * SECOND));
    r.record([4u8; 32], T0 + 30 * SECOND);
    assert!(!r.contains(&[1u8; 32], T0 + 30 * SECOND));
}

#[test]
fn evicting_again_changes_nothing() {
    let mut r = RecentForwardedHashes::new(3, 30 * SECOND);
    r.record([1u8; 32], T0);
    r.record([2u8; 32], T0 + 10 * SECOND);
    for _ in 0..2 {
        assert!(!r.contains(&[1u8; 32], T0 + 35 * SECOND));
        assert!(r.contains(&[2u8; 32], T0 + 35 * SECOND));
    }
}

#[test]
fn evicting_forgets_exactly_what_is_older_than_the_window() {
    let mut r = RecentForwardedHashes::new(4, 30 * SECOND);
    r.record([1u8; 32], T0);
    r.record([2u8; 32], T0 + SECOND);
    r.record([3u8; 32], T0 + 20 * SECOND);
    r.evict_expired(T0);
    assert!(r.contains(&[1u8; 32], T0));
    r.evict_expired(T0 + 31 * SECOND);
    // What was forgotten stays so, even for a clock that goes back.
    assert!(!r.contains(&[1u8; 32], T0));
    assert!(r.contains(&[2u8; 32], T0));
    assert!(r.contains(&[3u8; 32], T0 + 31 * SECOND));
}

#[test]
fn recording_one_block_does_not_bring_back_another() {
    let mut r = RecentForwardedHashes::new(2, 30 * SECOND);
    r.record([1u8; 32], T0);
    assert!(!r.contains(&[1u8; 32], T0 + 31 * SECOND));
    r.record([2u8; 32], T0 + 31 * SECOND);
    assert!(!r.contains(&[1u8; 32], T0 + 31 * SECOND));
    assert!(!r.contains(&[3u8; 32], T0 + 31 * SECOND));
}
