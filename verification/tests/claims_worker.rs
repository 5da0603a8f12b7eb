//! The claim protocol and the worker's completion path: at most one claim
//! per identity, release on every exit path, and the startup sweep.

use livecap::assembler::{AssembleError, AssemblePlan};
use livecap::claims::ClaimStore;
use livecap::worker::finish_capture;

#[test]
fn claim_is_exclusive_per_identity() {
    let mut store = ClaimStore::new();
    assert!(store.try_claim("alice"));
    // a second concurrent worker loses the race for the same identity
    assert!(!store.try_claim("alice"));
    assert!(store.try_claim("bob"));
    assert!(store.is_claimed("alice"));
    assert!(store.is_claimed("bob"));
    assert_eq!(store.active_count(), 2);
}

#[test]
fn many_attempts_leave_one_claim() {
    let mut store = ClaimStore::new();
    let mut wins: u32 = 0;
    for _ in 0..10 {
        if store.try_claim("carol") {
            wins += 1;
        }
    }
    assert_eq!(wins, 1);
    assert_eq!(store.active_count(), 1);
}

#[test]
fn release_frees_only_that_identity() {
    let mut store = ClaimStore::new();
    assert!(store.try_claim("alice"));
    assert!(store.try_claim("bob"));
    store.release("alice");
    assert!(!store.is_claimed("alice"));
    assert!(store.is_claimed("bob"));
    // releasing an unclaimed identity is harmless
    store.release("alice");
    assert!(store.is_claimed("bob"));
    assert_eq!(store.active_count(), 1);
}

#[test]
fn sweep_clears_every_marker() {
    let mut store = ClaimStore::new();
    for id in ["a", "b", "c", "d"] {
        assert!(store.try_claim(id));
    }
    store.sweep();
    assert_eq!(store.active_count(), 0);
    for id in ["a", "b", "c", "d"] {
        assert!(!store.is_claimed(id));
    }
    // and again with nothing to clear
    store.sweep();
    assert_eq!(store.active_count(), 0);
}

#[test]
fn finish_releases_on_success() {
    let mut store = ClaimStore::new();
    assert!(store.try_claim("alice"));
    let plan = AssemblePlan::CopySingle { source: "alice_1_t.mp4".to_string() };
    let r = finish_capture(&mut store, "alice", true, &plan, true);
    assert!(r.is_ok());
    assert!(!store.is_claimed("alice"));
}

#[test]
fn finish_releases_on_recorder_failure() {
    let mut store = ClaimStore::new();
    assert!(store.try_claim("alice"));
    let plan = AssemblePlan::NoSegments;
    let r = finish_capture(&mut store, "alice", false, &plan, false);
    assert!(matches!(r, Err(AssembleError::NoSegmentsFound)));
    assert!(!store.is_claimed("alice"));
}

#[test]
fn finish_releases_on_assembly_failure() {
    let mut store = ClaimStore::new();
    assert!(store.try_claim("alice"));
    assert!(store.try_claim("bob"));
    let plan = AssemblePlan::Concat { manifest: "file 'x'\n".to_string() };
    let r = finish_capture(&mut store, "alice", true, &plan, false);
    assert!(matches!(r, Err(AssembleError::ConcatenationFailed)));
    assert!(!store.is_claimed("alice"));
    // the other worker's claim is untouched
    assert!(store.is_claimed("bob"));
}
