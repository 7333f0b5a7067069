//! Tests of memory accounting: reservations against the limit,
//! pressure levels, and the grant lifecycle.

use grafeo::buffer::{
    advance_grant, BufferManager, GrantEvent, GrantState, PressureLevel,
};

#[test]
fn reserve_and_release_round_trip() {
    let mut bm = BufferManager::new(1000);
    assert_eq!(bm.stats().available, 1000);

    let g1 = bm.reserve(600).expect("fits");
    assert_eq!(g1.bytes, 600);
    assert_eq!(bm.stats().reserved, 600);
    assert_eq!(bm.stats().available, 400);

    // Over the limit: refused, nothing changes.
    assert!(bm.reserve(401).is_none());
    assert_eq!(bm.stats().reserved, 600);

    let g2 = bm.reserve(400).expect("exactly fits");
    assert_eq!(bm.stats().available, 0);

    bm.release(g1);
    bm.release(g2);
    assert_eq!(bm.stats().reserved, 0);
    assert_eq!(bm.stats().available, 1000);
}

#[test]
fn pressure_levels_follow_the_thresholds() {
    let mut bm = BufferManager::new(800);
    assert_eq!(bm.pressure(), PressureLevel::Normal);

    let g = bm.reserve(600).expect("fits"); // exactly three quarters
    assert_eq!(bm.pressure(), PressureLevel::Soft);
    bm.release(g);

    let g = bm.reserve(700).expect("fits"); // at seven eighths
    assert_eq!(bm.pressure(), PressureLevel::Hard);
    bm.release(g);

    let g = bm.reserve(800).expect("fits"); // the whole limit
    assert_eq!(bm.pressure(), PressureLevel::Critical);
    bm.release(g);
    assert_eq!(bm.pressure(), PressureLevel::Normal);
}

#[test]
fn grant_lifecycle_happy_and_spill_paths() {
    // Requested -> Granted -> Revoking -> Released
    let s = GrantState::Requested;
    let s = advance_grant(s, GrantEvent::Approve).expect("approved");
    assert_eq!(s, GrantState::Granted);
    let s = advance_grant(s, GrantEvent::Revoke).expect("revoking");
    assert_eq!(s, GrantState::Revoking);
    let s = advance_grant(s, GrantEvent::Release).expect("released");
    assert_eq!(s, GrantState::Released);

    // Requested -> Denied -> Spilled -> Released
    let s = GrantState::Requested;
    let s = advance_grant(s, GrantEvent::Deny).expect("denied");
    assert_eq!(s, GrantState::Denied);
    let s = advance_grant(s, GrantEvent::Spill).expect("spilled");
    assert_eq!(s, GrantState::Spilled);
    let s = advance_grant(s, GrantEvent::Release).expect("released");
    assert_eq!(s, GrantState::Released);

    // A released grant accepts nothing further.
    assert!(advance_grant(GrantState::Released, GrantEvent::Approve).is_none());
    assert!(advance_grant(GrantState::Released, GrantEvent::Release).is_none());
    // Out-of-order events are refused.
    assert!(advance_grant(GrantState::Requested, GrantEvent::Release).is_none());
    assert!(advance_grant(GrantState::Denied, GrantEvent::Approve).is_none());
}
