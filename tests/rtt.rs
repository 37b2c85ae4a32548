use adnl_rldp::rtt::{calc_timeout, is_timed_out, stalled_roundtrip, update_roundtrip, MAX_TIMEOUT, MIN_TIMEOUT};

#[test]
fn rtt_update_scenario() {
    let mut r: u64 = 0;
    assert_eq!(update_roundtrip(&mut r, 200), 500);
    assert_eq!(r, 200);
    assert_eq!(update_roundtrip(&mut r, 400), 500);
    assert_eq!(r, 400);
    assert_eq!(update_roundtrip(&mut r, 2000), 1400);
    assert_eq!(r, 1400);
}

#[test]
fn rtt_timeout_floor_and_default() {
    assert_eq!(calc_timeout(None), MAX_TIMEOUT);
    assert_eq!(calc_timeout(Some(0)), MIN_TIMEOUT);
    assert_eq!(calc_timeout(Some(499)), 500);
    assert_eq!(calc_timeout(Some(501)), 501);
    assert_eq!(calc_timeout(Some(20000)), 20000);
    for r in [0u64, 1, 250, 500, 777, u64::MAX] {
        assert!(calc_timeout(Some(r)) >= MIN_TIMEOUT);
    }
}

#[test]
fn rtt_first_then_half() {
    let mut r: u64 = 0;
    update_roundtrip(&mut r, 300);
    update_roundtrip(&mut r, 101);
    assert_eq!(r, 300 + 50);
}

#[test]
fn timeout_scaling() {
    assert!(!is_timed_out(1000, 1000, 0));
    assert!(is_timed_out(1001, 1000, 0));
    assert!(!is_timed_out(1500, 1000, 50));
    assert!(is_timed_out(1501, 1000, 50));
    assert!(!is_timed_out(3000, 1000, 200));
    assert!(is_timed_out(u64::MAX, u64::MAX - 1, 0));
    assert!(!is_timed_out(u64::MAX, u64::MAX, u32::MAX));
    for u in 0..300u32 {
        if is_timed_out(1700, 1000, u + 1) {
            assert!(is_timed_out(1700, 1000, u));
        }
    }
}

#[test]
fn stalled_roundtrip_doubles_with_cap() {
    assert_eq!(stalled_roundtrip(0), 0);
    assert_eq!(stalled_roundtrip(1200), 2400);
    assert_eq!(stalled_roundtrip(5000), 10000);
    assert_eq!(stalled_roundtrip(5001), MAX_TIMEOUT);
    assert_eq!(stalled_roundtrip(u64::MAX), MAX_TIMEOUT);
}
