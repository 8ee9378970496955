use merkle_distributor::state::ClaimStatus;
use merkle_distributor::vesting::compute_withdrawable;

#[test]
fn vesting_before_during_and_after() {
    assert_eq!(compute_withdrawable(99, 100, 200, 1000, 0), 0);
    assert_eq!(compute_withdrawable(100, 100, 200, 1000, 0), 0);
    assert_eq!(compute_withdrawable(150, 100, 200, 1000, 0), 500);
    assert_eq!(compute_withdrawable(133, 100, 200, 1000, 0), 330);
    assert_eq!(compute_withdrawable(200, 100, 200, 1000, 0), 1000);
    assert_eq!(compute_withdrawable(10_000, 100, 200, 1000, 400), 600);
}

#[test]
fn vesting_floors_and_clamps() {
    assert_eq!(compute_withdrawable(101, 100, 103, 10, 0), 3);
    assert_eq!(compute_withdrawable(150, 100, 200, 1000, 700), 0);
}

#[test]
fn vesting_is_monotonic_and_bounded() {
    let mut last = 0;
    for now in 0..300 {
        let w = compute_withdrawable(now, 100, 200, 777, 111);
        assert!(w >= last);
        assert!(w <= 777 - 111);
        last = w;
    }
    assert_eq!(last, 777 - 111);
}

#[test]
fn vesting_extreme_values() {
    assert_eq!(compute_withdrawable(i64::MAX - 1, i64::MIN, i64::MAX, u64::MAX, 0), u64::MAX - 1);
    assert_eq!(compute_withdrawable(0, i64::MIN, i64::MAX, u64::MAX, 0), 1u64 << 63);
}

#[test]
fn claim_status_withdrawable() {
    let s = ClaimStatus { claimant: [1; 32], locked_amount: 500, locked_amount_withdrawn: 100, unlocked_amount: 1000 };
    assert_eq!(s.amount_withdrawable(2_000, 1_000, 2_000), 400);
    assert_eq!(s.amount_withdrawable(1_500, 1_000, 2_000), 150);
}
