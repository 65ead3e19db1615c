use wasmnet::rate_limit::RateLimiter;

#[test]
fn unlimited_does_not_block() {
    let mut rl = RateLimiter::unlimited();
    assert_eq!(rl.consume(0, 1_000_000), 0);
}

#[test]
fn small_transfer_within_budget() {
    let mut rl = RateLimiter::new(10);
    let wait = rl.consume(0, 1024);
    assert!(wait / 1_000_000 < 50);
}

#[test]
fn over_budget_throttles() {
    let mut rl = RateLimiter::new(1);
    rl.consume(0, 125_000);
    let wait = rl.consume(0, 125_000);
    assert!(wait / 1_000_000 >= 500);
}

#[test]
fn a_limit_of_zero_is_unlimited() {
    let mut rl = RateLimiter::new(0);
    assert_eq!(rl.consume(0, usize::MAX), 0);
}

#[test]
fn the_wait_is_the_time_to_refill_the_deficit() {
    // 1 Mbps: 125 000 bytes per second, bucket of 125 000 bytes.
    let mut rl = RateLimiter::new(1);
    assert_eq!(rl.consume(0, 125_000), 0);
    // 125 bytes short: 1 ms at 125 000 bytes per second.
    assert_eq!(rl.consume(0, 125), 1_000_000);
    // Half a second later the bucket refilled from the deficit.
    assert_eq!(rl.consume(501_000_000, 62_500), 0);
}

#[test]
fn what_passes_unthrottled_is_bounded_by_the_refill() {
    // 1 Mbps: a full bucket of 125 000 bytes, refilled at 125 000 bytes per second.
    let mut rl = RateLimiter::new(1);
    assert_eq!(rl.consume(0, 125_000), 0);
    assert_eq!(rl.consume(500_000_000, 62_500), 0);
    // Everything the half second refilled has been used: one more byte waits.
    assert_eq!(rl.consume(500_000_000, 1), 8_000);
}

#[test]
fn a_deficit_stays_owed_after_the_wait() {
    // 1 Mbps: 125 000 bytes per second, bucket of 125 000 bytes.
    let mut rl = RateLimiter::new(1);
    assert_eq!(rl.consume(0, 125_000), 0);
    // The second second's worth has to wait the whole second...
    assert_eq!(rl.consume(0, 125_000), 1_000_000_000);
    // ...and that second's refill paid for it, so a third waits again.
    assert_eq!(rl.consume(1_000_000_000, 125_000), 1_000_000_000);
}

#[test]
fn debt_is_recorded_down_to_the_floor() {
    // 1 Mbps: 125 000 bytes per second. Taking far more than the bucket at one
    // instant leaves a debt the refill pays back at the rate.
    let mut rl = RateLimiter::new(1);
    assert_eq!(rl.consume(0, 125_000), 0);
    assert_eq!(rl.consume(0, 1_250_000), 10_000_000_000);
    assert_eq!(rl.consume(0, 125_000), 11_000_000_000);
}
