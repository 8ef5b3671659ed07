use nft_gate_gateway::ratelimit::RateLimiter;

#[test]
fn allows_up_to_limit_then_denies() {
    let mut rl = RateLimiter::new(3);
    assert!(rl.check("a"));
    assert!(rl.check("a"));
    assert!(rl.check("a"));
    assert!(!rl.check("a")); // 4th within the window
    assert!(rl.check("b")); // independent key
}

#[test]
fn zero_disables() {
    let mut rl = RateLimiter::new(0);
    for _ in 0..100 {
        assert!(rl.check("x"));
    }
}

#[test]
fn window_restarts_after_sixty_seconds() {
    let mut rl = RateLimiter::new(2);
    assert!(rl.check_at("k", 0));
    assert!(rl.check_at("k", 10));
    assert!(!rl.check_at("k", 59_999_999_999));
    assert!(rl.check_at("k", 60_000_000_000)); // a whole window has passed
    assert!(rl.check_at("k", 60_000_000_001));
    assert!(!rl.check_at("k", 60_000_000_002));
}

#[test]
fn earlier_reading_counts_as_same_window() {
    let mut rl = RateLimiter::new(1);
    assert!(rl.check_at("k", 100));
    assert!(!rl.check_at("k", 50));
}
