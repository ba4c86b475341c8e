use order_api::rate_limiter::RateLimiter;

#[test]
fn allows_exactly_up_to_limit() {
    let mut rl = RateLimiter::new(3, 60);
    assert!(rl.is_allowed("192.168.1.1"));
    assert!(rl.is_allowed("192.168.1.1"));
    assert!(rl.is_allowed("192.168.1.1"));
    assert!(!rl.is_allowed("192.168.1.1"));
}

#[test]
fn different_ips_are_tracked_independently() {
    let mut rl = RateLimiter::new(1, 60);
    assert!(rl.is_allowed("10.0.0.1"));
    assert!(!rl.is_allowed("10.0.0.1"));
    assert!(rl.is_allowed("10.0.0.2"));
}

#[test]
fn remaining_decrements_correctly() {
    let mut rl = RateLimiter::new(5, 60);
    assert_eq!(rl.remaining("10.0.0.3"), 5);
    rl.is_allowed("10.0.0.3");
    assert_eq!(rl.remaining("10.0.0.3"), 4);
    rl.is_allowed("10.0.0.3");
    assert_eq!(rl.remaining("10.0.0.3"), 3);
}

#[test]
fn new_limiter_reports_its_settings() {
    let rl = RateLimiter::new(5, 10);
    assert_eq!(rl.limit(), 5);
    assert_eq!(rl.window(), 10);
}

#[test]
fn grants_at_a_fixed_time_stop_at_the_limit() {
    let mut rl = RateLimiter::new(2, 1);
    let t: u128 = 5_000_000_000;
    assert!(rl.is_allowed_at("k", t));
    assert!(rl.is_allowed_at("k", t + 10));
    assert!(!rl.is_allowed_at("k", t + 20));
    assert!(!rl.is_allowed_at("k", t + 999_999_999));
}

#[test]
fn window_resets_once_aged_out() {
    let mut rl = RateLimiter::new(2, 1);
    assert!(rl.is_allowed_at("k", 0));
    assert!(rl.is_allowed_at("k", 100));
    assert!(!rl.is_allowed_at("k", 200));
    assert_eq!(rl.remaining_at("k", 999_999_999), 0);
    // the first timestamp has aged out exactly one window after it
    assert_eq!(rl.remaining_at("k", 1_000_000_000), 1);
    assert!(rl.is_allowed_at("k", 1_000_000_100));
    assert!(rl.is_allowed_at("k", 1_000_000_100));
    assert!(!rl.is_allowed_at("k", 1_000_000_100));
    assert_eq!(rl.remaining_at("k", 5_000_000_000), 2);
}

#[test]
fn refused_requests_are_not_recorded() {
    let mut rl = RateLimiter::new(1, 1);
    assert!(rl.is_allowed_at("k", 0));
    assert!(!rl.is_allowed_at("k", 500_000_000));
    // the refused request at 0.5 s does not keep the window busy
    assert!(rl.is_allowed_at("k", 1_000_000_000));
}

#[test]
fn zero_limit_refuses_everything() {
    let mut rl = RateLimiter::new(0, 60);
    assert!(!rl.is_allowed("a"));
    assert_eq!(rl.remaining("a"), 0);
}

#[test]
fn zero_window_never_fills() {
    let mut rl = RateLimiter::new(1, 0);
    assert!(rl.is_allowed_at("k", 7));
    assert!(rl.is_allowed_at("k", 7));
    assert_eq!(rl.remaining_at("k", 7), 1);
}

#[test]
fn remaining_does_not_count_as_a_request() {
    let mut rl = RateLimiter::new(2, 60);
    assert_eq!(rl.remaining("x"), 2);
    assert_eq!(rl.remaining("x"), 2);
    assert!(rl.is_allowed("x"));
    assert!(rl.is_allowed("x"));
    assert!(!rl.is_allowed("x"));
    assert_eq!(rl.remaining("x"), 0);
}

#[test]
fn later_timestamp_counts_as_fresh() {
    // a timestamp later than `now` has aged by zero
    let mut rl = RateLimiter::new(1, 1);
    assert!(rl.is_allowed_at("k", 2_000_000_000));
    assert!(!rl.is_allowed_at("k", 0));
}

#[test]
fn grants_follow_the_recent_grant_count() {
    let ms: u128 = 1_000_000;
    let mut rl = RateLimiter::new(2, 1);
    let readings = [0, 300, 600, 1000, 1200, 1310, 1500, 2400];
    let expected = [true, true, false, true, false, true, false, true];
    let mut grants: Vec<u128> = Vec::new();
    for (i, r) in readings.iter().enumerate() {
        let now = r * ms;
        let recent = grants.iter().filter(|t| now - **t < 1000 * ms).count();
        assert_eq!(recent < 2, expected[i]);
        let allowed = rl.is_allowed_at("k", now);
        assert_eq!(allowed, expected[i]);
        if allowed {
            grants.push(now);
        }
        let left = rl.remaining_at("k", now);
        let recent_after = grants.iter().filter(|t| now - **t < 1000 * ms).count();
        assert_eq!(left, 2usize.saturating_sub(recent_after));
    }
    // no interval one window long holds more than two grants
    for start in 0..3000u128 {
        let from = start * ms;
        let n = grants.iter().filter(|t| from <= **t && **t < from + 1000 * ms).count();
        assert!(n <= 2);
    }
}
