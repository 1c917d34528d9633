use pool_core::rate_limit::RateLimiter;

#[test]
fn admits_up_to_the_cap_within_a_window() {
    let mut limiter = RateLimiter::new(60, 5);
    let key = String::from("miner_pkh");
    assert!(limiter.check(&key, 0, 3));
    assert!(limiter.check(&key, 10, 2)); // 5 in the window: still allowed
    assert!(!limiter.check(&key, 20, 1)); // 6 in the window: refused
}

#[test]
fn window_expiry_starts_fresh() {
    let mut limiter = RateLimiter::new(60, 5);
    let key = String::from("miner_pkh");
    assert!(limiter.check(&key, 0, 5));
    assert!(!limiter.check(&key, 30, 1));
    assert!(limiter.check(&key, 60, 4)); // a full window later: fresh count
    assert!(limiter.check(&key, 61, 1));
    assert!(!limiter.check(&key, 62, 1));
}

#[test]
fn keys_are_limited_independently() {
    let mut limiter = RateLimiter::new(60, 2);
    let a = String::from("a");
    let b = String::from("b");
    assert!(limiter.check(&a, 0, 2));
    assert!(!limiter.check(&a, 1, 1));
    assert!(limiter.check(&b, 2, 2));
}

#[test]
fn first_request_of_a_window_is_admitted() {
    // The first request is admitted even when it alone exceeds the cap;
    // only accumulation within a window refuses.
    let mut limiter = RateLimiter::new(60, 5);
    let key = String::from("bulk");
    assert!(limiter.check(&key, 0, 100));
    assert!(!limiter.check(&key, 1, 1));
}
