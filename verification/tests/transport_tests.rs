use bandcamp_dl::middlewares::{
    classify_response, parse_retry_after, Rate, RateLimitMiddleware, ResponseAction,
    RetryMiddleware,
};

#[test]
fn rate_new_keeps_its_parts() {
    let rate = Rate::new(10, 10_000);
    assert_eq!(rate.num, 10);
    assert_eq!(rate.per_millis, 10_000);
}

#[test]
fn bucket_of_capacity_two_suspends_the_third_caller() {
    let mut limiter = RateLimitMiddleware::new(2, 10);
    assert_eq!(limiter.acquire(100), None);
    assert_eq!(limiter.acquire(101), None);
    // the third request inside the window must wait out the remainder
    assert_eq!(limiter.acquire(102), Some(8));
}

#[test]
fn bucket_refills_at_window_rollover() {
    let mut limiter = RateLimitMiddleware::new(1, 10);
    assert_eq!(limiter.acquire(0), None);
    assert_eq!(limiter.acquire(5), Some(5));
    assert_eq!(limiter.acquire(10), None);
}

#[test]
fn retry_middleware_starts_idle() {
    let retry = RetryMiddleware::new(5);
    assert_eq!(retry.max_retries, 5);
    assert!(!retry.is_waiting);
}

#[test]
fn only_too_many_requests_is_retried() {
    assert_eq!(classify_response(200, None), ResponseAction::Accept);
    assert_eq!(classify_response(500, Some(3)), ResponseAction::Accept);
    assert_eq!(
        classify_response(429, Some(3)),
        ResponseAction::RetryAfterDelay(3)
    );
    assert_eq!(classify_response(429, None), ResponseAction::RetryImmediately);
}

#[test]
fn retry_after_values_parse_as_seconds() {
    assert_eq!(parse_retry_after(None), None);
    assert_eq!(parse_retry_after(Some("5")), Some(5));
    assert_eq!(parse_retry_after(Some("+5")), Some(5));
    assert_eq!(parse_retry_after(Some("0")), Some(0));
    assert_eq!(parse_retry_after(Some("")), None);
    assert_eq!(parse_retry_after(Some("-1")), None);
    assert_eq!(parse_retry_after(Some("soon")), None);
    assert_eq!(parse_retry_after(Some("5s")), None);
}
