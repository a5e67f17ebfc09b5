use seedchamp_engine::rate_limit::{TokenBucket, WireRateLimiter, MAX_DELAY_NANOS, PER_BYTE};

/// Nanoseconds in a millisecond.
const MS: u64 = 1_000_000;

/// Nanoseconds in a second.
const S: u64 = 1000 * MS;

#[test]
fn unlimited_allow_is_identity() {
    let mut lim = WireRateLimiter::new(0, 0, 0);
    assert_eq!(lim.allow_upload(1_000_000, 0), 1_000_000);
    lim.commit_upload(1_000_000);
    assert_eq!(lim.try_consume_download(999, 0), 999);
    assert!(lim.allow_download(1, 0));
}

#[test]
fn upload_bucket_caps_and_refills() {
    let mut lim = WireRateLimiter::new(1000, 0, 0);
    let a = lim.allow_upload(10_000, 0);
    assert!((1000..=1500).contains(&a), "burst grant {a}");
    assert_eq!(a, 1500);
    lim.commit_upload(a);
    assert_eq!(lim.allow_upload(10_000, 0), 0);
    let b = lim.allow_upload(10_000, 200 * MS);
    assert!(b > 0, "should refill after sleep, got {b}");
    assert_eq!(b, 200);
    // It never holds more than a burst.
    assert_eq!(lim.allow_upload(10_000, 3600 * S), 1500);
}

#[test]
fn download_try_consume_deducts() {
    let mut lim = WireRateLimiter::new(0, 16_384, 0);
    let g = lim.try_consume_download(16_384, 0);
    assert_eq!(g, 16_384);
    let g2 = lim.try_consume_download(100_000, 0);
    assert!(g2 < 100_000);
    assert_eq!(g2, 8192);
}

#[test]
fn set_caps_to_zero_disables() {
    let mut lim = WireRateLimiter::new(100, 100, 0);
    assert!(!lim.upload_unlimited());
    lim.set_caps(0, 0, S);
    assert!(lim.upload_unlimited());
    assert!(lim.download_unlimited());
    assert_eq!(lim.allow_upload(9_999, S), 9_999);
}

#[test]
fn download_delay_zero_when_available() {
    let mut lim = WireRateLimiter::new(0, 100_000, 0);
    assert_eq!(lim.download_delay_for(16_384, 0), 0);
    assert_eq!(lim.download_delay_for(0, 0), 0);
    let mut unlimited = WireRateLimiter::new(0, 0, 0);
    assert_eq!(unlimited.download_delay_for(1_000_000, 0), 0);
}

#[test]
fn download_delay_positive_when_bucket_empty() {
    let mut lim = WireRateLimiter::new(0, 10_000, 0);
    let _ = lim.try_consume_download(20_000, 0);
    let d = lim.download_delay_for(16_384, 0);
    assert!(d > 0, "expected wait, got {d:?}");
    assert!(d <= S);
}

#[test]
fn upload_delay_matches_deficit() {
    let mut lim = WireRateLimiter::new(16_384, 0, 0);
    let _ = lim.try_consume_upload(100_000, 0);
    let d = lim.upload_delay_for(16_384, 0);
    assert!(d >= 50 * MS, "got {d:?}");
    assert!(d <= S, "got {d:?}");
    // An empty bucket takes a second for a second's worth, and half as long for half of it.
    assert_eq!(d, S);
    assert_eq!(lim.upload_delay_for(8192, 0), S / 2);
    assert_eq!(lim.upload_delay_for(1, 0), MS);
    assert_eq!(lim.upload_delay_for(1 << 40, 0), MAX_DELAY_NANOS);
}

#[test]
fn tokens_are_given_back() {
    let mut lim = WireRateLimiter::new(1000, 1000, 0);
    assert_eq!(lim.try_consume_upload(1500, 0), 1500);
    lim.refund_upload(400);
    assert_eq!(lim.allow_upload(9999, 0), 400);
    lim.refund_upload(0);
    assert_eq!(lim.allow_upload(9999, 0), 400);
    // No more than a burst is kept, but for what is given back at once.
    lim.refund_upload(1400);
    assert_eq!(lim.allow_upload(9999, 0), 1500);
    lim.refund_upload(2000);
    assert_eq!(lim.allow_upload(9999, 0), 2000);
    assert_eq!(lim.allow_upload(9999, 1), 1500);
    assert_eq!(lim.try_consume_download(600, 0), 600);
    lim.refund_download(100);
    assert!(lim.allow_download(1000, 0));
    assert!(!lim.allow_download(1001, 0));
}

#[test]
fn grants_stay_within_the_limit() {
    let mut b = TokenBucket::unlimited(0);
    b.reconfigure(1000, 0);
    let mut total = 0;
    for i in 0..100u64 {
        total += b.try_consume(37, i * 10 * MS);
    }
    // A burst of 1500, and 990 in the 990 milliseconds that passed.
    assert!(total <= 2490);
    assert_eq!(total, 2490);
    assert!(b.tokens < u128::from(PER_BYTE) * 37);
}

#[test]
fn tokens_are_there_after_the_wait() {
    let mut b = TokenBucket::unlimited(0);
    b.reconfigure(7, 0);
    assert_eq!(b.try_consume(10, 0), 10);
    // Half a token is left; a third of a second is no whole number of nanoseconds.
    let wait = b.delay_for(3, 0);
    assert_eq!(wait, 357_142_858);
    assert_eq!(b.available(wait - 1), 2);
    assert_eq!(b.available(wait), 3);
}
