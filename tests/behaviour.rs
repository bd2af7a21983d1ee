use core::cmp::Ordering;
use rate_limit::{Error, KeyFilter, Origin, RateLimit, RateLimitRule, RateLimiterError};

fn key(b: u8) -> Vec<u8> {
    vec![b; 8]
}

#[test]
fn reset_whitelist_counts_distinct_filters() {
    let mut rl = RateLimit::new(3);
    let filters = vec![
        KeyFilter::StartsWith(vec![0; 32]),
        KeyFilter::StartsWith(vec![3; 32]),
        KeyFilter::StartsWith(vec![2; 32]),
        KeyFilter::StartsWith(vec![3; 32]),
    ];
    assert_eq!(rl.reset_whitelist(&Origin::Root, 0, filters), Ok(()));
    assert_eq!(
        rl.bypass_limit_whitelist(0),
        vec![
            KeyFilter::StartsWith(vec![0; 32]),
            KeyFilter::StartsWith(vec![2; 32]),
            KeyFilter::StartsWith(vec![3; 32])
        ]
    );
}

#[test]
fn reset_whitelist_over_capacity_leaves_whitelist() {
    let mut rl = RateLimit::new(2);
    assert_eq!(rl.reset_whitelist(&Origin::Root, 4, vec![KeyFilter::Match(key(9))]), Ok(()));
    let filters = vec![KeyFilter::Match(key(1)), KeyFilter::Match(key(2)), KeyFilter::Match(key(3))];
    assert_eq!(rl.reset_whitelist(&Origin::Root, 4, filters), Err(Error::MaxFilterExceeded));
    assert_eq!(rl.bypass_limit_whitelist(4), vec![KeyFilter::Match(key(9))]);
    assert_eq!(rl.events().len(), 1);
}

#[test]
fn filter_order_across_variants() {
    let m = KeyFilter::Match(vec![9]);
    let s = KeyFilter::StartsWith(vec![0]);
    let e = KeyFilter::EndsWith(vec![]);
    assert_eq!(m.compare(&s), Ordering::Less);
    assert_eq!(m.compare(&e), Ordering::Less);
    assert_eq!(s.compare(&e), Ordering::Less);
    assert_eq!(s.compare(&m), Ordering::Greater);
    assert_eq!(e.compare(&m), Ordering::Greater);
    assert_eq!(e.compare(&s), Ordering::Greater);
    assert_eq!(m.compare(&KeyFilter::Match(vec![9])), Ordering::Equal);

    let mut rl = RateLimit::new(3);
    assert_eq!(rl.reset_whitelist(&Origin::Root, 0, vec![e.clone(), s.clone(), m.clone()]), Ok(()));
    assert_eq!(rl.bypass_limit_whitelist(0), vec![m, s, e]);
}

#[test]
fn filter_order_within_variant_is_lexicographic() {
    let short = KeyFilter::Match(vec![1, 2]);
    let long = KeyFilter::Match(vec![1, 2, 0]);
    let high = KeyFilter::Match(vec![1, 3]);
    assert_eq!(short.compare(&long), Ordering::Less);
    assert_eq!(long.compare(&high), Ordering::Less);
    assert_eq!(high.compare(&short), Ordering::Greater);

    let mut rl = RateLimit::new(3);
    assert_eq!(rl.add_whitelist(&Origin::Root, 0, high.clone()), Ok(()));
    assert_eq!(rl.add_whitelist(&Origin::Root, 0, short.clone()), Ok(()));
    assert_eq!(rl.add_whitelist(&Origin::Root, 0, long.clone()), Ok(()));
    assert_eq!(rl.bypass_limit_whitelist(0), vec![short, long, high]);
}

#[test]
fn filters_match_bytes() {
    let k = vec![1, 2, 3, 4];
    assert!(KeyFilter::Match(vec![1, 2, 3, 4]).matches(&k));
    assert!(!KeyFilter::Match(vec![1, 2, 3]).matches(&k));
    assert!(KeyFilter::StartsWith(vec![1, 2]).matches(&k));
    assert!(KeyFilter::StartsWith(vec![]).matches(&k));
    assert!(!KeyFilter::StartsWith(vec![2]).matches(&k));
    assert!(!KeyFilter::StartsWith(vec![1, 2, 3, 4, 5]).matches(&k));
    assert!(KeyFilter::EndsWith(vec![3, 4]).matches(&k));
    assert!(!KeyFilter::EndsWith(vec![3]).matches(&k));
    assert!(!KeyFilter::EndsWith(vec![0, 1, 2, 3, 4]).matches(&k));
}

#[test]
fn whitelists_are_per_limiter() {
    let mut rl = RateLimit::new(3);
    assert_eq!(rl.add_whitelist(&Origin::Root, 1, KeyFilter::EndsWith(vec![7])), Ok(()));
    assert!(rl.bypass_limit(1, &vec![0, 7]));
    assert!(!rl.bypass_limit(0, &vec![0, 7]));
    assert!(!rl.bypass_limit(1, &vec![7, 0]));
    assert_eq!(rl.bypass_limit_whitelist(0), vec![]);
}

#[test]
fn remove_whitelist_keeps_order_of_the_rest() {
    let mut rl = RateLimit::new(3);
    let filters = vec![KeyFilter::Match(key(3)), KeyFilter::Match(key(1)), KeyFilter::Match(key(2))];
    assert_eq!(rl.reset_whitelist(&Origin::Root, 0, filters), Ok(()));
    assert_eq!(rl.remove_whitelist(&Origin::Root, 0, KeyFilter::Match(key(2))), Ok(()));
    assert_eq!(rl.bypass_limit_whitelist(0), vec![KeyFilter::Match(key(1)), KeyFilter::Match(key(3))]);
    assert_eq!(
        rl.remove_whitelist(&Origin::Root, 0, KeyFilter::Match(key(2))),
        Err(Error::FilterExisted)
    );
}

#[test]
fn add_existing_filter_to_full_whitelist_reports_existing() {
    let mut rl = RateLimit::new(1);
    assert_eq!(rl.add_whitelist(&Origin::Root, 0, KeyFilter::Match(key(1))), Ok(()));
    assert_eq!(rl.add_whitelist(&Origin::Root, 0, KeyFilter::Match(key(1))), Err(Error::FilterExisted));
    assert_eq!(rl.add_whitelist(&Origin::Root, 0, KeyFilter::Match(key(2))), Err(Error::MaxFilterExceeded));
}

#[test]
fn deleting_a_rule_resets_quota() {
    let mut rl = RateLimit::new(3);
    assert_eq!(
        rl.update_rate_limit_rule(&Origin::Root, 2, key(1), Some(RateLimitRule::PerBlocks { blocks_count: 5, quota: 50 })),
        Ok(())
    );
    rl.set_rate_limit_quota(2, &key(1), (10, 100));
    rl.set_rate_limit_quota(2, &key(2), (10, 100));
    assert_eq!(rl.update_rate_limit_rule(&Origin::Root, 2, key(1), None), Ok(()));
    assert_eq!(rl.rate_limit_rules(2, &key(1)), None);
    assert_eq!(rl.rate_limit_quota(2, &key(1)), (0, 0));
    assert_eq!(rl.rate_limit_quota(2, &key(2)), (10, 100));
    assert_eq!(rl.is_allowed(2, &key(1), u128::MAX), Ok(()));
}

#[test]
fn refused_update_leaves_quota() {
    let mut rl = RateLimit::new(3);
    rl.set_rate_limit_quota(0, &key(1), (10, 100));
    assert_eq!(
        rl.update_rate_limit_rule(&Origin::Signed(key(5)), 0, key(1), None),
        Err(Error::BadOrigin)
    );
    assert_eq!(
        rl.update_rate_limit_rule(&Origin::Root, 0, key(1), Some(RateLimitRule::PerSeconds { secs_count: 0, quota: 1 })),
        Err(Error::InvalidRateLimitRule)
    );
    assert_eq!(rl.rate_limit_quota(0, &key(1)), (10, 100));
    assert_eq!(rl.events().len(), 0);
}

#[test]
fn rule_validation() {
    assert!(RateLimitRule::NotAllowed.is_valid());
    assert!(RateLimitRule::Unlimited.is_valid());
    assert!(RateLimitRule::PerBlocks { blocks_count: 1, quota: 1 }.is_valid());
    assert!(!RateLimitRule::PerBlocks { blocks_count: 1, quota: 0 }.is_valid());
    assert!(RateLimitRule::PerSeconds { secs_count: 1, quota: 1 }.is_valid());
    assert!(!RateLimitRule::PerSeconds { secs_count: 0, quota: 1 }.is_valid());
    assert!(RateLimitRule::TokenBucket { blocks_count: 1, quota_increment: 1, max_quota: 1 }.is_valid());
    assert!(!RateLimitRule::TokenBucket { blocks_count: 0, quota_increment: 1, max_quota: 1 }.is_valid());
    assert!(!RateLimitRule::TokenBucket { blocks_count: 1, quota_increment: 0, max_quota: 1 }.is_valid());
}

#[test]
fn token_bucket_discards_partial_interval() {
    let mut rl = RateLimit::new(3);
    let bucket = RateLimitRule::TokenBucket { blocks_count: 30, quota_increment: 10, max_quota: 1000 };
    rl.set_block_number(100);
    assert_eq!(rl.access_remainer_quota_after_update(bucket, &0, &key(1)), 30);
    assert_eq!(rl.rate_limit_quota(0, &key(1)), (100, 30));
    // 29 more blocks: the 10 left over from before do not count
    rl.set_block_number(129);
    assert_eq!(rl.access_remainer_quota_after_update(bucket, &0, &key(1)), 30);
    rl.set_block_number(130);
    assert_eq!(rl.access_remainer_quota_after_update(bucket, &0, &key(1)), 40);
    assert_eq!(rl.rate_limit_quota(0, &key(1)), (130, 40));
}

#[test]
fn token_bucket_saturates() {
    let mut rl = RateLimit::new(3);
    let bucket = RateLimitRule::TokenBucket { blocks_count: 1, quota_increment: u128::MAX, max_quota: u128::MAX };
    rl.set_rate_limit_quota(0, &key(1), (0, u128::MAX - 1));
    rl.set_block_number(u128::MAX);
    assert_eq!(rl.access_remainer_quota_after_update(bucket, &0, &key(1)), u128::MAX);
    assert_eq!(rl.rate_limit_quota(0, &key(1)), (u128::MAX, u128::MAX));
}

#[test]
fn token_bucket_stays_within_max_quota() {
    let mut rl = RateLimit::new(3);
    let bucket = RateLimitRule::TokenBucket { blocks_count: 3, quota_increment: 70, max_quota: 100 };
    assert_eq!(rl.update_rate_limit_rule(&Origin::Root, 0, key(1), Some(bucket)), Ok(()));
    let mut block: u128 = 0;
    while block < 40 {
        rl.set_block_number(block);
        rl.record(0, &key(1), 15);
        assert!(rl.rate_limit_quota(0, &key(1)).1 <= 100);
        assert_eq!(rl.is_allowed(0, &key(1), 101), Err(RateLimiterError::ExceedLimit));
        block += 1;
    }
}

#[test]
fn timestamps_ahead_of_now_count_as_no_time() {
    let mut rl = RateLimit::new(3);
    rl.set_rate_limit_quota(0, &key(1), (200, 5));
    rl.set_block_number(100);
    rl.set_unix_seconds(100);
    let per_blocks = RateLimitRule::PerBlocks { blocks_count: 1, quota: 50 };
    let per_secs = RateLimitRule::PerSeconds { secs_count: 1, quota: 50 };
    assert_eq!(rl.access_remainer_quota_after_update(per_blocks, &0, &key(1)), 5);
    assert_eq!(rl.access_remainer_quota_after_update(per_secs, &0, &key(1)), 5);
    assert_eq!(rl.rate_limit_quota(0, &key(1)), (200, 5));
}

#[test]
fn zero_amount_is_refused_only_by_not_allowed() {
    let mut rl = RateLimit::new(3);
    let rules = [
        RateLimitRule::Unlimited,
        RateLimitRule::PerBlocks { blocks_count: 10, quota: 1 },
        RateLimitRule::PerSeconds { secs_count: 10, quota: 1 },
        RateLimitRule::TokenBucket { blocks_count: 10, quota_increment: 1, max_quota: 1 },
    ];
    let mut id: u32 = 0;
    for rule in rules {
        assert_eq!(rl.update_rate_limit_rule(&Origin::Root, id, key(1), Some(rule)), Ok(()));
        assert_eq!(rl.is_allowed(id, &key(1), 0), Ok(()));
        id += 1;
    }
    assert_eq!(rl.is_allowed(id, &key(1), 0), Ok(()));
    assert_eq!(rl.update_rate_limit_rule(&Origin::Root, id, key(1), Some(RateLimitRule::NotAllowed)), Ok(()));
    assert_eq!(rl.is_allowed(id, &key(1), 0), Err(RateLimiterError::ExceedLimit));
}

#[test]
fn record_without_metered_rule_changes_nothing() {
    let mut rl = RateLimit::new(3);
    rl.set_block_number(500);
    rl.set_rate_limit_quota(0, &key(1), (3, 40));
    rl.record(0, &key(1), 10);
    assert_eq!(rl.rate_limit_quota(0, &key(1)), (3, 40));
    assert_eq!(rl.update_rate_limit_rule(&Origin::Root, 0, key(1), Some(RateLimitRule::NotAllowed)), Ok(()));
    rl.set_rate_limit_quota(0, &key(1), (3, 40));
    rl.record(0, &key(1), 10);
    assert_eq!(rl.rate_limit_quota(0, &key(1)), (3, 40));
}

#[test]
fn record_takes_amount_from_refilled_remainder() {
    let mut rl = RateLimit::new(3);
    assert_eq!(
        rl.update_rate_limit_rule(&Origin::Root, 0, key(1), Some(RateLimitRule::PerBlocks { blocks_count: 30, quota: 500 })),
        Ok(())
    );
    rl.set_block_number(100);
    rl.record(0, &key(1), 200);
    assert_eq!(rl.rate_limit_quota(0, &key(1)), (100, 300));
    rl.record(0, &key(1), 301);
    assert_eq!(rl.rate_limit_quota(0, &key(1)), (100, 0));
    assert_eq!(rl.is_allowed(0, &key(1), 1), Err(RateLimiterError::ExceedLimit));
    assert_eq!(rl.is_allowed(0, &key(1), 0), Ok(()));
}

#[test]
fn per_seconds_window_refills() {
    let mut rl = RateLimit::new(3);
    assert_eq!(
        rl.update_rate_limit_rule(&Origin::Root, 0, key(1), Some(RateLimitRule::PerSeconds { secs_count: 60, quota: 10 })),
        Ok(())
    );
    rl.set_unix_seconds(60);
    rl.record(0, &key(1), 4);
    assert_eq!(rl.rate_limit_quota(0, &key(1)), (60, 6));
    rl.set_unix_seconds(119);
    assert_eq!(rl.is_allowed(0, &key(1), 7), Err(RateLimiterError::ExceedLimit));
    rl.set_unix_seconds(120);
    assert_eq!(rl.is_allowed(0, &key(1), 10), Ok(()));
    assert_eq!(rl.rate_limit_quota(0, &key(1)), (120, 10));
}
