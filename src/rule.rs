use vstd::prelude::*;

verus! {

/// The policy that governs one key of one limiter.
#[derive(Clone, Copy, Debug, PartialEq, Eq, Structural)]
pub enum RateLimitRule {
    /// Nothing is permitted.
    NotAllowed,
    /// Any amount is permitted.
    Unlimited,
    /// Every `blocks_count` blocks the remainder is reset to `quota`.
    PerBlocks { blocks_count: u32, quota: u128 },
    /// Every `secs_count` seconds the remainder is reset to `quota`.
    PerSeconds { secs_count: u64, quota: u128 },
    /// Every `blocks_count` blocks `quota_increment` is added, up to `max_quota`.
    TokenBucket { blocks_count: u32, quota_increment: u128, max_quota: u128 },
}

/// A quota: the time of its last refill and the amount that remains.
pub type Quota = (u128, u128);

/// A rule is valid when none of its numeric fields is zero.
pub open spec fn rule_is_valid(rule: RateLimitRule) -> bool {
    match rule {
        RateLimitRule::PerBlocks { blocks_count, quota } => blocks_count >= 1 && quota >= 1,
        RateLimitRule::PerSeconds { secs_count, quota } => secs_count >= 1 && quota >= 1,
        RateLimitRule::TokenBucket { blocks_count, quota_increment, max_quota } => blocks_count
            >= 1 && quota_increment >= 1 && max_quota >= 1,
        _ => true,
    }
}

/// Rules that keep a quota: the windowed ones and the token bucket.
pub open spec fn is_metered(rule: RateLimitRule) -> bool {
    match rule {
        RateLimitRule::NotAllowed | RateLimitRule::Unlimited => false,
        _ => true,
    }
}

/// `now - last`, or zero when `last` lies ahead.
pub open spec fn elapsed(now: int, last: int) -> int {
    if now > last {
        now - last
    } else {
        0
    }
}

/// `x` capped at the largest `u128`.
pub open spec fn saturate(x: int) -> u128 {
    if x > u128::MAX {
        u128::MAX
    } else {
        x as u128
    }
}

/// Whole intervals of `n` in `e`; none when the interval is zero.
pub open spec fn intervals(e: int, n: int) -> int {
    if n == 0 {
        0
    } else {
        e / n
    }
}

/// The quota after the lazy refill that `rule` makes at block `block` and
/// second `secs`. Where no refill is due the quota is returned as it is.
pub open spec fn refill(rule: RateLimitRule, q: Quota, block: u128, secs: u64) -> Quota {
    match rule {
        RateLimitRule::PerBlocks { blocks_count, quota } => {
            if elapsed(block as int, q.0 as int) >= blocks_count {
                (block, quota)
            } else {
                q
            }
        },
        RateLimitRule::PerSeconds { secs_count, quota } => {
            if elapsed(secs as int, q.0 as int) >= secs_count {
                (secs as u128, quota)
            } else {
                q
            }
        },
        RateLimitRule::TokenBucket { blocks_count, quota_increment, max_quota } => {
            let k = intervals(elapsed(block as int, q.0 as int), blocks_count as int);
            if k == 0 {
                q
            } else {
                let grown = saturate(q.1 + k * quota_increment);
                (block, if grown < max_quota { grown } else { max_quota })
            }
        },
        _ => q,
    }
}

/// The quota after `amount` is taken from it; the remainder stops at zero.
pub open spec fn consume(q: Quota, amount: u128) -> Quota {
    (q.0, if amount >= q.1 { 0 } else { (q.1 - amount) as u128 })
}

/// Whether `amount` may pass under `rule` (`None`: no rule is set) when the
/// stored quota is `q`, at block `block` and second `secs`.
pub open spec fn admits(rule: Option<RateLimitRule>, q: Quota, block: u128, secs: u64, amount: u128) -> bool {
    match rule {
        Some(RateLimitRule::NotAllowed) => false,
        Some(r) => !is_metered(r) || amount <= refill(r, q, block, secs).1,
        None => true,
    }
}

impl RateLimitRule {
    /// Whether the rule may be stored.
    pub fn is_valid(&self) -> (r: bool)
        ensures
            r == rule_is_valid(*self),
    {
        match *self {
            RateLimitRule::PerBlocks { blocks_count, quota } => blocks_count >= 1 && quota >= 1,
            RateLimitRule::PerSeconds { secs_count, quota } => secs_count >= 1 && quota >= 1,
            RateLimitRule::TokenBucket { blocks_count, quota_increment, max_quota } => blocks_count
                >= 1 && quota_increment >= 1 && max_quota >= 1,
            _ => true,
        }
    }

    /// Whether the rule keeps a quota.
    pub fn is_metered(&self) -> (r: bool)
        ensures
            r == is_metered(*self),
    {
        match *self {
            RateLimitRule::NotAllowed | RateLimitRule::Unlimited => false,
            _ => true,
        }
    }
}

/// Computes the refill of `q` under `rule` at block `block` and second `secs`.
pub fn refill_quota(rule: RateLimitRule, q: Quota, block: u128, secs: u64) -> (r: Quota)
    ensures
        r == refill(rule, q, block, secs),
{
    match rule {
        RateLimitRule::PerBlocks { blocks_count, quota } => {
            if block.saturating_sub(q.0) >= blocks_count as u128 {
                (block, quota)
            } else {
                q
            }
        },
        RateLimitRule::PerSeconds { secs_count, quota } => {
            if (secs as u128).saturating_sub(q.0) >= secs_count as u128 {
                (secs as u128, quota)
            } else {
                q
            }
        },
        RateLimitRule::TokenBucket { blocks_count, quota_increment, max_quota } => {
            let k: u128 = match block.saturating_sub(q.0).checked_div(blocks_count as u128) {
                Some(k) => k,
                None => 0,
            };
            if k == 0 {
                q
            } else {
                let added: u128 = match k.checked_mul(quota_increment) {
                    Some(p) => p,
                    None => u128::MAX,
                };
                let grown = q.1.saturating_add(added);
                (block, if grown < max_quota { grown } else { max_quota })
            }
        },
        _ => q,
    }
}

/// Takes `amount` from `q`, stopping at zero.
pub fn consume_quota(q: Quota, amount: u128) -> (r: Quota)
    ensures
        r == consume(q, amount),
{
    (q.0, q.1.saturating_sub(amount))
}

/// Under a token bucket the remainder stays at or below `max_quota`: a refill
/// that adds anything caps it there, and neither a refill nor a consumption
/// raises a remainder that was already within the cap above it.
pub proof fn lemma_token_bucket_bounded(
    blocks_count: u32,
    quota_increment: u128,
    max_quota: u128,
    q: Quota,
    block: u128,
    secs: u64,
    amount: u128,
)
    ensures
        ({
            let rule = RateLimitRule::TokenBucket { blocks_count, quota_increment, max_quota };
            &&& intervals(elapsed(block as int, q.0 as int), blocks_count as int) != 0 ==> refill(
                rule,
                q,
                block,
                secs,
            ).1 <= max_quota
            &&& q.1 <= max_quota ==> refill(rule, q, block, secs).1 <= max_quota
            &&& q.1 <= max_quota ==> consume(refill(rule, q, block, secs), amount).1 <= max_quota
        }),
{
}

/// A zero amount is refused only by `NotAllowed`: it passes where no rule is
/// set, under `Unlimited`, and under every windowed or bucket rule.
pub proof fn lemma_admits_zero(rule: Option<RateLimitRule>, q: Quota, block: u128, secs: u64)
    ensures
        admits(rule, q, block, secs, 0) <==> rule != Some(RateLimitRule::NotAllowed),
{
}

/// Consumption leaves `max(0, r - amount)` of a remainder `r` and keeps the
/// time of the last refill.
pub proof fn lemma_consume_saturates(q: Quota, amount: u128)
    ensures
        consume(q, amount).0 == q.0,
        consume(q, amount).1 == if q.1 >= amount {
            q.1 - amount
        } else {
            0
        },
{
}

} // verus!
