use crate::filter::{FilterModel, KeyFilter};
use crate::rule::{
    admits, consume, consume_quota, is_metered, refill, refill_quota, rule_is_valid, Quota,
    RateLimitRule,
};
use crate::store::{find, lookup, put, Entry};
use crate::whitelist::{
    any_lets_through, canonicalize, copy_filters, insert_at, is_canonical,
    lemma_canonical_no_duplicates, lets_through, locate, models, remove_at,
};
use vstd::prelude::*;

verus! {

/// Who makes an administrative call.
#[derive(Clone, Debug, PartialEq, Eq)]
pub enum Origin {
    /// The privileged caller.
    Root,
    /// An ordinary account.
    Signed(Vec<u8>),
}

pub open spec fn is_privileged(o: Origin) -> bool {
    o is Root
}

/// Why an administrative call was refused.
#[derive(Clone, Copy, Debug, PartialEq, Eq, Structural)]
pub enum Error {
    /// The caller is not privileged.
    BadOrigin,
    /// A numeric field of the rule is zero.
    InvalidRateLimitRule,
    /// The filter is already in the whitelist (add), or not in it (remove).
    FilterExisted,
    /// The whitelist would hold more filters than allowed.
    MaxFilterExceeded,
}

/// Why an admission was refused.
#[derive(Clone, Copy, Debug, PartialEq, Eq, Structural)]
pub enum RateLimiterError {
    ExceedLimit,
}

/// What a successful administrative call reports.
#[derive(Clone, Debug, PartialEq, Eq)]
pub enum Event {
    RateLimitRuleUpdated { rate_limiter_id: u32, encoded_key: Vec<u8>, update: Option<RateLimitRule> },
    WhitelistFilterAdded { rate_limiter_id: u32 },
    WhitelistFilterRemoved { rate_limiter_id: u32 },
    WhitelistFilterReset { rate_limiter_id: u32 },
}

spec fn rule_in(s: Seq<Entry<Option<RateLimitRule>>>, l: u32, k: Seq<u8>) -> Option<RateLimitRule> {
    match lookup(s, l, k) {
        Some(r) => r,
        None => None,
    }
}

spec fn whitelist_in(s: Seq<Entry<Vec<KeyFilter>>>, l: u32) -> Seq<FilterModel> {
    match lookup(s, l, Seq::empty()) {
        Some(w) => models(w@),
        None => Seq::empty(),
    }
}

spec fn rules_valid(s: Seq<Entry<Option<RateLimitRule>>>) -> bool {
    forall|l: u32, k: Seq<u8>| #[trigger] rule_in(s, l, k) matches Some(r) ==> rule_is_valid(r)
}

spec fn whitelists_fit(s: Seq<Entry<Vec<KeyFilter>>>, cap: usize) -> bool {
    forall|l: u32|
        is_canonical(#[trigger] whitelist_in(s, l)) && whitelist_in(s, l).len() <= cap
}

/// The rate limiter: rules and quotas per limiter and encoded key, a
/// whitelist per limiter, the current block and second, and the events.
pub struct RateLimit {
    rules: Vec<Entry<Option<RateLimitRule>>>,
    quotas: Vec<Entry<Quota>>,
    /// Each limiter's whitelist, stored under the empty key.
    whitelists: Vec<Entry<Vec<KeyFilter>>>,
    max_whitelist_filters: usize,
    block_number: u128,
    unix_seconds: u64,
    events: Vec<Event>,
}

impl RateLimit {
    /// The rule of key `k` in limiter `l`, if one is set.
    pub closed spec fn rule_of(&self, l: u32, k: Seq<u8>) -> Option<RateLimitRule> {
        rule_in(self.rules@, l, k)
    }

    /// The quota of key `k` in limiter `l`; `(0, 0)` where none is stored.
    pub closed spec fn quota_of(&self, l: u32, k: Seq<u8>) -> Quota {
        match lookup(self.quotas@, l, k) {
            Some(q) => q,
            None => (0, 0),
        }
    }

    /// The whitelist of limiter `l`.
    pub closed spec fn whitelist_of(&self, l: u32) -> Seq<FilterModel> {
        whitelist_in(self.whitelists@, l)
    }

    /// The most filters that one whitelist may hold.
    pub closed spec fn capacity(&self) -> usize {
        self.max_whitelist_filters
    }

    /// The current block.
    pub closed spec fn block(&self) -> u128 {
        self.block_number
    }

    /// The current unix time, in seconds.
    pub closed spec fn secs(&self) -> u64 {
        self.unix_seconds
    }

    /// The events reported so far, oldest first.
    pub closed spec fn event_log(&self) -> Seq<Event> {
        self.events@
    }

    /// Stored rules are valid; each whitelist is canonical and within capacity.
    pub closed spec fn wf(&self) -> bool {
        &&& self.max_whitelist_filters > 0
        &&& rules_valid(self.rules@)
        &&& whitelists_fit(self.whitelists@, self.max_whitelist_filters)
    }

    /// The quota of `(l, k)` after the refill that `rule` makes now.
    pub open spec fn refilled(&self, rule: RateLimitRule, l: u32, k: Seq<u8>) -> Quota {
        refill(rule, self.quota_of(l, k), self.block(), self.secs())
    }

    /// The rules of `self` and `o` agree on every key but `(l, k)`.
    pub open spec fn same_rules_except(&self, o: &RateLimit, l: u32, k: Seq<u8>) -> bool {
        forall|l2: u32, k2: Seq<u8>|
            !(l2 == l && k2 == k) ==> #[trigger] self.rule_of(l2, k2) == o.rule_of(l2, k2)
    }

    pub open spec fn same_rules(&self, o: &RateLimit) -> bool {
        forall|l2: u32, k2: Seq<u8>| #[trigger] self.rule_of(l2, k2) == o.rule_of(l2, k2)
    }

    /// The quotas of `self` and `o` agree on every key but `(l, k)`.
    pub open spec fn same_quotas_except(&self, o: &RateLimit, l: u32, k: Seq<u8>) -> bool {
        forall|l2: u32, k2: Seq<u8>|
            !(l2 == l && k2 == k) ==> #[trigger] self.quota_of(l2, k2) == o.quota_of(l2, k2)
    }

    pub open spec fn same_quotas(&self, o: &RateLimit) -> bool {
        forall|l2: u32, k2: Seq<u8>| #[trigger] self.quota_of(l2, k2) == o.quota_of(l2, k2)
    }

    /// The whitelists of `self` and `o` agree on every limiter but `l`.
    pub open spec fn same_whitelists_except(&self, o: &RateLimit, l: u32) -> bool {
        forall|l2: u32| l2 != l ==> #[trigger] self.whitelist_of(l2) == o.whitelist_of(l2)
    }

    pub open spec fn same_whitelists(&self, o: &RateLimit) -> bool {
        forall|l2: u32| #[trigger] self.whitelist_of(l2) == o.whitelist_of(l2)
    }

    /// Same capacity and same clock.
    pub open spec fn same_setting(&self, o: &RateLimit) -> bool {
        &&& self.capacity() == o.capacity()
        &&& self.block() == o.block()
        &&& self.secs() == o.secs()
    }

    /// An empty limiter whose whitelists hold at most `max_whitelist_filters`.
    pub fn new(max_whitelist_filters: usize) -> (r: RateLimit)
        requires
            max_whitelist_filters > 0,
        ensures
            r.wf(),
            r.capacity() == max_whitelist_filters,
            r.block() == 0,
            r.secs() == 0,
            r.event_log() == Seq::<Event>::empty(),
            forall|l: u32, k: Seq<u8>| #[trigger] r.rule_of(l, k) == None::<RateLimitRule>,
            forall|l: u32, k: Seq<u8>| #[trigger] r.quota_of(l, k) == (0u128, 0u128),
            forall|l: u32| #[trigger] r.whitelist_of(l) == Seq::<FilterModel>::empty(),
    {
        RateLimit {
            rules: Vec::new(),
            quotas: Vec::new(),
            whitelists: Vec::new(),
            max_whitelist_filters,
            block_number: 0,
            unix_seconds: 0,
            events: Vec::new(),
        }
    }

    /// The current block.
    pub fn block_number(&self) -> (r: u128)
        ensures
            r == self.block(),
    {
        self.block_number
    }

    /// Moves the clock to block `n`.
    pub fn set_block_number(&mut self, n: u128)
        ensures
            final(self).block() == n,
            final(self).secs() == old(self).secs(),
            final(self).capacity() == old(self).capacity(),
            old(self).wf() ==> final(self).wf(),
            final(self).same_rules(old(self)),
            final(self).same_quotas(old(self)),
            final(self).same_whitelists(old(self)),
            final(self).event_log() == old(self).event_log(),
    {
        self.block_number = n;
    }

    /// The current unix time, in seconds.
    pub fn unix_seconds(&self) -> (r: u64)
        ensures
            r == self.secs(),
    {
        self.unix_seconds
    }

    /// Moves the clock to unix second `s`.
    pub fn set_unix_seconds(&mut self, s: u64)
        ensures
            final(self).secs() == s,
            final(self).block() == old(self).block(),
            final(self).capacity() == old(self).capacity(),
            old(self).wf() ==> final(self).wf(),
            final(self).same_rules(old(self)),
            final(self).same_quotas(old(self)),
            final(self).same_whitelists(old(self)),
            final(self).event_log() == old(self).event_log(),
    {
        self.unix_seconds = s;
    }

    /// The events reported so far, oldest first.
    pub fn events(&self) -> (r: &Vec<Event>)
        ensures
            r@ == self.event_log(),
    {
        &self.events
    }

    /// The rule of `encoded_key` in limiter `rate_limiter_id`.
    pub fn rate_limit_rules(&self, rate_limiter_id: u32, encoded_key: &Vec<u8>) -> (r: Option<
        RateLimitRule,
    >)
        ensures
            r == self.rule_of(rate_limiter_id, encoded_key@),
    {
        match find(&self.rules, rate_limiter_id, encoded_key) {
            Some(i) => self.rules[i].value,
            None => None,
        }
    }

    /// The quota of `encoded_key` in limiter `rate_limiter_id`.
    pub fn rate_limit_quota(&self, rate_limiter_id: u32, encoded_key: &Vec<u8>) -> (r: Quota)
        ensures
            r == self.quota_of(rate_limiter_id, encoded_key@),
    {
        match find(&self.quotas, rate_limiter_id, encoded_key) {
            Some(i) => self.quotas[i].value,
            None => (0, 0),
        }
    }

    /// Stores `quota` for `encoded_key` in limiter `rate_limiter_id`.
    pub fn set_rate_limit_quota(&mut self, rate_limiter_id: u32, encoded_key: &Vec<u8>, quota: Quota)
        ensures
            final(self).quota_of(rate_limiter_id, encoded_key@) == quota,
            final(self).same_quotas_except(old(self), rate_limiter_id, encoded_key@),
            final(self).same_rules(old(self)),
            final(self).same_whitelists(old(self)),
            final(self).same_setting(old(self)),
            final(self).event_log() == old(self).event_log(),
            old(self).wf() ==> final(self).wf(),
    {
        put(&mut self.quotas, rate_limiter_id, encoded_key, quota);
    }

    /// A copy of the whitelist of limiter `rate_limiter_id`.
    pub fn bypass_limit_whitelist(&self, rate_limiter_id: u32) -> (r: Vec<KeyFilter>)
        ensures
            models(r@) == self.whitelist_of(rate_limiter_id),
    {
        let none: Vec<u8> = Vec::new();
        match find(&self.whitelists, rate_limiter_id, &none) {
            Some(i) => copy_filters(&self.whitelists[i].value),
            None => {
                let r: Vec<KeyFilter> = Vec::new();
                assert(models(r@) =~= Seq::<FilterModel>::empty());
                r
            },
        }
    }

    /// Replaces the whitelist of limiter `rate_limiter_id` with `w` and
    /// reports `event`.
    fn store_whitelist(&mut self, rate_limiter_id: u32, w: Vec<KeyFilter>, event: Event)
        requires
            old(self).wf(),
            is_canonical(models(w@)),
            w.len() <= old(self).capacity(),
        ensures
            final(self).wf(),
            final(self).whitelist_of(rate_limiter_id) == models(w@),
            final(self).same_whitelists_except(old(self), rate_limiter_id),
            final(self).same_rules(old(self)),
            final(self).same_quotas(old(self)),
            final(self).same_setting(old(self)),
            final(self).event_log() == old(self).event_log().push(event),
    {
        let ghost old_whitelists = self.whitelists@;
        let none: Vec<u8> = Vec::new();
        put(&mut self.whitelists, rate_limiter_id, &none, w);
        assert forall|l: u32| #[trigger]
            whitelist_in(self.whitelists@, l) == if l == rate_limiter_id {
                models(w@)
            } else {
                whitelist_in(old_whitelists, l)
            } by {
            assert(lookup(self.whitelists@, l, Seq::empty()) == if l == rate_limiter_id {
                Some(w)
            } else {
                lookup(old_whitelists, l, Seq::empty())
            });
        }
        self.events.push(event);
    }

    /// Refills the quota of `encoded_key` in limiter `rate_limiter_id` under
    /// `rule` and returns the remainder. The quota is written only where the
    /// refill changed it.
    pub fn access_remainer_quota_after_update(
        &mut self,
        rule: RateLimitRule,
        rate_limiter_id: &u32,
        encoded_key: &Vec<u8>,
    ) -> (r: u128)
        ensures
            r == old(self).refilled(rule, *rate_limiter_id, encoded_key@).1,
            final(self).quota_of(*rate_limiter_id, encoded_key@) == old(self).refilled(
                rule,
                *rate_limiter_id,
                encoded_key@,
            ),
            old(self).refilled(rule, *rate_limiter_id, encoded_key@) == old(self).quota_of(
                *rate_limiter_id,
                encoded_key@,
            ) ==> *final(self) == *old(self),
            final(self).same_quotas_except(old(self), *rate_limiter_id, encoded_key@),
            final(self).same_rules(old(self)),
            final(self).same_whitelists(old(self)),
            final(self).same_setting(old(self)),
            final(self).event_log() == old(self).event_log(),
            old(self).wf() ==> final(self).wf(),
    {
        let l = *rate_limiter_id;
        let current = self.rate_limit_quota(l, encoded_key);
        let updated = refill_quota(rule, current, self.block_number, self.unix_seconds);
        if updated.0 != current.0 || updated.1 != current.1 {
            self.set_rate_limit_quota(l, encoded_key, updated);
        }
        updated.1
    }

    /// Whether `amount` may pass for `encoded_key` in limiter
    /// `rate_limiter_id` now. A due refill is stored; nothing is consumed.
    pub fn is_allowed(&mut self, rate_limiter_id: u32, encoded_key: &Vec<u8>, amount: u128) -> (r:
        Result<(), RateLimiterError>)
        ensures
            (r is Ok) == admits(
                old(self).rule_of(rate_limiter_id, encoded_key@),
                old(self).quota_of(rate_limiter_id, encoded_key@),
                old(self).block(),
                old(self).secs(),
                amount,
            ),
            match old(self).rule_of(rate_limiter_id, encoded_key@) {
                Some(rule) => is_metered(rule) ==> {
                    &&& final(self).quota_of(rate_limiter_id, encoded_key@) == old(self).refilled(
                        rule,
                        rate_limiter_id,
                        encoded_key@,
                    )
                    &&& final(self).same_quotas_except(old(self), rate_limiter_id, encoded_key@)
                },
                None => true,
            },
            !(old(self).rule_of(rate_limiter_id, encoded_key@) matches Some(rule) && is_metered(
                rule,
            )) ==> *final(self) == *old(self),
            final(self).same_rules(old(self)),
            final(self).same_whitelists(old(self)),
            final(self).same_setting(old(self)),
            final(self).event_log() == old(self).event_log(),
            old(self).wf() ==> final(self).wf(),
    {
        match self.rate_limit_rules(rate_limiter_id, encoded_key) {
            None => Ok(()),
            Some(RateLimitRule::Unlimited) => Ok(()),
            Some(RateLimitRule::NotAllowed) => Err(RateLimiterError::ExceedLimit),
            Some(rule) => {
                let remainder = self.access_remainer_quota_after_update(
                    rule,
                    &rate_limiter_id,
                    encoded_key,
                );
                if amount <= remainder {
                    Ok(())
                } else {
                    Err(RateLimiterError::ExceedLimit)
                }
            },
        }
    }

    /// Consumes `amount` of the quota of `encoded_key` in limiter
    /// `rate_limiter_id`, after a due refill; the remainder stops at zero.
    /// Does nothing where no metered rule is set.
    pub fn record(&mut self, rate_limiter_id: u32, encoded_key: &Vec<u8>, amount: u128)
        ensures
            match old(self).rule_of(rate_limiter_id, encoded_key@) {
                Some(rule) => is_metered(rule) ==> {
                    &&& final(self).quota_of(rate_limiter_id, encoded_key@) == consume(
                        old(self).refilled(rule, rate_limiter_id, encoded_key@),
                        amount,
                    )
                    &&& final(self).same_quotas_except(old(self), rate_limiter_id, encoded_key@)
                },
                None => true,
            },
            !(old(self).rule_of(rate_limiter_id, encoded_key@) matches Some(rule) && is_metered(
                rule,
            )) ==> *final(self) == *old(self),
            final(self).same_rules(old(self)),
            final(self).same_whitelists(old(self)),
            final(self).same_setting(old(self)),
            final(self).event_log() == old(self).event_log(),
            old(self).wf() ==> final(self).wf(),
    {
        match self.rate_limit_rules(rate_limiter_id, encoded_key) {
            Some(rule) => {
                if rule.is_metered() {
                    self.access_remainer_quota_after_update(rule, &rate_limiter_id, encoded_key);
                    let refilled = self.rate_limit_quota(rate_limiter_id, encoded_key);
                    self.set_rate_limit_quota(
                        rate_limiter_id,
                        encoded_key,
                        consume_quota(refilled, amount),
                    );
                }
            },
            None => {},
        }
    }

    /// Whether a filter of the whitelist of limiter `rate_limiter_id` lets
    /// `encoded_key` through.
    pub fn bypass_limit(&self, rate_limiter_id: u32, encoded_key: &Vec<u8>) -> (r: bool)
        ensures
            r == lets_through(self.whitelist_of(rate_limiter_id), encoded_key@),
    {
        let none: Vec<u8> = Vec::new();
        match find(&self.whitelists, rate_limiter_id, &none) {
            Some(i) => any_lets_through(&self.whitelists[i].value, encoded_key),
            None => false,
        }
    }

    /// Sets (`Some`) or removes (`None`) the rule of `encoded_key` in limiter
    /// `rate_limiter_id`, and resets its quota to `(0, 0)`.
    pub fn update_rate_limit_rule(
        &mut self,
        origin: &Origin,
        rate_limiter_id: u32,
        encoded_key: Vec<u8>,
        update: Option<RateLimitRule>,
    ) -> (r: Result<(), Error>)
        requires
            old(self).wf(),
        ensures
            final(self).wf(),
            r == if !is_privileged(*origin) {
                Err(Error::BadOrigin)
            } else if update matches Some(rule) && !rule_is_valid(rule) {
                Err(Error::InvalidRateLimitRule)
            } else {
                Ok(())
            },
            r is Err ==> *final(self) == *old(self),
            r is Ok ==> {
                &&& final(self).rule_of(rate_limiter_id, encoded_key@) == update
                &&& final(self).quota_of(rate_limiter_id, encoded_key@) == (0u128, 0u128)
                &&& final(self).same_rules_except(old(self), rate_limiter_id, encoded_key@)
                &&& final(self).same_quotas_except(old(self), rate_limiter_id, encoded_key@)
                &&& final(self).same_whitelists(old(self))
                &&& final(self).same_setting(old(self))
                &&& final(self).event_log() == old(self).event_log().push(
                    (Event::RateLimitRuleUpdated { rate_limiter_id, encoded_key, update }),
                )
            },
    {
        if !matches!(origin, Origin::Root) {
            return Err(Error::BadOrigin);
        }
        match update {
            Some(rule) => {
                if !rule.is_valid() {
                    return Err(Error::InvalidRateLimitRule);
                }
            },
            None => {},
        }
        let ghost old_rules = self.rules@;
        put(&mut self.rules, rate_limiter_id, &encoded_key, update);
        assert forall|l: u32, k: Seq<u8>| #[trigger]
            rule_in(self.rules@, l, k) == if l == rate_limiter_id && k == encoded_key@ {
                update
            } else {
                rule_in(old_rules, l, k)
            } by {
            assert(lookup(self.rules@, l, k) == if l == rate_limiter_id && k == encoded_key@ {
                Some(update)
            } else {
                lookup(old_rules, l, k)
            });
        }
        put(&mut self.quotas, rate_limiter_id, &encoded_key, (0, 0));
        self.events.push(Event::RateLimitRuleUpdated { rate_limiter_id, encoded_key, update });
        Ok(())
    }

    /// Adds `filter` to the whitelist of limiter `rate_limiter_id`, in its
    /// canonical place.
    pub fn add_whitelist(&mut self, origin: &Origin, rate_limiter_id: u32, filter: KeyFilter) -> (r:
        Result<(), Error>)
        requires
            old(self).wf(),
        ensures
            final(self).wf(),
            r == if !is_privileged(*origin) {
                Err(Error::BadOrigin)
            } else if old(self).whitelist_of(rate_limiter_id).contains(filter@) {
                Err(Error::FilterExisted)
            } else if old(self).whitelist_of(rate_limiter_id).len() >= old(self).capacity() {
                Err(Error::MaxFilterExceeded)
            } else {
                Ok(())
            },
            r is Err ==> *final(self) == *old(self),
            r is Ok ==> {
                &&& final(self).whitelist_of(rate_limiter_id).len() == old(self).whitelist_of(
                    rate_limiter_id,
                ).len() + 1
                &&& forall|x: FilterModel| #[trigger]
                    final(self).whitelist_of(rate_limiter_id).contains(x) <==> old(
                        self,
                    ).whitelist_of(rate_limiter_id).contains(x) || x == filter@
                &&& is_canonical(final(self).whitelist_of(rate_limiter_id))
                &&& final(self).whitelist_of(rate_limiter_id).len() <= final(self).capacity()
                &&& final(self).same_whitelists_except(old(self), rate_limiter_id)
                &&& final(self).same_rules(old(self))
                &&& final(self).same_quotas(old(self))
                &&& final(self).same_setting(old(self))
                &&& final(self).event_log() == old(self).event_log().push(
                    (Event::WhitelistFilterAdded { rate_limiter_id }),
                )
            },
    {
        if !matches!(origin, Origin::Root) {
            return Err(Error::BadOrigin);
        }
        let mut w = self.bypass_limit_whitelist(rate_limiter_id);
        let (i, found) = locate(&w, &filter);
        if found {
            return Err(Error::FilterExisted);
        }
        if w.len() >= self.max_whitelist_filters {
            return Err(Error::MaxFilterExceeded);
        }
        insert_at(&mut w, i, filter);
        self.store_whitelist(rate_limiter_id, w, Event::WhitelistFilterAdded { rate_limiter_id });
        Ok(())
    }

    /// Takes `filter` out of the whitelist of limiter `rate_limiter_id`; the
    /// other filters keep their order.
    pub fn remove_whitelist(&mut self, origin: &Origin, rate_limiter_id: u32, filter: KeyFilter) -> (r:
        Result<(), Error>)
        requires
            old(self).wf(),
        ensures
            final(self).wf(),
            r == if !is_privileged(*origin) {
                Err(Error::BadOrigin)
            } else if !old(self).whitelist_of(rate_limiter_id).contains(filter@) {
                Err(Error::FilterExisted)
            } else {
                Ok(())
            },
            r is Err ==> *final(self) == *old(self),
            r is Ok ==> {
                &&& final(self).whitelist_of(rate_limiter_id).len() == old(self).whitelist_of(
                    rate_limiter_id,
                ).len() - 1
                &&& forall|x: FilterModel| #[trigger]
                    final(self).whitelist_of(rate_limiter_id).contains(x) <==> old(
                        self,
                    ).whitelist_of(rate_limiter_id).contains(x) && x != filter@
                &&& is_canonical(final(self).whitelist_of(rate_limiter_id))
                &&& final(self).whitelist_of(rate_limiter_id).len() <= final(self).capacity()
                &&& final(self).same_whitelists_except(old(self), rate_limiter_id)
                &&& final(self).same_rules(old(self))
                &&& final(self).same_quotas(old(self))
                &&& final(self).same_setting(old(self))
                &&& final(self).event_log() == old(self).event_log().push(
                    (Event::WhitelistFilterRemoved { rate_limiter_id }),
                )
            },
    {
        if !matches!(origin, Origin::Root) {
            return Err(Error::BadOrigin);
        }
        let mut w = self.bypass_limit_whitelist(rate_limiter_id);
        let (i, found) = locate(&w, &filter);
        if !found {
            return Err(Error::FilterExisted);
        }
        remove_at(&mut w, i);
        self.store_whitelist(rate_limiter_id, w, Event::WhitelistFilterRemoved { rate_limiter_id });
        Ok(())
    }

    /// Replaces the whitelist of limiter `rate_limiter_id` with the filters
    /// of `filters`, sorted and each once.
    pub fn reset_whitelist(&mut self, origin: &Origin, rate_limiter_id: u32, filters: Vec<KeyFilter>) -> (r:
        Result<(), Error>)
        requires
            old(self).wf(),
        ensures
            final(self).wf(),
            r == if !is_privileged(*origin) {
                Err(Error::BadOrigin)
            } else if models(filters@).to_set().len() > old(self).capacity() {
                Err(Error::MaxFilterExceeded)
            } else {
                Ok(())
            },
            r is Err ==> *final(self) == *old(self),
            r is Ok ==> {
                &&& forall|x: FilterModel| #[trigger]
                    final(self).whitelist_of(rate_limiter_id).contains(x) <==> models(
                        filters@,
                    ).contains(x)
                &&& is_canonical(final(self).whitelist_of(rate_limiter_id))
                &&& final(self).whitelist_of(rate_limiter_id).len() <= final(self).capacity()
                &&& final(self).same_whitelists_except(old(self), rate_limiter_id)
                &&& final(self).same_rules(old(self))
                &&& final(self).same_quotas(old(self))
                &&& final(self).same_setting(old(self))
                &&& final(self).event_log() == old(self).event_log().push(
                    (Event::WhitelistFilterReset { rate_limiter_id }),
                )
            },
    {
        if !matches!(origin, Origin::Root) {
            return Err(Error::BadOrigin);
        }
        let w = canonicalize(&filters);
        proof {
            lemma_canonical_no_duplicates(models(w@));
            assert(models(w@).to_set() =~= models(filters@).to_set());
        }
        if w.len() > self.max_whitelist_filters {
            return Err(Error::MaxFilterExceeded);
        }
        self.store_whitelist(rate_limiter_id, w, Event::WhitelistFilterReset { rate_limiter_id });
        Ok(())
    }

    /// Every whitelist is sorted in the canonical filter order, holds no
    /// filter twice, and holds at most `capacity()` filters.
    pub proof fn lemma_whitelist_canonical(&self, rate_limiter_id: u32)
        requires
            self.wf(),
        ensures
            is_canonical(self.whitelist_of(rate_limiter_id)),
            self.whitelist_of(rate_limiter_id).no_duplicates(),
            self.whitelist_of(rate_limiter_id).len() <= self.capacity(),
    {
        assert(whitelist_in(self.whitelists@, rate_limiter_id) == self.whitelist_of(rate_limiter_id));
        lemma_canonical_no_duplicates(self.whitelist_of(rate_limiter_id));
    }
}

} // verus!
