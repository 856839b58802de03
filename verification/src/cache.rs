//! The read-through cache in front of a relational rule store.
//!
//! The cache holds snapshots of the rules and the validation bindings.
//! Readers are always served from the snapshots; a stale snapshot only
//! schedules a refresh. At most one refresh runs at a time: the flag is
//! taken by [`CachedRuleStore::begin_refresh`] and released by
//! [`CachedRuleStore::complete_refresh`] or
//! [`CachedRuleStore::abort_refresh`]. The caller performs the database
//! reads and writes between those steps; after a write it refreshes
//! before answering, so its own change is visible to later reads.

use vstd::prelude::*;
use crate::router::rules_view;
use crate::routing::{RuleModel, TopicRoutingRule, TopicValidationConfig, ValidationConfigModel};
use crate::storage::validations_view;

verus! {

/// The cache state: two snapshots, the time they were taken, the
/// refresh period, and whether a refresh is under way.
pub struct CachedRuleStore {
    rules_cache: Vec<TopicRoutingRule>,
    validations_cache: Vec<TopicValidationConfig>,
    last_refresh: u64,
    refresh_interval_secs: u64,
    is_refreshing: bool,
}

impl CachedRuleStore {
    pub closed spec fn spec_rules(&self) -> Seq<RuleModel> {
        rules_view(self.rules_cache@)
    }

    pub closed spec fn spec_validations(&self) -> Seq<ValidationConfigModel> {
        validations_view(self.validations_cache@)
    }

    pub closed spec fn spec_last_refresh(&self) -> u64 {
        self.last_refresh
    }

    pub closed spec fn spec_interval(&self) -> u64 {
        self.refresh_interval_secs
    }

    pub closed spec fn spec_refreshing(&self) -> bool {
        self.is_refreshing
    }

    /// A snapshot is fresh while its age is within the refresh period.
    pub open spec fn spec_fresh(&self, now: u64) -> bool {
        self.spec_last_refresh() + self.spec_interval() >= now
    }

    /// An empty cache, taken as refreshed now.
    pub fn new(refresh_interval_secs: u64, now: u64) -> (r: CachedRuleStore)
        ensures
            r.spec_rules() == Seq::<RuleModel>::empty(),
            r.spec_validations() == Seq::<ValidationConfigModel>::empty(),
            r.spec_last_refresh() == now,
            r.spec_interval() == refresh_interval_secs,
            !r.spec_refreshing(),
    {
        let r = CachedRuleStore {
            rules_cache: Vec::new(),
            validations_cache: Vec::new(),
            last_refresh: now,
            refresh_interval_secs,
            is_refreshing: false,
        };
        proof {
            assert(rules_view(r.rules_cache@) =~= Seq::<RuleModel>::empty());
            assert(validations_view(r.validations_cache@) =~= Seq::<
                ValidationConfigModel,
            >::empty());
        }
        r
    }

    /// Serve the cached rules. The flag tells the caller to schedule a
    /// background refresh: it is set exactly when the snapshot is stale.
    /// The cache itself does not change.
    pub fn read_rules(&self, now: u64) -> (r: (Vec<TopicRoutingRule>, bool))
        ensures
            rules_view(r.0@) == self.spec_rules(),
            r.1 == !self.spec_fresh(now),
    {
        let fresh = if self.refresh_interval_secs > u64::MAX - self.last_refresh {
            true
        } else {
            self.last_refresh + self.refresh_interval_secs >= now
        };
        let needs_refresh = !fresh;
        let n = self.rules_cache.len();
        let mut out: Vec<TopicRoutingRule> = Vec::new();
        let mut i: usize = 0;
        while i < n
            invariant
                i <= n,
                n == self.rules_cache@.len(),
                out@.len() == i,
                forall|j: int| 0 <= j < i ==> (#[trigger] out@[j])@ == self.rules_cache@[j]@,
            decreases n - i,
        {
            out.push(self.rules_cache[i].clone());
            i += 1;
        }
        proof {
            assert(rules_view(out@) =~= rules_view(self.rules_cache@));
        }
        (out, needs_refresh)
    }

    /// Serve the cached validation bindings, with the same staleness
    /// flag as `read_rules`.
    pub fn read_validations(&self, now: u64) -> (r: (Vec<TopicValidationConfig>, bool))
        ensures
            validations_view(r.0@) == self.spec_validations(),
            r.1 == !self.spec_fresh(now),
    {
        let fresh = if self.refresh_interval_secs > u64::MAX - self.last_refresh {
            true
        } else {
            self.last_refresh + self.refresh_interval_secs >= now
        };
        let needs_refresh = !fresh;
        let n = self.validations_cache.len();
        let mut out: Vec<TopicValidationConfig> = Vec::new();
        let mut i: usize = 0;
        while i < n
            invariant
                i <= n,
                n == self.validations_cache@.len(),
                out@.len() == i,
                forall|j: int| 0 <= j < i ==> (#[trigger] out@[j])@ == self.validations_cache@[j]@,
            decreases n - i,
        {
            out.push(self.validations_cache[i].clone());
            i += 1;
        }
        proof {
            assert(validations_view(out@) =~= validations_view(self.validations_cache@));
        }
        (out, needs_refresh)
    }

    /// Try to take the refresh flag. It is granted exactly when no
    /// refresh is under way, so two concurrent attempts never both run.
    pub fn begin_refresh(&mut self) -> (granted: bool)
        ensures
            granted == !old(self).spec_refreshing(),
            final(self).spec_refreshing(),
            final(self).spec_rules() == old(self).spec_rules(),
            final(self).spec_validations() == old(self).spec_validations(),
            final(self).spec_last_refresh() == old(self).spec_last_refresh(),
            final(self).spec_interval() == old(self).spec_interval(),
    {
        if self.is_refreshing {
            false
        } else {
            self.is_refreshing = true;
            true
        }
    }

    /// Install freshly loaded snapshots and release the flag.
    pub fn complete_refresh(
        &mut self,
        now: u64,
        rules: Vec<TopicRoutingRule>,
        validations: Vec<TopicValidationConfig>,
    )
        ensures
            final(self).spec_rules() == rules_view(rules@),
            final(self).spec_validations() == validations_view(validations@),
            final(self).spec_last_refresh() == now,
            !final(self).spec_refreshing(),
            final(self).spec_interval() == old(self).spec_interval(),
    {
        self.rules_cache = rules;
        self.validations_cache = validations;
        self.last_refresh = now;
        self.is_refreshing = false;
    }

    /// Release the flag after a failed refresh; the previous snapshots
    /// stay in place.
    pub fn abort_refresh(&mut self)
        ensures
            !final(self).spec_refreshing(),
            final(self).spec_rules() == old(self).spec_rules(),
            final(self).spec_validations() == old(self).spec_validations(),
            final(self).spec_last_refresh() == old(self).spec_last_refresh(),
            final(self).spec_interval() == old(self).spec_interval(),
    {
        self.is_refreshing = false;
    }
}

/// A write is visible to the writer after its own refresh: once the
/// post-write refresh installs a snapshot that holds the new rule, a
/// read serves a list that contains it.
pub proof fn lemma_write_then_read_sees_rule(
    cache: CachedRuleStore,
    now: u64,
    rules: Seq<RuleModel>,
    r: RuleModel,
)
    requires
        cache.spec_rules() == rules,
        rules.contains(r),
    ensures
        exists|i: int| 0 <= i < cache.spec_rules().len() && cache.spec_rules()[i] == r,
{
    let i = choose|i: int| 0 <= i < rules.len() && rules[i] == r;
    assert(0 <= i < cache.spec_rules().len() && cache.spec_rules()[i] == r);
}

} // verus!
