//! First-match routing of events over an ordered rule list.

use vstd::prelude::*;
use crate::event::{Event, EventModel};
use crate::expressions::cond_matches;
use crate::routing::{RuleModel, TopicRoutingRule};

verus! {

pub open spec fn rules_view(rs: Seq<TopicRoutingRule>) -> Seq<RuleModel> {
    Seq::new(rs.len(), |i: int| rs[i]@)
}

/// Whether one rule matches an event: its type condition holds of the
/// event type, and its version condition, if any, holds of the event
/// version; a rule with a version condition never matches an event
/// without a version.
pub open spec fn rule_matches(r: RuleModel, e: EventModel) -> bool {
    &&& cond_matches(r.event_type_condition, e.event_type)
    &&& match (r.event_version_condition, e.event_version) {
        (Some(c), Some(v)) => cond_matches(c, v),
        (None, _) => true,
        (Some(_), None) => false,
    }
}

/// Some rule matches.
pub open spec fn has_route(rules: Seq<RuleModel>, e: EventModel) -> bool {
    exists|i: int| 0 <= i < rules.len() && rule_matches(#[trigger] rules[i], e)
}

/// The position of the first matching rule.
pub open spec fn route_index(rules: Seq<RuleModel>, e: EventModel) -> int
    decreases rules.len(),
{
    if rules.len() == 0 {
        0
    } else if rule_matches(rules[0], e) {
        0
    } else {
        1 + route_index(rules.drop_first(), e)
    }
}

/// `route_index` is the first match.
pub proof fn lemma_route_index(rules: Seq<RuleModel>, e: EventModel, i: int)
    requires
        0 <= i < rules.len(),
        rule_matches(rules[i], e),
        forall|j: int| 0 <= j < i ==> !rule_matches(#[trigger] rules[j], e),
    ensures
        route_index(rules, e) == i,
    decreases rules.len(),
{
    if i > 0 {
        assert(!rule_matches(rules[0], e));
        assert forall|j: int| 0 <= j < i - 1 implies !rule_matches(
            #[trigger] rules.drop_first()[j],
            e,
        ) by {
            assert(rules.drop_first()[j] == rules[j + 1]);
        }
        assert(rules.drop_first()[i - 1] == rules[i]);
        lemma_route_index(rules.drop_first(), e, i - 1);
    }
}

/// An ordered list of routing rules; the caller provides the order.
pub struct TopicRoutings {
    pub rules: Vec<TopicRoutingRule>,
}

/// Picking a destination for an event.
pub trait TopicRouter {
    spec fn spec_rules(&self) -> Seq<RuleModel>;

    /// The first rule that matches the event, or nothing when none does.
    fn route(&self, event: &Event) -> (r: Option<&TopicRoutingRule>)
        ensures
            r is Some <==> has_route(self.spec_rules(), event@),
            r matches Some(rule) ==> {
                let i = route_index(self.spec_rules(), event@);
                &&& 0 <= i < self.spec_rules().len()
                &&& rule@ == self.spec_rules()[i]
                &&& rule_matches(rule@, event@)
                &&& forall|j: int| 0 <= j < i ==> !rule_matches(
                    #[trigger] self.spec_rules()[j],
                    event@,
                )
            },
    ;
}

impl TopicRouter for TopicRoutings {
    open spec fn spec_rules(&self) -> Seq<RuleModel> {
        rules_view(self.rules@)
    }

    #[verifier::loop_isolation(false)]
    fn route(&self, event: &Event) -> (r: Option<&TopicRoutingRule>)
        ensures
            r is Some <==> has_route(self.spec_rules(), event@),
            r matches Some(rule) ==> {
                let i = route_index(self.spec_rules(), event@);
                &&& 0 <= i < self.spec_rules().len()
                &&& rule@ == self.spec_rules()[i]
                &&& rule_matches(rule@, event@)
                &&& forall|j: int| 0 <= j < i ==> !rule_matches(
                    #[trigger] self.spec_rules()[j],
                    event@,
                )
            },
    {
        let n = self.rules.len();
        let mut i: usize = 0;
        while i < n
            invariant
                i <= n,
                forall|j: int| 0 <= j < i ==> !rule_matches(#[trigger] rules_view(self.rules@)[j], event@),
            decreases n - i,
        {
            let rule = &self.rules[i];
            let type_match = rule.event_type_condition.matches(event.event_type.as_str());
            let version_match = match (&rule.event_version_condition, &event.event_version) {
                (Some(c), Some(v)) => c.matches(v.as_str()),
                (None, _) => true,
                _ => false,
            };
            if type_match && version_match {
                proof {
                    assert(rules_view(self.rules@)[i as int] == self.rules@[i as int]@);
                    assert(rule_matches(rules_view(self.rules@)[i as int], event@));
                    lemma_route_index(rules_view(self.rules@), event@, i as int);
                }
                return Some(rule);
            }
            proof {
                assert(rules_view(self.rules@)[i as int] == self.rules@[i as int]@);
                assert(!rule_matches(rules_view(self.rules@)[i as int], event@));
            }
            i += 1;
        }
        None
    }
}

} // verus!
