//! The file-tree storage variant: one JSON file per entity under
//! `rules/`, `validations/` and `events/`.
//!
//! This module holds the computing half of the backend: building paths
//! and file contents, reading directory snapshots back, and deciding
//! when an update or delete must fail. The surrounding program lists,
//! reads, writes and removes the files and hands the contents through
//! as plain values.

use vstd::prelude::*;
use vstd::string::StringExecFns;
use crate::json::jtext;
use crate::routing::{
    rule_from_text, rule_to_jm, RuleModel, TopicRoutingRule, TopicValidationConfig, vc_from_text,
    vc_to_jm, ValidationConfigModel,
};
use crate::storage::{StorageError, StoredEvent, StoredEventModel};
use crate::text::str_eq;
use crate::uid::{uid_text, Uid};

verus! {

/// The file-tree backend, rooted at a base directory.
pub struct FileStorage {
    base_path: String,
}

/// The name of an entity's file.
pub open spec fn entity_file_name(id: Seq<u8>) -> Seq<char> {
    uid_text(id) + ".json"@
}

impl FileStorage {
    pub closed spec fn base(&self) -> Seq<char> {
        self.base_path@
    }

    /// A backend rooted at this directory.
    pub fn new(base_path: String) -> (r: FileStorage)
        ensures
            r.base() == base_path@,
    {
        FileStorage { base_path }
    }

    /// The rules directory.
    pub fn get_rules_path(&self) -> (r: String)
        ensures
            r@ == self.base() + "/rules"@,
    {
        let mut out = String::from_str(self.base_path.as_str());
        out.append("/rules");
        out
    }

    /// The validations directory.
    pub fn get_validations_path(&self) -> (r: String)
        ensures
            r@ == self.base() + "/validations"@,
    {
        let mut out = String::from_str(self.base_path.as_str());
        out.append("/validations");
        out
    }

    /// The events directory.
    pub fn get_events_path(&self) -> (r: String)
        ensures
            r@ == self.base() + "/events"@,
    {
        let mut out = String::from_str(self.base_path.as_str());
        out.append("/events");
        out
    }
}

/// The `<id>.json` file name of an entity.
pub fn file_name_for(id: &Uid) -> (r: String)
    ensures
        r@ == entity_file_name(id@),
{
    let mut out = id.to_text();
    out.append(".json");
    out
}

/// The file a rule is stored in, and its content. Writing the file is
/// idempotent: a second write of the same rule produces the same name
/// and content.
pub fn rule_file(rule: &TopicRoutingRule) -> (r: (String, String))
    ensures
        r.0@ == entity_file_name(rule@.id),
        r.1@ == jtext(rule_to_jm(rule@)),
{
    (file_name_for(&rule.id), rule.to_json())
}

/// The file a validation binding is stored in, and its content.
pub fn validation_file(v: &TopicValidationConfig) -> (r: (String, String))
    ensures
        r.0@ == entity_file_name(v@.id),
        r.1@ == jtext(vc_to_jm(v@)),
{
    (file_name_for(&v.id), v.to_json())
}

/// Whether a directory snapshot holds a file of this name.
pub open spec fn has_file(names: Seq<Seq<char>>, name: Seq<char>) -> bool {
    exists|i: int| 0 <= i < names.len() && names[i] == name
}

pub open spec fn names_view(names: Seq<String>) -> Seq<Seq<char>> {
    Seq::new(names.len(), |i: int| names[i]@)
}

fn find_file(names: &Vec<String>, name: &str) -> (r: bool)
    ensures
        r == has_file(names_view(names@), name@),
{
    let n = names.len();
    let mut i: usize = 0;
    while i < n
        invariant
            i <= n,
            n == names@.len(),
            forall|j: int| 0 <= j < i ==> #[trigger] names_view(names@)[j] != name@,
        decreases n - i,
    {
        if str_eq(names[i].as_str(), name) {
            proof {
                assert(names_view(names@)[i as int] == name@);
            }
            return true;
        }
        proof {
            assert(names_view(names@)[i as int] == names@[i as int]@);
        }
        i += 1;
    }
    proof {
        if has_file(names_view(names@), name@) {
            let j = choose|j: int|
                0 <= j < names_view(names@).len() && names_view(names@)[j] == name@;
        }
    }
    false
}

/// Decide an update: the rule's file must already exist, otherwise the
/// entity is not found; on success the file is rewritten in place.
pub fn update_rule_in_files(names: &Vec<String>, id: &Uid, rule: &TopicRoutingRule) -> (r: Result<
    (String, String),
    StorageError,
>)
    ensures
        r is Ok <==> has_file(names_view(names@), entity_file_name(id@)),
        r matches Ok(f) ==> f.0@ == entity_file_name(id@) && f.1@ == jtext(rule_to_jm(rule@)),
        r matches Err(e) ==> e is NotFound,
{
    let name = file_name_for(id);
    if find_file(names, name.as_str()) {
        Ok((name, rule.to_json()))
    } else {
        Err(StorageError::NotFound)
    }
}

/// Decide a delete: the file must exist, otherwise the entity is not
/// found; on success the named file is removed.
pub fn delete_in_files(names: &Vec<String>, id: &Uid) -> (r: Result<String, StorageError>)
    ensures
        r is Ok <==> has_file(names_view(names@), entity_file_name(id@)),
        r matches Ok(f) ==> f@ == entity_file_name(id@),
        r matches Err(e) ==> e is NotFound,
{
    let name = file_name_for(id);
    if find_file(names, name.as_str()) {
        Ok(name)
    } else {
        Err(StorageError::NotFound)
    }
}

pub open spec fn contents_view(contents: Seq<String>) -> Seq<Seq<char>> {
    Seq::new(contents.len(), |i: int| contents[i]@)
}

/// Every file parses as a rule.
pub open spec fn all_rules_parse(contents: Seq<Seq<char>>) -> bool {
    forall|i: int| 0 <= i < contents.len() ==> (#[trigger] rule_from_text(contents[i])) is Some
}

/// The rules the files hold, in file order.
pub open spec fn parsed_rules(contents: Seq<Seq<char>>) -> Seq<RuleModel> {
    Seq::new(contents.len(), |i: int| rule_from_text(contents[i]).unwrap())
}

/// Rules in ascending `order`.
pub open spec fn sorted_by_order(rs: Seq<RuleModel>) -> bool {
    forall|i: int, j: int| 0 <= i < j < rs.len() ==> (#[trigger] rs[i]).order <= (
    #[trigger] rs[j]).order
}

/// Read a rules directory back: parse every file and sort ascending by
/// `order`. Fails with a serialization error exactly when some file
/// does not parse.
#[verifier::loop_isolation(false)]
pub fn rules_from_files(contents: &Vec<String>) -> (r: Result<Vec<TopicRoutingRule>, StorageError>)
    ensures
        r is Ok <==> all_rules_parse(contents_view(contents@)),
        r matches Ok(rs) ==> {
            &&& crate::router::rules_view(rs@).to_multiset() == parsed_rules(
                contents_view(contents@),
            ).to_multiset()
            &&& sorted_by_order(crate::router::rules_view(rs@))
        },
        r matches Err(e) ==> e is SerializationError,
{
    broadcast use vstd::seq_lib::group_to_multiset_ensures;

    let n = contents.len();
    let mut parsed: Vec<TopicRoutingRule> = Vec::new();
    let mut i: usize = 0;
    while i < n
        invariant
            i <= n,
            parsed@.len() == i,
            forall|j: int| 0 <= j < i ==> rule_from_text(contents_view(contents@)[j]) == Some(
                (#[trigger] parsed@[j])@,
            ),
        decreases n - i,
    {
        match TopicRoutingRule::from_json(contents[i].as_str()) {
            Some(rule) => {
                parsed.push(rule);
            },
            None => {
                proof {
                    assert(rule_from_text(contents_view(contents@)[i as int]) is None);
                }
                return Err(
                    StorageError::SerializationError(String::from_str("rule file does not parse")),
                );
            },
        }
        i += 1;
    }
    proof {
        assert forall|j: int| 0 <= j < contents_view(contents@).len() implies (
        #[trigger] rule_from_text(contents_view(contents@)[j])) is Some by {
            assert(rule_from_text(contents_view(contents@)[j]) == Some(parsed@[j]@));
        }
        assert(crate::router::rules_view(parsed@) =~= parsed_rules(contents_view(contents@)));
    }
    let sorted = sort_rules(parsed);
    Ok(sorted)
}

/// Sort rules ascending by `order` (selection sort; ties keep a
/// deterministic order).
#[verifier::loop_isolation(false)]
fn sort_rules(rules: Vec<TopicRoutingRule>) -> (r: Vec<TopicRoutingRule>)
    ensures
        crate::router::rules_view(r@).to_multiset() == crate::router::rules_view(
            rules@,
        ).to_multiset(),
        sorted_by_order(crate::router::rules_view(r@)),
{
    broadcast use vstd::seq_lib::group_to_multiset_ensures;

    let mut remaining = rules;
    let mut out: Vec<TopicRoutingRule> = Vec::new();
    let ghost orig = crate::router::rules_view(remaining@);
    proof {
        assert(crate::router::rules_view(out@) =~= Seq::<RuleModel>::empty());
        assert(crate::router::rules_view(out@).to_multiset().add(
            crate::router::rules_view(remaining@).to_multiset(),
        ) =~= orig.to_multiset());
    }
    while remaining.len() > 0
        invariant
            crate::router::rules_view(out@).to_multiset().add(
                crate::router::rules_view(remaining@).to_multiset(),
            ) == orig.to_multiset(),
            sorted_by_order(crate::router::rules_view(out@)),
            forall|i: int, j: int|
                0 <= i < out@.len() && 0 <= j < remaining@.len() ==> (
                #[trigger] crate::router::rules_view(out@)[i]).order <= (
                #[trigger] crate::router::rules_view(remaining@)[j]).order,
        decreases remaining@.len(),
    {
        let m = remaining.len();
        let mut best: usize = 0;
        let mut k: usize = 1;
        while k < m
            invariant
                m == remaining@.len(),
                0 < m,
                best < k <= m || (k <= m && best == 0),
                best < m,
                k <= m,
                forall|j: int| 0 <= j < k ==> (#[trigger] crate::router::rules_view(
                    remaining@,
                )[best as int]).order <= crate::router::rules_view(remaining@)[j].order,
            decreases m - k,
        {
            if remaining[k].order < remaining[best].order {
                best = k;
            }
            proof {
                assert(crate::router::rules_view(remaining@)[k as int] == remaining@[k as int]@);
            }
            k += 1;
        }
        let ghost pre_out = crate::router::rules_view(out@);
        let ghost pre_rem = crate::router::rules_view(remaining@);
        let picked = remaining.remove(best);
        out.push(picked);
        proof {
            assert(crate::router::rules_view(out@) =~= pre_out.push(picked@));
            assert(crate::router::rules_view(remaining@) =~= pre_rem.remove(best as int));
            assert(pre_rem[best as int] == picked@);
            assert(pre_rem.remove(best as int).to_multiset() =~= pre_rem.to_multiset().remove(
                picked@,
            ));
            assert(pre_out.push(picked@).to_multiset() =~= pre_out.to_multiset().insert(picked@));
            assert(pre_out.to_multiset().insert(picked@).add(
                pre_rem.to_multiset().remove(picked@),
            ) =~= pre_out.to_multiset().add(pre_rem.to_multiset())) by {
                assert(pre_rem.to_multiset().count(picked@) > 0);
            }
            assert forall|i: int, j: int|
                0 <= i < out@.len() && 0 <= j < remaining@.len() implies (
            #[trigger] crate::router::rules_view(out@)[i]).order <= (
            #[trigger] crate::router::rules_view(remaining@)[j]).order by {
                let jj = if j < best { j } else { j + 1 };
                assert(pre_rem.remove(best as int)[j] == pre_rem[jj]);
                if i < pre_out.len() {
                    assert(crate::router::rules_view(out@)[i] == pre_out[i]);
                } else {
                    assert(crate::router::rules_view(out@)[i] == picked@);
                    assert(picked@.order <= pre_rem[jj].order);
                }
            }
            assert forall|i: int, j: int|
                0 <= i < j < out@.len() implies (#[trigger] crate::router::rules_view(
                out@,
            )[i]).order <= (#[trigger] crate::router::rules_view(out@)[j]).order by {
                if j < pre_out.len() {
                } else {
                    assert(crate::router::rules_view(out@)[j] == picked@);
                    if i < pre_out.len() {
                        assert(pre_out[i].order <= pre_rem[best as int].order);
                    }
                }
            }
        }
    }
    proof {
        assert(crate::router::rules_view(remaining@) =~= Seq::<RuleModel>::empty());
        assert(crate::router::rules_view(out@).to_multiset().add(
            Seq::<RuleModel>::empty().to_multiset(),
        ) =~= crate::router::rules_view(out@).to_multiset());
    }
    out
}

/// Every file parses as a validation binding.
pub open spec fn all_validations_parse(contents: Seq<Seq<char>>) -> bool {
    forall|i: int| 0 <= i < contents.len() ==> (#[trigger] vc_from_text(contents[i])) is Some
}

pub open spec fn parsed_validations(contents: Seq<Seq<char>>) -> Seq<ValidationConfigModel> {
    Seq::new(contents.len(), |i: int| vc_from_text(contents[i]).unwrap())
}

/// Read a validations directory back, in file order. Fails with a
/// serialization error exactly when some file does not parse.
#[verifier::loop_isolation(false)]
pub fn validations_from_files(contents: &Vec<String>) -> (r: Result<
    Vec<TopicValidationConfig>,
    StorageError,
>)
    ensures
        r is Ok <==> all_validations_parse(contents_view(contents@)),
        r matches Ok(vs) ==> crate::storage::validations_view(vs@) == parsed_validations(
            contents_view(contents@),
        ),
        r matches Err(e) ==> e is SerializationError,
{
    let n = contents.len();
    let mut parsed: Vec<TopicValidationConfig> = Vec::new();
    let mut i: usize = 0;
    while i < n
        invariant
            i <= n,
            parsed@.len() == i,
            forall|j: int| 0 <= j < i ==> vc_from_text(contents_view(contents@)[j]) == Some(
                (#[trigger] parsed@[j])@,
            ),
        decreases n - i,
    {
        match TopicValidationConfig::from_json(contents[i].as_str()) {
            Some(v) => {
                parsed.push(v);
            },
            None => {
                proof {
                    assert(vc_from_text(contents_view(contents@)[i as int]) is None);
                }
                return Err(
                    StorageError::SerializationError(
                        String::from_str("validation file does not parse"),
                    ),
                );
            },
        }
        i += 1;
    }
    proof {
        assert forall|j: int| 0 <= j < contents_view(contents@).len() implies (
        #[trigger] vc_from_text(contents_view(contents@)[j])) is Some by {
            assert(vc_from_text(contents_view(contents@)[j]) == Some(parsed@[j]@));
        }
        assert(crate::storage::validations_view(parsed@) =~= parsed_validations(
            contents_view(contents@),
        ));
    }
    Ok(parsed)
}


// ------------------------------------------------------------------
// Archived-event listings
// ------------------------------------------------------------------

/// Every file parses as an archive row.
pub open spec fn all_events_parse(contents: Seq<Seq<char>>) -> bool {
    forall|i: int|
        0 <= i < contents.len() ==> (#[trigger] crate::storage::stored_event_from_text(
            contents[i],
        )) is Some
}

pub open spec fn parsed_events(contents: Seq<Seq<char>>) -> Seq<StoredEventModel> {
    Seq::new(contents.len(), |i: int| crate::storage::stored_event_from_text(contents[i]).unwrap())
}

pub open spec fn events_view(rows: Seq<StoredEvent>) -> Seq<StoredEventModel> {
    Seq::new(rows.len(), |i: int| rows[i]@)
}

/// Read an events directory back, in file order. Fails with a
/// serialization error exactly when some file does not parse.
#[verifier::loop_isolation(false)]
pub fn stored_events_from_files(contents: &Vec<String>) -> (r: Result<
    Vec<StoredEvent>,
    StorageError,
>)
    ensures
        r is Ok <==> all_events_parse(contents_view(contents@)),
        r matches Ok(rows) ==> events_view(rows@) == parsed_events(contents_view(contents@)),
        r matches Err(e) ==> e is SerializationError,
{
    let n = contents.len();
    let mut parsed: Vec<StoredEvent> = Vec::new();
    let mut i: usize = 0;
    while i < n
        invariant
            i <= n,
            parsed@.len() == i,
            forall|j: int|
                0 <= j < i ==> crate::storage::stored_event_from_text(contents_view(contents@)[j])
                    == Some((#[trigger] parsed@[j])@),
        decreases n - i,
    {
        match StoredEvent::from_json(contents[i].as_str()) {
            Some(row) => {
                parsed.push(row);
            },
            None => {
                proof {
                    assert(crate::storage::stored_event_from_text(
                        contents_view(contents@)[i as int],
                    ) is None);
                }
                return Err(
                    StorageError::SerializationError(String::from_str("event file does not parse")),
                );
            },
        }
        i += 1;
    }
    proof {
        assert forall|j: int| 0 <= j < contents_view(contents@).len() implies (
        #[trigger] crate::storage::stored_event_from_text(contents_view(contents@)[j])) is Some by {
            assert(crate::storage::stored_event_from_text(contents_view(contents@)[j]) == Some(
                parsed@[j]@,
            ));
        }
        assert(events_view(parsed@) =~= parsed_events(contents_view(contents@)));
    }
    Ok(parsed)
}

/// The rows of one event type, in their held order.
#[verifier::loop_isolation(false)]
pub fn filter_events_by_type(rows: &Vec<StoredEvent>, event_type: &str) -> (r: Vec<StoredEvent>)
    ensures
        events_view(r@) == events_view(rows@).filter(
            |m: StoredEventModel| m.event_type == event_type@,
        ),
{
    let ghost vals = events_view(rows@);
    let ghost keep = |m: StoredEventModel| m.event_type == event_type@;
    let n = rows.len();
    let mut out: Vec<StoredEvent> = Vec::new();
    let mut i: usize = 0;
    while i < n
        invariant
            i <= n,
            events_view(out@) == vals.take(i as int).filter(keep),
        decreases n - i,
    {
        proof {
            reveal(Seq::filter);
            assert(vals.take(i + 1).drop_last() =~= vals.take(i as int));
            assert(vals.take(i + 1).last() == vals[i as int]);
            assert(vals[i as int] == rows@[i as int]@);
        }
        if str_eq(rows[i].event_type.as_str(), event_type) {
            let ghost pre = events_view(out@);
            out.push(rows[i].clone());
            proof {
                assert(keep(vals[i as int]));
                assert(events_view(out@) =~= pre.push(vals[i as int]));
            }
        } else {
            proof {
                assert(!keep(vals[i as int]));
            }
        }
        i += 1;
    }
    proof {
        assert(vals.take(n as int) =~= vals);
    }
    out
}

/// The rows archived under one routing rule, in their held order.
#[verifier::loop_isolation(false)]
pub fn filter_events_by_routing(rows: &Vec<StoredEvent>, routing_id: &Uid) -> (r: Vec<StoredEvent>)
    ensures
        events_view(r@) == events_view(rows@).filter(
            |m: StoredEventModel| m.routing_id == Some(routing_id@),
        ),
{
    let ghost vals = events_view(rows@);
    let ghost keep = |m: StoredEventModel| m.routing_id == Some(routing_id@);
    let n = rows.len();
    let mut out: Vec<StoredEvent> = Vec::new();
    let mut i: usize = 0;
    while i < n
        invariant
            i <= n,
            events_view(out@) == vals.take(i as int).filter(keep),
        decreases n - i,
    {
        proof {
            reveal(Seq::filter);
            assert(vals.take(i + 1).drop_last() =~= vals.take(i as int));
            assert(vals.take(i + 1).last() == vals[i as int]);
            assert(vals[i as int] == rows@[i as int]@);
        }
        let matches_rule = match &rows[i].routing_id {
            Some(rid) => rid == routing_id,
            None => false,
        };
        if matches_rule {
            let ghost pre = events_view(out@);
            out.push(rows[i].clone());
            proof {
                assert(keep(vals[i as int]));
                assert(events_view(out@) =~= pre.push(vals[i as int]));
            }
        } else {
            proof {
                assert(!keep(vals[i as int]));
            }
        }
        i += 1;
    }
    proof {
        assert(vals.take(n as int) =~= vals);
    }
    out
}

/// Rows in newest-first order.
pub open spec fn sorted_by_stored_at_desc(rs: Seq<StoredEventModel>) -> bool {
    forall|i: int, j: int|
        0 <= i < j < rs.len() ==> (#[trigger] rs[i]).stored_at >= (#[trigger] rs[j]).stored_at
}

/// Sort rows newest first (selection sort; ties keep a deterministic
/// order).
#[verifier::loop_isolation(false)]
pub fn sort_events_by_stored_at_desc(rows: Vec<StoredEvent>) -> (r: Vec<StoredEvent>)
    ensures
        events_view(r@).to_multiset() == events_view(rows@).to_multiset(),
        sorted_by_stored_at_desc(events_view(r@)),
{
    broadcast use vstd::seq_lib::group_to_multiset_ensures;

    let mut remaining = rows;
    let mut out: Vec<StoredEvent> = Vec::new();
    let ghost orig = events_view(remaining@);
    proof {
        assert(events_view(out@) =~= Seq::<StoredEventModel>::empty());
        assert(events_view(out@).to_multiset().add(events_view(remaining@).to_multiset())
            =~= orig.to_multiset());
    }
    while remaining.len() > 0
        invariant
            events_view(out@).to_multiset().add(events_view(remaining@).to_multiset())
                == orig.to_multiset(),
            sorted_by_stored_at_desc(events_view(out@)),
            forall|i: int, j: int|
                0 <= i < out@.len() && 0 <= j < remaining@.len() ==> (#[trigger] events_view(
                    out@,
                )[i]).stored_at >= (#[trigger] events_view(remaining@)[j]).stored_at,
        decreases remaining@.len(),
    {
        let m = remaining.len();
        let mut best: usize = 0;
        let mut k: usize = 1;
        while k < m
            invariant
                m == remaining@.len(),
                0 < m,
                best < m,
                k <= m,
                forall|j: int| 0 <= j < k ==> (#[trigger] events_view(
                    remaining@,
                )[best as int]).stored_at >= events_view(remaining@)[j].stored_at,
            decreases m - k,
        {
            if remaining[k].stored_at > remaining[best].stored_at {
                best = k;
            }
            proof {
                assert(events_view(remaining@)[k as int] == remaining@[k as int]@);
            }
            k += 1;
        }
        let ghost pre_out = events_view(out@);
        let ghost pre_rem = events_view(remaining@);
        let picked = remaining.remove(best);
        out.push(picked);
        proof {
            assert(events_view(out@) =~= pre_out.push(picked@));
            assert(events_view(remaining@) =~= pre_rem.remove(best as int));
            assert(pre_rem[best as int] == picked@);
            assert(pre_rem.remove(best as int).to_multiset() =~= pre_rem.to_multiset().remove(
                picked@,
            ));
            assert(pre_out.push(picked@).to_multiset() =~= pre_out.to_multiset().insert(picked@));
            assert(pre_out.to_multiset().insert(picked@).add(
                pre_rem.to_multiset().remove(picked@),
            ) =~= pre_out.to_multiset().add(pre_rem.to_multiset())) by {
                assert(pre_rem.to_multiset().count(picked@) > 0);
            }
            assert forall|i: int, j: int|
                0 <= i < out@.len() && 0 <= j < remaining@.len() implies (#[trigger] events_view(
                out@,
            )[i]).stored_at >= (#[trigger] events_view(remaining@)[j]).stored_at by {
                let jj = if j < best { j } else { j + 1 };
                assert(pre_rem.remove(best as int)[j] == pre_rem[jj]);
                if i < pre_out.len() {
                    assert(events_view(out@)[i] == pre_out[i]);
                } else {
                    assert(events_view(out@)[i] == picked@);
                    assert(picked@.stored_at >= pre_rem[jj].stored_at);
                }
            }
            assert forall|i: int, j: int|
                0 <= i < j < out@.len() implies (#[trigger] events_view(out@)[i]).stored_at >= (
            #[trigger] events_view(out@)[j]).stored_at by {
                if j < pre_out.len() {
                } else {
                    assert(events_view(out@)[j] == picked@);
                    if i < pre_out.len() {
                        assert(pre_out[i].stored_at >= pre_rem[best as int].stored_at);
                    }
                }
            }
        }
    }
    proof {
        assert(events_view(remaining@) =~= Seq::<StoredEventModel>::empty());
        assert(events_view(out@).to_multiset().add(
            Seq::<StoredEventModel>::empty().to_multiset(),
        ) =~= events_view(out@).to_multiset());
    }
    out
}

/// One page of a listing: `offset` rows skipped, at most `limit` rows
/// kept; values outside the range clamp to it.
pub open spec fn page_of(s: Seq<StoredEventModel>, limit: int, offset: int) -> Seq<
    StoredEventModel,
> {
    let start = if offset < 0 {
        0
    } else if offset > s.len() {
        s.len() as int
    } else {
        offset
    };
    let end0 = if limit < 0 {
        start
    } else {
        start + limit
    };
    let end = if end0 > s.len() {
        s.len() as int
    } else {
        end0
    };
    s.subrange(start, end)
}

/// The requested page of the rows.
#[verifier::loop_isolation(false)]
pub fn page_events(rows: &Vec<StoredEvent>, limit: i64, offset: i64) -> (r: Vec<StoredEvent>)
    ensures
        events_view(r@) == page_of(events_view(rows@), limit as int, offset as int),
{
    let ghost vals = events_view(rows@);
    let n = rows.len();
    let start: usize = if offset < 0 {
        0
    } else {
        let off = offset as u64;
        if off >= n as u64 {
            n
        } else {
            off as usize
        }
    };
    let end: usize = if limit < 0 {
        start
    } else {
        let lim = limit as u64;
        if lim >= (n - start) as u64 {
            n
        } else {
            start + lim as usize
        }
    };
    proof {
        let sstart = if offset < 0 {
            0int
        } else if offset > vals.len() {
            vals.len() as int
        } else {
            offset as int
        };
        let send0 = if limit < 0 {
            sstart
        } else {
            sstart + limit
        };
        let send = if send0 > vals.len() {
            vals.len() as int
        } else {
            send0
        };
        assert(start as int == sstart);
        assert(end as int == send);
    }
    let mut out: Vec<StoredEvent> = Vec::new();
    let mut i: usize = start;
    while i < end
        invariant
            start <= i <= end <= n,
            n == rows@.len(),
            events_view(out@) == vals.subrange(start as int, i as int),
        decreases end - i,
    {
        let ghost pre = events_view(out@);
        out.push(rows[i].clone());
        proof {
            assert(events_view(out@) =~= pre.push(vals[i as int]));
            assert(vals.subrange(start as int, i as int).push(vals[i as int]) =~= vals.subrange(
                start as int,
                i + 1,
            ));
        }
        i += 1;
    }
    proof {
        assert(events_view(out@) =~= page_of(vals, limit as int, offset as int));
    }
    out
}

} // verus!
