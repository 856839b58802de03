//! The storage port: rule, validation and event persistence.

use vstd::prelude::*;
use vstd::string::StringExecFns;
use crate::event::{Data, Event, EventModel};
use crate::json::JsonValue;
use crate::router::rules_view;
use crate::routing::{
    DataSchema, DataSchemaModel, RuleModel, TopicRoutingRule, TopicValidationConfig,
    ValidationConfigModel,
};
use crate::uid::Uid;

verus! {

/// Failures the storage backends report.
#[derive(Debug)]
pub enum StorageError {
    NotFound,
    IoError(String),
    SerializationError(String),
    DatabaseError(String),
    PoolError(String),
    Other(String),
}

/// One archived event row.
pub struct StoredEvent {
    pub id: Uid,
    pub event_id: Uid,
    pub event_type: String,
    pub event_version: Option<String>,
    pub routing_id: Option<Uid>,
    pub destination_topic: Option<String>,
    pub failure_reason: Option<String>,
    pub stored_at: i64,
    pub event_data: JsonValue,
}

/// The mathematical shape of an archive row.
#[verifier::ext_equal]
pub struct StoredEventModel {
    pub id: Seq<u8>,
    pub event_id: Seq<u8>,
    pub event_type: Seq<char>,
    pub event_version: Option<Seq<char>>,
    pub routing_id: Option<Seq<u8>>,
    pub destination_topic: Option<Seq<char>>,
    pub failure_reason: Option<Seq<char>>,
    pub stored_at: int,
    pub event_data: crate::json::JsonModel,
}

impl View for StoredEvent {
    type V = StoredEventModel;

    open spec fn view(&self) -> StoredEventModel {
        StoredEventModel {
            id: self.id@,
            event_id: self.event_id@,
            event_type: self.event_type@,
            event_version: crate::event::opt_str_view(self.event_version),
            routing_id: match self.routing_id {
                Some(u) => Some(u@),
                None => None,
            },
            destination_topic: crate::event::opt_str_view(self.destination_topic),
            failure_reason: crate::event::opt_str_view(self.failure_reason),
            stored_at: self.stored_at as int,
            event_data: self.event_data@,
        }
    }
}

impl StoredEvent {
    /// The JSON document this archive row serializes to.
    pub fn to_value(&self) -> (r: JsonValue)
        ensures
            r@ == stored_event_jm(self@),
    {
        let opt_text = |o: &Option<String>| -> (rr: JsonValue)
            ensures
                rr@ == crate::event::opt_text_jm(crate::event::opt_str_view(*o)),
            {
                match o {
                    Some(s) => JsonValue::Text(s.clone()),
                    None => JsonValue::Null,
                }
            };
        let mut fields: Vec<(String, JsonValue)> = Vec::new();
        fields.push((String::from_str("id"), JsonValue::Text(self.id.to_text())));
        fields.push((String::from_str("eventId"), JsonValue::Text(self.event_id.to_text())));
        fields.push((String::from_str("eventType"), JsonValue::Text(self.event_type.clone())));
        fields.push((String::from_str("eventVersion"), opt_text(&self.event_version)));
        fields.push(
            (
                String::from_str("routingId"),
                match &self.routing_id {
                    Some(u) => JsonValue::Text(u.to_text()),
                    None => JsonValue::Null,
                },
            ),
        );
        fields.push((String::from_str("destinationTopic"), opt_text(&self.destination_topic)));
        fields.push((String::from_str("failureReason"), opt_text(&self.failure_reason)));
        fields.push((String::from_str("storedAt"), JsonValue::Int(self.stored_at)));
        fields.push((String::from_str("eventData"), self.event_data.clone()));
        let r = JsonValue::Obj(fields);
        proof {
            crate::json::lemma_jview_fields_index(fields@);
            assert(crate::json::jview_fields(fields@) =~= stored_event_jm(self@)->Obj_0);
        }
        r
    }
}

/// The JSON shape of an archive row.
pub open spec fn stored_event_jm(m: StoredEventModel) -> crate::json::JsonModel {
    crate::json::JsonModel::Obj(
        seq![
            ("id"@, crate::json::JsonModel::Text(crate::uid::uid_text(m.id))),
            ("eventId"@, crate::json::JsonModel::Text(crate::uid::uid_text(m.event_id))),
            ("eventType"@, crate::json::JsonModel::Text(m.event_type)),
            ("eventVersion"@, crate::event::opt_text_jm(m.event_version)),
            (
                "routingId"@,
                match m.routing_id {
                    Some(u) => crate::json::JsonModel::Text(crate::uid::uid_text(u)),
                    None => crate::json::JsonModel::Null,
                },
            ),
            ("destinationTopic"@, crate::event::opt_text_jm(m.destination_topic)),
            ("failureReason"@, crate::event::opt_text_jm(m.failure_reason)),
            ("storedAt"@, crate::json::JsonModel::Int(m.stored_at)),
            ("eventData"@, m.event_data),
        ],
    )
}

/// Build the archive row for one stored event: the caller supplies the
/// fresh row id and the wall-clock instant, everything else is drawn
/// from the event and the routing outcome.
pub fn build_archive_row(
    event: &Event,
    routing_id: Option<Uid>,
    destination_topic: Option<String>,
    failure_reason: Option<String>,
    row_id: Uid,
    stored_at: i64,
) -> (r: StoredEvent)
    ensures
        archived_record(
            r@,
            event@,
            match routing_id {
                Some(u) => Some(u@),
                None => None,
            },
            crate::event::opt_str_view(destination_topic),
            crate::event::opt_str_view(failure_reason),
        ),
        r@.id == row_id@,
        r@.stored_at == stored_at,
        r@.event_data == crate::event::data_content_jm(event@.data),
{
    StoredEvent {
        id: row_id,
        event_id: event.id,
        event_type: event.event_type.clone(),
        event_version: match &event.event_version {
            Some(s) => Some(s.clone()),
            None => None,
        },
        routing_id,
        destination_topic,
        failure_reason,
        stored_at,
        event_data: event.data.content_value(),
    }
}

pub open spec fn validations_view(vs: Seq<TopicValidationConfig>) -> Seq<ValidationConfigModel> {
    Seq::new(vs.len(), |i: int| vs[i]@)
}

pub open spec fn schemas_view(ds: Seq<DataSchema>) -> Seq<DataSchemaModel> {
    Seq::new(ds.len(), |i: int| ds[i]@)
}

/// The schemas bound to one topic, in the order their bindings are held.
pub open spec fn schemas_for_topic(vals: Seq<ValidationConfigModel>, topic: Seq<char>) -> Seq<
    DataSchemaModel,
> {
    vals.filter(|v: ValidationConfigModel| v.topic == topic).map_values(
        |v: ValidationConfigModel| v.schema,
    )
}

/// An event of the sample listing rebuilt from an archive row: the
/// identity, type, version and instant come from the row.
pub open spec fn sampled_from(e: EventModel, row: StoredEventModel) -> bool {
    &&& e.id == row.event_id
    &&& e.event_type == row.event_type
    &&& e.event_version == row.event_version
    &&& e.timestamp == Some(row.stored_at)
}

/// A conforming sample page: the total is the archive's size and every
/// event of the page is rebuilt from some archived row.
pub open spec fn sample_page_ok(page: Seq<Event>, total: i64, rows: Seq<StoredEventModel>) -> bool {
    &&& total as int == rows.len()
    &&& page.len() <= rows.len()
    &&& forall|i: int|
        0 <= i < page.len() ==> exists|j: int|
            0 <= j < rows.len() && sampled_from((#[trigger] page[i])@, rows[j])
}

/// What an archive row must carry for a stored event.
pub open spec fn archived_record(
    rec: StoredEventModel,
    e: EventModel,
    routing_id: Option<Seq<u8>>,
    destination_topic: Option<Seq<char>>,
    failure_reason: Option<Seq<char>>,
) -> bool {
    &&& rec.event_id == e.id
    &&& rec.event_type == e.event_type
    &&& rec.event_version == e.event_version
    &&& rec.routing_id == routing_id
    &&& rec.destination_topic == destination_topic
    &&& rec.failure_reason == failure_reason
}

/// The storage port. The abstract state is an ordered rule list (the
/// backend keeps it sorted ascending by `order`), a flat list of
/// validation bindings, and the archived rows.
pub trait Storage: Sized {
    spec fn rules(&self) -> Seq<RuleModel>;

    spec fn validations(&self) -> Seq<ValidationConfigModel>;

    spec fn events(&self) -> Seq<StoredEventModel>;

    /// Add a rule. On success the stored rules are the old ones plus
    /// this one, reordered as the backend keeps them.
    fn add_rule(&mut self, rule: &TopicRoutingRule) -> (r: Result<(), StorageError>)
        ensures
            r is Ok ==> ({
                &&& final(self).rules().to_multiset() == old(self).rules().to_multiset().insert(
                    rule@,
                )
                &&& final(self).validations() == old(self).validations()
                &&& final(self).events() == old(self).events()
            }),
            r is Err ==> *final(self) == *old(self),
    ;

    /// The first stored rule with this id, if any.
    fn get_rule(&self, id: Uid) -> (r: Result<Option<TopicRoutingRule>, StorageError>)
        ensures
            r matches Ok(Some(rule)) ==> self.rules().contains(rule@) && rule@.id == id@,
            r matches Ok(None) ==> forall|i: int| 0 <= i < self.rules().len() ==> (
            #[trigger] self.rules()[i]).id != id@,
    ;

    /// All rules, in the stored order.
    fn get_all_rules(&self) -> (r: Result<Vec<TopicRoutingRule>, StorageError>)
        ensures
            r matches Ok(rs) ==> rules_view(rs@) == self.rules(),
    ;

    /// Replace the rule with this id: on success one rule that carried
    /// the id is gone, the new rule is stored, and every other rule
    /// survives.
    fn update_rule(&mut self, id: Uid, rule: &TopicRoutingRule) -> (r: Result<(), StorageError>)
        ensures
            r is Ok ==> ({
                &&& exists|prev: RuleModel|
                    prev.id == id@ && #[trigger] old(self).rules().to_multiset().count(prev) > 0
                        && final(self).rules().to_multiset() == old(
                        self,
                    ).rules().to_multiset().remove(prev).insert(rule@)
                &&& final(self).validations() == old(self).validations()
                &&& final(self).events() == old(self).events()
            }),
            r is Err ==> *final(self) == *old(self),
    ;

    /// Remove the rules with this id; every other rule survives in its
    /// place.
    fn delete_rule(&mut self, id: Uid) -> (r: Result<(), StorageError>)
        ensures
            r is Ok ==> ({
                &&& final(self).rules() == old(self).rules().filter(
                    |rm: RuleModel| rm.id != id@,
                )
                &&& final(self).validations() == old(self).validations()
                &&& final(self).events() == old(self).events()
            }),
            r is Err ==> *final(self) == *old(self),
    ;

    /// Add a validation binding: on success the stored bindings are the
    /// old ones plus this one.
    fn add_topic_validation(&mut self, v: &TopicValidationConfig) -> (r: Result<
        (),
        StorageError,
    >)
        ensures
            r is Ok ==> ({
                &&& final(self).validations().to_multiset() == old(
                    self,
                ).validations().to_multiset().insert(v@)
                &&& final(self).rules() == old(self).rules()
                &&& final(self).events() == old(self).events()
            }),
            r is Err ==> *final(self) == *old(self),
    ;

    /// All validation bindings, in the stored order.
    fn get_all_topic_validations(&self) -> (r: Result<Vec<TopicValidationConfig>, StorageError>)
        ensures
            r matches Ok(vs) ==> validations_view(vs@) == self.validations(),
    ;

    /// The schemas bound to one topic.
    fn get_validations_for_topic(&self, topic: &str) -> (r: Result<Vec<DataSchema>, StorageError>)
        ensures
            r matches Ok(ds) ==> schemas_view(ds@) == schemas_for_topic(
                self.validations(),
                topic@,
            ),
    ;

    /// Remove the bindings with this id; every other binding survives
    /// in its place.
    fn delete_topic_validation(&mut self, id: &Uid) -> (r: Result<(), StorageError>)
        ensures
            r is Ok ==> ({
                &&& final(self).validations() == old(self).validations().filter(
                    |vm: ValidationConfigModel| vm.id != id@,
                )
                &&& final(self).rules() == old(self).rules()
                &&& final(self).events() == old(self).events()
            }),
            r is Err ==> *final(self) == *old(self),
    ;

    /// Archive one event with its routing outcome.
    fn store_event(
        &mut self,
        event: &Event,
        routing_id: Option<Uid>,
        destination_topic: Option<String>,
        failure_reason: Option<String>,
    ) -> (r: Result<(), StorageError>)
        ensures
            r is Ok ==> {
                &&& final(self).events().len() == old(self).events().len() + 1
                &&& archived_record(
                    final(self).events().last(),
                    event@,
                    match routing_id {
                        Some(u) => Some(u@),
                        None => None,
                    },
                    crate::event::opt_str_view(destination_topic),
                    crate::event::opt_str_view(failure_reason),
                )
                &&& final(self).events().drop_last() == old(self).events()
                &&& final(self).rules() == old(self).rules()
                &&& final(self).validations() == old(self).validations()
            },
            r is Err ==> *final(self) == *old(self),
    ;

    /// The archived row with this id, if any.
    fn get_event(&self, id: Uid) -> (r: Result<Option<StoredEvent>, StorageError>)
        ensures
            r matches Ok(Some(ev)) ==> self.events().contains(ev@) && ev@.id == id@,
            r matches Ok(None) ==> forall|i: int|
                0 <= i < self.events().len() ==> (#[trigger] self.events()[i]).id != id@,
    ;

    /// Archived rows of one event type, newest first, paginated.
    fn get_events_by_type(&self, event_type: &str, limit: i64, offset: i64) -> (r: Result<
        Vec<StoredEvent>,
        StorageError,
    >)
        ensures
            r matches Ok(evs) ==> forall|i: int|
                0 <= i < evs@.len() ==> self.events().contains((#[trigger] evs@[i])@) && evs@[i]@
                    .event_type == event_type@,
    ;

    /// Archived rows of one routing rule, newest first, paginated.
    fn get_events_by_routing(&self, routing_id: Uid, limit: i64, offset: i64) -> (r: Result<
        Vec<StoredEvent>,
        StorageError,
    >)
        ensures
            r matches Ok(evs) ==> forall|i: int|
                0 <= i < evs@.len() ==> self.events().contains((#[trigger] evs@[i])@) && evs@[i]@
                    .routing_id == Some(routing_id@),
    ;

    /// A page of archived events and the total row count: the total is
    /// the archive's size, and every event of the page is rebuilt from
    /// some archived row.
    fn get_sample_events(&self, limit: i64, offset: i64) -> (r: Result<
        (Vec<Event>, i64),
        StorageError,
    >)
        ensures
            r matches Ok(p) ==> sample_page_ok(p.0@, p.1, self.events()),
    ;
}

/// A read-only snapshot storage: rules and bindings fixed at
/// construction, every mutation refused.
pub struct InMemoryStorage {
    routing_rules: Vec<TopicRoutingRule>,
    topic_validations: Vec<TopicValidationConfig>,
}

impl InMemoryStorage {
    /// An empty snapshot.
    pub fn new() -> (r: InMemoryStorage)
        ensures
            r.rules() == Seq::<RuleModel>::empty(),
            r.validations() == Seq::<ValidationConfigModel>::empty(),
    {
        let r = InMemoryStorage { routing_rules: Vec::new(), topic_validations: Vec::new() };
        proof {
            assert(rules_view(r.routing_rules@) =~= Seq::<RuleModel>::empty());
            assert(validations_view(r.topic_validations@) =~= Seq::<ValidationConfigModel>::empty());
        }
        r
    }

    /// The same snapshot with these rules.
    pub fn with_initial_routing_rules(self, rules: Vec<TopicRoutingRule>) -> (r: InMemoryStorage)
        ensures
            r.rules() == rules_view(rules@),
            r.validations() == self.validations(),
    {
        InMemoryStorage { routing_rules: rules, topic_validations: self.topic_validations }
    }

    /// The same snapshot with these validation bindings.
    pub fn with_initial_topic_validations(self, validations: Vec<TopicValidationConfig>) -> (r:
        InMemoryStorage)
        ensures
            r.validations() == validations_view(validations@),
            r.rules() == self.rules(),
    {
        InMemoryStorage { routing_rules: self.routing_rules, topic_validations: validations }
    }
}

fn unimplemented_error() -> (r: StorageError)
    ensures
        r is Other,
{
    StorageError::Other(String::from_str("unimplemented"))
}

impl Storage for InMemoryStorage {
    closed spec fn rules(&self) -> Seq<RuleModel> {
        rules_view(self.routing_rules@)
    }

    closed spec fn validations(&self) -> Seq<ValidationConfigModel> {
        validations_view(self.topic_validations@)
    }

    closed spec fn events(&self) -> Seq<StoredEventModel> {
        Seq::empty()
    }

    fn add_rule(&mut self, rule: &TopicRoutingRule) -> (r: Result<(), StorageError>)
        ensures
            r matches Err(e) && e is Other,
    {
        Err(unimplemented_error())
    }

    #[verifier::loop_isolation(false)]
    fn get_rule(&self, id: Uid) -> (r: Result<Option<TopicRoutingRule>, StorageError>)
        ensures
            r is Ok,
    {
        let n = self.routing_rules.len();
        let mut i: usize = 0;
        while i < n
            invariant
                i <= n,
                forall|j: int| 0 <= j < i ==> (#[trigger] rules_view(self.routing_rules@)[j]).id
                    != id@,
            decreases n - i,
        {
            if self.routing_rules[i].id == id {
                let rule = self.routing_rules[i].clone();
                proof {
                    assert(rules_view(self.routing_rules@)[i as int] == rule@);
                }
                return Ok(Some(rule));
            }
            proof {
                assert(rules_view(self.routing_rules@)[i as int] == self.routing_rules@[i as int]@);
            }
            i += 1;
        }
        Ok(None)
    }

    #[verifier::loop_isolation(false)]
    fn get_all_rules(&self) -> (r: Result<Vec<TopicRoutingRule>, StorageError>)
        ensures
            r is Ok,
    {
        let n = self.routing_rules.len();
        let mut out: Vec<TopicRoutingRule> = Vec::new();
        let mut i: usize = 0;
        while i < n
            invariant
                i <= n,
                out@.len() == i,
                forall|j: int| 0 <= j < i ==> (#[trigger] out@[j])@ == self.routing_rules@[j]@,
            decreases n - i,
        {
            out.push(self.routing_rules[i].clone());
            i += 1;
        }
        proof {
            assert(rules_view(out@) =~= rules_view(self.routing_rules@));
        }
        Ok(out)
    }

    fn update_rule(&mut self, id: Uid, rule: &TopicRoutingRule) -> (r: Result<(), StorageError>)
        ensures
            r matches Err(e) && e is Other,
    {
        Err(unimplemented_error())
    }

    fn delete_rule(&mut self, id: Uid) -> (r: Result<(), StorageError>)
        ensures
            r matches Err(e) && e is Other,
    {
        Err(unimplemented_error())
    }

    fn add_topic_validation(&mut self, v: &TopicValidationConfig) -> (r: Result<
        (),
        StorageError,
    >)
        ensures
            r matches Err(e) && e is Other,
    {
        Err(unimplemented_error())
    }

    #[verifier::loop_isolation(false)]
    fn get_all_topic_validations(&self) -> (r: Result<Vec<TopicValidationConfig>, StorageError>)
        ensures
            r is Ok,
    {
        let n = self.topic_validations.len();
        let mut out: Vec<TopicValidationConfig> = Vec::new();
        let mut i: usize = 0;
        while i < n
            invariant
                i <= n,
                out@.len() == i,
                forall|j: int| 0 <= j < i ==> (#[trigger] out@[j])@ == self.topic_validations@[j]@,
            decreases n - i,
        {
            out.push(self.topic_validations[i].clone());
            i += 1;
        }
        proof {
            assert(validations_view(out@) =~= validations_view(self.topic_validations@));
        }
        Ok(out)
    }

    #[verifier::loop_isolation(false)]
    fn get_validations_for_topic(&self, topic: &str) -> (r: Result<Vec<DataSchema>, StorageError>)
        ensures
            r is Ok,
    {
        let n = self.topic_validations.len();
        let mut out: Vec<DataSchema> = Vec::new();
        let mut i: usize = 0;
        let ghost vals = validations_view(self.topic_validations@);
        let ghost keep = |v: ValidationConfigModel| v.topic == topic@;
        while i < n
            invariant
                i <= n,
                schemas_view(out@) == vals.take(i as int).filter(keep).map_values(
                    |v: ValidationConfigModel| v.schema,
                ),
            decreases n - i,
        {
            let ghost pre = out@;
            proof {
                reveal(Seq::filter);
                assert(vals.take(i + 1).drop_last() =~= vals.take(i as int));
                assert(vals.take(i + 1).last() == vals[i as int]);
                assert(vals[i as int] == self.topic_validations@[i as int]@);
            }
            if crate::text::str_eq(self.topic_validations[i].topic.as_str(), topic) {
                out.push(self.topic_validations[i].schema.clone());
                proof {
                    assert(keep(vals[i as int]));
                    let fpre = vals.take(i as int).filter(keep);
                    assert(vals.take(i + 1).filter(keep) == fpre.push(vals[i as int]));
                    assert(schemas_view(out@) =~= fpre.map_values(
                        |v: ValidationConfigModel| v.schema,
                    ).push(vals[i as int].schema));
                    assert(fpre.push(vals[i as int]).map_values(
                        |v: ValidationConfigModel| v.schema,
                    ) =~= fpre.map_values(|v: ValidationConfigModel| v.schema).push(
                        vals[i as int].schema,
                    ));
                }
            } else {
                proof {
                    assert(!keep(vals[i as int]));
                    assert(vals.take(i + 1).filter(keep) == vals.take(i as int).filter(keep));
                }
            }
            i += 1;
        }
        proof {
            assert(vals.take(n as int) =~= vals);
        }
        Ok(out)
    }

    fn delete_topic_validation(&mut self, id: &Uid) -> (r: Result<(), StorageError>)
        ensures
            r matches Err(e) && e is Other,
    {
        Err(unimplemented_error())
    }

    fn store_event(
        &mut self,
        event: &Event,
        routing_id: Option<Uid>,
        destination_topic: Option<String>,
        failure_reason: Option<String>,
    ) -> (r: Result<(), StorageError>)
        ensures
            r matches Err(e) && e is Other,
    {
        Err(unimplemented_error())
    }

    fn get_event(&self, id: Uid) -> (r: Result<Option<StoredEvent>, StorageError>)
        ensures
            r matches Err(e) && e is Other,
    {
        Err(unimplemented_error())
    }

    fn get_events_by_type(&self, event_type: &str, limit: i64, offset: i64) -> (r: Result<
        Vec<StoredEvent>,
        StorageError,
    >)
        ensures
            r matches Err(e) && e is Other,
    {
        Err(unimplemented_error())
    }

    fn get_events_by_routing(&self, routing_id: Uid, limit: i64, offset: i64) -> (r: Result<
        Vec<StoredEvent>,
        StorageError,
    >)
        ensures
            r matches Err(e) && e is Other,
    {
        Err(unimplemented_error())
    }

    fn get_sample_events(&self, limit: i64, offset: i64) -> (r: Result<
        (Vec<Event>, i64),
        StorageError,
    >)
        ensures
            r matches Err(e) && e is Other,
    {
        Err(unimplemented_error())
    }
}


/// The shape a stored row parses back from.
pub open spec fn stored_event_from_jm(m: crate::json::JsonModel) -> Option<StoredEventModel> {
    match m {
        crate::json::JsonModel::Obj(fs) => {
            if fs.len() == 9 && fs[0].0 == "id"@ && fs[1].0 == "eventId"@ && fs[2].0
                == "eventType"@ && fs[3].0 == "eventVersion"@ && fs[4].0 == "routingId"@
                && fs[5].0 == "destinationTopic"@ && fs[6].0 == "failureReason"@ && fs[7].0
                == "storedAt"@ && fs[8].0 == "eventData"@ {
                let id = match fs[0].1 {
                    crate::json::JsonModel::Text(t) => crate::uid::uid_from_text(t),
                    _ => None,
                };
                let event_id = match fs[1].1 {
                    crate::json::JsonModel::Text(t) => crate::uid::uid_from_text(t),
                    _ => None,
                };
                let et = match fs[2].1 {
                    crate::json::JsonModel::Text(t) => Some(t),
                    _ => None,
                };
                let ev = crate::event::opt_text_from_jm(fs[3].1);
                let rid = match fs[4].1 {
                    crate::json::JsonModel::Null => Some(None),
                    crate::json::JsonModel::Text(t) => match crate::uid::uid_from_text(t) {
                        Some(u) => Some(Some(u)),
                        None => None,
                    },
                    _ => None,
                };
                let dt = crate::event::opt_text_from_jm(fs[5].1);
                let fr = crate::event::opt_text_from_jm(fs[6].1);
                let ts = match fs[7].1 {
                    crate::json::JsonModel::Int(n) => Some(n),
                    _ => None,
                };
                if id is Some && event_id is Some && et is Some && ev is Some && rid is Some
                    && dt is Some && fr is Some && ts is Some {
                    Some(
                        StoredEventModel {
                            id: id.unwrap(),
                            event_id: event_id.unwrap(),
                            event_type: et.unwrap(),
                            event_version: ev.unwrap(),
                            routing_id: rid.unwrap(),
                            destination_topic: dt.unwrap(),
                            failure_reason: fr.unwrap(),
                            stored_at: ts.unwrap(),
                            event_data: fs[8].1,
                        },
                    )
                } else {
                    None
                }
            } else {
                None
            }
        },
        _ => None,
    }
}

impl StoredEvent {
    /// The archive row a JSON document deserializes to.
    #[verifier::rlimit(60)]
    pub fn from_value(v: &JsonValue) -> (r: Option<StoredEvent>)
        ensures
            match r {
                Some(row) => stored_event_from_jm(v@) == Some(row@),
                None => stored_event_from_jm(v@) is None,
            },
    {
        let fields = match v {
            JsonValue::Obj(fields) => fields,
            _ => {
                return None;
            },
        };
        proof {
            crate::json::lemma_jview_fields_index(fields@);
        }
        if fields.len() != 9 {
            return None;
        }
        if !(crate::text::str_eq(fields[0].0.as_str(), "id") && crate::text::str_eq(
            fields[1].0.as_str(),
            "eventId",
        ) && crate::text::str_eq(fields[2].0.as_str(), "eventType") && crate::text::str_eq(
            fields[3].0.as_str(),
            "eventVersion",
        ) && crate::text::str_eq(fields[4].0.as_str(), "routingId") && crate::text::str_eq(
            fields[5].0.as_str(),
            "destinationTopic",
        ) && crate::text::str_eq(fields[6].0.as_str(), "failureReason") && crate::text::str_eq(
            fields[7].0.as_str(),
            "storedAt",
        ) && crate::text::str_eq(fields[8].0.as_str(), "eventData")) {
            return None;
        }
        let id = match &fields[0].1 {
            JsonValue::Text(t) => match crate::uid::parse_uid(t.as_str()) {
                Some(u) => u,
                None => {
                    return None;
                },
            },
            _ => {
                return None;
            },
        };
        let event_id = match &fields[1].1 {
            JsonValue::Text(t) => match crate::uid::parse_uid(t.as_str()) {
                Some(u) => u,
                None => {
                    return None;
                },
            },
            _ => {
                return None;
            },
        };
        let event_type = match &fields[2].1 {
            JsonValue::Text(t) => t.clone(),
            _ => {
                return None;
            },
        };
        let event_version = match &fields[3].1 {
            JsonValue::Null => None,
            JsonValue::Text(t) => Some(t.clone()),
            _ => {
                return None;
            },
        };
        let routing_id = match &fields[4].1 {
            JsonValue::Null => None,
            JsonValue::Text(t) => match crate::uid::parse_uid(t.as_str()) {
                Some(u) => Some(u),
                None => {
                    return None;
                },
            },
            _ => {
                return None;
            },
        };
        let destination_topic = match &fields[5].1 {
            JsonValue::Null => None,
            JsonValue::Text(t) => Some(t.clone()),
            _ => {
                return None;
            },
        };
        let failure_reason = match &fields[6].1 {
            JsonValue::Null => None,
            JsonValue::Text(t) => Some(t.clone()),
            _ => {
                return None;
            },
        };
        let stored_at = match &fields[7].1 {
            JsonValue::Int(n) => *n,
            _ => {
                return None;
            },
        };
        let event_data = fields[8].1.clone();
        Some(
            StoredEvent {
                id,
                event_id,
                event_type,
                event_version,
                routing_id,
                destination_topic,
                failure_reason,
                stored_at,
                event_data,
            },
        )
    }

    /// Read an archive row from JSON text.
    pub fn from_json(s: &str) -> (r: Option<StoredEvent>)
        ensures
            match r {
                Some(row) => stored_event_from_text(s@) == Some(row@),
                None => stored_event_from_text(s@) is None,
            },
    {
        match crate::json::json_from_str(s) {
            Some(v) => StoredEvent::from_value(&v),
            None => None,
        }
    }
}

/// The text a serialized archive row parses back from.
pub open spec fn stored_event_from_text(s: Seq<char>) -> Option<StoredEventModel> {
    match crate::json::jparse_doc(s) {
        Some(m) => stored_event_from_jm(m),
        None => None,
    }
}

/// Rows the library can hold.
pub open spec fn sem_wf(m: StoredEventModel) -> bool {
    &&& m.id.len() == 16
    &&& m.event_id.len() == 16
    &&& (m.routing_id matches Some(u) ==> u.len() == 16)
    &&& -0x8000_0000_0000_0000 <= m.stored_at <= 0x7fff_ffff_ffff_ffff
    &&& crate::json::jm_wf(m.event_data)
}

/// Serializing an archive row and parsing the text back yields the very
/// same row.
#[verifier::rlimit(60)]
pub proof fn lemma_stored_event_text_roundtrip(m: StoredEventModel)
    requires
        sem_wf(m),
    ensures
        stored_event_from_text(crate::json::jtext(stored_event_jm(m))) == Some(m),
{
    let fs = stored_event_jm(m)->Obj_0;
    assert forall|i: int| 0 <= i < 9 implies crate::json::jm_wf(#[trigger] fs[i].1) by {}
    crate::event::lemma_fields_wf_from_pointwise(fs);
    crate::json::lemma_jparse_doc_jtext(stored_event_jm(m));
    crate::uid::lemma_uid_text_roundtrip(m.id);
    crate::uid::lemma_uid_text_roundtrip(m.event_id);
    match m.routing_id {
        Some(u) => {
            crate::uid::lemma_uid_text_roundtrip(u);
        },
        None => {},
    }
    assert(stored_event_from_jm(stored_event_jm(m)).unwrap() =~= m);
}

/// Rebuild the event a sample listing hands back from its archive row:
/// the identity, type, version and timestamp come from the row, the
/// payload is the stored document read as a JSON object (an empty one
/// where the row holds something else), and the fields the row does not
/// keep are absent.
pub fn rebuild_sampled_event(row: &StoredEvent) -> (e: Event)
    ensures
        e@.id == row@.event_id,
        e@.event_type == row@.event_type,
        e@.event_version == row@.event_version,
        e@.metadata == Seq::<(Seq<char>, Seq<char>)>::empty(),
        e@.transport_metadata is None,
        e@.data_type is None,
        e@.data == (match row@.event_data {
            crate::json::JsonModel::Obj(fields) => crate::event::DataModel::Json(fields),
            _ => crate::event::DataModel::Json(Seq::empty()),
        }),
        e@.timestamp == Some(row@.stored_at),
        e@.origin is None,
{
    let data = match &row.event_data {
        JsonValue::Obj(fields) => Data::Json(crate::event::clone_json_fields_pub(fields)),
        _ => {
            let empty: Vec<(String, JsonValue)> = Vec::new();
            proof {
                assert(crate::json::jview_fields(empty@) =~= Seq::<
                    (Seq<char>, crate::json::JsonModel),
                >::empty());
            }
            Data::Json(empty)
        },
    };
    let e = Event {
        id: row.event_id,
        event_type: row.event_type.clone(),
        event_version: match &row.event_version {
            Some(s) => Some(s.clone()),
            None => None,
        },
        metadata: Vec::new(),
        transport_metadata: None,
        data_type: None,
        data,
        timestamp: Some(row.stored_at),
        origin: None,
    };
    proof {
        assert(crate::event::pairs_view(e.metadata@) =~= Seq::<(Seq<char>, Seq<char>)>::empty());
    }
    e
}

impl Clone for StoredEvent {
    /// The clone is the same row.
    fn clone(&self) -> (r: Self)
        ensures
            r@ == self@,
    {
        StoredEvent {
            id: self.id,
            event_id: self.event_id,
            event_type: self.event_type.clone(),
            event_version: match &self.event_version {
                Some(s) => Some(s.clone()),
                None => None,
            },
            routing_id: self.routing_id,
            destination_topic: match &self.destination_topic {
                Some(s) => Some(s.clone()),
                None => None,
            },
            failure_reason: match &self.failure_reason {
                Some(s) => Some(s.clone()),
                None => None,
            },
            stored_at: self.stored_at,
            event_data: self.event_data.clone(),
        }
    }
}

} // verus!
