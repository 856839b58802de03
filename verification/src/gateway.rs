//! The gateway core: route, validate, publish, and decide what to
//! archive.

use vstd::prelude::*;
use vstd::string::StringExecFns;
use crate::event::{Data, Event, EventModel};
use crate::json::JsonValue;
use crate::router::{has_route, route_index, rules_view, TopicRouter, TopicRoutings};
use crate::routing::{
    errors_model, schema_errors, DataSchemaModel, draft_id, RuleModel, TopicRoutingRule,
    ValidationError,
};
use crate::storage::{schemas_for_topic, schemas_view, Storage, StorageError};
use crate::text::{seq_starts_with, str_eq};
use crate::uid::{byte_sum, uid_val, Uid};

verus! {

/// Why the gateway refused an event.
#[derive(Debug)]
pub enum GatewayError {
    SchemaInvalid(String),
    NoTopicToRoute(String),
    InternalError(String),
}

/// A publisher failure, flattened to one message.
#[derive(Debug)]
pub enum PublisherError {
    Generic(String),
}

/// The publisher port: emit one serialized event to a named topic. The
/// abstract state records what has been published, in order.
pub trait Publisher: Sized {
    spec fn published(&self) -> Seq<(Seq<char>, EventModel)>;

    /// Publish one event. On success it is appended to the published
    /// history; on failure the history is unchanged.
    fn publish_one(&mut self, topic: &str, payload: Event) -> (r: Result<(), PublisherError>)
        ensures
            r is Ok ==> final(self).published() == old(self).published().push(
                (topic@, payload@),
            ),
            r is Err ==> final(self).published() == old(self).published(),
    ;
}

/// A publisher that only serializes and records the event.
pub struct NoOpPublisher {
    history: Ghost<Seq<(Seq<char>, EventModel)>>,
}

impl NoOpPublisher {
    pub fn new() -> (r: NoOpPublisher)
        ensures
            r.published() == Seq::<(Seq<char>, EventModel)>::empty(),
    {
        NoOpPublisher { history: Ghost(Seq::empty()) }
    }
}

impl Publisher for NoOpPublisher {
    closed spec fn published(&self) -> Seq<(Seq<char>, EventModel)> {
        self.history@
    }

    fn publish_one(&mut self, topic: &str, payload: Event) -> (r: Result<(), PublisherError>)
        ensures
            r is Ok,
    {
        let wire = payload.to_json();
        let ghost entry = (topic@, payload@);
        proof {
            self.history@ = self.history@.push(entry);
        }
        Ok(())
    }
}

/// Deterministic sampling keyed on the event id: the sum of the id's
/// 16 bytes, scaled against the threshold. The threshold is given in
/// millionths of the whole range (1_000_000 stores every event, 0
/// stores only ids whose bytes sum to zero).
pub struct EventSamplingConfig {
    pub enabled: bool,
    pub threshold_millionths: u64,
}

/// Store an event exactly when sampling is on and the id's byte sum
/// scaled by a million lies within the threshold's share of the
/// 32-bit range.
pub open spec fn spec_should_store(enabled: bool, threshold_millionths: u64, id: Seq<u8>) -> bool {
    enabled && byte_sum(id) * 1_000_000 <= threshold_millionths * 0xffff_ffff
}

impl EventSamplingConfig {
    pub fn new(enabled: bool, threshold_millionths: u64) -> (r: EventSamplingConfig)
        ensures
            r.enabled == enabled,
            r.threshold_millionths == threshold_millionths,
    {
        EventSamplingConfig { enabled, threshold_millionths }
    }

    /// Whether this event is selected for archiving.
    pub fn should_store_event(&self, event: &Event) -> (r: bool)
        ensures
            r == spec_should_store(self.enabled, self.threshold_millionths, event@.id),
    {
        if !self.enabled {
            return false;
        }
        let hash: u32 = event.id.sum_of_bytes();
        let scaled: u64 = (hash as u64) * 1_000_000;
        if self.threshold_millionths > 0xffff_ffff {
            proof {
                assert(byte_sum(event@.id) * 1_000_000 <= 4080 * 1_000_000 < self
                    .threshold_millionths * 0xffff_ffff) by (nonlinear_arith)
                    requires
                        byte_sum(event@.id) <= 4080,
                        self.threshold_millionths > 0xffff_ffff,
                ;
            }
            return true;
        }
        let bound: u64 = self.threshold_millionths * 0xffff_ffff;
        scaled <= bound
    }
}

/// Sampling is a pure function of the event id: two events with the
/// same id are both selected or both passed over.
pub proof fn lemma_sampling_deterministic(
    enabled: bool,
    threshold_millionths: u64,
    a: EventModel,
    b: EventModel,
)
    requires
        a.id == b.id,
    ensures
        spec_should_store(enabled, threshold_millionths, a.id) == spec_should_store(
            enabled,
            threshold_millionths,
            b.id,
        ),
{
}

/// With sampling off, no event is selected; at the full threshold,
/// every event is selected; at threshold zero, no event whose id bytes
/// do not all vanish is selected.
pub proof fn lemma_sampling_bounds(threshold_millionths: u64, id: Seq<u8>)
    requires
        id.len() == 16,
    ensures
        !spec_should_store(false, threshold_millionths, id),
        threshold_millionths >= 1_000_000 ==> spec_should_store(true, threshold_millionths, id),
        threshold_millionths == 0 && byte_sum(id) > 0 ==> !spec_should_store(
            true,
            threshold_millionths,
            id,
        ),
{
    crate::uid::lemma_byte_sum_bound_pub(id);
    if threshold_millionths >= 1_000_000 {
        assert(byte_sum(id) * 1_000_000 <= threshold_millionths * 0xffff_ffff) by (nonlinear_arith)
            requires
                byte_sum(id) <= 4080,
                threshold_millionths >= 1_000_000,
        ;
    }
}

/// The archive retry schedule: up to three attempts, starting at
/// 100 ms, doubling with a jitter drawn from the event id, capped at
/// five seconds.
pub const ARCHIVE_MAX_ATTEMPTS: u32 = 3;

pub const ARCHIVE_INITIAL_DELAY_MS: u64 = 100;

pub const ARCHIVE_MAX_DELAY_MS: u64 = 5000;

/// The delay before the next archive attempt: twice the last delay plus
/// the id's value modulo 100, capped.
pub fn next_archive_delay(delay_ms: u64, id: &Uid) -> (r: u64)
    requires
        delay_ms <= 5000,
    ensures
        r == vstd::math::min(
            (2 * delay_ms + uid_val(id@) % 100) as int,
            5000int,
        ),
        r <= 5000,
{
    let jitter = id.value_mod(100);
    let doubled = 2 * delay_ms + jitter;
    if doubled < 5000 {
        doubled
    } else {
        5000
    }
}

/// What the gateway asks the background archiver to persist.
pub struct ArchiveRequest {
    pub event: Event,
    pub routing_id: Option<Uid>,
    pub destination_topic: String,
    pub failure_reason: Option<String>,
}

/// The whole outcome of handling one event: the response to the
/// caller, and the archive job to run in the background, if the event
/// was sampled.
pub struct HandleOutcome {
    pub response: Result<(), GatewayError>,
    pub archive: Option<ArchiveRequest>,
}

// ------------------------------------------------------------------
// Validation of an event against its topic's schemas
// ------------------------------------------------------------------

/// The schemas that apply to an event: same type, same version (a
/// schema without a version applies only to events without one).
pub open spec fn schema_applies(s: DataSchemaModel, e: EventModel) -> bool {
    s.event_type == e.event_type && s.event_version == e.event_version
}

/// The payload document an event's JSON data is validated as.
pub open spec fn event_instance(e: EventModel) -> crate::json::JsonModel
    recommends
        e.data is Json,
{
    crate::json::JsonModel::Obj(e.data->Json_0)
}

/// Whether every applicable schema accepts the event. Events whose
/// payload is not JSON are accepted without validation.
pub open spec fn event_passes(schemas: Seq<DataSchemaModel>, e: EventModel) -> bool {
    e.data is Json ==> forall|i: int|
        0 <= i < schemas.len() ==> (schema_applies(#[trigger] schemas[i], e) ==> schemas[i]
            .schema.accepts(event_instance(e)))
}

/// The position of the first applicable schema that rejects the event.
pub open spec fn first_failing(schemas: Seq<DataSchemaModel>, e: EventModel) -> int
    decreases schemas.len(),
{
    if schemas.len() == 0 {
        0
    } else if schema_applies(schemas[0], e) && !schemas[0].schema.accepts(event_instance(e)) {
        0
    } else {
        1 + first_failing(schemas.drop_first(), e)
    }
}

/// The detail line of one validation failure.
pub open spec fn error_detail(t: (Seq<char>, Seq<char>, Seq<char>)) -> Seq<char> {
    "Field '"@ + t.1 + "': "@ + t.0 + " (at schema path: "@ + t.2 + ")"@
}

/// All failure details joined with `; `.
pub open spec fn join_details(es: Seq<(Seq<char>, Seq<char>, Seq<char>)>) -> Seq<char>
    decreases es.len(),
{
    if es.len() == 0 {
        Seq::empty()
    } else if es.len() == 1 {
        error_detail(es[0])
    } else {
        error_detail(es[0]) + "; "@ + join_details(es.drop_first())
    }
}

/// The archive note for a schema failure.
pub open spec fn schema_failure_note(name: Seq<char>, es: Seq<(Seq<char>, Seq<char>, Seq<char>)>)
    -> Seq<char> {
    "Schema validation failed for '"@ + name + "': "@ + join_details(es)
}

/// The errors the failing schema reports for this event.
pub open spec fn failing_errors(s: DataSchemaModel, e: EventModel) -> Seq<
    (Seq<char>, Seq<char>, Seq<char>),
> {
    schema_errors(
        crate::json::jtext(s.schema.raw),
        draft_id(s.schema.draft),
        crate::json::jtext(event_instance(e)),
    )
}


/// `first_failing` is the first applicable schema that rejects.
pub proof fn lemma_first_failing(schemas: Seq<DataSchemaModel>, e: EventModel, k: int)
    requires
        0 <= k < schemas.len(),
        schema_applies(schemas[k], e),
        !schemas[k].schema.accepts(event_instance(e)),
        forall|j: int| 0 <= j < k ==> !(schema_applies(#[trigger] schemas[j], e) && !schemas[j]
            .schema.accepts(event_instance(e))),
    ensures
        first_failing(schemas, e) == k,
    decreases schemas.len(),
{
    if k > 0 {
        assert forall|j: int|
            0 <= j < k - 1 implies !(schema_applies(#[trigger] schemas.drop_first()[j], e)
            && !schemas.drop_first()[j].schema.accepts(event_instance(e))) by {
            assert(schemas.drop_first()[j] == schemas[j + 1]);
        }
        assert(schemas.drop_first()[k - 1] == schemas[k]);
        lemma_first_failing(schemas.drop_first(), e, k - 1);
    }
}

fn opt_str_eq(a: &Option<String>, b: &Option<String>) -> (r: bool)
    ensures
        r == (crate::event::opt_str_view(*a) == crate::event::opt_str_view(*b)),
{
    match (a, b) {
        (Some(x), Some(y)) => str_eq(x.as_str(), y.as_str()),
        (None, None) => true,
        _ => false,
    }
}

/// One failure, rendered.
fn append_error_detail(out: &mut String, e: &ValidationError)
    ensures
        final(out)@ == old(out)@ + error_detail((e.message@, e.instance_path@, e.schema_path@)),
{
    out.append("Field '");
    out.append(e.instance_path.as_str());
    out.append("': ");
    out.append(e.message.as_str());
    out.append(" (at schema path: ");
    out.append(e.schema_path.as_str());
    out.append(")");
    proof {
        reveal_strlit("Field '");
        reveal_strlit("': ");
        reveal_strlit(" (at schema path: ");
        reveal_strlit(")");
        assert(final(out)@ =~= old(out)@ + error_detail(
            (e.message@, e.instance_path@, e.schema_path@),
        ));
    }
}

proof fn lemma_join_details_snoc(es: Seq<(Seq<char>, Seq<char>, Seq<char>)>, x: (
    Seq<char>,
    Seq<char>,
    Seq<char>,
))
    ensures
        join_details(es.push(x)) == if es.len() == 0 {
            error_detail(x)
        } else {
            join_details(es) + "; "@ + error_detail(x)
        },
    decreases es.len(),
{
    let w = es.push(x);
    if es.len() == 0 {
        assert(w.len() == 1);
        assert(w[0] == x);
        assert(join_details(w) == error_detail(x));
    } else if es.len() == 1 {
        assert(w.len() == 2);
        assert(w[0] == es[0]);
        assert(w.drop_first() =~= seq![x]);
        assert(join_details(seq![x]) == error_detail(x));
        assert(join_details(es) == error_detail(es[0]));
    } else {
        assert(w[0] == es[0]);
        assert(w.drop_first() =~= es.drop_first().push(x));
        lemma_join_details_snoc(es.drop_first(), x);
        assert(error_detail(es[0]) + "; "@ + (join_details(es.drop_first()) + "; "@ + error_detail(
            x,
        )) =~= (error_detail(es[0]) + "; "@ + join_details(es.drop_first())) + "; "@
            + error_detail(x));
    }
}

/// All failures joined with `; `.
fn join_error_details(errors: &Vec<ValidationError>) -> (r: String)
    ensures
        r@ == join_details(errors_model(errors@)),
{
    let n = errors.len();
    let mut out = String::new();
    let mut i: usize = 0;
    while i < n
        invariant
            i <= n,
            n == errors@.len(),
            out@ == join_details(errors_model(errors@).take(i as int)),
        decreases n - i,
    {
        let ghost es = errors_model(errors@);
        if i > 0 {
            out.append("; ");
        }
        append_error_detail(&mut out, &errors[i]);
        proof {
            reveal_strlit("; ");
            assert(es.take(i as int).push(es[i as int]) =~= es.take(i + 1));
            lemma_join_details_snoc(es.take(i as int), es[i as int]);
            assert(es[i as int] == (
                errors@[i as int].message@,
                errors@[i as int].instance_path@,
                errors@[i as int].schema_path@,
            ));
        }
        i += 1;
    }
    proof {
        assert(errors_model(errors@).take(n as int) =~= errors_model(errors@));
    }
    out
}

/// The first applicable schema the event fails, with its failures.
#[verifier::loop_isolation(false)]
fn first_schema_failure(schemas: &Vec<crate::routing::DataSchema>, event: &Event, instance: &JsonValue) -> (r:
    Option<(String, Vec<ValidationError>)>)
    requires
        event@.data is Json,
        instance@ == event_instance(event@),
    ensures
        r is None ==> event_passes(schemas_view(schemas@), event@),
        r matches Some(f) ==> {
            let k = first_failing(schemas_view(schemas@), event@);
            &&& !event_passes(schemas_view(schemas@), event@)
            &&& 0 <= k < schemas_view(schemas@).len()
            &&& f.0@ == schemas_view(schemas@)[k].name
            &&& errors_model(f.1@) == failing_errors(schemas_view(schemas@)[k], event@)
            &&& f.1@.len() > 0
        },
{
    let n = schemas.len();
    let mut i: usize = 0;
    while i < n
        invariant
            i <= n,
            forall|j: int| 0 <= j < i ==> !(schema_applies(
                #[trigger] schemas_view(schemas@)[j],
                event@,
            ) && !schemas_view(schemas@)[j].schema.accepts(event_instance(event@))),
        decreases n - i,
    {
        let s = &schemas[i];
        proof {
            assert(schemas_view(schemas@)[i as int] == schemas@[i as int]@);
        }
        let applies = str_eq(s.event_type.as_str(), event.event_type.as_str()) && opt_str_eq(
            &s.event_version,
            &event.event_version,
        );
        if applies {
            match s.schema.validate(instance) {
                Ok(_) => {},
                Err(errors) => {
                    proof {
                        lemma_first_failing(schemas_view(schemas@), event@, i as int);
                    }
                    let name = s.name.clone();
                    return Some((name, errors));
                },
            }
        }
        i += 1;
    }
    None
}

/// The archive note written when a schema rejects the event.
fn build_schema_failure_note(name: &str, errors: &Vec<ValidationError>) -> (r: String)
    ensures
        r@ == schema_failure_note(name@, errors_model(errors@)),
{
    let mut out = String::new();
    out.append("Schema validation failed for '");
    out.append(name);
    out.append("': ");
    let details = join_error_details(errors);
    out.append(details.as_str());
    proof {
        reveal_strlit("Schema validation failed for '");
        reveal_strlit("': ");
        assert(out@ =~= schema_failure_note(name@, errors_model(errors@)));
    }
    out
}

/// The response message written when a schema rejects the event.
pub open spec fn schema_invalid_response(id: Seq<u8>, name: Seq<char>, es: Seq<
    (Seq<char>, Seq<char>, Seq<char>),
>) -> Seq<char> {
    "Event "@ + crate::uid::uid_text(id) + " failed schema validation for '"@ + name + "': "@
        + join_details(es)
}

fn build_schema_invalid_response(id: &Uid, name: &str, errors: &Vec<ValidationError>) -> (r:
    String)
    ensures
        r@ == schema_invalid_response(id@, name@, errors_model(errors@)),
{
    let mut out = String::new();
    out.append("Event ");
    let idt = id.to_text();
    out.append(idt.as_str());
    out.append(" failed schema validation for '");
    out.append(name);
    out.append("': ");
    let details = join_error_details(errors);
    out.append(details.as_str());
    proof {
        reveal_strlit("Event ");
        reveal_strlit(" failed schema validation for '");
        reveal_strlit("': ");
        assert(out@ =~= schema_invalid_response(id@, name@, errors_model(errors@)));
    }
    out
}

/// The note written when no rule matches.
pub open spec fn no_route_note() -> Seq<char> {
    "No topic to route event"@
}

/// The response message written when no rule matches: the note and the
/// event id.
pub open spec fn no_route_response(id: Seq<u8>) -> Seq<char> {
    "No topic to route event: "@ + crate::uid::uid_text(id)
}

/// The note prefix written when the publisher fails.
pub open spec fn publish_failure_prefix() -> Seq<char> {
    "Failed to publish event: "@
}

/// The gateway: one publisher, one storage, and the sampling rule.
pub struct EventGateway<P: Publisher, S: Storage> {
    publisher: P,
    store: S,
    sampling: EventSamplingConfig,
}

impl<P: Publisher, S: Storage> EventGateway<P, S> {
    pub closed spec fn spec_publisher(&self) -> P {
        self.publisher
    }

    pub closed spec fn spec_store(&self) -> S {
        self.store
    }

    pub closed spec fn spec_sampling(&self) -> EventSamplingConfig {
        self.sampling
    }

    /// Whether this event is selected for archiving.
    pub open spec fn spec_sampled(&self, e: EventModel) -> bool {
        spec_should_store(
            self.spec_sampling().enabled,
            self.spec_sampling().threshold_millionths,
            e.id,
        )
    }

    pub fn new(
        publisher: P,
        store: S,
        sampling_enabled: bool,
        sampling_threshold_millionths: u64,
    ) -> (r: EventGateway<P, S>)
        ensures
            r.spec_publisher() == publisher,
            r.spec_store() == store,
            r.spec_sampling() == (EventSamplingConfig {
                enabled: sampling_enabled,
                threshold_millionths: sampling_threshold_millionths,
            }),
    {
        EventGateway {
            publisher,
            store,
            sampling: EventSamplingConfig::new(sampling_enabled, sampling_threshold_millionths),
        }
    }

    /// Add a routing rule; storage failures flatten to an internal
    /// error.
    pub fn add_routing_rule(&mut self, rule: &TopicRoutingRule) -> (r: Result<(), GatewayError>)
        ensures
            final(self).spec_publisher() == old(self).spec_publisher(),
            final(self).spec_sampling() == old(self).spec_sampling(),
            r is Ok ==> ({
                &&& final(self).spec_store().rules().to_multiset() == old(self).spec_store().rules().to_multiset().insert(rule@)
                &&& final(self).spec_store().validations() == old(self).spec_store().validations()
            }),
            r is Err ==> ({
                &&& r matches Err(GatewayError::InternalError(_))
                &&& final(self).spec_store() == old(self).spec_store()
            }),
    {
        match self.store.add_rule(rule) {
            Ok(_) => Ok(()),
            Err(_) => Err(
                GatewayError::InternalError(String::from_str("failed to add routing rule")),
            ),
        }
    }

    /// Replace a routing rule by id.
    pub fn update_routing_rule(&mut self, id: Uid, rule: &TopicRoutingRule) -> (r: Result<
        (),
        GatewayError,
    >)
        ensures
            final(self).spec_publisher() == old(self).spec_publisher(),
            final(self).spec_sampling() == old(self).spec_sampling(),
            r is Ok ==> ({
                &&& exists|prev: crate::routing::RuleModel|
                    prev.id == id@ && #[trigger] old(self).spec_store().rules().to_multiset().count(prev) > 0 && final(self).spec_store().rules().to_multiset() == old(self).spec_store().rules().to_multiset().remove(prev).insert(rule@)
                &&& final(self).spec_store().validations() == old(self).spec_store().validations()
            }),
            r is Err ==> ({
                &&& r matches Err(GatewayError::InternalError(_))
                &&& final(self).spec_store() == old(self).spec_store()
            }),
    {
        let ghost pre = self.store;
        match self.store.update_rule(id, rule) {
            Ok(_) => {
                proof {
                    let prev = choose|prev: crate::routing::RuleModel|
                        prev.id == id@ && #[trigger] pre.rules().to_multiset().count(prev) > 0
                            && self.store.rules().to_multiset() == pre.rules().to_multiset().remove(
                            prev,
                        ).insert(rule@);
                    assert(prev.id == id@ && old(self).spec_store().rules().to_multiset().count(
                        prev,
                    ) > 0 && final(self).spec_store().rules().to_multiset() == old(
                        self,
                    ).spec_store().rules().to_multiset().remove(prev).insert(rule@));
                }
                Ok(())
            },
            Err(_) => Err(
                GatewayError::InternalError(String::from_str("failed to update routing rule")),
            ),
        }
    }

    /// All routing rules, in the stored order.
    pub fn get_routing_rules(&self) -> (r: Result<Vec<TopicRoutingRule>, GatewayError>)
        ensures
            r matches Ok(rs) ==> rules_view(rs@) == self.spec_store().rules(),
            r is Err ==> r matches Err(GatewayError::InternalError(_)),
    {
        match self.store.get_all_rules() {
            Ok(rs) => Ok(rs),
            Err(_) => Err(
                GatewayError::InternalError(String::from_str("failed to load routing rules")),
            ),
        }
    }

    /// Remove a routing rule by id.
    pub fn delete_routing_rule(&mut self, id: &Uid) -> (r: Result<(), GatewayError>)
        ensures
            final(self).spec_publisher() == old(self).spec_publisher(),
            final(self).spec_sampling() == old(self).spec_sampling(),
            r is Ok ==> ({
                &&& final(self).spec_store().rules() == old(self).spec_store().rules().filter(
                    |rm: crate::routing::RuleModel| rm.id != id@,
                )
                &&& final(self).spec_store().validations() == old(self).spec_store().validations()
            }),
            r is Err ==> ({
                &&& r matches Err(GatewayError::InternalError(_))
                &&& final(self).spec_store() == old(self).spec_store()
            }),
    {
        match self.store.delete_rule(*id) {
            Ok(_) => Ok(()),
            Err(_) => Err(
                GatewayError::InternalError(String::from_str("failed to delete routing rule")),
            ),
        }
    }

    /// Add a validation binding.
    pub fn add_topic_validation(&mut self, v: &crate::routing::TopicValidationConfig) -> (r:
        Result<(), GatewayError>)
        ensures
            final(self).spec_publisher() == old(self).spec_publisher(),
            final(self).spec_sampling() == old(self).spec_sampling(),
            r is Ok ==> ({
                &&& final(self).spec_store().validations().to_multiset() == old(self).spec_store().validations().to_multiset().insert(v@)
                &&& final(self).spec_store().rules() == old(self).spec_store().rules()
            }),
            r is Err ==> ({
                &&& r matches Err(GatewayError::InternalError(_))
                &&& final(self).spec_store() == old(self).spec_store()
            }),
    {
        match self.store.add_topic_validation(v) {
            Ok(_) => Ok(()),
            Err(_) => Err(
                GatewayError::InternalError(String::from_str("failed to add topic validation")),
            ),
        }
    }

    /// All validation bindings, in the stored order.
    pub fn get_topic_validations(&self) -> (r: Result<
        Vec<crate::routing::TopicValidationConfig>,
        GatewayError,
    >)
        ensures
            r matches Ok(vs) ==> crate::storage::validations_view(vs@) == self
                .spec_store().validations(),
            r is Err ==> r matches Err(GatewayError::InternalError(_)),
    {
        match self.store.get_all_topic_validations() {
            Ok(vs) => Ok(vs),
            Err(_) => Err(
                GatewayError::InternalError(String::from_str("failed to load topic validations")),
            ),
        }
    }

    /// Remove a validation binding by id.
    pub fn delete_topic_validation(&mut self, id: &Uid) -> (r: Result<(), GatewayError>)
        ensures
            final(self).spec_publisher() == old(self).spec_publisher(),
            final(self).spec_sampling() == old(self).spec_sampling(),
            r is Ok ==> ({
                &&& final(self).spec_store().validations() == old(self).spec_store().validations().filter(
                    |vm: crate::routing::ValidationConfigModel| vm.id != id@,
                )
                &&& final(self).spec_store().rules() == old(self).spec_store().rules()
            }),
            r is Err ==> ({
                &&& r matches Err(GatewayError::InternalError(_))
                &&& final(self).spec_store() == old(self).spec_store()
            }),
    {
        match self.store.delete_topic_validation(id) {
            Ok(_) => Ok(()),
            Err(_) => Err(
                GatewayError::InternalError(String::from_str("failed to delete topic validation")),
            ),
        }
    }

    /// A page of archived events with the total row count, from the
    /// storage's sample listing.
    pub fn get_sample_events(&self, limit: i64, offset: i64) -> (r: Result<
        (Vec<Event>, i64),
        GatewayError,
    >)
        ensures
            r matches Ok(p) ==> crate::storage::sample_page_ok(
                p.0@,
                p.1,
                self.spec_store().events(),
            ),
            r is Err ==> r matches Err(GatewayError::InternalError(_)),
    {
        match self.store.get_sample_events(limit, offset) {
            Ok(p) => Ok(p),
            Err(_) => Err(
                GatewayError::InternalError(String::from_str("failed to load sample events")),
            ),
        }
    }

    /// Run one archive request against the storage: the event is written
    /// with its routing outcome and failure note.
    pub fn archive(&mut self, req: &ArchiveRequest) -> (r: Result<(), StorageError>)
        ensures
            final(self).spec_publisher() == old(self).spec_publisher(),
            final(self).spec_sampling() == old(self).spec_sampling(),
            r is Ok ==> ({
                &&& final(self).spec_store().events().len() == old(self).spec_store().events().len() + 1
                &&& crate::storage::archived_record(
                    final(self).spec_store().events().last(),
                    req.event@,
                    match req.routing_id {
                        Some(u) => Some(u@),
                        None => None,
                    },
                    Some(req.destination_topic@),
                    crate::event::opt_str_view(req.failure_reason),
                )
                &&& final(self).spec_store().rules() == old(self).spec_store().rules()
                &&& final(self).spec_store().validations() == old(self).spec_store().validations()
            }),
            r is Err ==> final(self).spec_store() == old(self).spec_store(),
    {
        let destination = Some(String::from_str(req.destination_topic.as_str()));
        let reason = match &req.failure_reason {
            Some(s) => Some(s.clone()),
            None => None,
        };
        self.store.store_event(&req.event, req.routing_id, destination, reason)
    }

    /// Handle one event: load the rules, route, validate against the
    /// destination topic's schemas, publish, and decide the archive job.
    ///
    /// The outcome says exactly which step decided: `Ok` means a rule
    /// matched, every applicable schema accepted the payload and the
    /// publisher took the event; `NoTopicToRoute` means no rule
    /// matched; `SchemaInvalid` names the first applicable schema that
    /// rejected the payload; `InternalError` covers storage and
    /// publisher failures. The archive job is produced exactly when
    /// sampling selects the event and the pipeline reached a decision,
    /// and carries the routing outcome and failure note.
    #[verifier::rlimit(100)]
    pub fn handle(&mut self, event: &Event) -> (out: HandleOutcome)
        ensures
            final(self).spec_store() == old(self).spec_store(),
            final(self).spec_sampling() == old(self).spec_sampling(),
            ({
                let e = event@;
                let rules = old(self).spec_store().rules();
                let sampled = old(self).spec_sampled(e);
                match out.response {
                    Ok(()) => {
                        let rule = rules[route_index(rules, e)];
                        let schemas = schemas_for_topic(
                            old(self).spec_store().validations(),
                            rule.topic,
                        );
                        &&& has_route(rules, e)
                        &&& event_passes(schemas, e)
                        &&& final(self).spec_publisher().published() == old(self).spec_publisher().published().push((rule.topic, e))
                        &&& if sampled {
                            out.archive matches Some(a) && ({
                                &&& a.event@ == e
                                &&& a.routing_id matches Some(ri) && ri@ == rule.id
                                &&& a.destination_topic@ == rule.topic
                                &&& a.failure_reason is None
                            })
                        } else {
                            out.archive is None
                        }
                    },
                    Err(GatewayError::NoTopicToRoute(msg)) => {
                        &&& !has_route(rules, e)
                        &&& msg@ == no_route_response(e.id)
                        &&& final(self).spec_publisher().published() == old(self).spec_publisher().published()
                        &&& if sampled {
                            out.archive matches Some(a) && ({
                                &&& a.event@ == e
                                &&& a.routing_id is None
                                &&& a.destination_topic@ == "unknown"@
                                &&& a.failure_reason matches Some(f) && f@ == no_route_note()
                            })
                        } else {
                            out.archive is None
                        }
                    },
                    Err(GatewayError::SchemaInvalid(msg)) => {
                        let rule = rules[route_index(rules, e)];
                        let schemas = schemas_for_topic(
                            old(self).spec_store().validations(),
                            rule.topic,
                        );
                        let k = first_failing(schemas, e);
                        &&& has_route(rules, e)
                        &&& e.data is Json
                        &&& !event_passes(schemas, e)
                        &&& 0 <= k < schemas.len()
                        &&& msg@ == schema_invalid_response(
                            e.id,
                            schemas[k].name,
                            failing_errors(schemas[k], e),
                        )
                        &&& final(self).spec_publisher().published() == old(self).spec_publisher().published()
                        &&& if sampled {
                            out.archive matches Some(a) && ({
                                &&& a.event@ == e
                                &&& a.routing_id matches Some(ri) && ri@ == rule.id
                                &&& a.destination_topic@ == rule.topic
                                &&& a.failure_reason matches Some(f) && f@ == schema_failure_note(
                                    schemas[k].name,
                                    failing_errors(schemas[k], e),
                                )
                            })
                        } else {
                            out.archive is None
                        }
                    },
                    Err(GatewayError::InternalError(msg)) => {
                        &&& final(self).spec_publisher().published() == old(self).spec_publisher().published()
                        &&& if seq_starts_with(msg@, publish_failure_prefix()) {
                            let rule = rules[route_index(rules, e)];
                            let schemas = schemas_for_topic(
                                old(self).spec_store().validations(),
                                rule.topic,
                            );
                            &&& has_route(rules, e)
                            &&& event_passes(schemas, e)
                            &&& if sampled {
                                out.archive matches Some(a) && ({
                                    &&& a.event@ == e
                                    &&& a.routing_id matches Some(ri) && ri@ == rule.id
                                    &&& a.destination_topic@ == rule.topic
                                    &&& a.failure_reason matches Some(f) && f@ == msg@
                                })
                            } else {
                                out.archive is None
                            }
                        } else {
                            out.archive is None
                        }
                    },
                }
            }),
    {
        let rules = match self.store.get_all_rules() {
            Ok(rs) => rs,
            Err(_) => {
                let msg = String::from_str("failed to load routing rules");
                proof {
                    reveal_strlit("failed to load routing rules");
                    reveal_strlit("Failed to publish event: ");
                    assert(!seq_starts_with(msg@, publish_failure_prefix())) by {
                        assert(msg@[0] == 'f' && publish_failure_prefix()[0] == 'F');
                        if seq_starts_with(msg@, publish_failure_prefix()) {
                            assert(msg@.take(publish_failure_prefix().len() as int)[0] == msg@[0]);
                        }
                    }
                }
                return HandleOutcome {
                    response: Err(GatewayError::InternalError(msg)),
                    archive: None,
                };
            },
        };
        let routings = TopicRoutings { rules };
        let routed = routings.route(event);
        let rule = match routed {
            Some(rule) => rule,
            None => {
                let sampled = self.sampling.should_store_event(event);
                let archive = if sampled {
                    proof {
                        reveal_strlit("No topic to route event");
                        reveal_strlit("unknown");
                    }
                    Some(
                        ArchiveRequest {
                            event: event.clone(),
                            routing_id: None,
                            destination_topic: String::from_str("unknown"),
                            failure_reason: Some(String::from_str("No topic to route event")),
                        },
                    )
                } else {
                    None
                };
                let mut msg = String::from_str("No topic to route event: ");
                let idt = event.id.to_text();
                msg.append(idt.as_str());
                return HandleOutcome {
                    response: Err(GatewayError::NoTopicToRoute(msg)),
                    archive,
                };
            },
        };
        let schemas = match self.store.get_validations_for_topic(rule.topic.as_str()) {
            Ok(ds) => ds,
            Err(_) => {
                let msg = String::from_str("failed to load topic validations");
                proof {
                    reveal_strlit("failed to load topic validations");
                    reveal_strlit("Failed to publish event: ");
                    assert(!seq_starts_with(msg@, publish_failure_prefix())) by {
                        assert(msg@[0] == 'f' && publish_failure_prefix()[0] == 'F');
                        if seq_starts_with(msg@, publish_failure_prefix()) {
                            assert(msg@.take(publish_failure_prefix().len() as int)[0] == msg@[0]);
                        }
                    }
                }
                return HandleOutcome {
                    response: Err(GatewayError::InternalError(msg)),
                    archive: None,
                };
            },
        };
        let failure: Option<(String, Vec<ValidationError>)> = match &event.data {
            Data::Json(fields) => {
                let instance = JsonValue::Obj(crate::event::clone_json_fields_pub(fields));
                first_schema_failure(&schemas, event, &instance)
            },
            _ => None,
        };
        match failure {
            Some((name, errors)) => {
                let sampled = self.sampling.should_store_event(event);
                let archive = if sampled {
                    let note = build_schema_failure_note(name.as_str(), &errors);
                    Some(
                        ArchiveRequest {
                            event: event.clone(),
                            routing_id: Some(rule.id),
                            destination_topic: String::from_str(rule.topic.as_str()),
                            failure_reason: Some(note),
                        },
                    )
                } else {
                    None
                };
                let msg = build_schema_invalid_response(&event.id, name.as_str(), &errors);
                HandleOutcome { response: Err(GatewayError::SchemaInvalid(msg)), archive }
            },
            None => {
                let publish_result = self.publisher.publish_one(
                    rule.topic.as_str(),
                    event.clone(),
                );
                match publish_result {
                    Ok(_) => {
                        let sampled = self.sampling.should_store_event(event);
                        let archive = if sampled {
                            Some(
                                ArchiveRequest {
                                    event: event.clone(),
                                    routing_id: Some(rule.id),
                                    destination_topic: String::from_str(rule.topic.as_str()),
                                    failure_reason: None,
                                },
                            )
                        } else {
                            None
                        };
                        HandleOutcome { response: Ok(()), archive }
                    },
                    Err(e) => {
                        let m = match e {
                            PublisherError::Generic(m) => m,
                        };
                        let mut note = String::from_str("Failed to publish event: ");
                        note.append(m.as_str());
                        proof {
                            reveal_strlit("Failed to publish event: ");
                            assert(note@.take(publish_failure_prefix().len() as int)
                                =~= publish_failure_prefix());
                            assert(seq_starts_with(note@, publish_failure_prefix()));
                        }
                        let sampled = self.sampling.should_store_event(event);
                        let archive = if sampled {
                            Some(
                                ArchiveRequest {
                                    event: event.clone(),
                                    routing_id: Some(rule.id),
                                    destination_topic: String::from_str(rule.topic.as_str()),
                                    failure_reason: Some(note.clone()),
                                },
                            )
                        } else {
                            None
                        };
                        HandleOutcome {
                            response: Err(GatewayError::InternalError(note)),
                            archive,
                        }
                    },
                }
            },
        }
    }
}


/// The labels the metrics decorator attaches to one handled event: the
/// event type, the version and the origin (or `unknown` where absent),
/// and the outcome. The metrics sink itself is outside the library.
pub fn metric_labels(event: &Event, success: bool) -> (r: (String, String, String, String))
    ensures
        r.0@ == event@.event_type,
        r.1@ == (match event@.event_version {
            Some(v) => v,
            None => "unknown"@,
        }),
        r.2@ == (match event@.origin {
            Some(o) => o,
            None => "unknown"@,
        }),
        r.3@ == (if success {
            "success"@
        } else {
            "failure"@
        }),
{
    let version = match &event.event_version {
        Some(v) => v.clone(),
        None => String::from_str("unknown"),
    };
    let origin = match &event.origin {
        Some(o) => o.clone(),
        None => String::from_str("unknown"),
    };
    let result = if success {
        String::from_str("success")
    } else {
        String::from_str("failure")
    };
    (event.event_type.clone(), version, origin, result)
}


/// The first value stored under `k`, if any.
pub open spec fn pairs_lookup(m: Seq<(Seq<char>, Seq<char>)>, k: Seq<char>) -> Option<Seq<char>>
    decreases m.len(),
{
    if m.len() == 0 {
        None
    } else if m[0].0 == k {
        Some(m[0].1)
    } else {
        pairs_lookup(m.drop_first(), k)
    }
}

proof fn lemma_pairs_lookup_found(m: Seq<(Seq<char>, Seq<char>)>, k: Seq<char>, i: int)
    requires
        0 <= i < m.len(),
        m[i].0 == k,
        forall|j: int| 0 <= j < i ==> (#[trigger] m[j]).0 != k,
    ensures
        pairs_lookup(m, k) == Some(m[i].1),
    decreases m.len(),
{
    if i > 0 {
        assert forall|j: int| 0 <= j < i - 1 implies (#[trigger] m.drop_first()[j]).0 != k by {
            assert(m.drop_first()[j] == m[j + 1]);
        }
        assert(m.drop_first()[i - 1] == m[i]);
        lemma_pairs_lookup_found(m.drop_first(), k, i - 1);
    }
}

proof fn lemma_pairs_lookup_missing(m: Seq<(Seq<char>, Seq<char>)>, k: Seq<char>)
    requires
        forall|j: int| 0 <= j < m.len() ==> (#[trigger] m[j]).0 != k,
    ensures
        pairs_lookup(m, k) is None,
    decreases m.len(),
{
    if m.len() > 0 {
        assert forall|j: int| 0 <= j < m.len() - 1 implies (#[trigger] m.drop_first()[j]).0
            != k by {
            assert(m.drop_first()[j] == m[j + 1]);
        }
        lemma_pairs_lookup_missing(m.drop_first(), k);
    }
}

/// The message key a bus publisher partitions by: the configured
/// metadata field's value when the event carries it, and the event id's
/// text otherwise.
#[verifier::loop_isolation(false)]
pub fn message_key(event: &Event, metadata_field_as_key: &Option<String>) -> (r: String)
    ensures
        r@ == (match *metadata_field_as_key {
            Some(k) => match pairs_lookup(event@.metadata, k@) {
                Some(v) => v,
                None => crate::uid::uid_text(event@.id),
            },
            None => crate::uid::uid_text(event@.id),
        }),
{
    match metadata_field_as_key {
        Some(k) => {
            let n = event.metadata.len();
            let mut i: usize = 0;
            while i < n
                invariant
                    i <= n,
                    forall|j: int| 0 <= j < i ==> (#[trigger] event@.metadata[j]).0 != k@,
                decreases n - i,
            {
                proof {
                    assert(event@.metadata[i as int] == (
                        event.metadata@[i as int].0@,
                        event.metadata@[i as int].1@,
                    ));
                }
                if str_eq(event.metadata[i].0.as_str(), k.as_str()) {
                    let value = event.metadata[i].1.clone();
                    proof {
                        lemma_pairs_lookup_found(event@.metadata, k@, i as int);
                    }
                    return value;
                }
                i += 1;
            }
            proof {
                lemma_pairs_lookup_missing(event@.metadata, k@);
            }
            event.id.to_text()
        },
        None => event.id.to_text(),
    }
}

} // verus!
