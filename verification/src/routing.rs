//! Routing rules and per-topic validation schemas.

use vstd::prelude::*;
use vstd::string::StringExecFns;
use crate::expressions::{
    cond_from_jm, cond_to_jm, cond_wf, CondModel, Condition, lemma_cond_jm_roundtrip,
    lemma_cond_to_jm_wf,
};
use crate::json::{
    jm_fields_wf, jm_wf, jtext, jview, jview_fields, json_from_str, json_to_string,
    lemma_jview_fields_index, JsonModel, JsonValue,
};
use crate::text::str_eq;
use crate::topic::{topic_valid, Topic};
use crate::uid::{uid_from_text, uid_text, Uid};

verus! {

/// The `(message, instance_path, schema_path)` shape of failures.
pub open spec fn errors_model(es: Seq<ValidationError>) -> Seq<(Seq<char>, Seq<char>, Seq<char>)> {
    es.map_values(|e: ValidationError| (e.message@, e.instance_path@, e.schema_path@))
}

/// One schema validation failure.
pub struct ValidationError {
    pub message: String,
    pub instance_path: String,
    pub schema_path: String,
}

/// The JSON Schema draft a schema is compiled under.
#[derive(Clone, Copy, PartialEq, Eq, Structural)]
pub enum DraftKind {
    Draft4,
    Draft6,
    Draft7,
}

pub open spec fn draft_id(d: DraftKind) -> int {
    match d {
        DraftKind::Draft4 => 4,
        DraftKind::Draft6 => 6,
        DraftKind::Draft7 => 7,
    }
}

/// Whether the jsonschema crate accepts this schema text under this
/// draft.
pub uninterp spec fn schema_compiles(schema: Seq<char>, draft: int) -> bool;

/// The list of `(message, instance_path, schema_path)` failures that
/// validating `instance` against `schema` under `draft` reports; empty
/// exactly when the instance is accepted.
pub uninterp spec fn schema_errors(schema: Seq<char>, draft: int, instance: Seq<char>) -> Seq<
    (Seq<char>, Seq<char>, Seq<char>),
>;

#[verifier::external_type_specification]
#[verifier::external_body]
pub struct ExDraft(jsonschema::Draft);

/// Relies only on naming the jsonschema crate's draft values, one for
/// each of ours.
#[verifier::external_body]
fn to_draft(d: &DraftKind) -> jsonschema::Draft {
    match d {
        DraftKind::Draft4 => jsonschema::Draft::Draft4,
        DraftKind::Draft6 => jsonschema::Draft::Draft6,
        DraftKind::Draft7 => jsonschema::Draft::Draft7,
    }
}

/// One failure carrying only a message.
fn single_error(message: String) -> (r: Vec<ValidationError>)
    ensures
        r@.len() == 1,
{
    let mut out: Vec<ValidationError> = Vec::new();
    out.push(
        ValidationError { message, instance_path: String::new(), schema_path: String::new() },
    );
    out
}

/// One failure from its three parts.
fn validation_error(message: String, instance_path: String, schema_path: String) -> (r:
    ValidationError)
    ensures
        r.message == message,
        r.instance_path == instance_path,
        r.schema_path == schema_path,
{
    ValidationError { message, instance_path, schema_path }
}

/// Relies on jsonschema's `options().with_draft(..).build`: whether a
/// schema compiles depends on the schema text and the draft alone.
/// `serde_json::from_str` only converts the argument.
#[verifier::external_body]
fn js_compile_check(schema_json: &str, draft: &DraftKind) -> (r: bool)
    ensures
        r == schema_compiles(schema_json@, draft_id(*draft)),
{
    match serde_json::from_str::<serde_json::Value>(schema_json) {
        Ok(v) => jsonschema::options().with_draft(to_draft(draft)).build(&v).is_ok(),
        Err(_) => false,
    }
}

/// Relies on jsonschema's `Validator::iter_errors`: the verdict and the
/// reported failures depend on the schema text, the draft and the
/// instance text alone. `serde_json::from_str` only converts the
/// arguments; the error fields are copied out one for one.
#[verifier::external_body]
fn js_validate(schema_json: &str, draft: &DraftKind, instance_json: &str) -> (r: Result<
    (),
    Vec<ValidationError>,
>)
    ensures
        r is Ok <==> schema_errors(schema_json@, draft_id(*draft), instance_json@).len() == 0,
        r matches Err(es) ==> errors_model(es@) == schema_errors(
            schema_json@,
            draft_id(*draft),
            instance_json@,
        ) && es@.len() > 0,
{
    let f = |e: serde_json::Error| single_error(e.to_string());
    let sv: serde_json::Value = serde_json::from_str(schema_json).map_err(f)?;
    let iv: serde_json::Value = serde_json::from_str(instance_json).map_err(f)?;
    let built = jsonschema::options().with_draft(to_draft(draft)).build(&sv);
    let validator = built.map_err(|e| single_error(e.to_string()))?;
    let errors: Vec<ValidationError> = validator.iter_errors(&iv).map(
        |e| validation_error(e.to_string(), e.instance_path().to_string(), e.schema_path().to_string()),
    ).collect();
    if errors.is_empty() { Ok(()) } else { Err(errors) }
}

/// The position of the first field named `k`.
pub open spec fn first_key_index(fs: Seq<(Seq<char>, JsonModel)>, k: Seq<char>) -> int
    decreases fs.len(),
{
    if fs.len() == 0 {
        0
    } else if fs[0].0 == k {
        0
    } else {
        1 + first_key_index(fs.drop_first(), k)
    }
}

pub open spec fn has_key(fs: Seq<(Seq<char>, JsonModel)>, k: Seq<char>) -> bool {
    exists|i: int| 0 <= i < fs.len() && #[trigger] fs[i].0 == k
}

/// `first_key_index` is the first match.
pub proof fn lemma_first_key_index(fs: Seq<(Seq<char>, JsonModel)>, k: Seq<char>, i: int)
    requires
        0 <= i < fs.len(),
        fs[i].0 == k,
        forall|j: int| 0 <= j < i ==> #[trigger] fs[j].0 != k,
    ensures
        first_key_index(fs, k) == i,
    decreases fs.len(),
{
    if i > 0 {
        assert(fs[0].0 != k);
        assert forall|j: int| 0 <= j < i - 1 implies #[trigger] fs.drop_first()[j].0 != k by {
            assert(fs.drop_first()[j] == fs[j + 1]);
        }
        assert(fs.drop_first()[i - 1] == fs[i]);
        lemma_first_key_index(fs.drop_first(), k, i - 1);
    }
}

/// The draft named by the schema's `$schema` field; draft 7 where the
/// field is missing or unrecognised.
pub open spec fn draft_of(m: JsonModel) -> DraftKind {
    match m {
        JsonModel::Obj(fs) => {
            if has_key(fs, "$schema"@) {
                let i = first_key_index(fs, "$schema"@);
                match fs[i].1 {
                    JsonModel::Text(t) => {
                        if t == "http://json-schema.org/draft-04/schema#"@ {
                            DraftKind::Draft4
                        } else if t == "http://json-schema.org/draft-06/schema#"@ {
                            DraftKind::Draft6
                        } else {
                            DraftKind::Draft7
                        }
                    },
                    _ => DraftKind::Draft7,
                }
            } else {
                DraftKind::Draft7
            }
        },
        _ => DraftKind::Draft7,
    }
}

/// A JSON Schema: the raw document and the draft it is read under.
/// Compilation is checked eagerly when the schema is built; validation
/// compiles from the raw document, so equal raw documents always give
/// equal verdicts.
pub struct JSchema {
    pub raw_schema: JsonValue,
    pub draft_version: DraftKind,
}

/// The mathematical shape of a schema.
#[verifier::ext_equal]
pub struct JSchemaModel {
    pub raw: JsonModel,
    pub draft: DraftKind,
}

impl View for JSchema {
    type V = JSchemaModel;

    open spec fn view(&self) -> JSchemaModel {
        JSchemaModel { raw: self.raw_schema@, draft: self.draft_version }
    }
}

impl JSchemaModel {
    /// A schema is well formed when its draft is the one its text names
    /// and the jsonschema crate accepts it.
    pub open spec fn wf(&self) -> bool {
        &&& self.draft == draft_of(self.raw)
        &&& jm_wf(self.raw)
        &&& schema_compiles(jtext(self.raw), draft_id(self.draft))
    }

    /// The verdict on an instance document.
    pub open spec fn accepts(&self, instance: JsonModel) -> bool {
        schema_errors(jtext(self.raw), draft_id(self.draft), jtext(instance)).len() == 0
    }
}

/// Find the `$schema` field and map it to a draft.
#[verifier::loop_isolation(false)]
fn draft_of_value(v: &JsonValue) -> (r: DraftKind)
    ensures
        r == draft_of(v@),
{
    match v {
        JsonValue::Obj(fields) => {
            proof {
                lemma_jview_fields_index(fields@);
            }
            let n = fields.len();
            let mut i: usize = 0;
            while i < n
                invariant
                    i <= n,
                    n == fields@.len(),
                    jview_fields(fields@).len() == n,
                    forall|j: int| 0 <= j < n ==> #[trigger] jview_fields(fields@)[j] == (
                        fields@[j].0@,
                        jview(fields@[j].1),
                    ),
                    forall|j: int| 0 <= j < i ==> #[trigger] jview_fields(fields@)[j].0
                        != "$schema"@,
                decreases n - i,
            {
                if str_eq(fields[i].0.as_str(), "$schema") {
                    let ghost fs = jview_fields(fields@);
                    proof {
                        assert(fs[i as int].0 == "$schema"@);
                        assert(has_key(fs, "$schema"@));
                        lemma_first_key_index(fs, "$schema"@, i as int);
                    }
                    match &fields[i].1 {
                        JsonValue::Text(t) => {
                            if str_eq(t.as_str(), "http://json-schema.org/draft-04/schema#") {
                                return DraftKind::Draft4;
                            } else if str_eq(t.as_str(), "http://json-schema.org/draft-06/schema#")
                            {
                                return DraftKind::Draft6;
                            } else {
                                return DraftKind::Draft7;
                            }
                        },
                        _ => {
                            return DraftKind::Draft7;
                        },
                    }
                }
                i += 1;
            }
            proof {
                let fs = jview_fields(fields@);
                assert(!has_key(fs, "$schema"@));
            }
            DraftKind::Draft7
        },
        _ => DraftKind::Draft7,
    }
}

impl JSchema {
    /// Build a schema from its raw document, reading the draft from
    /// `$schema` and rejecting documents the jsonschema crate refuses.
    pub fn new(raw: JsonValue) -> (r: Option<JSchema>)
        ensures
            r matches Some(s) ==> {
                &&& s@.raw == raw@
                &&& s@.wf()
            },
            r is None <==> !(crate::json::jm_nums_wf(raw@) && schema_compiles(
                jtext(raw@),
                draft_id(draft_of(raw@)),
            )),
    {
        if !crate::json::check_number_texts(&raw) {
            return None;
        }
        proof {
            crate::json::lemma_jview_wf(raw);
        }
        let draft = draft_of_value(&raw);
        let text = json_to_string(&raw);
        if js_compile_check(text.as_str(), &draft) {
            Some(JSchema { raw_schema: raw, draft_version: draft })
        } else {
            None
        }
    }

    /// Validate an instance document: empty error list never comes back,
    /// a failure carries at least one error.
    pub fn validate(&self, data: &JsonValue) -> (r: Result<(), Vec<ValidationError>>)
        ensures
            r is Ok <==> self@.accepts(data@),
            r matches Err(es) ==> es@.len() > 0 && errors_model(es@) == schema_errors(
                jtext(self@.raw),
                draft_id(self@.draft),
                jtext(data@),
            ),
    {
        let schema_text = json_to_string(&self.raw_schema);
        let instance_text = json_to_string(data);
        js_validate(schema_text.as_str(), &self.draft_version, instance_text.as_str())
    }
}

impl Clone for JSchema {
    /// The clone holds the same raw document and draft, so it accepts
    /// exactly the same instances.
    fn clone(&self) -> (r: Self)
        ensures
            r@ == self@,
    {
        JSchema { raw_schema: self.raw_schema.clone(), draft_version: self.draft_version }
    }
}

impl PartialEq for JSchema {
    fn eq(&self, other: &Self) -> (r: bool) {
        json_value_eq(&self.raw_schema, &other.raw_schema) && draft_eq(
            self.draft_version,
            other.draft_version,
        )
    }
}

impl vstd::std_specs::cmp::PartialEqSpecImpl for JSchema {
    open spec fn obeys_eq_spec() -> bool {
        true
    }

    open spec fn eq_spec(&self, other: &Self) -> bool {
        self@ == other@
    }
}

fn draft_eq(a: DraftKind, b: DraftKind) -> (r: bool)
    ensures
        r == (a == b),
{
    match (a, b) {
        (DraftKind::Draft4, DraftKind::Draft4) => true,
        (DraftKind::Draft6, DraftKind::Draft6) => true,
        (DraftKind::Draft7, DraftKind::Draft7) => true,
        _ => false,
    }
}

/// Structural equality of JSON documents.
#[verifier::loop_isolation(false)]
pub fn json_value_eq(x: &JsonValue, y: &JsonValue) -> (r: bool)
    ensures
        r == (x@ == y@),
    decreases x,
{
    match (x, y) {
        (JsonValue::Null, JsonValue::Null) => true,
        (JsonValue::Bool(a), JsonValue::Bool(b)) => a == b,
        (JsonValue::Int(a), JsonValue::Int(b)) => a == b,
        (JsonValue::Num(a), JsonValue::Num(b)) => str_eq(a.as_str(), b.as_str()),
        (JsonValue::Text(a), JsonValue::Text(b)) => str_eq(a.as_str(), b.as_str()),
        (JsonValue::Arr(a), JsonValue::Arr(b)) => {
            proof {
                crate::json::lemma_jview_list_index(a@);
                crate::json::lemma_jview_list_index(b@);
            }
            if a.len() != b.len() {
                return false;
            }
            let n = a.len();
            let mut i: usize = 0;
            while i < n
                invariant
                    i <= n,
                    forall|j: int| 0 <= j < i ==> crate::json::jview_list(a@)[j]
                        == crate::json::jview_list(b@)[j],
                decreases n - i,
            {
                proof {
                    assert(decreases_to!(*x => (*x)->Arr_0));
                    assert((*x)->Arr_0 == *a);
                    assert(decreases_to!(*a => a@));
                    assert(decreases_to!(a@ => a@[i as int]));
                }
                if !json_value_eq(&a[i], &b[i]) {
                    proof {
                        assert(crate::json::jview_list(a@)[i as int] != crate::json::jview_list(
                            b@,
                        )[i as int]);
                    }
                    return false;
                }
                i += 1;
            }
            proof {
                assert(crate::json::jview_list(a@) =~= crate::json::jview_list(b@));
            }
            true
        },
        (JsonValue::Obj(a), JsonValue::Obj(b)) => {
            proof {
                lemma_jview_fields_index(a@);
                lemma_jview_fields_index(b@);
            }
            if a.len() != b.len() {
                return false;
            }
            let n = a.len();
            let mut i: usize = 0;
            while i < n
                invariant
                    i <= n,
                    forall|j: int| 0 <= j < i ==> jview_fields(a@)[j] == jview_fields(b@)[j],
                decreases n - i,
            {
                proof {
                    assert(decreases_to!(*x => (*x)->Obj_0));
                    assert((*x)->Obj_0 == *a);
                    assert(decreases_to!(*a => a@));
                    assert(decreases_to!(a@ => a@[i as int]));
                    assert(decreases_to!(a@[i as int] => a@[i as int].1));
                }
                if !(str_eq(a[i].0.as_str(), b[i].0.as_str()) && json_value_eq(&a[i].1, &b[i].1)) {
                    proof {
                        assert(jview_fields(a@)[i as int] != jview_fields(b@)[i as int]);
                    }
                    return false;
                }
                i += 1;
            }
            proof {
                assert(jview_fields(a@) =~= jview_fields(b@));
            }
            true
        },
        _ => false,
    }
}

/// A schema variant; JSON Schema is the only kind today.
pub enum Schema {
    Json(JSchema),
}

impl Schema {
    pub open spec fn model(&self) -> JSchemaModel {
        match self {
            Schema::Json(s) => s@,
        }
    }

    /// Whether the instance satisfies the schema.
    pub fn is_valid(&self, data: &JsonValue) -> (r: bool)
        ensures
            r == self.model().accepts(data@),
    {
        match self {
            Schema::Json(s) => match s.validate(data) {
                Ok(_) => true,
                Err(_) => false,
            },
        }
    }

    /// Validate the instance, reporting each failure.
    pub fn validate(&self, data: &JsonValue) -> (r: Result<(), Vec<ValidationError>>)
        ensures
            r is Ok <==> self.model().accepts(data@),
            r matches Err(es) ==> es@.len() > 0 && errors_model(es@) == schema_errors(
                jtext(self.model().raw),
                draft_id(self.model().draft),
                jtext(data@),
            ),
    {
        match self {
            Schema::Json(s) => s.validate(data),
        }
    }
}

impl Clone for Schema {
    /// The clone accepts exactly the same instances.
    fn clone(&self) -> (r: Self)
        ensures
            r.model() == self.model(),
    {
        match self {
            Schema::Json(s) => Schema::Json(s.clone()),
        }
    }
}

impl PartialEq for Schema {
    fn eq(&self, other: &Self) -> (r: bool) {
        match (self, other) {
            (Schema::Json(a), Schema::Json(b)) => a == b,
        }
    }
}

impl vstd::std_specs::cmp::PartialEqSpecImpl for Schema {
    open spec fn obeys_eq_spec() -> bool {
        true
    }

    open spec fn eq_spec(&self, other: &Self) -> bool {
        self.model() == other.model()
    }
}

/// A named schema bound to an event type and optional version.
pub struct DataSchema {
    pub name: String,
    pub description: Option<String>,
    pub schema: Schema,
    pub event_type: String,
    pub event_version: Option<String>,
    pub metadata: Option<Vec<(String, String)>>,
}

/// The mathematical shape of a named schema.
#[verifier::ext_equal]
pub struct DataSchemaModel {
    pub name: Seq<char>,
    pub description: Option<Seq<char>>,
    pub schema: JSchemaModel,
    pub event_type: Seq<char>,
    pub event_version: Option<Seq<char>>,
    pub metadata: Option<Seq<(Seq<char>, Seq<char>)>>,
}

impl View for DataSchema {
    type V = DataSchemaModel;

    open spec fn view(&self) -> DataSchemaModel {
        DataSchemaModel {
            name: self.name@,
            description: crate::event::opt_str_view(self.description),
            schema: self.schema.model(),
            event_type: self.event_type@,
            event_version: crate::event::opt_str_view(self.event_version),
            metadata: match self.metadata {
                Some(m) => Some(crate::event::pairs_view(m@)),
                None => None,
            },
        }
    }
}

/// One routing rule: conditions on the event type and optionally the
/// version, and the topic matches are routed to.
pub struct TopicRoutingRule {
    pub id: Uid,
    pub order: i32,
    pub topic: Topic,
    pub event_type_condition: Condition,
    pub event_version_condition: Option<Condition>,
    pub description: Option<String>,
}

/// The mathematical shape of a routing rule.
#[verifier::ext_equal]
pub struct RuleModel {
    pub id: Seq<u8>,
    pub order: int,
    pub topic: Seq<char>,
    pub event_type_condition: CondModel,
    pub event_version_condition: Option<CondModel>,
    pub description: Option<Seq<char>>,
}

impl View for TopicRoutingRule {
    type V = RuleModel;

    open spec fn view(&self) -> RuleModel {
        RuleModel {
            id: self.id@,
            order: self.order as int,
            topic: self.topic@,
            event_type_condition: self.event_type_condition@,
            event_version_condition: match self.event_version_condition {
                Some(c) => Some(c@),
                None => None,
            },
            description: crate::event::opt_str_view(self.description),
        }
    }
}

impl Clone for TopicRoutingRule {
    /// The clone is the same rule.
    fn clone(&self) -> (r: Self)
        ensures
            r@ == self@,
    {
        TopicRoutingRule {
            id: self.id,
            order: self.order,
            topic: self.topic.clone(),
            event_type_condition: self.event_type_condition.clone(),
            event_version_condition: match &self.event_version_condition {
                Some(c) => Some(c.clone()),
                None => None,
            },
            description: match &self.description {
                Some(s) => Some(s.clone()),
                None => None,
            },
        }
    }
}

impl PartialEq for TopicRoutingRule {
    fn eq(&self, other: &Self) -> (r: bool) {
        let r = self.id == other.id && self.order == other.order && self.topic == other.topic
            && self.event_type_condition == other.event_type_condition && (match (
            &self.event_version_condition,
            &other.event_version_condition,
        ) {
            (Some(a), Some(b)) => a == b,
            (None, None) => true,
            _ => false,
        }) && (match (&self.description, &other.description) {
            (Some(a), Some(b)) => str_eq(a.as_str(), b.as_str()),
            (None, None) => true,
            _ => false,
        });
        proof {
            if r {
                assert(self@ =~= other@);
            }
        }
        r
    }
}

impl vstd::std_specs::cmp::PartialEqSpecImpl for TopicRoutingRule {
    open spec fn obeys_eq_spec() -> bool {
        true
    }

    open spec fn eq_spec(&self, other: &Self) -> bool {
        self@ == other@
    }
}

/// The binding of a schema to a topic.
pub struct TopicValidationConfig {
    pub id: Uid,
    pub topic: Topic,
    pub schema: DataSchema,
}

/// The mathematical shape of a validation binding.
#[verifier::ext_equal]
pub struct ValidationConfigModel {
    pub id: Seq<u8>,
    pub topic: Seq<char>,
    pub schema: DataSchemaModel,
}

impl View for TopicValidationConfig {
    type V = ValidationConfigModel;

    open spec fn view(&self) -> ValidationConfigModel {
        ValidationConfigModel { id: self.id@, topic: self.topic@, schema: self.schema@ }
    }
}

impl Clone for DataSchema {
    /// The clone is the same named schema.
    fn clone(&self) -> (r: Self)
        ensures
            r@ == self@,
    {
        let r = DataSchema {
            name: self.name.clone(),
            description: match &self.description {
                Some(s) => Some(s.clone()),
                None => None,
            },
            schema: self.schema.clone(),
            event_type: self.event_type.clone(),
            event_version: match &self.event_version {
                Some(s) => Some(s.clone()),
                None => None,
            },
            metadata: match &self.metadata {
                Some(m) => Some(crate::event::clone_pairs(m)),
                None => None,
            },
        };
        r
    }
}

impl Clone for TopicValidationConfig {
    /// The clone is the same binding.
    fn clone(&self) -> (r: Self)
        ensures
            r@ == self@,
    {
        TopicValidationConfig {
            id: self.id,
            topic: self.topic.clone(),
            schema: self.schema.clone(),
        }
    }
}


// ------------------------------------------------------------------
// The JSON shape of rules, schemas and bindings
// ------------------------------------------------------------------

pub open spec fn opt_cond_jm(c: Option<CondModel>) -> JsonModel {
    match c {
        Some(c0) => cond_to_jm(c0),
        None => JsonModel::Null,
    }
}

pub open spec fn rule_to_jm(m: RuleModel) -> JsonModel {
    JsonModel::Obj(
        seq![
            ("id"@, JsonModel::Text(uid_text(m.id))),
            ("order"@, JsonModel::Int(m.order)),
            ("topic"@, JsonModel::Text(m.topic)),
            ("eventTypeCondition"@, cond_to_jm(m.event_type_condition)),
            ("eventVersionCondition"@, opt_cond_jm(m.event_version_condition)),
            ("description"@, crate::event::opt_text_jm(m.description)),
        ],
    )
}

pub open spec fn rule_from_jm(m: JsonModel) -> Option<RuleModel> {
    match m {
        JsonModel::Obj(fs) => {
            if fs.len() == 6 && fs[0].0 == "id"@ && fs[1].0 == "order"@ && fs[2].0 == "topic"@
                && fs[3].0 == "eventTypeCondition"@ && fs[4].0 == "eventVersionCondition"@
                && fs[5].0 == "description"@ {
                let id = match fs[0].1 {
                    JsonModel::Text(t) => uid_from_text(t),
                    _ => None,
                };
                let order = match fs[1].1 {
                    JsonModel::Int(n) => if -0x8000_0000 <= n <= 0x7fff_ffff {
                        Some(n)
                    } else {
                        None
                    },
                    _ => None,
                };
                let topic = match fs[2].1 {
                    JsonModel::Text(t) => if topic_valid(t) {
                        Some(t)
                    } else {
                        None
                    },
                    _ => None,
                };
                let etc = cond_from_jm(fs[3].1);
                let evc = match fs[4].1 {
                    JsonModel::Null => Some(None),
                    _ => match cond_from_jm(fs[4].1) {
                        Some(c) => Some(Some(c)),
                        None => None,
                    },
                };
                let desc = crate::event::opt_text_from_jm(fs[5].1);
                if id is Some && order is Some && topic is Some && etc is Some && evc is Some
                    && desc is Some {
                    Some(
                        RuleModel {
                            id: id.unwrap(),
                            order: order.unwrap(),
                            topic: topic.unwrap(),
                            event_type_condition: etc.unwrap(),
                            event_version_condition: evc.unwrap(),
                            description: desc.unwrap(),
                        },
                    )
                } else {
                    None
                }
            } else {
                None
            }
        },
        _ => None,
    }
}

/// Rules the library can hold: a 16-byte id, an order within machine
/// range, a valid topic, and conditions whose regexes compile.
pub open spec fn rm_wf(m: RuleModel) -> bool {
    &&& m.id.len() == 16
    &&& -0x8000_0000 <= m.order <= 0x7fff_ffff
    &&& topic_valid(m.topic)
    &&& cond_wf(m.event_type_condition)
    &&& (m.event_version_condition matches Some(c) ==> cond_wf(c))
}

/// A serialized condition is never the JSON null.
proof fn lemma_cond_to_jm_not_null(c: CondModel)
    ensures
        !(cond_to_jm(c) is Null),
{
}

/// Serializing a rule to its JSON shape and reading it back yields the
/// same rule, for every well-formed rule.
pub proof fn lemma_rule_jm_roundtrip(m: RuleModel)
    requires
        rm_wf(m),
    ensures
        rule_from_jm(rule_to_jm(m)) == Some(m),
{
    crate::uid::lemma_uid_text_roundtrip(m.id);
    lemma_cond_jm_roundtrip(m.event_type_condition);
    match m.event_version_condition {
        Some(c) => {
            lemma_cond_jm_roundtrip(c);
            lemma_cond_to_jm_not_null(c);
        },
        None => {},
    }
    assert(rule_from_jm(rule_to_jm(m)).unwrap() =~= m);
}

/// The JSON shape of a well-formed rule is a well-formed document.
pub proof fn lemma_rule_to_jm_wf(m: RuleModel)
    requires
        rm_wf(m),
    ensures
        jm_wf(rule_to_jm(m)),
{
    let fs = rule_to_jm(m)->Obj_0;
    assert forall|i: int| 0 <= i < 6 implies jm_wf(#[trigger] fs[i].1) by {
        if i == 3 {
            lemma_cond_to_jm_wf(m.event_type_condition);
        } else if i == 4 {
            match m.event_version_condition {
                Some(c) => {
                    lemma_cond_to_jm_wf(c);
                },
                None => {},
            }
        }
    }
    crate::event::lemma_fields_wf_from_pointwise(fs);
}

impl TopicRoutingRule {
    /// The JSON document this rule serializes to.
    pub fn to_value(&self) -> (r: JsonValue)
        ensures
            r@ == rule_to_jm(self@),
    {
        let mut fields: Vec<(String, JsonValue)> = Vec::new();
        fields.push((String::from_str("id"), JsonValue::Text(self.id.to_text())));
        fields.push((String::from_str("order"), JsonValue::Int(self.order as i64)));
        fields.push(
            (String::from_str("topic"), JsonValue::Text(String::from_str(self.topic.as_str()))),
        );
        fields.push(
            (String::from_str("eventTypeCondition"), self.event_type_condition.to_value()),
        );
        fields.push(
            (
                String::from_str("eventVersionCondition"),
                match &self.event_version_condition {
                    Some(c) => c.to_value(),
                    None => JsonValue::Null,
                },
            ),
        );
        fields.push(
            (
                String::from_str("description"),
                match &self.description {
                    Some(s) => JsonValue::Text(s.clone()),
                    None => JsonValue::Null,
                },
            ),
        );
        let r = JsonValue::Obj(fields);
        proof {
            lemma_jview_fields_index(fields@);
            assert(jview_fields(fields@) =~= rule_to_jm(self@)->Obj_0);
        }
        r
    }

    /// The rule a JSON document deserializes to.
    #[verifier::rlimit(60)]
    pub fn from_value(v: &JsonValue) -> (r: Option<TopicRoutingRule>)
        ensures
            match r {
                Some(rule) => rule_from_jm(v@) == Some(rule@),
                None => rule_from_jm(v@) is None,
            },
    {
        let fields = match v {
            JsonValue::Obj(fields) => fields,
            _ => {
                return None;
            },
        };
        proof {
            lemma_jview_fields_index(fields@);
        }
        if fields.len() != 6 {
            return None;
        }
        if !(str_eq(fields[0].0.as_str(), "id") && str_eq(fields[1].0.as_str(), "order") && str_eq(
            fields[2].0.as_str(),
            "topic",
        ) && str_eq(fields[3].0.as_str(), "eventTypeCondition") && str_eq(
            fields[4].0.as_str(),
            "eventVersionCondition",
        ) && str_eq(fields[5].0.as_str(), "description")) {
            return None;
        }
        let id = match &fields[0].1 {
            JsonValue::Text(t) => match crate::uid::parse_uid(t.as_str()) {
                Some(u) => u,
                None => {
                    return None;
                },
            },
            _ => {
                return None;
            },
        };
        let order: i32 = match &fields[1].1 {
            JsonValue::Int(n) => {
                let n = *n;
                if -0x8000_0000i64 <= n && n <= 0x7fff_ffffi64 {
                    n as i32
                } else {
                    return None;
                }
            },
            _ => {
                return None;
            },
        };
        let topic = match &fields[2].1 {
            JsonValue::Text(t) => match Topic::new(t.clone()) {
                Ok(tp) => tp,
                Err(_) => {
                    return None;
                },
            },
            _ => {
                return None;
            },
        };
        let event_type_condition = match Condition::from_value(&fields[3].1) {
            Some(c) => c,
            None => {
                return None;
            },
        };
        let event_version_condition = match &fields[4].1 {
            JsonValue::Null => None,
            other => match Condition::from_value(other) {
                Some(c) => Some(c),
                None => {
                    return None;
                },
            },
        };
        let description = match &fields[5].1 {
            JsonValue::Null => None,
            JsonValue::Text(t) => Some(t.clone()),
            _ => {
                return None;
            },
        };
        Some(
            TopicRoutingRule {
                id,
                order,
                topic,
                event_type_condition,
                event_version_condition,
                description,
            },
        )
    }

    /// The rule rendered as compact JSON text.
    pub fn to_json(&self) -> (r: String)
        ensures
            r@ == jtext(rule_to_jm(self@)),
    {
        json_to_string(&self.to_value())
    }

    /// Read a rule from JSON text.
    pub fn from_json(s: &str) -> (r: Option<TopicRoutingRule>)
        ensures
            match r {
                Some(rule) => rule_from_text(s@) == Some(rule@),
                None => rule_from_text(s@) is None,
            },
    {
        match json_from_str(s) {
            Some(v) => TopicRoutingRule::from_value(&v),
            None => None,
        }
    }
}

/// The text a serialized rule parses back from.
pub open spec fn rule_from_text(s: Seq<char>) -> Option<RuleModel> {
    match crate::json::jparse_doc(s) {
        Some(m) => rule_from_jm(m),
        None => None,
    }
}

/// Serializing a rule and parsing the text back yields the very same
/// rule.
pub proof fn lemma_rule_text_roundtrip(m: RuleModel)
    requires
        rm_wf(m),
    ensures
        rule_from_text(jtext(rule_to_jm(m))) == Some(m),
{
    lemma_rule_to_jm_wf(m);
    crate::json::lemma_jparse_doc_jtext(rule_to_jm(m));
    lemma_rule_jm_roundtrip(m);
}


pub open spec fn schema_to_jm(m: JSchemaModel) -> JsonModel {
    JsonModel::Obj(
        seq![("type"@, JsonModel::Text("json"@)), ("data"@, m.raw)],
    )
}

pub open spec fn schema_from_jm(m: JsonModel) -> Option<JSchemaModel> {
    match m {
        JsonModel::Obj(fs) => {
            if fs.len() == 2 && fs[0].0 == "type"@ && fs[1].0 == "data"@ && fs[0].1
                == JsonModel::Text("json"@) {
                let raw = fs[1].1;
                let draft = draft_of(raw);
                if crate::json::jm_nums_wf(raw) && schema_compiles(jtext(raw), draft_id(draft)) {
                    Some(JSchemaModel { raw, draft })
                } else {
                    None
                }
            } else {
                None
            }
        },
        _ => None,
    }
}

pub open spec fn ds_to_jm(m: DataSchemaModel) -> JsonModel {
    JsonModel::Obj(
        seq![
            ("name"@, JsonModel::Text(m.name)),
            ("description"@, crate::event::opt_text_jm(m.description)),
            ("schema"@, schema_to_jm(m.schema)),
            ("event_type"@, JsonModel::Text(m.event_type)),
            ("event_version"@, crate::event::opt_text_jm(m.event_version)),
            (
                "metadata"@,
                match m.metadata {
                    Some(p) => JsonModel::Obj(crate::event::pairs_jm(p)),
                    None => JsonModel::Null,
                },
            ),
        ],
    )
}

pub open spec fn ds_from_jm(m: JsonModel) -> Option<DataSchemaModel> {
    match m {
        JsonModel::Obj(fs) => {
            if fs.len() == 6 && fs[0].0 == "name"@ && fs[1].0 == "description"@ && fs[2].0
                == "schema"@ && fs[3].0 == "event_type"@ && fs[4].0 == "event_version"@ && fs[5].0
                == "metadata"@ {
                let name = match fs[0].1 {
                    JsonModel::Text(t) => Some(t),
                    _ => None,
                };
                let desc = crate::event::opt_text_from_jm(fs[1].1);
                let schema = schema_from_jm(fs[2].1);
                let et = match fs[3].1 {
                    JsonModel::Text(t) => Some(t),
                    _ => None,
                };
                let ev = crate::event::opt_text_from_jm(fs[4].1);
                let md = match fs[5].1 {
                    JsonModel::Null => Some(None),
                    JsonModel::Obj(p) => match crate::event::pairs_from_jm(p) {
                        Some(q) => Some(Some(q)),
                        None => None,
                    },
                    _ => None,
                };
                if name is Some && desc is Some && schema is Some && et is Some && ev is Some
                    && md is Some {
                    Some(
                        DataSchemaModel {
                            name: name.unwrap(),
                            description: desc.unwrap(),
                            schema: schema.unwrap(),
                            event_type: et.unwrap(),
                            event_version: ev.unwrap(),
                            metadata: md.unwrap(),
                        },
                    )
                } else {
                    None
                }
            } else {
                None
            }
        },
        _ => None,
    }
}

/// A named schema the library can hold: its inner schema is well formed.
pub open spec fn dsm_wf(m: DataSchemaModel) -> bool {
    m.schema.wf()
}

/// Serializing a named schema to its JSON shape and reading it back
/// yields the same schema: the raw document is preserved, so the
/// verdict on every instance is preserved too.
pub proof fn lemma_ds_jm_roundtrip(m: DataSchemaModel)
    requires
        dsm_wf(m),
    ensures
        ds_from_jm(ds_to_jm(m)) == Some(m),
{
    crate::json::lemma_jm_wf_nums(m.schema.raw);
    match m.metadata {
        Some(p) => {
            crate::event::lemma_pairs_jm_roundtrip(p);
        },
        None => {},
    }
    assert(ds_from_jm(ds_to_jm(m)).unwrap() =~= m);
}

/// The JSON shape of a well-formed named schema is a well-formed
/// document.
pub proof fn lemma_ds_to_jm_wf(m: DataSchemaModel)
    requires
        dsm_wf(m),
    ensures
        jm_wf(ds_to_jm(m)),
{
    let fs = ds_to_jm(m)->Obj_0;
    assert forall|i: int| 0 <= i < 6 implies jm_wf(#[trigger] fs[i].1) by {
        if i == 2 {
            let sfs = schema_to_jm(m.schema)->Obj_0;
            assert(jm_wf(sfs[0].1));
            assert(jm_wf(sfs[1].1));
            crate::event::lemma_fields_wf_from_pointwise(sfs);
        } else if i == 5 {
            match m.metadata {
                Some(p) => {
                    let q = crate::event::pairs_jm(p);
                    assert forall|k: int| 0 <= k < q.len() implies jm_wf(#[trigger] q[k].1) by {
                        assert(q[k] == (p[k].0, JsonModel::Text(p[k].1)));
                    }
                    crate::event::lemma_fields_wf_from_pointwise(q);
                },
                None => {},
            }
        }
    }
    crate::event::lemma_fields_wf_from_pointwise(fs);
}

impl DataSchema {
    /// The JSON document this named schema serializes to.
    pub fn to_value(&self) -> (r: JsonValue)
        ensures
            r@ == ds_to_jm(self@),
    {
        let raw = match &self.schema {
            Schema::Json(s) => s.raw_schema.clone(),
        };
        let ghost raw_model = raw@;
        let mut sfields: Vec<(String, JsonValue)> = Vec::new();
        sfields.push((String::from_str("type"), JsonValue::Text(String::from_str("json"))));
        sfields.push((String::from_str("data"), raw));
        let schema_value = JsonValue::Obj(sfields);
        proof {
            lemma_jview_fields_index(sfields@);
            assert(jview_fields(sfields@) =~= schema_to_jm(self@.schema)->Obj_0);
        }
        let mut fields: Vec<(String, JsonValue)> = Vec::new();
        fields.push((String::from_str("name"), JsonValue::Text(self.name.clone())));
        fields.push(
            (
                String::from_str("description"),
                match &self.description {
                    Some(s) => JsonValue::Text(s.clone()),
                    None => JsonValue::Null,
                },
            ),
        );
        fields.push((String::from_str("schema"), schema_value));
        fields.push((String::from_str("event_type"), JsonValue::Text(self.event_type.clone())));
        fields.push(
            (
                String::from_str("event_version"),
                match &self.event_version {
                    Some(s) => JsonValue::Text(s.clone()),
                    None => JsonValue::Null,
                },
            ),
        );
        fields.push(
            (
                String::from_str("metadata"),
                match &self.metadata {
                    Some(m) => JsonValue::Obj(crate::event::pairs_to_value(m)),
                    None => JsonValue::Null,
                },
            ),
        );
        let r = JsonValue::Obj(fields);
        proof {
            lemma_jview_fields_index(fields@);
            assert(jview_fields(fields@) =~= ds_to_jm(self@)->Obj_0);
        }
        r
    }

    /// The named schema a JSON document deserializes to; a schema the
    /// jsonschema crate refuses is rejected here.
    #[verifier::rlimit(60)]
    pub fn from_value(v: &JsonValue) -> (r: Option<DataSchema>)
        ensures
            match r {
                Some(d) => ds_from_jm(v@) == Some(d@) && d@.schema.wf(),
                None => ds_from_jm(v@) is None,
            },
    {
        let fields = match v {
            JsonValue::Obj(fields) => fields,
            _ => {
                return None;
            },
        };
        proof {
            lemma_jview_fields_index(fields@);
        }
        if fields.len() != 6 {
            return None;
        }
        if !(str_eq(fields[0].0.as_str(), "name") && str_eq(fields[1].0.as_str(), "description")
            && str_eq(fields[2].0.as_str(), "schema") && str_eq(
            fields[3].0.as_str(),
            "event_type",
        ) && str_eq(fields[4].0.as_str(), "event_version") && str_eq(
            fields[5].0.as_str(),
            "metadata",
        )) {
            return None;
        }
        let name = match &fields[0].1 {
            JsonValue::Text(t) => t.clone(),
            _ => {
                return None;
            },
        };
        let description = match &fields[1].1 {
            JsonValue::Null => None,
            JsonValue::Text(t) => Some(t.clone()),
            _ => {
                return None;
            },
        };
        let schema = match &fields[2].1 {
            JsonValue::Obj(sfields) => {
                proof {
                    lemma_jview_fields_index(sfields@);
                }
                if sfields.len() != 2 {
                    return None;
                }
                if !(str_eq(sfields[0].0.as_str(), "type") && str_eq(
                    sfields[1].0.as_str(),
                    "data",
                )) {
                    return None;
                }
                let tag_ok = match &sfields[0].1 {
                    JsonValue::Text(t) => str_eq(t.as_str(), "json"),
                    _ => false,
                };
                if !tag_ok {
                    return None;
                }
                match JSchema::new(sfields[1].1.clone()) {
                    Some(s) => Schema::Json(s),
                    None => {
                        return None;
                    },
                }
            },
            _ => {
                return None;
            },
        };
        let event_type = match &fields[3].1 {
            JsonValue::Text(t) => t.clone(),
            _ => {
                return None;
            },
        };
        let event_version = match &fields[4].1 {
            JsonValue::Null => None,
            JsonValue::Text(t) => Some(t.clone()),
            _ => {
                return None;
            },
        };
        let metadata = match &fields[5].1 {
            JsonValue::Null => None,
            JsonValue::Obj(p) => match crate::event::pairs_from_value(p) {
                Some(m) => Some(m),
                None => {
                    return None;
                },
            },
            _ => {
                return None;
            },
        };
        Some(DataSchema { name, description, schema, event_type, event_version, metadata })
    }

    /// The named schema rendered as compact JSON text.
    pub fn to_json(&self) -> (r: String)
        ensures
            r@ == jtext(ds_to_jm(self@)),
    {
        json_to_string(&self.to_value())
    }

    /// Read a named schema from JSON text.
    pub fn from_json(s: &str) -> (r: Option<DataSchema>)
        ensures
            match r {
                Some(d) => ds_from_text(s@) == Some(d@),
                None => ds_from_text(s@) is None,
            },
    {
        match json_from_str(s) {
            Some(v) => DataSchema::from_value(&v),
            None => None,
        }
    }
}

/// The text a serialized named schema parses back from.
pub open spec fn ds_from_text(s: Seq<char>) -> Option<DataSchemaModel> {
    match crate::json::jparse_doc(s) {
        Some(m) => ds_from_jm(m),
        None => None,
    }
}

/// Serializing a named schema and parsing the text back yields the very
/// same schema, raw document included, so every instance gets the same
/// verdict before and after.
pub proof fn lemma_ds_text_roundtrip(m: DataSchemaModel)
    requires
        dsm_wf(m),
    ensures
        ds_from_text(jtext(ds_to_jm(m))) == Some(m),
{
    lemma_ds_to_jm_wf(m);
    crate::json::lemma_jparse_doc_jtext(ds_to_jm(m));
    lemma_ds_jm_roundtrip(m);
}

/// Writing a named schema out and reading it back keeps the raw
/// document, so both forms give every instance the same verdict.
pub proof fn lemma_ds_roundtrip_verdict(m: DataSchemaModel, instance: JsonModel)
    requires
        dsm_wf(m),
    ensures
        ds_from_text(jtext(ds_to_jm(m))) matches Some(m2) && m2.schema.raw == m.schema.raw
            && (m2.schema.accepts(instance) == m.schema.accepts(instance)),
{
    lemma_ds_text_roundtrip(m);
}

// ------------------------------------------------------------------
// Validation bindings as JSON
// ------------------------------------------------------------------

pub open spec fn vc_to_jm(m: ValidationConfigModel) -> JsonModel {
    JsonModel::Obj(
        seq![
            ("id"@, JsonModel::Text(uid_text(m.id))),
            ("topic"@, JsonModel::Text(m.topic)),
            ("schema"@, ds_to_jm(m.schema)),
        ],
    )
}

pub open spec fn vc_from_jm(m: JsonModel) -> Option<ValidationConfigModel> {
    match m {
        JsonModel::Obj(fs) => {
            if fs.len() == 3 && fs[0].0 == "id"@ && fs[1].0 == "topic"@ && fs[2].0 == "schema"@ {
                let id = match fs[0].1 {
                    JsonModel::Text(t) => uid_from_text(t),
                    _ => None,
                };
                let topic = match fs[1].1 {
                    JsonModel::Text(t) => if topic_valid(t) {
                        Some(t)
                    } else {
                        None
                    },
                    _ => None,
                };
                let schema = ds_from_jm(fs[2].1);
                if id is Some && topic is Some && schema is Some {
                    Some(
                        ValidationConfigModel {
                            id: id.unwrap(),
                            topic: topic.unwrap(),
                            schema: schema.unwrap(),
                        },
                    )
                } else {
                    None
                }
            } else {
                None
            }
        },
        _ => None,
    }
}

/// Bindings the library can hold.
pub open spec fn vcm_wf(m: ValidationConfigModel) -> bool {
    &&& m.id.len() == 16
    &&& topic_valid(m.topic)
    &&& dsm_wf(m.schema)
}

pub proof fn lemma_vc_jm_roundtrip(m: ValidationConfigModel)
    requires
        vcm_wf(m),
    ensures
        vc_from_jm(vc_to_jm(m)) == Some(m),
{
    crate::uid::lemma_uid_text_roundtrip(m.id);
    lemma_ds_jm_roundtrip(m.schema);
    assert(vc_from_jm(vc_to_jm(m)).unwrap() =~= m);
}

pub proof fn lemma_vc_to_jm_wf(m: ValidationConfigModel)
    requires
        vcm_wf(m),
    ensures
        jm_wf(vc_to_jm(m)),
{
    let fs = vc_to_jm(m)->Obj_0;
    assert forall|i: int| 0 <= i < 3 implies jm_wf(#[trigger] fs[i].1) by {
        if i == 2 {
            lemma_ds_to_jm_wf(m.schema);
        }
    }
    crate::event::lemma_fields_wf_from_pointwise(fs);
}

impl TopicValidationConfig {
    /// The JSON document this binding serializes to.
    pub fn to_value(&self) -> (r: JsonValue)
        ensures
            r@ == vc_to_jm(self@),
    {
        let mut fields: Vec<(String, JsonValue)> = Vec::new();
        fields.push((String::from_str("id"), JsonValue::Text(self.id.to_text())));
        fields.push(
            (String::from_str("topic"), JsonValue::Text(String::from_str(self.topic.as_str()))),
        );
        fields.push((String::from_str("schema"), self.schema.to_value()));
        let r = JsonValue::Obj(fields);
        proof {
            lemma_jview_fields_index(fields@);
            assert(jview_fields(fields@) =~= vc_to_jm(self@)->Obj_0);
        }
        r
    }

    /// The binding a JSON document deserializes to.
    pub fn from_value(v: &JsonValue) -> (r: Option<TopicValidationConfig>)
        ensures
            match r {
                Some(c) => vc_from_jm(v@) == Some(c@),
                None => vc_from_jm(v@) is None,
            },
    {
        let fields = match v {
            JsonValue::Obj(fields) => fields,
            _ => {
                return None;
            },
        };
        proof {
            lemma_jview_fields_index(fields@);
        }
        if fields.len() != 3 {
            return None;
        }
        if !(str_eq(fields[0].0.as_str(), "id") && str_eq(fields[1].0.as_str(), "topic") && str_eq(
            fields[2].0.as_str(),
            "schema",
        )) {
            return None;
        }
        let id = match &fields[0].1 {
            JsonValue::Text(t) => match crate::uid::parse_uid(t.as_str()) {
                Some(u) => u,
                None => {
                    return None;
                },
            },
            _ => {
                return None;
            },
        };
        let topic = match &fields[1].1 {
            JsonValue::Text(t) => match Topic::new(t.clone()) {
                Ok(tp) => tp,
                Err(_) => {
                    return None;
                },
            },
            _ => {
                return None;
            },
        };
        let schema = match DataSchema::from_value(&fields[2].1) {
            Some(d) => d,
            None => {
                return None;
            },
        };
        Some(TopicValidationConfig { id, topic, schema })
    }

    /// The binding rendered as compact JSON text.
    pub fn to_json(&self) -> (r: String)
        ensures
            r@ == jtext(vc_to_jm(self@)),
    {
        json_to_string(&self.to_value())
    }

    /// Read a binding from JSON text.
    pub fn from_json(s: &str) -> (r: Option<TopicValidationConfig>)
        ensures
            match r {
                Some(c) => vc_from_text(s@) == Some(c@),
                None => vc_from_text(s@) is None,
            },
    {
        match json_from_str(s) {
            Some(v) => TopicValidationConfig::from_value(&v),
            None => None,
        }
    }
}

/// The text a serialized binding parses back from.
pub open spec fn vc_from_text(s: Seq<char>) -> Option<ValidationConfigModel> {
    match crate::json::jparse_doc(s) {
        Some(m) => vc_from_jm(m),
        None => None,
    }
}

/// Serializing a binding and parsing the text back yields the very same
/// binding.
pub proof fn lemma_vc_text_roundtrip(m: ValidationConfigModel)
    requires
        vcm_wf(m),
    ensures
        vc_from_text(jtext(vc_to_jm(m))) == Some(m),
{
    lemma_vc_to_jm_wf(m);
    crate::json::lemma_jparse_doc_jtext(vc_to_jm(m));
    lemma_vc_jm_roundtrip(m);
}


impl PartialEq for JsonValue {
    fn eq(&self, other: &Self) -> (r: bool) {
        json_value_eq(self, other)
    }
}

impl vstd::std_specs::cmp::PartialEqSpecImpl for JsonValue {
    open spec fn obeys_eq_spec() -> bool {
        true
    }

    open spec fn eq_spec(&self, other: &Self) -> bool {
        self@ == other@
    }
}

impl PartialEq for TopicValidationConfig {
    fn eq(&self, other: &Self) -> (r: bool) {
        let r = self.id == other.id && self.topic == other.topic && self.schema == other.schema;
        proof {
            if r {
                assert(self@ =~= other@);
            }
        }
        r
    }
}

impl vstd::std_specs::cmp::PartialEqSpecImpl for TopicValidationConfig {
    open spec fn obeys_eq_spec() -> bool {
        true
    }

    open spec fn eq_spec(&self, other: &Self) -> bool {
        self@ == other@
    }
}

impl PartialEq for DataSchema {
    fn eq(&self, other: &Self) -> (r: bool) {
        let r = str_eq(self.name.as_str(), other.name.as_str()) && (match (
            &self.description,
            &other.description,
        ) {
            (Some(a), Some(b)) => str_eq(a.as_str(), b.as_str()),
            (None, None) => true,
            _ => false,
        }) && self.schema == other.schema && str_eq(
            self.event_type.as_str(),
            other.event_type.as_str(),
        ) && (match (&self.event_version, &other.event_version) {
            (Some(a), Some(b)) => str_eq(a.as_str(), b.as_str()),
            (None, None) => true,
            _ => false,
        }) && (match (&self.metadata, &other.metadata) {
            (Some(a), Some(b)) => pairs_eq(a, b),
            (None, None) => true,
            _ => false,
        });
        proof {
            if r {
                assert(self@ =~= other@);
            }
        }
        r
    }
}

impl vstd::std_specs::cmp::PartialEqSpecImpl for DataSchema {
    open spec fn obeys_eq_spec() -> bool {
        true
    }

    open spec fn eq_spec(&self, other: &Self) -> bool {
        self@ == other@
    }
}

/// Elementwise equality of two string maps.
pub fn pairs_eq(a: &Vec<(String, String)>, b: &Vec<(String, String)>) -> (r: bool)
    ensures
        r == (crate::event::pairs_view(a@) == crate::event::pairs_view(b@)),
{
    if a.len() != b.len() {
        proof {
            assert(crate::event::pairs_view(a@).len() != crate::event::pairs_view(b@).len());
        }
        return false;
    }
    let n = a.len();
    let mut i: usize = 0;
    while i < n
        invariant
            i <= n,
            n == a@.len(),
            n == b@.len(),
            forall|j: int| 0 <= j < i ==> crate::event::pairs_view(a@)[j]
                == crate::event::pairs_view(b@)[j],
        decreases n - i,
    {
        if !(str_eq(a[i].0.as_str(), b[i].0.as_str()) && str_eq(a[i].1.as_str(), b[i].1.as_str()))
        {
            proof {
                assert(crate::event::pairs_view(a@)[i as int] != crate::event::pairs_view(
                    b@,
                )[i as int]);
            }
            return false;
        }
        proof {
            assert(crate::event::pairs_view(a@)[i as int] == (a@[i as int].0@, a@[i as int].1@));
            assert(crate::event::pairs_view(b@)[i as int] == (b@[i as int].0@, b@[i as int].1@));
        }
        i += 1;
    }
    proof {
        assert(crate::event::pairs_view(a@) =~= crate::event::pairs_view(b@));
    }
    true
}

} // verus!
