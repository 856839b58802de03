//! Events: the messages the gateway routes, validates and publishes.

use vstd::prelude::*;
use vstd::string::StringExecFns;
use crate::json::{
    jm_fields_wf, jm_wf, jtext, jview, jview_fields, json_from_str, json_to_string,
    lemma_jview_fields_index, JsonModel, JsonValue,
};
use crate::text::str_eq;
use crate::uid::{uid_from_text, uid_text, Uid};

verus! {

/// The declared kind of an event payload; descriptive only, the `Data`
/// tag is authoritative.
#[derive(Clone, Copy, PartialEq, Eq, Structural)]
pub enum DataType {
    Json,
    String,
    Binary,
}

/// An event payload.
pub enum Data {
    Json(Vec<(String, JsonValue)>),
    String(String),
    Binary(Vec<u8>),
}

/// One event. Immutable after construction.
pub struct Event {
    pub id: Uid,
    pub event_type: String,
    pub event_version: Option<String>,
    pub metadata: Vec<(String, String)>,
    pub transport_metadata: Option<Vec<(String, String)>>,
    pub data_type: Option<DataType>,
    pub data: Data,
    pub timestamp: Option<i64>,
    pub origin: Option<String>,
}

/// The mathematical shape of a payload.
pub enum DataModel {
    Json(Seq<(Seq<char>, JsonModel)>),
    Text(Seq<char>),
    Binary(Seq<u8>),
}

/// The mathematical shape of an event.
#[verifier::ext_equal]
pub struct EventModel {
    pub id: Seq<u8>,
    pub event_type: Seq<char>,
    pub event_version: Option<Seq<char>>,
    pub metadata: Seq<(Seq<char>, Seq<char>)>,
    pub transport_metadata: Option<Seq<(Seq<char>, Seq<char>)>>,
    pub data_type: Option<DataType>,
    pub data: DataModel,
    pub timestamp: Option<int>,
    pub origin: Option<Seq<char>>,
}

pub open spec fn pairs_view(v: Seq<(String, String)>) -> Seq<(Seq<char>, Seq<char>)> {
    Seq::new(v.len(), |i: int| (v[i].0@, v[i].1@))
}

pub open spec fn opt_str_view(v: Option<String>) -> Option<Seq<char>> {
    match v {
        Some(s) => Some(s@),
        None => None,
    }
}

pub open spec fn data_view(d: Data) -> DataModel {
    match d {
        Data::Json(fields) => DataModel::Json(jview_fields(fields@)),
        Data::String(s) => DataModel::Text(s@),
        Data::Binary(bs) => DataModel::Binary(bs@),
    }
}

impl View for Data {
    type V = DataModel;

    open spec fn view(&self) -> DataModel {
        data_view(*self)
    }
}

impl View for Event {
    type V = EventModel;

    open spec fn view(&self) -> EventModel {
        EventModel {
            id: self.id@,
            event_type: self.event_type@,
            event_version: opt_str_view(self.event_version),
            metadata: pairs_view(self.metadata@),
            transport_metadata: match self.transport_metadata {
                Some(m) => Some(pairs_view(m@)),
                None => None,
            },
            data_type: self.data_type,
            data: self.data@,
            timestamp: match self.timestamp {
                Some(t) => Some(t as int),
                None => None,
            },
            origin: opt_str_view(self.origin),
        }
    }
}

// ------------------------------------------------------------------
// The JSON shape of an event
// ------------------------------------------------------------------

pub open spec fn data_type_tag(t: DataType) -> Seq<char> {
    match t {
        DataType::Json => "json"@,
        DataType::String => "string"@,
        DataType::Binary => "binary"@,
    }
}

pub open spec fn opt_text_jm(o: Option<Seq<char>>) -> JsonModel {
    match o {
        Some(t) => JsonModel::Text(t),
        None => JsonModel::Null,
    }
}

/// A map of strings as a JSON object.
pub open spec fn pairs_jm(p: Seq<(Seq<char>, Seq<char>)>) -> Seq<(Seq<char>, JsonModel)> {
    Seq::new(p.len(), |i: int| (p[i].0, JsonModel::Text(p[i].1)))
}

pub open spec fn bytes_jm(bs: Seq<u8>) -> Seq<JsonModel> {
    Seq::new(bs.len(), |i: int| JsonModel::Int(bs[i] as int))
}

pub open spec fn data_tag(d: DataModel) -> Seq<char> {
    match d {
        DataModel::Json(_) => "json"@,
        DataModel::Text(_) => "string"@,
        DataModel::Binary(_) => "binary"@,
    }
}

pub open spec fn data_content_jm(d: DataModel) -> JsonModel {
    match d {
        DataModel::Json(fields) => JsonModel::Obj(fields),
        DataModel::Text(s) => JsonModel::Text(s),
        DataModel::Binary(bs) => JsonModel::Arr(bytes_jm(bs)),
    }
}

pub open spec fn data_jm(d: DataModel) -> JsonModel {
    JsonModel::Obj(
        seq![
            ("type"@, JsonModel::Text(data_tag(d))),
            ("content"@, data_content_jm(d)),
        ],
    )
}

pub open spec fn event_to_jm(m: EventModel) -> JsonModel {
    JsonModel::Obj(
        seq![
            ("id"@, JsonModel::Text(uid_text(m.id))),
            ("eventType"@, JsonModel::Text(m.event_type)),
            ("eventVersion"@, opt_text_jm(m.event_version)),
            ("metadata"@, JsonModel::Obj(pairs_jm(m.metadata))),
            (
                "transportMetadata"@,
                match m.transport_metadata {
                    Some(p) => JsonModel::Obj(pairs_jm(p)),
                    None => JsonModel::Null,
                },
            ),
            (
                "dataType"@,
                match m.data_type {
                    Some(t) => JsonModel::Text(data_type_tag(t)),
                    None => JsonModel::Null,
                },
            ),
            ("data"@, data_jm(m.data)),
            (
                "timestamp"@,
                match m.timestamp {
                    Some(t) => JsonModel::Int(t),
                    None => JsonModel::Null,
                },
            ),
            ("origin"@, opt_text_jm(m.origin)),
        ],
    )
}

/// A field of a string map carries a text value.
pub open spec fn field_is_text(p: Seq<(Seq<char>, JsonModel)>, i: int) -> bool {
    p[i].1 is Text
}

pub open spec fn pairs_from_jm(p: Seq<(Seq<char>, JsonModel)>) -> Option<
    Seq<(Seq<char>, Seq<char>)>,
> {
    if forall|i: int| 0 <= i < p.len() ==> #[trigger] field_is_text(p, i) {
        Some(Seq::new(p.len(), |i: int| (p[i].0, p[i].1->Text_0)))
    } else {
        None
    }
}

pub open spec fn elem_is_byte(ms: Seq<JsonModel>, i: int) -> bool {
    ms[i] matches JsonModel::Int(n) && 0 <= n < 256
}

pub open spec fn bytes_from_jm(ms: Seq<JsonModel>) -> Option<Seq<u8>> {
    if forall|i: int| 0 <= i < ms.len() ==> #[trigger] elem_is_byte(ms, i) {
        Some(Seq::new(ms.len(), |i: int| ms[i]->Int_0 as u8))
    } else {
        None
    }
}

pub open spec fn opt_text_from_jm(m: JsonModel) -> Option<Option<Seq<char>>> {
    match m {
        JsonModel::Null => Some(None),
        JsonModel::Text(t) => Some(Some(t)),
        _ => None,
    }
}

pub open spec fn data_type_from_tag(t: Seq<char>) -> Option<DataType> {
    if t == "json"@ {
        Some(DataType::Json)
    } else if t == "string"@ {
        Some(DataType::String)
    } else if t == "binary"@ {
        Some(DataType::Binary)
    } else {
        None
    }
}

pub open spec fn data_from_jm(m: JsonModel) -> Option<DataModel> {
    match m {
        JsonModel::Obj(fs) => {
            if fs.len() == 2 && fs[0].0 == "type"@ && fs[1].0 == "content"@ {
                match fs[0].1 {
                    JsonModel::Text(tag) => {
                        if tag == "json"@ {
                            match fs[1].1 {
                                JsonModel::Obj(fields) => Some(DataModel::Json(fields)),
                                _ => None,
                            }
                        } else if tag == "string"@ {
                            match fs[1].1 {
                                JsonModel::Text(s) => Some(DataModel::Text(s)),
                                _ => None,
                            }
                        } else if tag == "binary"@ {
                            match fs[1].1 {
                                JsonModel::Arr(ms) => match bytes_from_jm(ms) {
                                    Some(bs) => Some(DataModel::Binary(bs)),
                                    None => None,
                                },
                                _ => None,
                            }
                        } else {
                            None
                        }
                    },
                    _ => None,
                }
            } else {
                None
            }
        },
        _ => None,
    }
}

pub open spec fn event_from_jm(m: JsonModel) -> Option<EventModel> {
    match m {
        JsonModel::Obj(fs) => {
            if fs.len() == 9 && fs[0].0 == "id"@ && fs[1].0 == "eventType"@ && fs[2].0
                == "eventVersion"@ && fs[3].0 == "metadata"@ && fs[4].0 == "transportMetadata"@
                && fs[5].0 == "dataType"@ && fs[6].0 == "data"@ && fs[7].0 == "timestamp"@
                && fs[8].0 == "origin"@ {
                let id = match fs[0].1 {
                    JsonModel::Text(t) => uid_from_text(t),
                    _ => None,
                };
                let et = match fs[1].1 {
                    JsonModel::Text(t) => Some(t),
                    _ => None,
                };
                let ev = opt_text_from_jm(fs[2].1);
                let md = match fs[3].1 {
                    JsonModel::Obj(p) => pairs_from_jm(p),
                    _ => None,
                };
                let tm = match fs[4].1 {
                    JsonModel::Null => Some(None),
                    JsonModel::Obj(p) => match pairs_from_jm(p) {
                        Some(q) => Some(Some(q)),
                        None => None,
                    },
                    _ => None,
                };
                let dt = match fs[5].1 {
                    JsonModel::Null => Some(None),
                    JsonModel::Text(t) => match data_type_from_tag(t) {
                        Some(d) => Some(Some(d)),
                        None => None,
                    },
                    _ => None,
                };
                let da = data_from_jm(fs[6].1);
                let ts = match fs[7].1 {
                    JsonModel::Null => Some(None),
                    JsonModel::Int(n) => Some(Some(n)),
                    _ => None,
                };
                let og = opt_text_from_jm(fs[8].1);
                if id is Some && et is Some && ev is Some && md is Some && tm is Some && dt is Some
                    && da is Some && ts is Some && og is Some {
                    Some(
                        EventModel {
                            id: id.unwrap(),
                            event_type: et.unwrap(),
                            event_version: ev.unwrap(),
                            metadata: md.unwrap(),
                            transport_metadata: tm.unwrap(),
                            data_type: dt.unwrap(),
                            data: da.unwrap(),
                            timestamp: ts.unwrap(),
                            origin: og.unwrap(),
                        },
                    )
                } else {
                    None
                }
            } else {
                None
            }
        },
        _ => None,
    }
}

/// Events the library can hold: a 16-byte id, a timestamp in machine
/// range, and payload documents within the document model's bounds.
pub open spec fn em_wf(m: EventModel) -> bool {
    &&& m.id.len() == 16
    &&& (m.timestamp matches Some(t) ==> -0x8000_0000_0000_0000 <= t <= 0x7fff_ffff_ffff_ffff)
    &&& (m.data matches DataModel::Json(fields) ==> jm_fields_wf(fields))
}

proof fn lemma_data_tags_distinct()
    ensures
        "json"@ != "string"@ && "json"@ != "binary"@ && "string"@ != "binary"@,
{
    reveal_strlit("json");
    reveal_strlit("string");
    reveal_strlit("binary");
    assert("json"@.len() == 4 && "string"@.len() == 6 && "binary"@.len() == 6);
    assert("string"@[0] == 's' && "binary"@[0] == 'b');
}

pub proof fn lemma_pairs_jm_roundtrip(p: Seq<(Seq<char>, Seq<char>)>)
    ensures
        pairs_from_jm(pairs_jm(p)) == Some(p),
{
    let q = pairs_jm(p);
    assert forall|i: int| 0 <= i < q.len() implies #[trigger] field_is_text(q, i) by {
        assert(q[i] == (p[i].0, JsonModel::Text(p[i].1)));
    }
    assert(pairs_from_jm(q).unwrap() =~= p);
}

pub proof fn lemma_bytes_jm_roundtrip(bs: Seq<u8>)
    ensures
        bytes_from_jm(bytes_jm(bs)) == Some(bs),
{
    let q = bytes_jm(bs);
    assert forall|i: int| 0 <= i < q.len() implies #[trigger] elem_is_byte(q, i) by {
        assert(q[i] == JsonModel::Int(bs[i] as int));
    }
    assert(bytes_from_jm(q).unwrap() =~= bs);
}

pub proof fn lemma_data_jm_roundtrip(d: DataModel)
    ensures
        data_from_jm(data_jm(d)) == Some(d),
{
    lemma_data_tags_distinct();
    match d {
        DataModel::Json(_) => {},
        DataModel::Text(_) => {},
        DataModel::Binary(bs) => {
            lemma_bytes_jm_roundtrip(bs);
        },
    }
}

/// Serializing an event to its JSON shape and reading it back yields the
/// very same event, for every well-formed event.
pub proof fn lemma_event_jm_roundtrip(m: EventModel)
    requires
        em_wf(m),
    ensures
        event_from_jm(event_to_jm(m)) == Some(m),
{
    let fs = event_to_jm(m)->Obj_0;
    crate::uid::lemma_uid_text_roundtrip(m.id);
    lemma_pairs_jm_roundtrip(m.metadata);
    match m.transport_metadata {
        Some(p) => {
            lemma_pairs_jm_roundtrip(p);
        },
        None => {},
    }
    match m.data_type {
        Some(t) => {
            lemma_data_tags_distinct();
        },
        None => {},
    }
    lemma_data_jm_roundtrip(m.data);
}

/// The JSON shape of a well-formed event is a well-formed document.
pub proof fn lemma_event_to_jm_wf(m: EventModel)
    requires
        em_wf(m),
    ensures
        jm_wf(event_to_jm(m)),
{
    let fs = event_to_jm(m)->Obj_0;
    assert forall|i: int| 0 <= i < 9 implies jm_wf(#[trigger] fs[i].1) by {
        if i == 3 {
            lemma_pairs_jm_fields_wf(m.metadata);
        } else if i == 4 {
            match m.transport_metadata {
                Some(p) => {
                    lemma_pairs_jm_fields_wf(p);
                },
                None => {},
            }
        } else if i == 6 {
            lemma_data_jm_wf(m.data);
        }
    }
    lemma_fields_wf_from_pointwise(fs);
}

proof fn lemma_pairs_jm_fields_wf(p: Seq<(Seq<char>, Seq<char>)>)
    ensures
        jm_wf(JsonModel::Obj(pairs_jm(p))),
{
    let q = pairs_jm(p);
    assert forall|i: int| 0 <= i < q.len() implies jm_wf(#[trigger] q[i].1) by {
        assert(q[i] == (p[i].0, JsonModel::Text(p[i].1)));
    }
    lemma_fields_wf_from_pointwise(q);
}

proof fn lemma_data_jm_wf(d: DataModel)
    requires
        (d matches DataModel::Json(fields) ==> jm_fields_wf(fields)),
    ensures
        jm_wf(data_jm(d)),
{
    let fs = data_jm(d)->Obj_0;
    assert forall|i: int| 0 <= i < 2 implies jm_wf(#[trigger] fs[i].1) by {
        if i == 1 {
            match d {
                DataModel::Json(fields) => {},
                DataModel::Text(_) => {},
                DataModel::Binary(bs) => {
                    let q = bytes_jm(bs);
                    assert forall|k: int| 0 <= k < q.len() implies jm_wf(#[trigger] q[k]) by {
                        assert(q[k] == JsonModel::Int(bs[k] as int));
                    }
                    lemma_list_wf_from_pointwise(q);
                },
            }
        }
    }
    lemma_fields_wf_from_pointwise(fs);
}

/// Pointwise well-formed fields make a well-formed object.
pub proof fn lemma_fields_wf_from_pointwise(fs: Seq<(Seq<char>, JsonModel)>)
    requires
        forall|i: int| 0 <= i < fs.len() ==> jm_wf(#[trigger] fs[i].1),
    ensures
        jm_fields_wf(fs),
    decreases fs,
{
    if fs.len() > 0 {
        assert forall|i: int| 0 <= i < fs.drop_first().len() implies jm_wf(
            #[trigger] fs.drop_first()[i].1,
        ) by {
            assert(fs.drop_first()[i] == fs[i + 1]);
        }
        lemma_fields_wf_from_pointwise(fs.drop_first());
        assert(jm_wf(fs[0].1));
    }
}

/// Pointwise well-formed elements make a well-formed array.
pub proof fn lemma_list_wf_from_pointwise(ms: Seq<JsonModel>)
    requires
        forall|i: int| 0 <= i < ms.len() ==> jm_wf(#[trigger] ms[i]),
    ensures
        crate::json::jm_list_wf(ms),
    decreases ms,
{
    if ms.len() > 0 {
        assert forall|i: int| 0 <= i < ms.drop_first().len() implies jm_wf(
            #[trigger] ms.drop_first()[i],
        ) by {
            assert(ms.drop_first()[i] == ms[i + 1]);
        }
        lemma_list_wf_from_pointwise(ms.drop_first());
        assert(jm_wf(ms[0]));
    }
}

/// Every event value of the library whose payload passes the number
/// check is well-formed.
pub proof fn lemma_event_view_wf(e: Event)
    requires
        (e.data matches Data::Json(fields) ==> crate::json::jm_fields_nums_wf(
            jview_fields(fields@),
        )),
    ensures
        em_wf(e@),
{
    crate::uid::lemma_uid_len(e.id);
    match e.data {
        Data::Json(fields) => {
            crate::json::lemma_jview_fields_wf(fields@);
        },
        _ => {},
    }
}


// ------------------------------------------------------------------
// The executable event codec
// ------------------------------------------------------------------

pub fn pairs_to_value(m: &Vec<(String, String)>) -> (r: Vec<(String, JsonValue)>)
    ensures
        jview_fields(r@) == pairs_jm(pairs_view(m@)),
{
    let n = m.len();
    let mut out: Vec<(String, JsonValue)> = Vec::new();
    let mut i: usize = 0;
    while i < n
        invariant
            i <= n,
            n == m@.len(),
            out@.len() == i,
            forall|j: int| 0 <= j < i ==> #[trigger] out@[j] == (
                m@[j].0,
                JsonValue::Text(m@[j].1),
            ),
        decreases n - i,
    {
        out.push((m[i].0.clone(), JsonValue::Text(m[i].1.clone())));
        i += 1;
    }
    proof {
        lemma_jview_fields_index(out@);
        assert(jview_fields(out@) =~= pairs_jm(pairs_view(m@)));
    }
    out
}

fn bytes_to_value(bs: &Vec<u8>) -> (r: Vec<JsonValue>)
    ensures
        crate::json::jview_list(r@) == bytes_jm(bs@),
{
    let n = bs.len();
    let mut out: Vec<JsonValue> = Vec::new();
    let mut i: usize = 0;
    while i < n
        invariant
            i <= n,
            n == bs@.len(),
            out@.len() == i,
            forall|j: int| 0 <= j < i ==> #[trigger] out@[j] == JsonValue::Int(bs@[j] as i64),
        decreases n - i,
    {
        out.push(JsonValue::Int(bs[i] as i64));
        i += 1;
    }
    proof {
        crate::json::lemma_jview_list_index(out@);
        assert(crate::json::jview_list(out@) =~= bytes_jm(bs@));
    }
    out
}

pub fn clone_json_fields_pub(m: &Vec<(String, JsonValue)>) -> (r: Vec<(String, JsonValue)>)
    ensures
        jview_fields(r@) == jview_fields(m@),
{
    let n = m.len();
    let mut out: Vec<(String, JsonValue)> = Vec::new();
    let mut i: usize = 0;
    proof {
        lemma_jview_fields_index(m@);
    }
    while i < n
        invariant
            i <= n,
            n == m@.len(),
            out@.len() == i,
            forall|j: int| 0 <= j < i ==> #[trigger] out@[j].0@ == m@[j].0@ && jview(out@[j].1)
                == jview(m@[j].1),
        decreases n - i,
    {
        out.push((m[i].0.clone(), m[i].1.clone()));
        i += 1;
    }
    proof {
        lemma_jview_fields_index(out@);
        assert(jview_fields(out@) =~= jview_fields(m@));
    }
    out
}

impl Clone for Data {
    /// The clone carries the same payload.
    fn clone(&self) -> (r: Self)
        ensures
            r@ == self@,
    {
        match self {
            Data::Json(fields) => Data::Json(clone_json_fields_pub(fields)),
            Data::String(s) => Data::String(s.clone()),
            Data::Binary(bs) => {
                let n = bs.len();
                let mut out: Vec<u8> = Vec::new();
                let mut i: usize = 0;
                while i < n
                    invariant
                        i <= n,
                        n == bs@.len(),
                        out@ == bs@.take(i as int),
                    decreases n - i,
                {
                    out.push(bs[i]);
                    proof {
                        assert(bs@.take(i as int).push(bs@[i as int]) =~= bs@.take(i + 1));
                    }
                    i += 1;
                }
                proof {
                    assert(bs@.take(n as int) =~= bs@);
                }
                Data::Binary(out)
            },
        }
    }
}

pub fn clone_pairs(m: &Vec<(String, String)>) -> (r: Vec<(String, String)>)
    ensures
        pairs_view(r@) == pairs_view(m@),
{
    let n = m.len();
    let mut out: Vec<(String, String)> = Vec::new();
    let mut i: usize = 0;
    while i < n
        invariant
            i <= n,
            n == m@.len(),
            out@.len() == i,
            forall|j: int| 0 <= j < i ==> #[trigger] out@[j].0@ == m@[j].0@ && out@[j].1@
                == m@[j].1@,
        decreases n - i,
    {
        out.push((m[i].0.clone(), m[i].1.clone()));
        i += 1;
    }
    proof {
        assert(pairs_view(out@) =~= pairs_view(m@));
    }
    out
}

impl Clone for Event {
    /// The clone carries the same fields.
    fn clone(&self) -> (r: Self)
        ensures
            r@ == self@,
    {
        Event {
            id: self.id,
            event_type: self.event_type.clone(),
            event_version: match &self.event_version {
                Some(s) => Some(s.clone()),
                None => None,
            },
            metadata: clone_pairs(&self.metadata),
            transport_metadata: match &self.transport_metadata {
                Some(m) => Some(clone_pairs(m)),
                None => None,
            },
            data_type: self.data_type,
            data: self.data.clone(),
            timestamp: self.timestamp,
            origin: match &self.origin {
                Some(s) => Some(s.clone()),
                None => None,
            },
        }
    }
}

impl Data {
    /// The payload's content as a JSON document: the object, the text,
    /// or the bytes as an array of numbers.
    pub fn content_value(&self) -> (r: JsonValue)
        ensures
            r@ == data_content_jm(self@),
    {
        match self {
            Data::Json(fields) => JsonValue::Obj(clone_json_fields_pub(fields)),
            Data::String(s) => JsonValue::Text(s.clone()),
            Data::Binary(bs) => JsonValue::Arr(bytes_to_value(bs)),
        }
    }

    /// The tagged JSON document this payload serializes to.
    pub fn to_value(&self) -> (r: JsonValue)
        ensures
            r@ == data_jm(self@),
    {
        let (tag, content) = match self {
            Data::Json(fields) => ("json", JsonValue::Obj(clone_json_fields_pub(fields))),
            Data::String(s) => ("string", JsonValue::Text(s.clone())),
            Data::Binary(bs) => ("binary", JsonValue::Arr(bytes_to_value(bs))),
        };
        let ghost content_model = content@;
        let mut fields: Vec<(String, JsonValue)> = Vec::new();
        fields.push((String::from_str("type"), JsonValue::Text(String::from_str(tag))));
        fields.push((String::from_str("content"), content));
        let r = JsonValue::Obj(fields);
        proof {
            lemma_jview_fields_index(fields@);
            assert(jview_fields(fields@) =~= seq![
                ("type"@, JsonModel::Text(data_tag(self@))),
                ("content"@, content_model),
            ]);
        }
        r
    }
}

pub fn pairs_from_value(fs: &Vec<(String, JsonValue)>) -> (r: Option<Vec<(String, String)>>)
    ensures
        match r {
            Some(m) => pairs_from_jm(jview_fields(fs@)) == Some(pairs_view(m@)),
            None => pairs_from_jm(jview_fields(fs@)) is None,
        },
{
    let n = fs.len();
    let mut out: Vec<(String, String)> = Vec::new();
    let mut i: usize = 0;
    proof {
        lemma_jview_fields_index(fs@);
    }
    while i < n
        invariant
            i <= n,
            n == fs@.len(),
            out@.len() == i,
            jview_fields(fs@).len() == n,
            forall|j: int| 0 <= j < n ==> #[trigger] jview_fields(fs@)[j] == (
                fs@[j].0@,
                jview(fs@[j].1),
            ),
            forall|j: int| 0 <= j < i ==> field_is_text(jview_fields(fs@), j),
            forall|j: int| 0 <= j < i ==> #[trigger] out@[j].0@ == fs@[j].0@ && out@[j].1@
                == jview(fs@[j].1)->Text_0,
        decreases n - i,
    {
        match &fs[i].1 {
            JsonValue::Text(t) => {
                out.push((fs[i].0.clone(), t.clone()));
                proof {
                    assert(field_is_text(jview_fields(fs@), i as int));
                }
            },
            _ => {
                proof {
                    assert(!field_is_text(jview_fields(fs@), i as int));
                }
                return None;
            },
        }
        i += 1;
    }
    proof {
        assert(pairs_from_jm(jview_fields(fs@)) is Some);
        assert(pairs_from_jm(jview_fields(fs@)).unwrap() =~= pairs_view(out@));
    }
    Some(out)
}

fn bytes_from_value(ms: &Vec<JsonValue>) -> (r: Option<Vec<u8>>)
    ensures
        match r {
            Some(bs) => bytes_from_jm(crate::json::jview_list(ms@)) == Some(bs@),
            None => bytes_from_jm(crate::json::jview_list(ms@)) is None,
        },
{
    let n = ms.len();
    let mut out: Vec<u8> = Vec::new();
    let mut i: usize = 0;
    proof {
        crate::json::lemma_jview_list_index(ms@);
    }
    while i < n
        invariant
            i <= n,
            n == ms@.len(),
            out@.len() == i,
            crate::json::jview_list(ms@).len() == n,
            forall|j: int| 0 <= j < n ==> #[trigger] crate::json::jview_list(ms@)[j] == jview(
                ms@[j],
            ),
            forall|j: int| 0 <= j < i ==> elem_is_byte(crate::json::jview_list(ms@), j),
            forall|j: int| 0 <= j < i ==> #[trigger] out@[j] as int == jview(ms@[j])->Int_0,
        decreases n - i,
    {
        match &ms[i] {
            JsonValue::Int(v) => {
                let v = *v;
                if 0 <= v && v < 256 {
                    out.push(v as u8);
                    proof {
                        assert(elem_is_byte(crate::json::jview_list(ms@), i as int));
                    }
                } else {
                    proof {
                        assert(!elem_is_byte(crate::json::jview_list(ms@), i as int));
                    }
                    return None;
                }
            },
            _ => {
                proof {
                    assert(!elem_is_byte(crate::json::jview_list(ms@), i as int));
                }
                return None;
            },
        }
        i += 1;
    }
    proof {
        assert(bytes_from_jm(crate::json::jview_list(ms@)) is Some);
        assert(bytes_from_jm(crate::json::jview_list(ms@)).unwrap() =~= out@);
    }
    Some(out)
}

impl Data {
    /// The payload a tagged document deserializes to.
    pub fn from_value(v: &JsonValue) -> (r: Option<Data>)
        ensures
            match r {
                Some(d) => data_from_jm(v@) == Some(d@),
                None => data_from_jm(v@) is None,
            },
    {
        match v {
            JsonValue::Obj(fields) => {
                proof {
                    lemma_jview_fields_index(fields@);
                }
                if fields.len() != 2 {
                    return None;
                }
                if !(str_eq(fields[0].0.as_str(), "type") && str_eq(fields[1].0.as_str(), "content"))
                {
                    return None;
                }
                match &fields[0].1 {
                    JsonValue::Text(tag) => {
                        if str_eq(tag.as_str(), "json") {
                            match &fields[1].1 {
                                JsonValue::Obj(inner) => Some(
                                    Data::Json(clone_json_fields_pub(inner)),
                                ),
                                _ => None,
                            }
                        } else if str_eq(tag.as_str(), "string") {
                            proof {
                                lemma_data_tags_distinct();
                            }
                            match &fields[1].1 {
                                JsonValue::Text(s) => Some(Data::String(s.clone())),
                                _ => None,
                            }
                        } else if str_eq(tag.as_str(), "binary") {
                            proof {
                                lemma_data_tags_distinct();
                            }
                            match &fields[1].1 {
                                JsonValue::Arr(ms) => match bytes_from_value(ms) {
                                    Some(bs) => Some(Data::Binary(bs)),
                                    None => None,
                                },
                                _ => None,
                            }
                        } else {
                            proof {
                                lemma_data_tags_distinct();
                            }
                            None
                        }
                    },
                    _ => None,
                }
            },
            _ => None,
        }
    }
}

impl Event {
    /// The JSON document this event serializes to.
    #[verifier::rlimit(60)]
    pub fn to_value(&self) -> (r: JsonValue)
        ensures
            r@ == event_to_jm(self@),
    {
        let mut fields: Vec<(String, JsonValue)> = Vec::new();
        fields.push((String::from_str("id"), JsonValue::Text(self.id.to_text())));
        fields.push((String::from_str("eventType"), JsonValue::Text(self.event_type.clone())));
        fields.push(
            (
                String::from_str("eventVersion"),
                match &self.event_version {
                    Some(s) => JsonValue::Text(s.clone()),
                    None => JsonValue::Null,
                },
            ),
        );
        fields.push((String::from_str("metadata"), JsonValue::Obj(pairs_to_value(&self.metadata))));
        fields.push(
            (
                String::from_str("transportMetadata"),
                match &self.transport_metadata {
                    Some(m) => JsonValue::Obj(pairs_to_value(m)),
                    None => JsonValue::Null,
                },
            ),
        );
        fields.push(
            (
                String::from_str("dataType"),
                match self.data_type {
                    Some(DataType::Json) => JsonValue::Text(String::from_str("json")),
                    Some(DataType::String) => JsonValue::Text(String::from_str("string")),
                    Some(DataType::Binary) => JsonValue::Text(String::from_str("binary")),
                    None => JsonValue::Null,
                },
            ),
        );
        fields.push((String::from_str("data"), self.data.to_value()));
        fields.push(
            (
                String::from_str("timestamp"),
                match self.timestamp {
                    Some(t) => JsonValue::Int(t),
                    None => JsonValue::Null,
                },
            ),
        );
        fields.push(
            (
                String::from_str("origin"),
                match &self.origin {
                    Some(s) => JsonValue::Text(s.clone()),
                    None => JsonValue::Null,
                },
            ),
        );
        let r = JsonValue::Obj(fields);
        proof {
            lemma_jview_fields_index(fields@);
            assert(jview_fields(fields@) =~= event_to_jm(self@)->Obj_0);
        }
        r
    }

    /// The event a JSON document deserializes to.
    #[verifier::rlimit(100)]
    pub fn from_value(v: &JsonValue) -> (r: Option<Event>)
        ensures
            match r {
                Some(e) => event_from_jm(v@) == Some(e@),
                None => event_from_jm(v@) is None,
            },
    {
        let fields = match v {
            JsonValue::Obj(fields) => fields,
            _ => {
                return None;
            },
        };
        proof {
            lemma_jview_fields_index(fields@);
        }
        if fields.len() != 9 {
            return None;
        }
        if !(str_eq(fields[0].0.as_str(), "id") && str_eq(fields[1].0.as_str(), "eventType")
            && str_eq(fields[2].0.as_str(), "eventVersion") && str_eq(
            fields[3].0.as_str(),
            "metadata",
        ) && str_eq(fields[4].0.as_str(), "transportMetadata") && str_eq(
            fields[5].0.as_str(),
            "dataType",
        ) && str_eq(fields[6].0.as_str(), "data") && str_eq(fields[7].0.as_str(), "timestamp")
            && str_eq(fields[8].0.as_str(), "origin")) {
            return None;
        }
        let id = match &fields[0].1 {
            JsonValue::Text(t) => match crate::uid::parse_uid(t.as_str()) {
                Some(u) => u,
                None => {
                    return None;
                },
            },
            _ => {
                return None;
            },
        };
        let event_type = match &fields[1].1 {
            JsonValue::Text(t) => t.clone(),
            _ => {
                return None;
            },
        };
        let event_version = match &fields[2].1 {
            JsonValue::Null => None,
            JsonValue::Text(t) => Some(t.clone()),
            _ => {
                return None;
            },
        };
        let metadata = match &fields[3].1 {
            JsonValue::Obj(p) => match pairs_from_value(p) {
                Some(m) => m,
                None => {
                    return None;
                },
            },
            _ => {
                return None;
            },
        };
        let transport_metadata = match &fields[4].1 {
            JsonValue::Null => None,
            JsonValue::Obj(p) => match pairs_from_value(p) {
                Some(m) => Some(m),
                None => {
                    return None;
                },
            },
            _ => {
                return None;
            },
        };
        let data_type = match &fields[5].1 {
            JsonValue::Null => None,
            JsonValue::Text(t) => {
                proof {
                    lemma_data_tags_distinct();
                }
                if str_eq(t.as_str(), "json") {
                    Some(DataType::Json)
                } else if str_eq(t.as_str(), "string") {
                    Some(DataType::String)
                } else if str_eq(t.as_str(), "binary") {
                    Some(DataType::Binary)
                } else {
                    return None;
                }
            },
            _ => {
                return None;
            },
        };
        let data = match Data::from_value(&fields[6].1) {
            Some(d) => d,
            None => {
                return None;
            },
        };
        let timestamp = match &fields[7].1 {
            JsonValue::Null => None,
            JsonValue::Int(n) => Some(*n),
            _ => {
                return None;
            },
        };
        let origin = match &fields[8].1 {
            JsonValue::Null => None,
            JsonValue::Text(t) => Some(t.clone()),
            _ => {
                return None;
            },
        };
        Some(
            Event {
                id,
                event_type,
                event_version,
                metadata,
                transport_metadata,
                data_type,
                data,
                timestamp,
                origin,
            },
        )
    }

    /// The event rendered as compact JSON text.
    pub fn to_json(&self) -> (r: String)
        ensures
            r@ == jtext(event_to_jm(self@)),
    {
        json_to_string(&self.to_value())
    }

    /// Read an event from JSON text.
    pub fn from_json(s: &str) -> (r: Option<Event>)
        ensures
            match r {
                Some(e) => event_from_text(s@) == Some(e@),
                None => event_from_text(s@) is None,
            },
    {
        match json_from_str(s) {
            Some(v) => Event::from_value(&v),
            None => None,
        }
    }
}

/// The text a serialized event parses back from.
pub open spec fn event_from_text(s: Seq<char>) -> Option<EventModel> {
    match crate::json::jparse_doc(s) {
        Some(m) => event_from_jm(m),
        None => None,
    }
}

/// Serializing an event and parsing the text back yields the very same
/// event, fields and payload tag included.
pub proof fn lemma_event_text_roundtrip(m: EventModel)
    requires
        em_wf(m),
    ensures
        event_from_text(jtext(event_to_jm(m))) == Some(m),
{
    lemma_event_to_jm_wf(m);
    crate::json::lemma_jparse_doc_jtext(event_to_jm(m));
    lemma_event_jm_roundtrip(m);
}


/// Elementwise equality of two JSON field lists.
fn json_fields_eq(a: &Vec<(String, JsonValue)>, b: &Vec<(String, JsonValue)>) -> (r: bool)
    ensures
        r == (jview_fields(a@) == jview_fields(b@)),
{
    proof {
        lemma_jview_fields_index(a@);
        lemma_jview_fields_index(b@);
    }
    if a.len() != b.len() {
        return false;
    }
    let n = a.len();
    let mut i: usize = 0;
    while i < n
        invariant
            i <= n,
            n == a@.len(),
            n == b@.len(),
            jview_fields(a@).len() == n,
            jview_fields(b@).len() == n,
            forall|j: int| 0 <= j < n ==> #[trigger] jview_fields(a@)[j] == (
                a@[j].0@,
                jview(a@[j].1),
            ),
            forall|j: int| 0 <= j < n ==> #[trigger] jview_fields(b@)[j] == (
                b@[j].0@,
                jview(b@[j].1),
            ),
            forall|j: int| 0 <= j < i ==> jview_fields(a@)[j] == jview_fields(b@)[j],
        decreases n - i,
    {
        if !(str_eq(a[i].0.as_str(), b[i].0.as_str()) && a[i].1 == b[i].1) {
            proof {
                assert(jview_fields(a@)[i as int] != jview_fields(b@)[i as int]);
            }
            return false;
        }
        i += 1;
    }
    proof {
        assert(jview_fields(a@) =~= jview_fields(b@));
    }
    true
}

impl PartialEq for Data {
    #[verifier::loop_isolation(false)]
    fn eq(&self, other: &Self) -> (r: bool) {
        match (self, other) {
            (Data::Json(a), Data::Json(b)) => json_fields_eq(a, b),
            (Data::String(a), Data::String(b)) => str_eq(a.as_str(), b.as_str()),
            (Data::Binary(a), Data::Binary(b)) => {
                if a.len() != b.len() {
                    return false;
                }
                let n = a.len();
                let mut i: usize = 0;
                while i < n
                    invariant
                        i <= n,
                        n == a@.len(),
                        n == b@.len(),
                        forall|j: int| 0 <= j < i ==> a@[j] == b@[j],
                    decreases n - i,
                {
                    if a[i] != b[i] {
                        proof {
                            assert(a@ != b@);
                        }
                        return false;
                    }
                    i += 1;
                }
                proof {
                    assert(a@ =~= b@);
                }
                true
            },
            _ => false,
        }
    }
}

impl vstd::std_specs::cmp::PartialEqSpecImpl for Data {
    open spec fn obeys_eq_spec() -> bool {
        true
    }

    open spec fn eq_spec(&self, other: &Self) -> bool {
        self@ == other@
    }
}

fn opt_string_eq(a: &Option<String>, b: &Option<String>) -> (r: bool)
    ensures
        r == (opt_str_view(*a) == opt_str_view(*b)),
{
    match (a, b) {
        (Some(x), Some(y)) => str_eq(x.as_str(), y.as_str()),
        (None, None) => true,
        _ => false,
    }
}

fn data_type_eq(a: &Option<DataType>, b: &Option<DataType>) -> (r: bool)
    ensures
        r == (*a == *b),
{
    match (a, b) {
        (Some(x), Some(y)) => x == y,
        (None, None) => true,
        _ => false,
    }
}

impl PartialEq for Event {
    fn eq(&self, other: &Self) -> (r: bool) {
        let r = self.id == other.id && str_eq(self.event_type.as_str(), other.event_type.as_str())
            && opt_string_eq(&self.event_version, &other.event_version) && crate::routing::pairs_eq(
            &self.metadata,
            &other.metadata,
        ) && (match (&self.transport_metadata, &other.transport_metadata) {
            (Some(a), Some(b)) => crate::routing::pairs_eq(a, b),
            (None, None) => true,
            _ => false,
        }) && data_type_eq(&self.data_type, &other.data_type) && self.data == other.data && (match (
            self.timestamp,
            other.timestamp,
        ) {
            (Some(a), Some(b)) => a == b,
            (None, None) => true,
            _ => false,
        }) && opt_string_eq(&self.origin, &other.origin);
        proof {
            if r {
                assert(self@ =~= other@);
            }
        }
        r
    }
}

impl vstd::std_specs::cmp::PartialEqSpecImpl for Event {
    open spec fn obeys_eq_spec() -> bool {
        true
    }

    open spec fn eq_spec(&self, other: &Self) -> bool {
        self@ == other@
    }
}

} // verus!
