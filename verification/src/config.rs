//! Typed configuration for the server, the storage backends and the
//! publishers, and the transport metadata the boundary extracts.

use vstd::prelude::*;
use vstd::string::StrSliceExecFns;
use vstd::string::StringExecFns;
use crate::json::{digits_val, is_digit};
use crate::text::push_char;

verus! {

/// The JWT verification layer's settings.
pub struct JwtAuthConfig {
    pub jwks_url: String,
    pub refresh_interval_secs: u64,
}

/// The HTTP surface's settings.
pub struct ApiConfig {
    pub prefix: Option<String>,
    pub jwt_auth: Option<JwtAuthConfig>,
}

/// Where the server listens.
pub struct ServerConfig {
    pub host: String,
    pub port: u16,
}

pub struct FileDatabaseConfig {
    pub path: String,
}

pub struct InMemoryDatabaseConfig {
    pub initial_data_json: Option<String>,
}

pub struct PostgresDatabaseConfig {
    pub username: String,
    pub password: String,
    pub endpoint: String,
    pub cache_refresh_interval_secs: u64,
    pub dbname: String,
}

/// Which storage backend to run.
pub enum DatabaseConfig {
    File(FileDatabaseConfig),
    InMemory(InMemoryDatabaseConfig),
    Postgres(PostgresDatabaseConfig),
}

#[derive(Clone, Copy, PartialEq, Eq, Structural)]
pub enum KCompression {
    NONE,
    GZIP,
    SNAPPY,
}

#[derive(Clone, Copy, PartialEq, Eq, Structural)]
pub enum KRequiredAcks {
    NONE,
    ONE,
    ALL,
}

pub struct KafkaPublisherConfig {
    pub brokers: Vec<String>,
    pub compression: KCompression,
    pub client_id: String,
    pub required_acks: KRequiredAcks,
    pub conn_idle_timeout_ms: u64,
    pub message_timeout_ms: u64,
    pub ack_timeout_ms: u64,
    pub metadata_field_as_key: Option<String>,
}

#[derive(Clone, Copy, PartialEq, Eq, Structural)]
pub enum QosLevel {
    AtMostOnce,
    AtLeastOnce,
    ExactlyOnce,
}

pub struct MqttPublisherConfig {
    pub host: String,
    pub port: u16,
    pub client_id: String,
    pub keep_alive: u64,
    pub clean_session: bool,
    pub qos: QosLevel,
    pub retain: bool,
}

/// Which publisher to run.
pub enum PublisherConfig {
    NoOp,
    Kafka(KafkaPublisherConfig),
    Mqtt(MqttPublisherConfig),
}

/// The cache refresh period used when the configuration names none.
pub fn default_cache_refresh_interval() -> (r: u64)
    ensures
        r == 300,
{
    300
}

/// The database name used when the configuration names none.
pub fn default_dbname() -> (r: String)
    ensures
        r@ == "event_gateway"@,
{
    String::from_str("event_gateway")
}

/// Whether the endpoint has a colon.
pub open spec fn has_colon(s: Seq<char>) -> bool {
    exists|i: int| 0 <= i < s.len() && s[i] == ':'
}

/// The position of the first colon.
pub open spec fn first_colon(s: Seq<char>) -> int
    decreases s.len(),
{
    if s.len() == 0 {
        0
    } else if s[0] == ':' {
        0
    } else {
        1 + first_colon(s.drop_first())
    }
}

proof fn lemma_first_colon(s: Seq<char>, i: int)
    requires
        0 <= i < s.len(),
        s[i] == ':',
        forall|j: int| 0 <= j < i ==> s[j] != ':',
    ensures
        first_colon(s) == i,
    decreases s.len(),
{
    if i > 0 {
        assert forall|j: int| 0 <= j < i - 1 implies s.drop_first()[j] != ':' by {
            assert(s.drop_first()[j] == s[j + 1]);
        }
        assert(s.drop_first()[i - 1] == s[i]);
        lemma_first_colon(s.drop_first(), i - 1);
    }
}

/// The port named after the colon: the digits parsed as a number, or
/// 5432 where they are missing, malformed or out of range.
pub open spec fn endpoint_port(rest: Seq<char>) -> u16 {
    if rest.len() > 0 && (forall|i: int| 0 <= i < rest.len() ==> is_digit(#[trigger] rest[i]))
        && digits_val(rest) <= 65535 {
        digits_val(rest) as u16
    } else {
        5432
    }
}

/// Split `host[:port]`; the port defaults to 5432.
pub fn parse_endpoint(endpoint: &str) -> (r: (String, u16))
    ensures
        has_colon(endpoint@) ==> r.0@ == endpoint@.take(first_colon(endpoint@)) && r.1
            == endpoint_port(endpoint@.skip(first_colon(endpoint@) + 1)),
        !has_colon(endpoint@) ==> r.0@ == endpoint@ && r.1 == 5432,
{
    let n = endpoint.unicode_len();
    let mut host = String::new();
    let mut i: usize = 0;
    while i < n
        invariant
            i <= n,
            n == endpoint@.len(),
            host@ == endpoint@.take(i as int),
            forall|j: int| 0 <= j < i ==> endpoint@[j] != ':',
        decreases n - i,
    {
        let c = endpoint.get_char(i);
        if c == ':' {
            proof {
                lemma_first_colon(endpoint@, i as int);
            }
            let port = parse_port(endpoint, i + 1);
            return (host, port);
        }
        push_char(&mut host, c);
        proof {
            assert(endpoint@.take(i as int).push(endpoint@[i as int]) =~= endpoint@.take(i + 1));
        }
        i += 1;
    }
    proof {
        assert(endpoint@.take(n as int) =~= endpoint@);
        if has_colon(endpoint@) {
            let j = choose|j: int| 0 <= j < endpoint@.len() && endpoint@[j] == ':';
        }
    }
    (host, 5432)
}

/// Read `endpoint[from..]` as a port number, defaulting to 5432.
fn parse_port(endpoint: &str, from: usize) -> (r: u16)
    requires
        from <= endpoint@.len(),
    ensures
        r == endpoint_port(endpoint@.skip(from as int)),
{
    let ghost rest = endpoint@.skip(from as int);
    let n = endpoint.unicode_len();
    if from == n {
        assert(rest.len() == 0);
        return 5432;
    }
    let mut acc: u32 = 0;
    let mut over = false;
    let mut i: usize = from;
    proof {
        assert(rest.take(0) =~= Seq::<char>::empty());
    }
    while i < n
        invariant
            from <= i <= n,
            n == endpoint@.len(),
            rest == endpoint@.skip(from as int),
            forall|j: int| 0 <= j < i - from ==> is_digit(#[trigger] rest[j]),
            !over ==> acc == digits_val(rest.take(i - from)) && acc <= 65535,
            over ==> digits_val(rest.take(i - from)) > 65535,
        decreases n - i,
    {
        let c = endpoint.get_char(i);
        let cv = c as u32;
        if !(48 <= cv && cv <= 57) {
            proof {
                assert(rest[i - from] == endpoint@[i as int]);
                assert(!is_digit(rest[i - from]));
            }
            return 5432;
        }
        let d: u32 = cv - 48;
        proof {
            assert(rest[i - from] == endpoint@[i as int]);
            assert(is_digit(rest[i - from]));
            assert(rest.take(i - from + 1).drop_last() =~= rest.take(i - from));
            assert(rest.take(i - from + 1).last() == rest[i - from]);
            assert(digits_val(rest.take(i - from + 1)) == digits_val(rest.take(i - from)) * 10
                + crate::json::digit_val(rest[i - from]));
            assert(crate::json::digit_val(rest[i - from]) == d);
        }
        if over {
            proof {
                assert(digits_val(rest.take(i - from + 1)) > 65535);
            }
        } else {
            let na = acc * 10 + d;
            if na > 65535 {
                over = true;
            } else {
                acc = na;
            }
        }
        i += 1;
    }
    proof {
        assert(rest.take(n - from) =~= rest);
        assert forall|j: int| 0 <= j < rest.len() implies is_digit(#[trigger] rest[j]) by {}
    }
    if over {
        5432
    } else {
        acc as u16
    }
}

/// What the boundary knows about the request's sender.
pub struct RequestMetadata {
    pub originator_ip: Option<String>,
    pub user_agent: Option<String>,
}

impl RequestMetadata {
    /// The transport metadata entries this request contributes: the
    /// originator address under `originatorIp` and the agent under
    /// `userAgent`, each only when known.
    pub fn to_hash_map_string(&self) -> (r: Vec<(String, String)>)
        ensures
            crate::event::pairs_view(r@) == (match self.originator_ip {
                Some(ip) => seq![("originatorIp"@, ip@)],
                None => Seq::empty(),
            }) + (match self.user_agent {
                Some(ua) => seq![("userAgent"@, ua@)],
                None => Seq::empty(),
            }),
    {
        let mut out: Vec<(String, String)> = Vec::new();
        match &self.originator_ip {
            Some(ip) => {
                out.push((String::from_str("originatorIp"), ip.clone()));
            },
            None => {},
        }
        match &self.user_agent {
            Some(ua) => {
                out.push((String::from_str("userAgent"), ua.clone()));
            },
            None => {},
        }
        proof {
            assert(crate::event::pairs_view(out@) =~= (match self.originator_ip {
                Some(ip) => seq![("originatorIp"@, ip@)],
                None => Seq::<(Seq<char>, Seq<char>)>::empty(),
            }) + (match self.user_agent {
                Some(ua) => seq![("userAgent"@, ua@)],
                None => Seq::<(Seq<char>, Seq<char>)>::empty(),
            }));
        }
        out
    }
}

} // verus!
