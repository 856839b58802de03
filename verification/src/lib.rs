//! An event gateway: ingests structured events, routes each one by an
//! ordered list of condition rules, validates JSON payloads against
//! per-topic schemas, publishes to a messaging bus, and archives a
//! deterministic sample of events in the background.

pub mod cache;
pub mod config;
pub mod event;
pub mod expressions;
pub mod file_store;
pub mod gateway;
pub mod json;
pub mod router;
pub mod routing;
pub mod storage;
pub mod text;
pub mod topic;
pub mod uid;

pub use cache::CachedRuleStore;
pub use config::{
    ApiConfig, DatabaseConfig, FileDatabaseConfig, InMemoryDatabaseConfig, JwtAuthConfig,
    KafkaPublisherConfig, KCompression, KRequiredAcks, MqttPublisherConfig, PostgresDatabaseConfig,
    PublisherConfig, QosLevel, RequestMetadata, ServerConfig,
};
pub use event::{Data, DataType, Event};
pub use expressions::{CompiledRegex, Condition, StringExpression};
pub use file_store::FileStorage;
pub use gateway::{
    ArchiveRequest, EventGateway, EventSamplingConfig, GatewayError, HandleOutcome, NoOpPublisher,
    Publisher, PublisherError,
};
pub use json::JsonValue;
pub use router::{TopicRouter, TopicRoutings};
pub use routing::{
    DataSchema, DraftKind, JSchema, Schema, TopicRoutingRule, TopicValidationConfig,
    ValidationError,
};
pub use storage::{InMemoryStorage, Storage, StorageError, StoredEvent};
pub use topic::{Topic, TopicValidationError};
pub use uid::Uid;
