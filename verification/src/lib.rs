//! A bridge between language-model APIs: requests in one dialect are carried to
//! providers that speak another, and the answers are carried back.

pub mod text;
pub mod json;
pub mod canonical;
pub mod error;
pub mod dict;
pub mod double;
pub mod config;
pub mod columns;
pub mod config_json;
pub mod wire;
pub mod sse;
pub mod sse_laws;
pub mod store;
pub mod store_laws;
pub mod router;
pub mod route_laws;
pub mod usage;
pub mod usage_laws;
pub mod charge_laws;
pub mod failover;
pub mod stream;
pub mod stream_laws;
pub mod flow_laws;
pub mod upstream;
pub mod probe;
pub mod watcher;
pub mod plain_laws;
pub mod service_laws;
pub mod server;
pub mod report_laws;
pub mod answer_laws;
pub mod turn_laws;
pub mod admin;
pub mod management_laws;
