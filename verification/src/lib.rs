//! The decision logic of a local Firebase emulator: Firestore documents and
//! queries, Pub/Sub delivery, Cloud Storage uploads, Auth accounts and the
//! Functions configuration, as verified functions from plain values to plain
//! values.

pub mod text;
pub mod ordered;
pub mod schema;
pub mod settings;
pub mod status;
pub mod dotenv;
pub mod double;
pub mod double_laws;
pub mod triggers;
pub mod value;
pub mod field_path;
pub mod listing;
pub mod listed;
pub mod loopback;
pub mod multipart;
pub mod names;
pub mod codebases;
pub mod console;
pub mod console_laws;
pub mod document;
pub mod workers;
pub mod runtime_laws;
pub mod start_laws;
pub mod resource_laws;
pub mod handlers;
pub mod writes;
pub mod query;
pub mod operator_laws;
pub mod query_laws;
pub mod write_laws;
pub mod store_laws;
pub mod buckets;
pub mod changes;
pub mod claims;
pub mod cloning;
pub mod fanout;
pub mod timestamps;
pub mod time_order;
pub mod firestore;
pub mod listen;
pub mod listen_laws;
pub mod durable;
pub mod encoding;
pub mod outbox;
pub mod paging;
pub mod project;
pub mod pubsub;
pub mod accounts;
pub mod auth;
pub mod auth_laws;
pub mod account_laws;
pub mod session_laws;
pub mod auth_service;
pub mod broker;
pub mod leases;
pub mod guarantees;
pub mod message_laws;
pub mod topic_laws;
pub mod storage;
pub mod storage_laws;
pub mod upload_laws;
pub mod streaming;
pub mod json;
pub mod json_laws;
pub mod trigger_laws;
pub mod web_channel;
pub mod web_form;
pub mod web_requests;
pub mod request_laws;
pub mod web_service;
pub mod web_laws;
pub mod web_values;
pub mod answer_laws;
