//! The rules of a key-value store and message queue kept in SQLite.

pub mod answer_laws;
pub mod backend;
pub mod batch;
pub mod batch_laws;
pub mod bigint;
pub mod bytes;
pub mod cleanup_laws;
pub mod clock;
pub mod commit_laws;
pub mod deadline_laws;
pub mod decimal;
pub mod delivery_laws;
pub mod encoding_laws;
pub mod error;
pub mod expiry;
pub mod expiry_laws;
pub mod failure_laws;
pub mod json;
pub mod key_laws;
pub mod le64;
pub mod listing_laws;
pub mod model_laws;
pub mod mutation_laws;
pub mod notify;
pub mod overdue_laws;
pub mod partial_laws;
pub mod protocol;
pub mod queue;
pub mod queue_laws;
pub mod read;
pub mod read_laws;
pub mod request;
pub mod requeue;
pub mod retry_laws;
pub mod running;
pub mod running_laws;
pub mod schema;
pub mod schema_laws;
pub mod sql;
pub mod store_laws;
pub mod sum;
pub mod sum_laws;
pub mod tables;
pub mod text_laws;
pub mod time_laws;
pub mod value;
pub mod versionstamp;
pub mod views;
pub mod write;
pub mod write_laws;
pub mod write_task;
