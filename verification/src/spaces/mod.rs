//! Permissioned data spaces: how they are addressed, who may read and write
//! them, and how their repos are committed, shared and kept in step.
pub mod answers;
pub mod auth;
pub mod batch;
pub mod car;
pub mod commit;
pub mod credential;
pub mod delegation;
pub mod describe;
pub mod host_mode;
pub mod members;
pub mod native_client;
pub mod native_sync;
pub mod pds_support;
pub mod reads;
pub mod rebuild;
pub mod record_writes;
pub mod routes;
pub mod scope;
pub mod service;
pub mod simplespace;
pub mod transaction;
pub mod types;
pub mod uri;

pub use uri::SpaceUri;
