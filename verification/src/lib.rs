pub mod ambient;
pub mod auth;
pub mod crypto;
pub mod error;
pub mod ipld;
pub mod json;
pub mod lua;
pub mod oauth;
pub mod order;
pub mod profile;
pub mod record_refs;
pub mod repo;
pub mod server;
pub mod spaces;
pub mod text;
pub mod url;
