//! The OAuth surface: how applications authenticate, and how they come by the
//! sessions they act for users with.
pub mod client_auth;
pub mod client_keys;
pub mod routes;
