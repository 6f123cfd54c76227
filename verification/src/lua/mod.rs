//! What scripts can call: jobs, spaces and other XRPC methods.
pub mod jobs_api;
pub mod spaces_api;
pub mod xrpc_api;
