//! Acting on users' repos at their PDSes.
pub mod pds;
