//! Credential issuance and request authorization.
//!
//! The crate verifies a user's credentials and issues a signed, time-bounded
//! token asserting identity and role membership; validates that token on
//! incoming requests; enforces role-based access control on top of a valid
//! token; and hashes and verifies passwords one way.
//!
//! Time never enters on its own: every operation that compares against "now"
//! takes the verification time from its caller, so the clock has a single
//! source of truth and tests can inject it.

pub mod json;
pub mod jwt;
pub mod middleware;
pub mod model;
pub mod repo;
pub mod requests;
pub mod roles;
pub mod service;
pub mod settings;
pub mod user_service;
