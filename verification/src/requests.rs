use vstd::prelude::*;

verus! {

/// The credential pair a login request carries. Ephemeral: it exists for
/// the one call and is never logged or stored.
#[derive(Debug, Clone)]
pub struct LoginRequest {
    pub email: String,
    pub password: String,
}

/// What a successful login returns: the issued token.
#[derive(Debug, Clone)]
pub struct LoginResponse {
    pub token: String,
}

} // verus!
