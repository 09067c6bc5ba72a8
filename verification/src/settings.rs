use vstd::prelude::*;

verus! {

/// Token-issuance settings: the symmetric signing secret shared by issuer and
/// verifier, and the lifetime of issued tokens in seconds.
///
/// Both are supplied once at startup and shared read-only afterwards.
#[derive(Debug, Clone)]
pub struct JwtSettings {
    pub secret: String,
    pub expiration: u64,
}

} // verus!
