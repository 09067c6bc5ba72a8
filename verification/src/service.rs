use vstd::prelude::*;

use crate::jwt::{
    encode_token, spec_decode, spec_token_bytes, validate_jwt, Claims, ClaimsModel,
    JwtAuthenticationError,
};
use crate::model::{argon2_matches, clone_roles, User, UserModel};
use crate::repo::UserRepository;
use crate::settings::JwtSettings;
use crate::user_service::UserService;

use vstd::utf8::encode_utf8;

verus! {

/// The claims a login issues for an identity record with a given expiry:
/// subject is the record's id, the roles are the record's roles.
pub open spec fn login_claims(user: UserModel, exp: int) -> ClaimsModel {
    ClaimsModel { sub: user.id, exp, roles: user.roles }
}

/// Orchestrates login (credential lookup, verification, token issuance) and
/// token validation (decode, then a liveness re-check of the subject against
/// the identity store). Holds the signing settings and the user service;
/// both are read-only and shared for the life of the process. The
/// verification clock is never read here: every operation takes `now` from
/// its caller, the single source of truth for time.
pub struct AuthService<R: UserRepository> {
    user_service: UserService<R>,
    jwt: JwtSettings,
}

impl<R: UserRepository> AuthService<R> {
    /// The record the store holds for each id.
    pub closed spec fn spec_by_id(&self, id: Seq<char>) -> Option<UserModel> {
        self.user_service.spec_by_id(id)
    }

    /// The record the store holds for each login key.
    pub closed spec fn spec_by_email(&self, email: Seq<char>) -> Option<UserModel> {
        self.user_service.spec_by_email(email)
    }

    /// The signing secret.
    pub closed spec fn spec_secret(&self) -> Seq<char> {
        self.jwt.secret@
    }

    /// The lifetime of issued tokens, in seconds.
    pub closed spec fn spec_expiration(&self) -> int {
        self.jwt.expiration as int
    }

    pub fn new(user_service: UserService<R>, jwt: JwtSettings) -> (r: Self)
        ensures
            forall|id: Seq<char>| #[trigger] r.spec_by_id(id) == user_service.spec_by_id(id),
            forall|email: Seq<char>| #[trigger] r.spec_by_email(email)
                == user_service.spec_by_email(email),
            r.spec_secret() == jwt.secret@,
            r.spec_expiration() == jwt.expiration as int,
    {
        Self { user_service, jwt }
    }

    /// Issues the token of an identity record, expiring `expiration` seconds
    /// after `now`: the one token of `login_claims` under the configured
    /// secret, which decodes back to those claims until the expiry and to
    /// `ExpiredToken` from it on.
    pub fn generate_jwt(&self, user: &User, now: u64) -> (r: String)
        requires
            now + self.spec_expiration() <= u64::MAX,
        ensures
            encode_utf8(r@) == spec_token_bytes(
                login_claims(user@, now + self.spec_expiration()),
                encode_utf8(self.spec_secret()),
            ),
            forall|t: int|
                spec_decode(encode_utf8(r@), encode_utf8(self.spec_secret()), t) == (if t < now
                    + self.spec_expiration() {
                    Ok::<ClaimsModel, JwtAuthenticationError>(
                        login_claims(user@, now + self.spec_expiration()),
                    )
                } else {
                    Err::<ClaimsModel, JwtAuthenticationError>(
                        JwtAuthenticationError::ExpiredToken,
                    )
                }),
    {
        let exp = now + self.jwt.expiration;
        let claims = Claims { sub: user.id.clone(), exp, roles: clone_roles(&user.roles) };
        proof {
            assert(claims@ =~= login_claims(user@, now + self.spec_expiration()));
        }
        encode_token(&claims, self.jwt.secret.as_str())
    }

    /// Logs a credential pair in: the record under the login key must exist
    /// and the password must match; then the issued token carries the
    /// record's id and roles and expires `expiration` seconds after `now`.
    /// An unknown login key and a wrong password yield the same bare failure,
    /// so the two cannot be told apart.
    pub fn login(&self, email: String, password: String, now: u64) -> (r: Result<String, ()>)
        requires
            now + self.spec_expiration() <= u64::MAX,
        ensures
            match r {
                Ok(t) => match self.spec_by_email(email@) {
                    Some(u) => argon2_matches(u.password, password@) && encode_utf8(t@)
                        == spec_token_bytes(
                        login_claims(u, now + self.spec_expiration()),
                        encode_utf8(self.spec_secret()),
                    ) && forall|v: int|
                        spec_decode(encode_utf8(t@), encode_utf8(self.spec_secret()), v) == (if v
                            < now + self.spec_expiration() {
                            Ok::<ClaimsModel, JwtAuthenticationError>(
                                login_claims(u, now + self.spec_expiration()),
                            )
                        } else {
                            Err::<ClaimsModel, JwtAuthenticationError>(
                                JwtAuthenticationError::ExpiredToken,
                            )
                        }),
                    None => false,
                },
                Err(()) => match self.spec_by_email(email@) {
                    None => true,
                    Some(u) => !argon2_matches(u.password, password@),
                },
            },
    {
        let user = match self.user_service.verify_user(email, password) {
            Err(_) => {
                return Err(());
            },
            Ok(u) => u,
        };
        Ok(self.generate_jwt(&user, now))
    }

    /// Validates a bearer token at verification time `now`: it must decode
    /// under the configured secret, and its subject must still resolve in
    /// the identity store — a deleted or deactivated account invalidates
    /// issued, unexpired tokens, with `Unauthorized`.
    pub fn validate_token(&self, token: &str, now: u64) -> (r: Result<
        Claims,
        JwtAuthenticationError,
    >)
        ensures
            match r {
                Ok(c) => spec_decode(encode_utf8(token@), encode_utf8(self.spec_secret()), now as int)
                    == Ok::<ClaimsModel, JwtAuthenticationError>(c@) && self.spec_by_id(c@.sub)
                    is Some,
                Err(e) => match spec_decode(
                    encode_utf8(token@),
                    encode_utf8(self.spec_secret()),
                    now as int,
                ) {
                    Err(de) => e == de,
                    Ok(c) => e == JwtAuthenticationError::Unauthorized && self.spec_by_id(c.sub)
                        is None,
                },
            },
    {
        let claims = match validate_jwt(token, &self.jwt, now) {
            Err(e) => {
                return Err(e);
            },
            Ok(c) => c,
        };
        match self.user_service.find_by_id(claims.sub.clone()) {
            Some(_) => Ok(claims),
            None => Err(JwtAuthenticationError::Unauthorized),
        }
    }
}

} // verus!
