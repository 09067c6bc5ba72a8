//! Request guards and their composition.
//!
//! A guard evaluates against the request's headers and the shared auth
//! state, at the verification time its caller supplies, and yields itself or
//! a status class with a typed failure. Composition is sequential and fails
//! fast; the role guard runs authentication itself, so it cannot be reached
//! without a validated identity.

use vstd::prelude::*;

use crate::jwt::{spec_decode, Claims, ClaimsModel, JwtAuthentication, JwtAuthenticationError};
use crate::repo::UserRepository;
use crate::roles::RequiredRole;
use crate::service::AuthService;

use core::marker::PhantomData;
use vstd::string::StrSliceExecFns;
use vstd::utf8::encode_utf8;

verus! {

/// The status class a failing guard maps to: a 401-class outcome for a
/// missing or unaccepted credential, a 403-class outcome for a valid
/// identity without the required role.
#[derive(Debug, Clone, Copy, PartialEq, Eq, Structural)]
pub enum StatusClass {
    Unauthorized,
    Forbidden,
}

/// What this core reads from an incoming request: the `Authorization`
/// header, if any.
#[derive(Debug, Clone)]
pub struct RequestHeaders {
    pub authorization: Option<String>,
}

impl View for RequestHeaders {
    type V = Option<Seq<char>>;

    open spec fn view(&self) -> Option<Seq<char>> {
        match self.authorization {
            None => None,
            Some(h) => Some(h@),
        }
    }
}

/// The guard protocol: every guard evaluates the same way and yields
/// `Ok(self)` or a status class with its typed failure, so the surrounding
/// framework can run guards in declared order and stop at the first failure.
pub trait Middleware<R: UserRepository>: Sized {
    type Error;

    fn from_request(service: &AuthService<R>, request: &RequestHeaders, now: u64) -> Result<
        Self,
        (StatusClass, Self::Error),
    >;
}

/// Marks a guard that authenticates the request's bearer credential.
pub trait Authentication<R: UserRepository>: Middleware<R> {

}

/// The bearer credential of an `Authorization` header value: what follows
/// the `Bearer ` scheme, or nothing for any other shape.
pub open spec fn spec_bearer(authorization: Option<Seq<char>>) -> Option<Seq<char>> {
    match authorization {
        None => None,
        Some(h) => if h.len() >= 7 && h.subrange(0, 7) == "Bearer "@ {
            Some(h.subrange(7, h.len() as int))
        } else {
            None
        },
    }
}

/// What authenticating a request yields: the claims of its bearer token, or
/// `MissingToken` before any token is parsed when no bearer credential is
/// carried, or the decode failure, or `Unauthorized` when the subject of a
/// validly signed token no longer resolves.
pub open spec fn spec_authentication<R: UserRepository>(
    service: &AuthService<R>,
    authorization: Option<Seq<char>>,
    now: int,
) -> Result<ClaimsModel, JwtAuthenticationError> {
    match spec_bearer(authorization) {
        None => Err(JwtAuthenticationError::MissingToken),
        Some(t) => match spec_decode(
            encode_utf8(t),
            encode_utf8(service.spec_secret()),
            now,
        ) {
            Err(e) => Err(e),
            Ok(c) => if service.spec_by_id(c.sub) is Some {
                Ok(c)
            } else {
                Err(JwtAuthenticationError::Unauthorized)
            },
        },
    }
}

/// The bearer token of a header value, per `spec_bearer`.
fn bearer_token(header: &String) -> (r: Option<String>)
    ensures
        match r {
            Some(t) => spec_bearer(Some(header@)) == Some(t@),
            None => spec_bearer(Some(header@)) is None,
        },
{
    let n = header.as_str().unicode_len();
    proof {
        reveal_strlit("Bearer ");
    }
    if n < 7 {
        return None;
    }
    let scheme = "Bearer ";
    let mut k: usize = 0;
    while k < 7
        invariant
            0 <= k <= 7,
            7 <= header@.len(),
            scheme@ == "Bearer "@,
            forall|j: int| 0 <= j < k ==> header@[j] == scheme@[j],
        decreases 7 - k,
    {
        proof {
            reveal_strlit("Bearer ");
        }
        if header.as_str().get_char(k) != scheme.get_char(k) {
            proof {
                assert(header@.subrange(0, 7)[k as int] != "Bearer "@[k as int]);
            }
            return None;
        }
        k += 1;
    }
    proof {
        assert forall|j: int| 0 <= j < 7 implies header@.subrange(0, 7)[j] == "Bearer "@[j] by {
            assert(header@.subrange(0, 7)[j] == header@[j]);
        }
        assert(header@.subrange(0, 7) =~= "Bearer "@);
    }
    let rest = header.as_str().substring_char(7, n);
    Some(rest.to_owned())
}

impl JwtAuthentication {
    /// Authenticates a request: extracts the bearer credential — absence or
    /// any other scheme is `MissingToken`, before any token parsing — and
    /// validates it, yielding the claims or the validation failure, always
    /// as a 401-class outcome.
    pub fn authenticate<R: UserRepository>(
        service: &AuthService<R>,
        request: &RequestHeaders,
        now: u64,
    ) -> (r: Result<Self, (StatusClass, JwtAuthenticationError)>)
        ensures
            match r {
                Ok(g) => spec_authentication(service, request@, now as int) == Ok::<
                    ClaimsModel,
                    JwtAuthenticationError,
                >(g.0@),
                Err((sc, e)) => sc == StatusClass::Unauthorized && spec_authentication(
                    service,
                    request@,
                    now as int,
                ) == Err::<ClaimsModel, JwtAuthenticationError>(e),
            },
    {
        let token = match &request.authorization {
            None => {
                return Err((StatusClass::Unauthorized, JwtAuthenticationError::MissingToken));
            },
            Some(h) => match bearer_token(h) {
                None => {
                    return Err(
                        (StatusClass::Unauthorized, JwtAuthenticationError::MissingToken),
                    );
                },
                Some(t) => t,
            },
        };
        match service.validate_token(token.as_str(), now) {
            Ok(c) => Ok(JwtAuthentication(c)),
            Err(e) => Err((StatusClass::Unauthorized, e)),
        }
    }
}

impl<R: UserRepository> Middleware<R> for JwtAuthentication {
    type Error = JwtAuthenticationError;

    fn from_request(service: &AuthService<R>, request: &RequestHeaders, now: u64) -> Result<
        Self,
        (StatusClass, Self::Error),
    > {
        Self::authenticate(service, request, now)
    }
}

impl<R: UserRepository> Authentication<R> for JwtAuthentication {

}

/// Why authorization failed. The one kind covers both a missing
/// authentication (401-class) and an authenticated identity without the
/// required role (403-class); the status class tells them apart.
#[derive(Debug, Clone, Copy, PartialEq, Eq, Structural)]
pub enum RoleAuthorizationError {
    Unauthorized,
}

/// Enforces one statically-pinned required role on top of a successful
/// authentication: exact membership in the claims' role set, no hierarchy.
pub struct RoleAuthorization<T: RequiredRole>(PhantomData<T>);

impl<T: RequiredRole> RoleAuthorization<T> {
    /// Checks the required role against already-validated claims. The
    /// argument can only be built by authentication, so this check cannot
    /// run without one.
    pub fn authorize(jwt: &JwtAuthentication) -> (r: Result<
        Self,
        (StatusClass, RoleAuthorizationError),
    >)
        ensures
            r is Ok <==> jwt.0@.roles.contains(T::spec_role()),
            r matches Err(p) ==> p == (
                StatusClass::Forbidden,
                RoleAuthorizationError::Unauthorized,
            ),
    {
        let required = T::required_role();
        let roles = &jwt.0.roles;
        let mut i: usize = 0;
        while i < roles.len()
            invariant
                i <= roles@.len(),
                required == T::spec_role(),
                roles@ == jwt.0@.roles,
                forall|j: int| 0 <= j < i ==> roles@[j] != required,
            decreases roles@.len() - i,
        {
            if roles[i] == required {
                proof {
                    assert(jwt.0@.roles[i as int] == required);
                }
                return Ok(RoleAuthorization(PhantomData));
            }
            i += 1;
        }
        proof {
            assert(!jwt.0@.roles.contains(required));
        }
        Err((StatusClass::Forbidden, RoleAuthorizationError::Unauthorized))
    }

    /// Runs the whole chain for one request: authentication first, then the
    /// role check. An authentication failure surfaces as a 401-class
    /// outcome; an authenticated identity without the required role as a
    /// 403-class one. Later checks never run after a failure.
    pub fn check_request<R: UserRepository>(
        service: &AuthService<R>,
        request: &RequestHeaders,
        now: u64,
    ) -> (r: Result<Self, (StatusClass, RoleAuthorizationError)>)
        ensures
            match r {
                Ok(_) => match spec_authentication(service, request@, now as int) {
                    Ok(c) => c.roles.contains(T::spec_role()),
                    Err(_) => false,
                },
                Err((sc, e)) => e == RoleAuthorizationError::Unauthorized && match
                    spec_authentication(service, request@, now as int) {
                    Err(_) => sc == StatusClass::Unauthorized,
                    Ok(c) => sc == StatusClass::Forbidden && !c.roles.contains(T::spec_role()),
                },
            },
    {
        let jwt = match JwtAuthentication::authenticate(service, request, now) {
            Err((sc, _)) => {
                return Err((sc, RoleAuthorizationError::Unauthorized));
            },
            Ok(g) => g,
        };
        Self::authorize(&jwt)
    }
}

impl<R: UserRepository, T: RequiredRole> Middleware<R> for RoleAuthorization<T> {
    type Error = RoleAuthorizationError;

    fn from_request(service: &AuthService<R>, request: &RequestHeaders, now: u64) -> Result<
        Self,
        (StatusClass, Self::Error),
    > {
        Self::check_request(service, request, now)
    }
}

} // verus!
