use vstd::prelude::*;

use crate::roles::Role;

use argon2::password_hash::PasswordHasher;
use argon2::PasswordVerifier;

verus! {

/// Whether re-deriving `raw` under the algorithm, parameters and salt recorded
/// in the self-describing hash string `stored` reproduces the digest recorded
/// there. This is the predicate that Argon2 password verification computes;
/// it depends on the two strings alone. A `stored` string that is not a
/// well-formed hash matches nothing.
pub uninterp spec fn argon2_matches(stored: Seq<char>, raw: Seq<char>) -> bool;

/// Relies on `argon2::Argon2::verify_password` (with
/// `argon2::password_hash::PasswordHash::new` to parse the stored string):
/// it re-derives the password under the parameters and salt carried by the
/// stored string and compares digests in constant time, so the outcome is a
/// function of the two strings alone; a malformed stored string verifies as
/// false.
#[verifier::external_body]
fn argon2_verify(stored: &str, raw: &str) -> (r: bool)
    ensures
        r == argon2_matches(stored@, raw@),
{
    match argon2::password_hash::PasswordHash::new(stored) {
        Ok(parsed) => argon2::Argon2::default().verify_password(raw.as_bytes(), &parsed).is_ok(),
        Err(_) => false,
    }
}

/// Relies on `argon2::Argon2::hash_password` with a salt drawn from the
/// operating-system RNG: on success the returned PHC string records the
/// algorithm, parameters, salt and digest, so that verifying the same
/// password against it re-derives the same digest. It fails only if the
/// platform RNG or the derivation fails.
#[verifier::external_body]
fn argon2_hash(raw: &str) -> (r: Result<String, ()>)
    ensures
        r matches Ok(h) ==> argon2_matches(h@, raw@),
{
    let salt = argon2::password_hash::SaltString::generate(
        &mut argon2::password_hash::rand_core::OsRng,
    );
    match argon2::Argon2::default().hash_password(raw.as_bytes(), &salt) {
        Ok(h) => Ok(h.to_string()),
        Err(_) => Err(()),
    }
}

/// Why deriving a fresh password hash failed.
///
/// Derivation fails only on an unrecoverable platform problem (the RNG);
/// the detail is never echoed to a caller.
#[derive(Debug, Clone, Copy, PartialEq, Eq, Structural)]
pub enum PasswordHashError {
    HashGenerationFailed,
}

/// A stored one-way password hash: a self-describing string carrying the
/// algorithm id, its parameters, the salt and the digest.
///
/// Two hashes of the same password drawn at different times differ (the salt
/// is re-randomized per hash), so hashes are never compared for equality to
/// check a password; verification always re-derives.
#[derive(Debug, Clone, PartialEq, Eq)]
pub struct PasswordHash(String);

impl View for PasswordHash {
    type V = Seq<char>;

    closed spec fn view(&self) -> Seq<char> {
        self.0@
    }
}

impl PasswordHash {
    /// Wraps an already-derived hash string, as read back from the identity
    /// store.
    pub fn from_hash(hash: String) -> (r: Self)
        ensures
            r@ == hash@,
    {
        PasswordHash(hash)
    }

    /// Derives a salted hash of the raw password. Every hash this returns
    /// verifies against the password it was derived from; it fails only on
    /// an underlying RNG failure.
    pub fn raw(raw: String) -> (r: Result<Self, PasswordHashError>)
        ensures
            r matches Ok(h) ==> argon2_matches(h@, raw@),
            r matches Err(e) ==> e == PasswordHashError::HashGenerationFailed,
    {
        Self::hash(raw.as_str())
    }

    fn hash(raw_password: &str) -> (r: Result<Self, PasswordHashError>)
        ensures
            r matches Ok(h) ==> argon2_matches(h@, raw_password@),
            r matches Err(e) ==> e == PasswordHashError::HashGenerationFailed,
    {
        match argon2_hash(raw_password) {
            Ok(h) => Ok(PasswordHash(h)),
            Err(()) => Err(PasswordHashError::HashGenerationFailed),
        }
    }

    /// Re-derives `raw_password` under the parameters recorded in this hash
    /// and compares digests. A malformed stored hash never matches; no parse
    /// error reaches the caller.
    pub fn verify(&self, raw_password: &str) -> (r: bool)
        ensures
            r == argon2_matches(self@, raw_password@),
    {
        argon2_verify(self.0.as_str(), raw_password)
    }

    /// A copy with the same stored hash string.
    pub fn duplicate(&self) -> (r: Self)
        ensures
            r@ == self@,
    {
        PasswordHash(self.0.clone())
    }

    /// The stored hash string.
    pub fn as_str(&self) -> (r: &str)
        ensures
            r@ == self@,
    {
        self.0.as_str()
    }
}

/// The spec-level value of an identity record.
pub struct UserModel {
    pub id: Seq<char>,
    pub username: Seq<char>,
    pub email: Seq<char>,
    pub password: Seq<char>,
    pub roles: Seq<Role>,
}

/// An identity record as the store exposes it to this core: looked up by id
/// or by login key (email), consulted for login and for token liveness.
#[derive(Debug, Clone)]
pub struct User {
    pub id: String,
    pub username: String,
    pub email: String,
    pub password: PasswordHash,
    pub roles: Vec<Role>,
}

impl View for User {
    type V = UserModel;

    open spec fn view(&self) -> UserModel {
        UserModel {
            id: self.id@,
            username: self.username@,
            email: self.email@,
            password: self.password@,
            roles: self.roles@,
        }
    }
}

/// A copy of a role list.
pub fn clone_roles(v: &Vec<Role>) -> (r: Vec<Role>)
    ensures
        r@ == v@,
{
    let mut out: Vec<Role> = Vec::new();
    let mut i: usize = 0;
    while i < v.len()
        invariant
            i <= v@.len(),
            out@ == v@.subrange(0, i as int),
        decreases v@.len() - i,
    {
        out.push(v[i]);
        proof {
            assert(v@.subrange(0, i + 1) =~= v@.subrange(0, i as int) + seq![v@[i as int]]);
            assert(out@ =~= v@.subrange(0, i + 1));
        }
        i += 1;
    }
    proof {
        assert(v@.subrange(0, v@.len() as int) =~= v@);
    }
    out
}

impl User {
    /// A copy with the same fields.
    pub fn duplicate(&self) -> (r: Self)
        ensures
            r@ == self@,
    {
        User {
            id: self.id.clone(),
            username: self.username.clone(),
            email: self.email.clone(),
            password: self.password.duplicate(),
            roles: clone_roles(&self.roles),
        }
    }

    pub fn new(
        id: String,
        username: String,
        email: String,
        password: PasswordHash,
        roles: Vec<Role>,
    ) -> (r: Self)
        ensures
            r@ == (UserModel {
                id: id@,
                username: username@,
                email: email@,
                password: password@,
                roles: roles@,
            }),
    {
        Self { id, username, email, password, roles }
    }
}

} // verus!
