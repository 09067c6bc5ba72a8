use vstd::prelude::*;

use crate::model::{argon2_matches, User, UserModel};
use crate::repo::UserRepository;

verus! {

/// Why a user-service operation failed. Credential verification collapses
/// "no such login key" and "wrong password" into the one kind `UserNotFound`,
/// so a caller cannot tell the two apart and enumerate login keys.
#[derive(Debug, Clone, PartialEq, Eq)]
pub enum UserServiceError {
    ValidationError(String),
    PasswordHashError(String),
    UserNotFound,
    RepositoryError(String),
    Unknown,
}

/// The slice of the user service this core consumes: credential verification
/// at login, and the lookup behind the liveness re-check of token validation.
pub struct UserService<R: UserRepository> {
    repo: R,
}

impl<R: UserRepository> UserService<R> {
    /// The record the store holds for each id.
    pub closed spec fn spec_by_id(&self, id: Seq<char>) -> Option<UserModel> {
        self.repo.spec_by_id(id)
    }

    /// The record the store holds for each login key.
    pub closed spec fn spec_by_email(&self, email: Seq<char>) -> Option<UserModel> {
        self.repo.spec_by_email(email)
    }

    pub fn new(repo: R) -> (r: Self)
        ensures
            forall|id: Seq<char>| #[trigger] r.spec_by_id(id) == repo.spec_by_id(id),
            forall|email: Seq<char>| #[trigger] r.spec_by_email(email) == repo.spec_by_email(
                email,
            ),
    {
        Self { repo }
    }

    /// Verifies a credential pair: the record under the login key must exist
    /// and the password must re-derive its stored hash. Both an unknown login
    /// key and a wrong password fail with the same `UserNotFound`.
    pub fn verify_user(&self, email: String, raw_password: String) -> (r: Result<
        User,
        UserServiceError,
    >)
        ensures
            match r {
                Ok(u) => self.spec_by_email(email@) == Some(u@) && argon2_matches(
                    u@.password,
                    raw_password@,
                ),
                Err(e) => e == UserServiceError::UserNotFound && match self.spec_by_email(
                    email@,
                ) {
                    None => true,
                    Some(u) => !argon2_matches(u.password, raw_password@),
                },
            },
    {
        let user = match self.repo.get_by_email(email.as_str()) {
            None => {
                return Err(UserServiceError::UserNotFound);
            },
            Some(u) => u,
        };
        if !user.password.verify(raw_password.as_str()) {
            return Err(UserServiceError::UserNotFound);
        }
        Ok(user)
    }

    /// The record under an id, or `None` for an absent or deactivated
    /// subject.
    pub fn find_by_id(&self, id: String) -> (r: Option<User>)
        ensures
            match r {
                Some(u) => self.spec_by_id(id@) == Some(u@),
                None => self.spec_by_id(id@) is None,
            },
    {
        self.repo.get_by_id(id)
    }
}

} // verus!
