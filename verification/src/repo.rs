use vstd::prelude::*;

use crate::model::{User, UserModel};

verus! {

/// Why the identity store failed an operation.
#[derive(Debug, Clone, PartialEq, Eq)]
pub enum UserRepositoryError {
    NotFound,
    DatabaseError(String),
    Unknown,
    QueryFailed(String),
}

/// The narrow contract this core needs from the user-management
/// collaborator: look an identity record up by id or by login key. Absence
/// is `None`, never a failure.
pub trait UserRepository: Sized {
    /// The record the store holds for each id.
    spec fn spec_by_id(&self, id: Seq<char>) -> Option<UserModel>;

    /// The record the store holds for each login key.
    spec fn spec_by_email(&self, email: Seq<char>) -> Option<UserModel>;

    /// Looks an identity record up by its id.
    fn get_by_id(&self, id: String) -> (r: Option<User>)
        ensures
            match r {
                Some(u) => self.spec_by_id(id@) == Some(u@),
                None => self.spec_by_id(id@) is None,
            },
    ;

    /// Looks an identity record up by its login key.
    fn get_by_email(&self, email: &str) -> (r: Option<User>)
        ensures
            match r {
                Some(u) => self.spec_by_email(email@) == Some(u@),
                None => self.spec_by_email(email@) is None,
            },
    ;
}

/// The first record in `users` whose id is `id`.
pub open spec fn first_by_id(users: Seq<User>, id: Seq<char>) -> Option<UserModel>
    decreases users.len(),
{
    if users.len() == 0 {
        None
    } else if users[0]@.id == id {
        Some(users[0]@)
    } else {
        first_by_id(users.skip(1), id)
    }
}

/// The first record in `users` whose login key is `email`.
pub open spec fn first_by_email(users: Seq<User>, email: Seq<char>) -> Option<UserModel>
    decreases users.len(),
{
    if users.len() == 0 {
        None
    } else if users[0]@.email == email {
        Some(users[0]@)
    } else {
        first_by_email(users.skip(1), email)
    }
}

/// An identity store held in memory: a record list searched front to back,
/// first match winning. It backs tests and any embedding that keeps its
/// users in process; a database-backed store implements the same trait
/// outside this crate.
pub struct MemoryUserRepository {
    users: Vec<User>,
}

impl MemoryUserRepository {
    /// The records the store was built from.
    pub closed spec fn records(&self) -> Seq<User> {
        self.users@
    }

    pub fn new(users: Vec<User>) -> (r: Self)
        ensures
            r.records() == users@,
    {
        MemoryUserRepository { users }
    }
}

impl UserRepository for MemoryUserRepository {
    open spec fn spec_by_id(&self, id: Seq<char>) -> Option<UserModel> {
        first_by_id(self.records(), id)
    }

    open spec fn spec_by_email(&self, email: Seq<char>) -> Option<UserModel> {
        first_by_email(self.records(), email)
    }

    fn get_by_id(&self, id: String) -> (r: Option<User>) {
        proof {
            assert(self.users@.skip(0) =~= self.users@);
        }
        let mut i: usize = 0;
        while i < self.users.len()
            invariant
                i <= self.users@.len(),
                first_by_id(self.users@, id@) == first_by_id(self.users@.skip(i as int), id@),
            decreases self.users@.len() - i,
        {
            if self.users[i].id == id {
                proof {
                    assert(self.users@.skip(i as int)[0] == self.users@[i as int]);
                }
                return Some(self.users[i].duplicate());
            }
            proof {
                assert(self.users@.skip(i as int)[0] == self.users@[i as int]);
                assert(self.users@.skip(i as int).skip(1) =~= self.users@.skip(i + 1));
            }
            i += 1;
        }
        proof {
            assert(self.users@.skip(i as int) =~= Seq::<User>::empty());
        }
        None
    }

    fn get_by_email(&self, email: &str) -> (r: Option<User>) {
        let owned = email.to_owned();
        proof {
            assert(self.users@.skip(0) =~= self.users@);
        }
        let mut i: usize = 0;
        while i < self.users.len()
            invariant
                i <= self.users@.len(),
                owned@ == email@,
                first_by_email(self.users@, email@) == first_by_email(
                    self.users@.skip(i as int),
                    email@,
                ),
            decreases self.users@.len() - i,
        {
            if self.users[i].email == owned {
                proof {
                    assert(self.users@.skip(i as int)[0] == self.users@[i as int]);
                }
                return Some(self.users[i].duplicate());
            }
            proof {
                assert(self.users@.skip(i as int)[0] == self.users@[i as int]);
                assert(self.users@.skip(i as int).skip(1) =~= self.users@.skip(i + 1));
            }
            i += 1;
        }
        proof {
            assert(self.users@.skip(i as int) =~= Seq::<User>::empty());
        }
        None
    }
}

} // verus!
