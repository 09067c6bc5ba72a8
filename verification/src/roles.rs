use vstd::prelude::*;

verus! {

/// Closed set of privilege categories used in authorization decisions.
///
/// Role matching is exact membership in a claims' role set: no role implies
/// another (holding `Admin` does not grant `User`).
#[derive(Debug, Clone, Copy, PartialEq, Eq, Structural)]
pub enum Role {
    Admin,
    User,
    Guest,
}

/// The name of a role on the wire: the contents of the JSON string that
/// carries it inside a token's `roles` array.
pub open spec fn role_name_bytes(r: Role) -> Seq<u8> {
    match r {
        Role::Admin => seq![65u8, 100u8, 109u8, 105u8, 110u8],
        Role::User => seq![85u8, 115u8, 101u8, 114u8],
        Role::Guest => seq![71u8, 117u8, 101u8, 115u8, 116u8],
    }
}

impl Role {
    /// This role's wire name.
    pub fn wire_name(&self) -> (v: Vec<u8>)
        ensures
            v@ == role_name_bytes(*self),
    {
        match self {
            Role::Admin => vec![65u8, 100u8, 109u8, 105u8, 110u8],
            Role::User => vec![85u8, 115u8, 101u8, 114u8],
            Role::Guest => vec![71u8, 117u8, 101u8, 115u8, 116u8],
        }
    }
}

/// Marker for an operation that requires the `Admin` role.
pub struct Admin;

/// Marker for an operation that requires the `User` role.
pub struct User;

/// Marker for an operation that requires the `Guest` role.
pub struct Guest;

/// A role requirement pinned at compile time: one marker type per role, so
/// that each protected operation names its required role statically.
pub trait RequiredRole {
    /// The role this marker stands for.
    spec fn spec_role() -> Role;

    /// The role this marker stands for.
    fn required_role() -> (r: Role)
        ensures
            r == Self::spec_role(),
    ;
}

impl RequiredRole for Admin {
    open spec fn spec_role() -> Role {
        Role::Admin
    }

    fn required_role() -> (r: Role) {
        Role::Admin
    }
}

impl RequiredRole for User {
    open spec fn spec_role() -> Role {
        Role::User
    }

    fn required_role() -> (r: Role) {
        Role::User
    }
}

impl RequiredRole for Guest {
    open spec fn spec_role() -> Role {
        Role::Guest
    }

    fn required_role() -> (r: Role) {
        Role::Guest
    }
}

} // verus!
