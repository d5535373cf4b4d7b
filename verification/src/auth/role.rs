//! Permissions, and the roles and sets that grant them.

use vstd::prelude::*;

verus! {

#[derive(Clone, Copy, Debug, PartialEq, Eq, Hash, Structural)]
pub enum Permission {
    Send,
    Listen,
    Manage,
    Audit,
    Cluster,
}

#[derive(Clone, Copy, Debug, PartialEq, Eq, Hash, Structural)]
pub enum Role {
    Sender,
    Receiver,
    NamespaceAdministrator,
    Auditor,
    ClusterAdministrator,
}

/// What a role may do.
pub open spec fn role_allows(role: Role, permission: Permission) -> bool {
    match role {
        Role::Sender => permission == Permission::Send,
        Role::Receiver => permission == Permission::Listen,
        Role::NamespaceAdministrator => permission != Permission::Cluster,
        Role::Auditor => permission == Permission::Audit,
        Role::ClusterAdministrator => true,
    }
}

impl Role {
    pub fn allows(self, permission: Permission) -> (allowed: bool)
        ensures
            allowed == role_allows(self, permission),
    {
        match self {
            Role::Sender => permission == Permission::Send,
            Role::Receiver => permission == Permission::Listen,
            Role::NamespaceAdministrator => permission != Permission::Cluster,
            Role::Auditor => permission == Permission::Audit,
            Role::ClusterAdministrator => true,
        }
    }
}

/// A set of rights, one bit for each.
#[derive(Clone, Copy, Debug, PartialEq, Eq, Structural)]
pub struct PermissionSet(pub u8);

pub const SEND_BIT: u8 = 1;

pub const LISTEN_BIT: u8 = 2;

pub const MANAGE_BIT: u8 = 4;

/// What a set of rights allows. The right to manage includes those to send and to
/// listen, and none is a right to audit or to run the cluster.
pub open spec fn set_allows(set: PermissionSet, permission: Permission) -> bool {
    let manage = set.0 & MANAGE_BIT != 0;
    match permission {
        Permission::Send => manage || set.0 & SEND_BIT != 0,
        Permission::Listen => manage || set.0 & LISTEN_BIT != 0,
        Permission::Manage => manage,
        Permission::Audit => false,
        Permission::Cluster => false,
    }
}

impl PermissionSet {
    pub fn none() -> (set: PermissionSet)
        ensures
            set == PermissionSet(0),
    {
        PermissionSet(0)
    }

    pub fn send() -> (set: PermissionSet)
        ensures
            set == PermissionSet(SEND_BIT),
    {
        PermissionSet(SEND_BIT)
    }

    pub fn listen() -> (set: PermissionSet)
        ensures
            set == PermissionSet(LISTEN_BIT),
    {
        PermissionSet(LISTEN_BIT)
    }

    pub fn manage() -> (set: PermissionSet)
        ensures
            set == PermissionSet(MANAGE_BIT),
    {
        PermissionSet(MANAGE_BIT)
    }

    pub fn allows(self, permission: Permission) -> (allowed: bool)
        ensures
            allowed == set_allows(self, permission),
    {
        let manage: bool = self.0 & MANAGE_BIT != 0;
        match permission {
            Permission::Send => manage || self.0 & SEND_BIT != 0,
            Permission::Listen => manage || self.0 & LISTEN_BIT != 0,
            Permission::Manage => manage,
            Permission::Audit | Permission::Cluster => false,
        }
    }

    /// Adds the rights of another set.
    pub fn extend(&mut self, other: PermissionSet)
        ensures
            *final(self) == PermissionSet(old(self).0 | other.0),
    {
        self.0 = self.0 | other.0;
    }
}

impl Default for PermissionSet {
    fn default() -> (set: PermissionSet)
        ensures
            set == PermissionSet(0),
    {
        PermissionSet(0)
    }
}

impl core::ops::BitOr for PermissionSet {
    type Output = PermissionSet;

    fn bitor(self, rhs: PermissionSet) -> (both: PermissionSet) {
        PermissionSet(self.0 | rhs.0)
    }
}

impl vstd::std_specs::ops::BitOrSpecImpl for PermissionSet {
    open spec fn obeys_bitor_spec() -> bool {
        true
    }

    open spec fn bitor_req(self, rhs: PermissionSet) -> bool {
        true
    }

    open spec fn bitor_spec(self, rhs: PermissionSet) -> PermissionSet {
        PermissionSet(self.0 | rhs.0)
    }
}

/// Two sets together allow what one of them allows, and nothing else.
pub proof fn together_allow_what_either_allows(
    one: PermissionSet,
    other: PermissionSet,
    permission: Permission,
)
    ensures
        set_allows(PermissionSet(one.0 | other.0), permission) == (set_allows(one, permission)
            || set_allows(other, permission)),
{
    let a = one.0;
    let b = other.0;
    assert((a | b) & 1 != 0 <==> (a & 1 != 0 || b & 1 != 0)) by (bit_vector);
    assert((a | b) & 2 != 0 <==> (a & 2 != 0 || b & 2 != 0)) by (bit_vector);
    assert((a | b) & 4 != 0 <==> (a & 4 != 0 || b & 4 != 0)) by (bit_vector);
}

/// Who may manage may send and listen too.
pub proof fn manage_includes_the_data_plane(set: PermissionSet)
    ensures
        set_allows(set, Permission::Manage) ==> set_allows(set, Permission::Send) && set_allows(
            set,
            Permission::Listen,
        ),
        !set_allows(set, Permission::Audit),
        !set_allows(set, Permission::Cluster),
        !set_allows(PermissionSet(0), Permission::Send),
        !set_allows(PermissionSet(0), Permission::Listen),
        !set_allows(PermissionSet(0), Permission::Manage),
{
    assert(0u8 & 1 == 0 && 0u8 & 2 == 0 && 0u8 & 4 == 0) by (bit_vector);
}

} // verus!
