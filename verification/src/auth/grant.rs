//! What a credential grants.

use vstd::prelude::*;

use crate::auth::role;
use crate::auth::role::{Permission, PermissionSet};
use crate::auth::scope;
use crate::auth::scope::{ResourceScope, ScopeView};

verus! {

/// Rights on a scope, until they expire.
#[derive(Debug, PartialEq, Eq)]
pub struct AccessGrant {
    pub(crate) subject: String,
    pub(crate) scope: ResourceScope,
    pub(crate) expires_at_epoch_seconds: u64,
    pub(crate) permissions: PermissionSet,
}

pub struct GrantView {
    pub subject: Seq<char>,
    pub scope: ScopeView,
    pub expires_at_epoch_seconds: u64,
    pub permissions: PermissionSet,
}

impl DeepView for AccessGrant {
    type V = GrantView;

    closed spec fn deep_view(&self) -> GrantView {
        GrantView {
            subject: self.subject@,
            scope: self.scope.deep_view(),
            expires_at_epoch_seconds: self.expires_at_epoch_seconds,
            permissions: self.permissions,
        }
    }
}

/// What a grant allows: what its rights allow, on what its scope covers, before it
/// expires.
pub open spec fn grant_allows(
    grant: GrantView,
    requested: ScopeView,
    permission: Permission,
    now_epoch_seconds: u64,
) -> bool {
    &&& now_epoch_seconds < grant.expires_at_epoch_seconds
    &&& scope::covers(grant.scope, requested)
    &&& role::set_allows(grant.permissions, permission)
}

impl AccessGrant {
    pub(crate) fn make(
        subject: String,
        scope: ResourceScope,
        expires_at_epoch_seconds: u64,
        permissions: PermissionSet,
    ) -> (grant: AccessGrant)
        ensures
            grant.deep_view() == (GrantView {
                subject: subject@,
                scope: scope.deep_view(),
                expires_at_epoch_seconds,
                permissions,
            }),
    {
        AccessGrant { subject, scope, expires_at_epoch_seconds, permissions }
    }

    pub fn subject(&self) -> (subject: &str)
        ensures
            subject@ == self.deep_view().subject,
    {
        self.subject.as_str()
    }

    pub fn scope(&self) -> (scope: &ResourceScope)
        ensures
            scope.deep_view() == self.deep_view().scope,
    {
        &self.scope
    }

    pub fn expires_at_epoch_seconds(&self) -> (expires: u64)
        ensures
            expires == self.deep_view().expires_at_epoch_seconds,
    {
        self.expires_at_epoch_seconds
    }

    pub fn permissions(&self) -> (permissions: PermissionSet)
        ensures
            permissions == self.deep_view().permissions,
    {
        self.permissions
    }

    pub fn allows(
        &self,
        requested: &ResourceScope,
        permission: Permission,
        now_epoch_seconds: u64,
    ) -> (allowed: bool)
        ensures
            allowed == grant_allows(
                self.deep_view(),
                requested.deep_view(),
                permission,
                now_epoch_seconds,
            ),
    {
        now_epoch_seconds < self.expires_at_epoch_seconds && self.scope.contains(requested)
            && self.permissions.allows(permission)
    }
}

/// What a grant allows on a scope it allows below it.
pub proof fn grants_reach_down(
    grant: GrantView,
    requested: ScopeView,
    below: ScopeView,
    permission: Permission,
    now: u64,
)
    requires
        grant_allows(grant, requested, permission, now),
        scope::covers(requested, below),
    ensures
        grant_allows(grant, below, permission, now),
{
    scope::coverage_is_transitive(grant.scope, requested, below);
}

/// What a grant allows it allowed before, and an expired one allows nothing.
pub proof fn grants_only_expire(
    grant: GrantView,
    requested: ScopeView,
    permission: Permission,
    earlier: u64,
    now: u64,
)
    ensures
        earlier <= now && grant_allows(grant, requested, permission, now) ==> grant_allows(
            grant,
            requested,
            permission,
            earlier,
        ),
        now >= grant.expires_at_epoch_seconds ==> !grant_allows(grant, requested, permission, now),
{
}

} // verus!
