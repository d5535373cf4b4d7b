//! What administration speaks of.

use vstd::prelude::*;

use crate::domain::identifier::{EntityPath, NamespaceName, PlacementGroupId};

verus! {

/// The package of the administration protocol.
pub const PROTOBUF_PACKAGE: &'static str = "switchyard.admin.v1";

/// The port on which administration listens.
pub const ADMIN_TLS_PORT: u16 = 9443;

#[derive(Clone, Copy, Debug, PartialEq, Eq, Structural)]
pub enum EntityKind {
    Queue,
    Topic,
    Subscription,
}

/// An entity as administration defines it.
#[derive(Debug, PartialEq, Eq)]
pub struct EntityDefinition {
    pub namespace: NamespaceName,
    pub path: EntityPath,
    pub kind: EntityKind,
    pub placement_group_id: PlacementGroupId,
    pub max_size_bytes: u64,
    pub requires_session: bool,
}

} // verus!
