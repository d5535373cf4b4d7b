//! Entity catalog reads used by data operations and the timer worker.

use vstd::prelude::*;

use crate::bytes;
use crate::domain::error;
use crate::domain::error::{BrokerError, ErrorView};
use crate::domain::identifier;
use crate::domain::identifier::{EntityPath, NamespaceName, MAX_NAMESPACE_NAME_BYTES};
use crate::domain::keys;
use crate::domain::machine::StateMachine;
use crate::storage;
use crate::storage::{Contents, StateStore};

verus! {

/// A namespace and an entity in it.
pub type Named = (Seq<char>, Seq<char>);

/// The queue that a configuration key names.
pub open spec fn queue_named(key: Seq<u8>) -> Result<Named, ErrorView> {
    match keys::scope_parts(key) {
        None => Err(ErrorView::MalformedIndexKey),
        Some((namespace, entity)) => match identifier::identifier_fault(
            "namespace",
            namespace,
            MAX_NAMESPACE_NAME_BYTES,
        ) {
            Some(error) => Err(ErrorView::Identifier(error)),
            None => match identifier::internal_path(entity) {
                Err(error) => Err(ErrorView::Identifier(error)),
                Ok(entity) => Ok((namespace, entity)),
            },
        },
    }
}

/// `found` followed by the queues that the keys from index `i` on name, but for
/// the key `skipped`, until there are `limit`.
pub open spec fn named_from(
    entries: Seq<(Seq<u8>, Seq<u8>)>,
    skipped: Option<Seq<u8>>,
    limit: usize,
    i: int,
    found: Seq<Named>,
) -> Result<Seq<Named>, ErrorView>
    decreases entries.len() - i,
{
    if i >= entries.len() || found.len() >= limit {
        Ok(found)
    } else if skipped == Some(entries[i].0) {
        named_from(entries, skipped, limit, i + 1, found)
    } else {
        match queue_named(entries[i].0) {
            Err(error) => Err(error),
            Ok(named) => named_from(entries, skipped, limit, i + 1, found.push(named)),
        }
    }
}

/// The first `limit` queues in key order strictly after `after`.
pub open spec fn queues_behind(m: Contents, after: Option<Named>, limit: usize) -> Result<
    Seq<Named>,
    ErrorView,
> {
    let prefix = keys::queue_config_prefix_key();
    match after {
        None => named_from(storage::scan(m, prefix, prefix, limit), None, limit, 0, Seq::empty()),
        Some((namespace, entity)) => {
            let cursor = keys::queue_config_key(namespace, entity);
            let longer = if limit < usize::MAX {
                (limit + 1) as usize
            } else {
                limit
            };
            named_from(
                storage::scan(m, prefix, cursor, longer),
                Some(cursor),
                limit,
                0,
                Seq::empty(),
            )
        },
    }
}

fn read_queue_name(key: &[u8]) -> (named: Result<(NamespaceName, EntityPath), BrokerError>)
    ensures
        error::agrees(true, named, queue_named(key@)),
{
    let (namespace, entity) = match keys::entity_scope_parts(key) {
        Some(parts) => parts,
        None => return Err(BrokerError::MalformedIndexKey),
    };
    let namespace = match NamespaceName::new(namespace.to_owned()) {
        Ok(namespace) => namespace,
        Err(error) => return Err(BrokerError::Identifier(error)),
    };
    let entity = match EntityPath::from_internal(entity.to_owned()) {
        Ok(entity) => entity,
        Err(error) => return Err(BrokerError::Identifier(error)),
    };
    Ok((namespace, entity))
}

#[verifier::loop_isolation(false)]
fn read_queue_names(
    entries: &Vec<(Vec<u8>, Vec<u8>)>,
    skipped: Option<&Vec<u8>>,
    limit: usize,
) -> (named: Result<Vec<(NamespaceName, EntityPath)>, BrokerError>)
    ensures
        error::agrees(
            true,
            named,
            named_from(
                storage::entries_view(entries@),
                match skipped {
                    Some(key) => Some(key@),
                    None => None,
                },
                limit,
                0,
                Seq::empty(),
            ),
        ),
{
    let ghost v = storage::entries_view(entries@);
    let ghost cursor: Option<Seq<u8>> = match skipped {
        Some(key) => Some(key@),
        None => None,
    };
    let ghost whole = named_from(v, cursor, limit, 0, Seq::empty());
    let mut found: Vec<(NamespaceName, EntityPath)> = Vec::new();
    let mut i: usize = 0;
    proof {
        assert(found.deep_view() =~= Seq::<Named>::empty());
    }
    while i < entries.len() && found.len() < limit
        invariant
            i <= entries@.len(),
            named_from(v, cursor, limit, i as int, found.deep_view()) == whole,
        decreases entries@.len() - i,
    {
        let key = &entries[i].0;
        let same = match skipped {
            Some(cursor) => bytes::same_bytes(cursor.as_slice(), key.as_slice()),
            None => false,
        };
        if !same {
            let named = read_queue_name(key.as_slice())?;
            let ghost before = found.deep_view();
            let ghost seen = named.deep_view();
            found.push(named);
            proof {
                assert(found.deep_view() =~= before.push(seen));
            }
        }
        i = i + 1;
    }
    Ok(found)
}

impl<S: StateStore> StateMachine<S> {
    /// Every queue in the store, in key order, across every namespace. The timer
    /// worker walks this to learn what there is to sweep.
    pub fn queues(&self, limit: usize) -> (queues: Result<
        Vec<(NamespaceName, EntityPath)>,
        BrokerError,
    >)
        ensures
            error::agrees(self.reliable(), queues, queues_behind(self.contents(), None, limit)),
    {
        self.queues_after(None, limit)
    }

    /// Queues strictly after `after`, in key order across every namespace.
    ///
    /// The timer keeps the last queue from a full page and resumes here on its
    /// next tick. The cursor is an entity identity rather than a storage key so
    /// it remains meaningful if that queue is deleted between pages.
    pub fn queues_after(
        &self,
        after: Option<&(NamespaceName, EntityPath)>,
        limit: usize,
    ) -> (queues: Result<Vec<(NamespaceName, EntityPath)>, BrokerError>)
        ensures
            error::agrees(
                self.reliable(),
                queues,
                queues_behind(self.contents(), after.deep_view(), limit),
            ),
    {
        let prefix = keys::queue_config_prefix();
        match after {
            None => {
                let entries = self.scan_prefix(prefix.as_slice(), limit)?;
                read_queue_names(&entries, None, limit)
            },
            Some((namespace, entity)) => {
                let cursor = keys::queue_config(namespace, entity);
                // The scan is inclusive. Read one extra entry when resuming so
                // the cursor itself can be discarded without shrinking the
                // requested page.
                let entries = self.scan_from(
                    prefix.as_slice(),
                    cursor.as_slice(),
                    limit.saturating_add(1),
                )?;
                read_queue_names(&entries, Some(&cursor), limit)
            },
        }
    }
}

} // verus!
