//! Message lock and time-to-live expiry transitions.

use vstd::prelude::*;

use crate::bytes;
use crate::domain::command::{Command, CommandOutcome, CommandView, OutcomeView};
use crate::domain::error::{BrokerError, ErrorView};
use crate::domain::keys;
use crate::domain::machine;
use crate::domain::machine::shared;
use crate::domain::machine::{StateMachine, Step, TIMER_SCAN_LIMIT};
use crate::domain::message;
use crate::domain::message::MessageState;
use crate::domain::queue::QueueConfig;
use crate::storage;
use crate::storage::{Contents, OpView, StateStore, WriteBatch};

verus! {

// ---- what is decided -------------------------------------------------------

/// The elapsed locks among `locks` are undone in order; the first that is still
/// held ends the sweep. A message whose lifetime or deliveries are over is
/// dead-lettered, any other goes back to the index it came from.
pub open spec fn undo_elapsed(
    m: Contents,
    c: CommandView,
    config: QueueConfig,
    locks: Seq<(Seq<u8>, Seq<u8>)>,
    batch: Seq<OpView>,
    returned: nat,
    dead: nat,
) -> Step
    decreases locks.len(),
{
    let outcome = OutcomeView::LocksExpired {
        returned_to_ready: returned as u32,
        dead_lettered: dead as u32,
    };
    if locks.len() == 0 {
        Ok((batch, outcome))
    } else {
        match keys::last_deadline(locks[0].0) {
            None => Err(ErrorView::MalformedIndexKey),
            Some((locked_until, sequence)) => if locked_until.0 > c.issued_at.0 {
                Ok((batch, outcome))
            } else {
                match machine::message_at(m, c.namespace, c.entity, sequence) {
                    Err(error) => Err(error),
                    Ok(None) => Err(ErrorView::DanglingIndexEntry { sequence }),
                    Ok(Some(record)) => match record.state {
                        MessageState::Locked { origin, .. } => if message::expired(
                            record,
                            c.issued_at,
                        ) {
                            match shared::lifetime_over(c, record, batch) {
                                Err(error) => Err(error),
                                Ok(longer) => undo_elapsed(
                                    m,
                                    c,
                                    config,
                                    locks.skip(1),
                                    longer,
                                    returned,
                                    dead + 1,
                                ),
                            }
                        } else if shared::over_delivery_limit(c, config, record) {
                            match shared::deliveries_over(c, record, batch) {
                                Err(error) => Err(error),
                                Ok(longer) => undo_elapsed(
                                    m,
                                    c,
                                    config,
                                    locks.skip(1),
                                    longer,
                                    returned,
                                    dead + 1,
                                ),
                            }
                        } else {
                            match shared::returned(c, record, locked_until, origin, batch) {
                                Err(error) => Err(error),
                                Ok(longer) => undo_elapsed(
                                    m,
                                    c,
                                    config,
                                    locks.skip(1),
                                    longer,
                                    returned + 1,
                                    dead,
                                ),
                            }
                        },
                        _ => Err(ErrorView::MessageNotLocked { sequence }),
                    },
                }
            },
        }
    }
}

/// What the lock sweep does.
pub open spec fn expire_locks_step(m: Contents, c: CommandView, batch: Seq<OpView>) -> Step {
    match machine::config_of(m, c) {
        Err(error) => Err(error),
        Ok(config) => {
            let prefix = keys::lock_prefix_key(c.namespace, c.entity);
            undo_elapsed(
                m,
                c,
                config,
                storage::scan(m, prefix, prefix, TIMER_SCAN_LIMIT),
                batch,
                0,
                0,
            )
        },
    }
}

/// The elapsed lifetimes among `expiring` end in order; the first that has not
/// elapsed ends the sweep. A ready message is dead-lettered. A lock protects a
/// message from TTL until settlement, abandon, or lock expiry, deferred messages
/// are checked only when a client retrieves them, and scheduled messages never
/// enter the expiry index before activation: their entry goes.
pub open spec fn end_elapsed(
    m: Contents,
    c: CommandView,
    expiring: Seq<(Seq<u8>, Seq<u8>)>,
    batch: Seq<OpView>,
    dead: nat,
) -> Step
    decreases expiring.len(),
{
    let outcome = OutcomeView::MessagesExpired { dead_lettered: dead as u32 };
    if expiring.len() == 0 {
        Ok((batch, outcome))
    } else {
        match keys::last_deadline(expiring[0].0) {
            None => Err(ErrorView::MalformedIndexKey),
            Some((expires_at, sequence)) => if expires_at.0 > c.issued_at.0 {
                Ok((batch, outcome))
            } else {
                match machine::message_at(m, c.namespace, c.entity, sequence) {
                    Err(error) => Err(error),
                    Ok(None) => Err(ErrorView::DanglingIndexEntry { sequence }),
                    Ok(Some(record)) => if record.state == MessageState::Ready {
                        match shared::lifetime_over(c, record, batch) {
                            Err(error) => Err(error),
                            Ok(longer) => end_elapsed(m, c, expiring.skip(1), longer, dead + 1),
                        }
                    } else {
                        end_elapsed(
                            m,
                            c,
                            expiring.skip(1),
                            batch.push(shared::drop_key(expiring[0].0)),
                            dead,
                        )
                    },
                }
            },
        }
    }
}

/// What the lifetime sweep does.
pub open spec fn expire_messages_step(m: Contents, c: CommandView, batch: Seq<OpView>) -> Step {
    let prefix = keys::expiry_prefix_key(c.namespace, c.entity);
    end_elapsed(m, c, storage::scan(m, prefix, prefix, TIMER_SCAN_LIMIT), batch, 0)
}

// ---- how it is done --------------------------------------------------------

impl<S: StateStore> StateMachine<S> {
    #[verifier::loop_isolation(false)]
    pub(crate) fn expire_locks(&self, command: &Command, batch: &mut WriteBatch) -> (outcome:
        Result<CommandOutcome, BrokerError>)
        ensures
            machine::stepped(
                self.reliable(),
                outcome,
                final(batch).deep_view(),
                expire_locks_step(
                    self.contents(),
                    command.deep_view(),
                    old(batch).deep_view(),
                ),
            ),
    {
        let config = self.load_config(command)?;
        let namespace = &command.namespace;
        let entity = &command.entity;
        let locks = self.scan_prefix(
            keys::lock_prefix(namespace, entity).as_slice(),
            TIMER_SCAN_LIMIT,
        )?;
        let ghost m = self.contents();
        let ghost c = command.deep_view();
        let ghost entries = storage::entries_view(locks@);
        let ghost whole = undo_elapsed(m, c, config, entries, batch.deep_view(), 0, 0);
        let mut returned_to_ready: u32 = 0;
        let mut dead_lettered: u32 = 0;
        let mut i: usize = 0;
        proof {
            assert(entries.skip(0) =~= entries);
        }
        while i < locks.len()
            invariant
                i <= locks@.len(),
                locks@.len() <= TIMER_SCAN_LIMIT,
                returned_to_ready + dead_lettered == i,
                undo_elapsed(
                    m,
                    c,
                    config,
                    entries.skip(i as int),
                    batch.deep_view(),
                    returned_to_ready as nat,
                    dead_lettered as nat,
                ) == whole,
            decreases locks@.len() - i,
        {
            proof {
                assert(entries.skip(i as int).skip(1) =~= entries.skip(i + 1));
                assert(entries.skip(i as int)[0] == entries[i as int]);
            }
            let (locked_until, sequence) = match keys::trailing_deadline(locks[i].0.as_slice()) {
                Some(parts) => parts,
                None => return Err(BrokerError::MalformedIndexKey),
            };
            // The index is ordered by deadline, so the first lock still held
            // ends the sweep.
            if locked_until.0 > command.issued_at.0 {
                return Ok(CommandOutcome::LocksExpired { returned_to_ready, dead_lettered });
            }
            let record = match self.message(namespace, entity, sequence)? {
                Some(record) => record,
                None => return Err(BrokerError::DanglingIndexEntry { sequence }),
            };
            let origin = match record.state {
                MessageState::Locked { origin, .. } => origin,
                _ => return Err(BrokerError::MessageNotLocked { sequence }),
            };
            if record.is_expired_at(command.issued_at) {
                shared::expire_record(command, record, batch)?;
                dead_lettered = dead_lettered + 1;
            } else if shared::exceeded_delivery_limit(command, &config, &record) {
                shared::exhaust_record(command, record, batch)?;
                dead_lettered = dead_lettered + 1;
            } else {
                shared::return_unsettled(command, record, locked_until, origin, batch)?;
                returned_to_ready = returned_to_ready + 1;
            }
            i = i + 1;
        }
        Ok(CommandOutcome::LocksExpired { returned_to_ready, dead_lettered })
    }

    #[verifier::loop_isolation(false)]
    pub(crate) fn expire_messages(&self, command: &Command, batch: &mut WriteBatch) -> (outcome:
        Result<CommandOutcome, BrokerError>)
        ensures
            machine::stepped(
                self.reliable(),
                outcome,
                final(batch).deep_view(),
                expire_messages_step(
                    self.contents(),
                    command.deep_view(),
                    old(batch).deep_view(),
                ),
            ),
    {
        let namespace = &command.namespace;
        let entity = &command.entity;
        let expiring = self.scan_prefix(
            keys::expiry_prefix(namespace, entity).as_slice(),
            TIMER_SCAN_LIMIT,
        )?;
        let ghost m = self.contents();
        let ghost c = command.deep_view();
        let ghost entries = storage::entries_view(expiring@);
        let ghost whole = end_elapsed(m, c, entries, batch.deep_view(), 0);
        let mut dead_lettered: u32 = 0;
        let mut i: usize = 0;
        proof {
            assert(entries.skip(0) =~= entries);
        }
        while i < expiring.len()
            invariant
                i <= expiring@.len(),
                expiring@.len() <= TIMER_SCAN_LIMIT,
                dead_lettered <= i,
                end_elapsed(
                    m,
                    c,
                    entries.skip(i as int),
                    batch.deep_view(),
                    dead_lettered as nat,
                ) == whole,
            decreases expiring@.len() - i,
        {
            proof {
                assert(entries.skip(i as int).skip(1) =~= entries.skip(i + 1));
                assert(entries.skip(i as int)[0] == entries[i as int]);
            }
            let (expires_at, sequence) = match keys::trailing_deadline(expiring[i].0.as_slice()) {
                Some(parts) => parts,
                None => return Err(BrokerError::MalformedIndexKey),
            };
            if expires_at.0 > command.issued_at.0 {
                return Ok(CommandOutcome::MessagesExpired { dead_lettered });
            }
            let record = match self.message(namespace, entity, sequence)? {
                Some(record) => record,
                None => return Err(BrokerError::DanglingIndexEntry { sequence }),
            };
            match record.state {
                MessageState::Ready => {
                    shared::expire_record(command, record, batch)?;
                    dead_lettered = dead_lettered + 1;
                },
                // Removing a stale expiry entry prevents these states from
                // blocking later deadlines in this ordered index.
                _ => {
                    batch.push_delete(bytes::copy_bytes(expiring[i].0.as_slice()));
                },
            }
            i = i + 1;
        }
        Ok(CommandOutcome::MessagesExpired { dead_lettered })
    }
}

} // verus!
