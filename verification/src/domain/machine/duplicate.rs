//! Duplicate-detection history and bounded expiry.

use vstd::prelude::*;

use crate::bytes;
use crate::domain::codec;
use crate::domain::command::{Command, CommandOutcome, CommandView, InputView, OutcomeView};
use crate::domain::error;
use crate::domain::error::{BrokerError, ErrorView};
use crate::domain::identifier::{EntityPath, NamespaceName};
use crate::domain::keys;
use crate::domain::machine;
use crate::domain::machine::send::SendInput;
use crate::domain::machine::shared;
use crate::domain::machine::{StateMachine, Step, TIMER_SCAN_LIMIT};
use crate::domain::queue::QueueConfig;
use crate::domain::time;
use crate::domain::time::Timestamp;
use crate::storage;
use crate::storage::{Contents, OpView, StateStore, WriteBatch};

verus! {

// ---- what is decided -------------------------------------------------------

/// The live or stale deadline indexed for an identifier.
pub open spec fn history_at(
    m: Contents,
    namespace: Seq<char>,
    entity: Seq<char>,
    message_id: Seq<char>,
) -> Result<Option<Timestamp>, ErrorView> {
    machine::value_at::<Timestamp>(m, keys::duplicate_id_key(namespace, entity, message_id))
}

/// The identifier at `i` stands at an earlier index too.
pub open spec fn named_before(inputs: Seq<InputView>, i: int) -> bool {
    exists|j: int| 0 <= j < i && (#[trigger] inputs[j]).message_id == inputs[i].message_id
}

/// Changes and, for each identifier so far, whether its message is stored.
pub type HistoryState = (Seq<OpView>, Seq<bool>);

/// One identifier is judged. An absent identifier acts like a broker-assigned
/// unique one. One that came earlier in the request, or whose retention has not
/// elapsed, is suppressed. Any other is retained anew, and a stale generation
/// gives way.
pub open spec fn judged(
    m: Contents,
    c: CommandView,
    config: QueueConfig,
    inputs: Seq<InputView>,
    i: int,
    state: HistoryState,
) -> Result<HistoryState, ErrorView> {
    let (batch, stored) = state;
    let id = inputs[i].message_id;
    if id.len() == 0 {
        Ok((batch, stored.push(true)))
    } else if named_before(inputs, i) {
        Ok((batch, stored.push(false)))
    } else {
        match history_at(m, c.namespace, c.entity, id) {
            Err(error) => Err(error),
            Ok(previous) => if previous is Some && previous->Some_0.0 > c.issued_at.0 {
                Ok((batch, stored.push(false)))
            } else {
                let deadline = time::later(
                    c.issued_at,
                    config.duplicate_detection_history_millis,
                );
                let retired = match previous {
                    Some(stale) => batch.push(
                        shared::drop_key(
                            keys::duplicate_expiry_key(c.namespace, c.entity, stale, id),
                        ),
                    ),
                    None => batch,
                };
                Ok(
                    (
                        retired.push(
                            shared::put(
                                keys::duplicate_id_key(c.namespace, c.entity, id),
                                codec::encoded::<Timestamp>(deadline),
                            ),
                        ).push(
                            shared::mark(
                                keys::duplicate_expiry_key(c.namespace, c.entity, deadline, id),
                            ),
                        ),
                        stored.push(true),
                    ),
                )
            },
        }
    }
}

/// The identifiers from index `i` on are judged in order.
pub open spec fn all_judged(
    m: Contents,
    c: CommandView,
    config: QueueConfig,
    inputs: Seq<InputView>,
    i: int,
    state: HistoryState,
) -> Result<HistoryState, ErrorView>
    decreases inputs.len() - i,
{
    if i >= inputs.len() {
        Ok(state)
    } else {
        match judged(m, c, config, inputs, i, state) {
            Err(error) => Err(error),
            Ok(next) => all_judged(m, c, config, inputs, i + 1, next),
        }
    }
}

/// Which messages are stored. Without duplicate detection, all of them.
pub open spec fn history(
    m: Contents,
    c: CommandView,
    config: QueueConfig,
    inputs: Seq<InputView>,
    batch: Seq<OpView>,
) -> Result<HistoryState, ErrorView> {
    if config.requires_duplicate_detection {
        all_judged(m, c, config, inputs, 0, (batch, Seq::empty()))
    } else {
        Ok((batch, Seq::new(inputs.len(), |i: int| true)))
    }
}

/// The elapsed retentions among `expiring` end in order; the first that has not
/// elapsed ends the sweep. An old expiry entry must not erase a newer generation
/// accepted after the original window elapsed.
pub open spec fn forget_elapsed(
    m: Contents,
    c: CommandView,
    expiring: Seq<(Seq<u8>, Seq<u8>)>,
    batch: Seq<OpView>,
    forgotten: nat,
) -> Step
    decreases expiring.len(),
{
    let outcome = OutcomeView::DuplicateHistoryExpired { removed: forgotten as u32 };
    if expiring.len() == 0 {
        Ok((batch, outcome))
    } else {
        let prefix = keys::duplicate_expiry_prefix_key(c.namespace, c.entity);
        match keys::deadline_and_text(prefix, expiring[0].0) {
            None => Err(ErrorView::MalformedIndexKey),
            Some((deadline, id)) => if deadline.0 > c.issued_at.0 {
                Ok((batch, outcome))
            } else {
                match history_at(m, c.namespace, c.entity, id) {
                    Err(error) => Err(error),
                    Ok(current) => {
                        let looked_up = if current == Some(deadline) {
                            batch.push(
                                shared::drop_key(
                                    keys::duplicate_id_key(c.namespace, c.entity, id),
                                ),
                            )
                        } else {
                            batch
                        };
                        forget_elapsed(
                            m,
                            c,
                            expiring.skip(1),
                            looked_up.push(shared::drop_key(expiring[0].0)),
                            forgotten + 1,
                        )
                    },
                }
            },
        }
    }
}

/// What the history sweep does.
pub open spec fn expire_duplicate_history_step(
    m: Contents,
    c: CommandView,
    batch: Seq<OpView>,
) -> Step {
    match machine::config_of(m, c) {
        Err(error) => Err(error),
        Ok(_) => {
            let prefix = keys::duplicate_expiry_prefix_key(c.namespace, c.entity);
            forget_elapsed(m, c, storage::scan(m, prefix, prefix, TIMER_SCAN_LIMIT), batch, 0)
        },
    }
}

// ---- how it is done --------------------------------------------------------

/// The messages as the broker sees them.
pub open spec fn inputs_view(inputs: Seq<SendInput<'_>>) -> Seq<InputView> {
    Seq::new(inputs.len(), |i: int| inputs[i].deep_view())
}

/// Whether the identifier at `i` came earlier in the request.
fn came_before(inputs: &[SendInput<'_>], i: usize) -> (yes: bool)
    requires
        i < inputs@.len(),
    ensures
        yes == named_before(inputs_view(inputs@), i as int),
{
    let ghost v = inputs_view(inputs@);
    let mut j: usize = 0;
    while j < i
        invariant
            j <= i < inputs@.len(),
            v == inputs_view(inputs@),
            forall|k: int| 0 <= k < j ==> (#[trigger] v[k]).message_id != v[i as int].message_id,
        decreases i - j,
    {
        if bytes::same_text(inputs[j].message_id, inputs[i].message_id) {
            assert(v[j as int].message_id == v[i as int].message_id);
            return true;
        }
        j = j + 1;
    }
    false
}

impl<S: StateStore> StateMachine<S> {
    /// Judges one identifier and stages its history mutations.
    fn judge(
        &self,
        command: &Command,
        config: &QueueConfig,
        inputs: &[SendInput<'_>],
        i: usize,
        batch: &mut WriteBatch,
        stored: &mut Vec<bool>,
    ) -> (done: Result<(), BrokerError>)
        requires
            i < inputs@.len(),
        ensures
            match done {
                Ok(_) => judged(
                    self.contents(),
                    command.deep_view(),
                    *config,
                    inputs_view(inputs@),
                    i as int,
                    (old(batch).deep_view(), old(stored)@),
                ) == Ok::<HistoryState, ErrorView>((final(batch).deep_view(), final(stored)@)),
                Err(BrokerError::Storage(_)) => !self.reliable(),
                Err(error) => judged(
                    self.contents(),
                    command.deep_view(),
                    *config,
                    inputs_view(inputs@),
                    i as int,
                    (old(batch).deep_view(), old(stored)@),
                ) == Err::<HistoryState, ErrorView>(error.deep_view()),
            },
    {
        let message_id = inputs[i].message_id;
        // An absent raw AMQP identifier acts like a broker-assigned unique
        // identifier. It must never collapse every anonymous message onto
        // the same empty-string history entry.
        if message_id.is_empty() {
            stored.push(true);
            return Ok(());
        }
        if came_before(inputs, i) {
            stored.push(false);
            return Ok(());
        }
        let namespace = &command.namespace;
        let entity = &command.entity;
        let previous = self.duplicate_history_deadline(namespace, entity, message_id)?;
        if let Some(deadline) = previous {
            if deadline.0 > command.issued_at.0 {
                stored.push(false);
                return Ok(());
            }
            // A stale generation may remain when its timer sweep has not run.
            // Retire its ordered entry before replacing the exact lookup.
            batch.push_delete(keys::duplicate_expiry(namespace, entity, deadline, message_id));
        }
        let deadline = command.issued_at.saturating_add_millis(
            config.duplicate_detection_history_millis,
        );
        batch.push_put(
            keys::duplicate_id(namespace, entity, message_id),
            codec::store(&deadline),
        );
        batch.push_put(
            keys::duplicate_expiry(namespace, entity, deadline, message_id),
            shared::no_value(),
        );
        stored.push(true);
        Ok(())
    }

    /// Classifies each supplied identifier as stored (`true`) or suppressed
    /// (`false`) and stages history mutations for the stored identifiers.
    ///
    /// Callers validate the complete send before entering here. That ordering
    /// prevents an invalid later batch child from poisoning history for an
    /// earlier one.
    #[verifier::loop_isolation(false)]
    pub(crate) fn stage_duplicate_history(
        &self,
        command: &Command,
        config: &QueueConfig,
        inputs: &[SendInput<'_>],
        batch: &mut WriteBatch,
    ) -> (stored: Result<Vec<bool>, BrokerError>)
        ensures
            match stored {
                Ok(stored) => history(
                    self.contents(),
                    command.deep_view(),
                    *config,
                    inputs_view(inputs@),
                    old(batch).deep_view(),
                ) == Ok::<HistoryState, ErrorView>((final(batch).deep_view(), stored@))
                    && stored@.len() == inputs@.len(),
                Err(BrokerError::Storage(_)) => !self.reliable(),
                Err(error) => history(
                    self.contents(),
                    command.deep_view(),
                    *config,
                    inputs_view(inputs@),
                    old(batch).deep_view(),
                ) == Err::<HistoryState, ErrorView>(error.deep_view()),
            },
    {
        let ghost m = self.contents();
        let ghost c = command.deep_view();
        let ghost v = inputs_view(inputs@);
        let ghost whole = history(m, c, *config, v, batch.deep_view());
        let mut stored: Vec<bool> = Vec::new();
        let mut i: usize = 0;
        if !config.requires_duplicate_detection {
            while i < inputs.len()
                invariant
                    i <= inputs@.len(),
                    stored@ =~= Seq::new(i as nat, |k: int| true),
                decreases inputs@.len() - i,
            {
                stored.push(true);
                i = i + 1;
            }
            proof {
                assert(stored@ =~= Seq::new(v.len(), |k: int| true));
            }
            return Ok(stored);
        }
        proof {
            assert(stored@ =~= Seq::<bool>::empty());
        }
        while i < inputs.len()
            invariant
                i <= inputs@.len(),
                stored@.len() == i,
                all_judged(m, c, *config, v, i as int, (batch.deep_view(), stored@)) == whole,
            decreases inputs@.len() - i,
        {
            self.judge(command, config, inputs, i, batch, &mut stored)?;
            i = i + 1;
        }
        Ok(stored)
    }

    #[verifier::loop_isolation(false)]
    pub(crate) fn expire_duplicate_history(&self, command: &Command, batch: &mut WriteBatch) -> (
    outcome: Result<CommandOutcome, BrokerError>)
        ensures
            machine::stepped(
                self.reliable(),
                outcome,
                final(batch).deep_view(),
                expire_duplicate_history_step(
                    self.contents(),
                    command.deep_view(),
                    old(batch).deep_view(),
                ),
            ),
    {
        self.load_config(command)?;
        let namespace = &command.namespace;
        let entity = &command.entity;
        let prefix = keys::duplicate_expiry_prefix(namespace, entity);
        let expiring = self.scan_prefix(prefix.as_slice(), TIMER_SCAN_LIMIT)?;
        let ghost m = self.contents();
        let ghost c = command.deep_view();
        let ghost entries = storage::entries_view(expiring@);
        let ghost whole = forget_elapsed(m, c, entries, batch.deep_view(), 0);
        let mut removed: u32 = 0;
        let mut i: usize = 0;
        proof {
            assert(entries.skip(0) =~= entries);
        }
        while i < expiring.len()
            invariant
                i <= expiring@.len(),
                expiring@.len() <= TIMER_SCAN_LIMIT,
                removed == i,
                forget_elapsed(
                    m,
                    c,
                    entries.skip(i as int),
                    batch.deep_view(),
                    removed as nat,
                ) == whole,
            decreases expiring@.len() - i,
        {
            proof {
                assert(entries.skip(i as int).skip(1) =~= entries.skip(i + 1));
                assert(entries.skip(i as int)[0] == entries[i as int]);
            }
            let (deadline, message_id) = match keys::duplicate_expiry_parts(
                prefix.as_slice(),
                expiring[i].0.as_slice(),
            ) {
                Some(parts) => parts,
                None => return Err(BrokerError::MalformedIndexKey),
            };
            if deadline.0 > command.issued_at.0 {
                return Ok(CommandOutcome::DuplicateHistoryExpired { removed });
            }
            let current = self.duplicate_history_deadline(namespace, entity, message_id)?;
            // An old expiry entry must not erase a newer generation accepted
            // after the original window elapsed.
            if let Some(current) = current {
                if current == deadline {
                    batch.push_delete(keys::duplicate_id(namespace, entity, message_id));
                }
            }
            batch.push_delete(bytes::copy_bytes(expiring[i].0.as_slice()));
            removed = removed + 1;
            i = i + 1;
        }
        Ok(CommandOutcome::DuplicateHistoryExpired { removed })
    }

    /// The live or stale deadline currently indexed for an exact identifier.
    /// Primarily useful for deterministic storage and restart verification.
    pub fn duplicate_history_deadline(
        &self,
        namespace: &NamespaceName,
        entity: &EntityPath,
        message_id: &str,
    ) -> (deadline: Result<Option<Timestamp>, BrokerError>)
        ensures
            error::agrees(
                self.reliable(),
                deadline,
                history_at(
                    self.contents(),
                    namespace.deep_view(),
                    entity.deep_view(),
                    message_id@,
                ),
            ),
    {
        self.read(keys::duplicate_id(namespace, entity, message_id).as_slice())
    }
}

} // verus!
