//! Read-only message browsing in primary-record sequence order.

use vstd::prelude::*;

use crate::bytes;
use crate::domain::command::{Command, CommandOutcome, CommandView, OutcomeView};
use crate::domain::error;
use crate::domain::error::{BrokerError, ErrorView};
use crate::domain::identifier::SessionId;
use crate::domain::keys;
use crate::domain::machine;
use crate::domain::machine::shared;
use crate::domain::machine::{StateMachine, Step};
use crate::domain::message;
use crate::domain::message::{
    Delivery, DeliveryOrigin, DeliveryView, MessageRecord, MessageState, RecordView,
    SequenceNumber,
};
use crate::domain::session::{HoldView, SessionHold};
use crate::domain::time::Timestamp;
use crate::storage;
use crate::storage::{Contents, OpView, StateStore, WriteBatch};

verus! {

/// Largest page returned by the Service Bus peek operation.
pub const MAX_PEEK_BATCH: u32 = 250;

/// Primary records fetched in one storage scan while filling a peek page.
pub const MAX_PEEK_SCAN: usize = 256;

// ---- what is decided -------------------------------------------------------

/// Where a browsed message stands.
pub open spec fn peeked_origin(state: MessageState) -> DeliveryOrigin {
    match state {
        MessageState::Ready => DeliveryOrigin::Ready,
        MessageState::Deferred => DeliveryOrigin::Deferred,
        MessageState::Scheduled => DeliveryOrigin::Scheduled,
        MessageState::Locked { origin, .. } => origin,
    }
}

/// A message that a browse passes over: one of another session, or a ready one
/// whose lifetime has elapsed. Locks and deferred state protect from expiry.
pub open spec fn passed_over(
    record: RecordView,
    expected: Option<Seq<char>>,
    now: Timestamp,
) -> bool {
    ||| expected is Some && record.session_id != expected
    ||| record.state == MessageState::Ready && message::expired(record, now)
}

/// `found` followed by what is browsed from key `i` on, until there are `n`.
pub open spec fn browse_from(
    m: Contents,
    c: CommandView,
    expected: Option<Seq<char>>,
    walked: Seq<Seq<u8>>,
    i: int,
    n: nat,
    found: Seq<DeliveryView>,
) -> Result<Seq<DeliveryView>, ErrorView>
    decreases walked.len() - i,
{
    if i >= walked.len() || found.len() >= n {
        Ok(found)
    } else if keys::last_sequence(walked[i]) is None {
        Err(ErrorView::MalformedIndexKey)
    } else {
        match message::decoded_record(m[walked[i]]) {
            Err(error) => Err(ErrorView::Codec(error)),
            Ok(record) => browse_from(
                m,
                c,
                expected,
                walked,
                i + 1,
                n,
                if passed_over(record, expected, c.issued_at) {
                    found
                } else {
                    found.push(message::delivery_of(record, peeked_origin(record.state), None))
                },
            ),
        }
    }
}

/// How many messages a browse returns at most.
pub open spec fn page_size(max_messages: u32) -> nat {
    if max_messages < MAX_PEEK_BATCH {
        max_messages as nat
    } else {
        MAX_PEEK_BATCH as nat
    }
}

/// The messages of an entity from `from` on that a browse returns.
pub open spec fn browsed(
    m: Contents,
    c: CommandView,
    from: SequenceNumber,
    max_messages: u32,
    expected: Option<Seq<char>>,
) -> Result<Seq<DeliveryView>, ErrorView> {
    browse_from(
        m,
        c,
        expected,
        storage::walk(
            m,
            keys::message_prefix_key(c.namespace, c.entity),
            keys::message_key(c.namespace, c.entity, from),
        ),
        0,
        page_size(max_messages),
        Seq::empty(),
    )
}

/// A browse as the outcome of a command that changes nothing.
pub open spec fn peeked(found: Result<Seq<DeliveryView>, ErrorView>, batch: Seq<OpView>) -> Step {
    match found {
        Err(error) => Err(error),
        Ok(deliveries) => Ok((batch, OutcomeView::Peeked(deliveries))),
    }
}

/// What a browse does. A regular receiver may browse across every session
/// without acquiring one; a session receiver supplies its hold.
pub open spec fn peek_step(
    m: Contents,
    c: CommandView,
    from: SequenceNumber,
    max_messages: u32,
    hold: Option<HoldView>,
    batch: Seq<OpView>,
) -> Step {
    if max_messages == 0 {
        Err(ErrorView::EmptyPeek)
    } else {
        match machine::config_of(m, c) {
            Err(error) => Err(error),
            Ok(config) => match hold {
                None => peeked(browsed(m, c, from, max_messages, None), batch),
                Some(hold) => if !config.requires_session {
                    Err(ErrorView::SessionNotSupported)
                } else {
                    match shared::held_session(m, c, hold) {
                        Err(error) => Err(error),
                        Ok(_) => peeked(
                            browsed(m, c, from, max_messages, Some(hold.session_id)),
                            batch,
                        ),
                    }
                },
            },
        }
    }
}

// ---- how it is done --------------------------------------------------------

fn validate_page_size(max_messages: u32) -> (valid: Result<(), BrokerError>)
    ensures
        match valid {
            Ok(_) => max_messages > 0,
            Err(error) => max_messages == 0 && error == BrokerError::EmptyPeek,
        },
{
    if max_messages == 0 {
        return Err(BrokerError::EmptyPeek);
    }
    Ok(())
}

fn decode_record(encoded: &[u8]) -> (record: Result<MessageRecord, BrokerError>)
    ensures
        match record {
            Ok(record) => message::decoded_record(encoded@) == Ok::<
                RecordView,
                crate::domain::codec::CodecError,
            >(record.deep_view()),
            Err(error) => match error {
                BrokerError::Codec(error) => message::decoded_record(encoded@) == Err::<
                    RecordView,
                    crate::domain::codec::CodecError,
                >(error),
                _ => false,
            },
        },
{
    match MessageRecord::decode(encoded) {
        Ok(record) => Ok(record),
        Err(error) => Err(BrokerError::Codec(error)),
    }
}

fn peeked_delivery(record: MessageRecord) -> (delivery: Delivery)
    ensures
        delivery.deep_view() == message::delivery_of(
            record.deep_view(),
            peeked_origin(record.state),
            None,
        ),
{
    let origin = match record.state {
        MessageState::Ready => DeliveryOrigin::Ready,
        MessageState::Deferred => DeliveryOrigin::Deferred,
        MessageState::Scheduled => DeliveryOrigin::Scheduled,
        MessageState::Locked { origin, .. } => origin,
    };
    Delivery::of(record, origin, None)
}

/// Whether a browse passes over a message.
fn hidden(record: &MessageRecord, expected: Option<&SessionId>, now: Timestamp) -> (yes: bool)
    ensures
        yes == passed_over(record.deep_view(), expected.deep_view(), now),
{
    if let Some(expected) = expected {
        match &record.session_id {
            None => {
                return true;
            },
            Some(actual) => {
                if !bytes::same_text(actual.as_str(), expected.as_str()) {
                    return true;
                }
            },
        }
    }
    // Ready messages cease to be browseable once their TTL has elapsed, even
    // if the asynchronous expiry sweep has not run.
    match record.state {
        MessageState::Ready => record.is_expired_at(now),
        _ => false,
    }
}

impl<S: StateStore> StateMachine<S> {
    #[verifier::loop_isolation(false)]
    fn browse(
        &self,
        command: &Command,
        from_sequence: SequenceNumber,
        max_messages: u32,
        expected: Option<&SessionId>,
    ) -> (found: Result<Vec<Delivery>, BrokerError>)
        requires
            max_messages > 0,
        ensures
            error::agrees(
                self.reliable(),
                found,
                browsed(
                    self.contents(),
                    command.deep_view(),
                    from_sequence,
                    max_messages,
                    expected.deep_view(),
                ),
            ),
    {
        let prefix = keys::message_prefix(&command.namespace, &command.entity);
        let mut start = keys::message(&command.namespace, &command.entity, from_sequence);
        let limit: usize = if max_messages < MAX_PEEK_BATCH {
            max_messages as usize
        } else {
            MAX_PEEK_BATCH as usize
        };
        let ghost m = self.contents();
        let ghost c = command.deep_view();
        let ghost whole = storage::walk(m, prefix@, start@);
        let ghost mut n: int = 0;
        let mut found: Vec<Delivery> = Vec::new();
        let mut more: bool = true;
        let ghost decided = browsed(
            m,
            c,
            from_sequence,
            max_messages,
            expected.deep_view(),
        );
        proof {
            assert(found.deep_view() =~= Seq::<DeliveryView>::empty());
            assert(whole.skip(0) =~= whole);
            self.store.contents_are_finite();
        }
        while more
            invariant
                0 <= n <= whole.len(),
                more ==> storage::walk(m, prefix@, start@) == whole.skip(n),
                browse_from(
                    m,
                    c,
                    expected.deep_view(),
                    whole,
                    n,
                    limit as nat,
                    found.deep_view(),
                ) == decided,
                !more ==> n == whole.len(),
                found@.len() < limit,
                m.dom().finite(),
            decreases
                    (whole.len() - n) + if more {
                        1int
                    } else {
                        0int
                    },
        {
            let records = self.scan_from(prefix.as_slice(), start.as_slice(), MAX_PEEK_SCAN)?;
            let ghost page = storage::entries_view(records@);
            let ghost base = n;
            proof {
                assert(page == storage::scan(m, prefix@, start@, MAX_PEEK_SCAN));
                assert(whole.skip(base).len() == whole.len() - base);
                assert(page.len() <= whole.len() - base);
                assert forall|k: int| 0 <= k < page.len() implies (#[trigger] page[k]) == (
                    whole[base + k],
                    m[whole[base + k]],
                ) by {
                    assert(whole.skip(base)[k] == whole[base + k]);
                }
            }
            let mut i: usize = 0;
            while i < records.len()
                invariant
                    i <= records@.len(),
                    n == base + i,
                    n <= whole.len(),
                    browse_from(
                        m,
                        c,
                        expected.deep_view(),
                        whole,
                        n,
                        limit as nat,
                        found.deep_view(),
                    ) == decided,
                    found@.len() < limit,
                decreases records@.len() - i,
            {
                let (key, encoded) = &records[i];
                proof {
                    assert(page[i as int] == (key@, encoded@));
                    assert(n < whole.len() && whole[n] == key@);
                }
                if keys::trailing_sequence(key.as_slice()).is_none() {
                    return Err(BrokerError::MalformedIndexKey);
                }
                let record = decode_record(encoded.as_slice())?;
                proof {
                    n = n + 1;
                }
                if !hidden(&record, expected, command.issued_at) {
                    let ghost before = found.deep_view();
                    let delivery = peeked_delivery(record);
                    let ghost seen = delivery.deep_view();
                    found.push(delivery);
                    proof {
                        assert(found.deep_view() =~= before.push(seen));
                    }
                    if found.len() == limit {
                        return Ok(found);
                    }
                }
                i = i + 1;
            }
            proof {
                assert(i == page.len());
                assert(n == base + page.len());
            }
            if records.len() < MAX_PEEK_SCAN {
                more = false;
            } else {
                // Resume behind the last record of a full page.
                let last = &records[MAX_PEEK_SCAN - 1].0;
                proof {
                    assert(page[MAX_PEEK_SCAN - 1].0 == last@);
                    assert(whole.skip(base)[MAX_PEEK_SCAN - 1] == last@);
                    storage::walk_resumes(m, prefix@, start@, MAX_PEEK_SCAN - 1);
                    assert(whole.skip(base).skip(MAX_PEEK_SCAN as int) =~= whole.skip(n));
                }
                let mut next = bytes::copy_bytes(last.as_slice());
                next.push(0);
                start = next;
            }
        }
        Ok(found)
    }

    pub(crate) fn peek(
        &self,
        command: &Command,
        from_sequence: SequenceNumber,
        max_messages: u32,
        session: Option<&SessionHold>,
        batch: &WriteBatch,
    ) -> (outcome: Result<CommandOutcome, BrokerError>)
        ensures
            machine::stepped(
                self.reliable(),
                outcome,
                batch.deep_view(),
                peek_step(
                    self.contents(),
                    command.deep_view(),
                    from_sequence,
                    max_messages,
                    session.deep_view(),
                    batch.deep_view(),
                ),
            ),
    {
        validate_page_size(max_messages)?;
        let config = self.load_config(command)?;
        let expected: Option<&SessionId> = match session {
            Some(hold) => {
                if !config.requires_session {
                    return Err(BrokerError::SessionNotSupported);
                }
                self.held_session(command, hold)?;
                Some(&hold.session_id)
            },
            // A regular receiver may browse across every session without
            // acquiring one. Session receivers supply their hold above.
            None => None,
        };
        let found = self.browse(command, from_sequence, max_messages, expected)?;
        Ok(CommandOutcome::Peeked(found))
    }
}

} // verus!
