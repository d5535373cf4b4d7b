//! What whoever browses messages is promised: to see them as they are, in order, and to
//! leave them so.

use vstd::prelude::*;

use crate::domain::command::{CommandView, OutcomeView};
use crate::domain::error::ErrorView;
use crate::domain::keys;
use crate::domain::machine;
use crate::domain::machine::apply;
use crate::domain::machine::numbering;
use crate::domain::machine::orderly;
use crate::domain::machine::peek;
use crate::domain::machine::places;
use crate::domain::machine::progress;
use crate::domain::machine::receiving;
use crate::domain::machine::sending;
use crate::domain::machine::settling;
use crate::domain::message::{
    DeliveryOrigin, DeliveryView, MessageState, RecordView, SequenceNumber,
};
use crate::domain::order;
use crate::storage;
use crate::storage::Contents;

verus! {

// ---- what it is told in ----------------------------------------------------

/// Whether a page entry shows a message as it is stored, with the deliveries that it has
/// had, without a lock, and with where it stands or, when locked, where it came from.
pub open spec fn is_shown_as(shown: DeliveryView, record: RecordView) -> bool {
    &&& shown.sequence == record.sequence
    &&& shown.message_id == record.message_id
    &&& shown.body == record.body
    &&& shown.enqueued_at == record.enqueued_at
    &&& shown.scheduled_enqueue_at == record.scheduled_enqueue_at
    &&& shown.expires_at == record.expires_at
    &&& shown.session_id == record.session_id
    &&& shown.dead_letter == record.dead_letter
    &&& shown.envelope == record.envelope
    &&& shown.delivery_count == record.delivery_count
    &&& shown.lock is None
    &&& record.state is Ready ==> shown.origin == DeliveryOrigin::Ready
    &&& record.state is Deferred ==> shown.origin == DeliveryOrigin::Deferred
    &&& record.state is Scheduled ==> shown.origin == DeliveryOrigin::Scheduled
    &&& record.state matches MessageState::Locked { origin, .. } ==> shown.origin == origin
}

/// Whether a message is to be seen: it is of the session that was asked for, if one was,
/// and not ready beyond its life.
pub open spec fn is_to_be_seen(m: Contents, c: CommandView, n: SequenceNumber) -> bool {
    &&& settling::stored(m, c, n) matches Some(record)
    &&& c.kind->Peek_session matches Some(hold) ==> record.session_id == Some(hold.session_id)
    &&& !(record.state is Ready && receiving::is_over(record, c.issued_at))
}

/// How many messages a page holds at most.
pub open spec fn most_on_a_page(c: CommandView) -> int {
    if c.kind->Peek_max_messages > 250 {
        250
    } else {
        c.kind->Peek_max_messages as int
    }
}

/// Whether a message is on a page.
pub open spec fn is_on_it(page: Seq<DeliveryView>, n: SequenceNumber) -> bool {
    exists|i: int| 0 <= i < page.len() && (#[trigger] page[i]).sequence == n
}

/// Whether a message comes behind all that is on a page.
pub open spec fn is_behind_it(page: Seq<DeliveryView>, n: SequenceNumber) -> bool {
    forall|i: int| 0 <= i < page.len() ==> (#[trigger] page[i]).sequence.0 < n.0
}

/// Whether a page shows messages as they are stored, from the number that was asked for
/// on, in the order of their numbers, and leaves one out that is to be seen only when it
/// comes behind a full page.
pub open spec fn is_fair(m: Contents, c: CommandView, page: Seq<DeliveryView>) -> bool {
    &&& page.len() <= most_on_a_page(c)
    &&& forall|i: int|
        0 <= i < page.len() ==> {
            let n = (#[trigger] page[i]).sequence;
            &&& n.0 >= c.kind->Peek_from_sequence.0
            &&& is_to_be_seen(m, c, n)
            &&& is_shown_as(page[i], settling::stored(m, c, n)->Some_0)
        }
    &&& forall|i: int, j: int|
        0 <= i < j < page.len() ==> (#[trigger] page[i]).sequence.0 < (
        #[trigger] page[j]).sequence.0
    &&& forall|n: SequenceNumber| #[trigger]
        is_to_be_seen(m, c, n) && n.0 >= c.kind->Peek_from_sequence.0 ==> is_on_it(page, n) || (
        page.len() == most_on_a_page(c) && is_behind_it(page, n))
}

/// Whether a browse is one that a queue answers.
pub open spec fn may_browse(m: Contents, c: CommandView) -> bool {
    &&& sending::queue_named(m, c) matches Some(config)
    &&& c.kind->Peek_session matches Some(hold) ==> config.requires_session
        && receiving::holds_session(m, c, hold)
}

// ---- what is seen ----------------------------------------------------------

/// A page shows messages as they are stored, from the number that was asked for on, in
/// the order of their numbers, and changes nothing. One that is to be seen is left out
/// only when it comes behind a full page.
pub proof fn pages_show_what_is_stored(m: Contents, c: CommandView)
    requires
        m.dom().finite(),
        numbering::sound(m),
        places::proper(c.namespace, c.entity),
        c.kind is Peek,
        machine::applied_time(m) matches Ok(time) && time.0 <= c.issued_at.0,
        c.kind->Peek_max_messages >= 1,
        may_browse(m, c),
    ensures
        apply::applied(m, c).1 == m,
        apply::applied(m, c).0 matches Ok(OutcomeView::Peeked(page)) && is_fair(m, c, page),
{
    let page = a_fair_page(m, c);
    browses_take_their_step(m, c, page);
}

/// The session that a browse names.
spec fn session_seen(c: CommandView) -> Option<Seq<char>> {
    match c.kind->Peek_session {
        Some(hold) => Some(hold.session_id),
        None => None,
    }
}

proof fn browses_take_their_step(m: Contents, c: CommandView, page: Seq<DeliveryView>)
    requires
        c.kind is Peek,
        machine::applied_time(m) matches Ok(time) && time.0 <= c.issued_at.0,
        c.kind->Peek_max_messages >= 1,
        may_browse(m, c),
        peek::browsed(
            m,
            c,
            c.kind->Peek_from_sequence,
            c.kind->Peek_max_messages,
            session_seen(c),
        ) == Ok::<Seq<DeliveryView>, ErrorView>(page),
    ensures
        apply::applied(m, c) == (Ok::<OutcomeView, ErrorView>(OutcomeView::Peeked(page)), m),
{
}

proof fn a_fair_page(m: Contents, c: CommandView) -> (page: Seq<DeliveryView>)
    requires
        m.dom().finite(),
        numbering::sound(m),
        places::proper(c.namespace, c.entity),
    ensures
        peek::browsed(
            m,
            c,
            c.kind->Peek_from_sequence,
            c.kind->Peek_max_messages,
            session_seen(c),
        ) == Ok::<Seq<DeliveryView>, ErrorView>(page),
        is_fair(m, c, page),
{
    let from = c.kind->Peek_from_sequence;
    let size = peek::page_size(c.kind->Peek_max_messages);
    let prefix = keys::message_prefix_key(c.namespace, c.entity);
    let walked = storage::walk(m, prefix, keys::message_key(c.namespace, c.entity, from));
    let found: Seq<DeliveryView> = Seq::empty();
    progress::walked_messages(m, c, from);
    progress::browsing_is_right(m, c, session_seen(c), walked, 0, size, found);
    progress::browsing_stays_behind(m, c, session_seen(c), walked, 0, size, found, from);
    let page = peek::browse_from(m, c, session_seen(c), walked, 0, size, found)->Ok_0;
    assert forall|i: int| 0 <= i < page.len() implies {
        let n = (#[trigger] page[i]).sequence;
        &&& n.0 >= from.0
        &&& is_to_be_seen(m, c, n)
        &&& is_shown_as(page[i], settling::stored(m, c, n)->Some_0)
    } by {
        let n = page[i].sequence;
        assert(progress::is_shown(m, c, session_seen(c), n));
        orderly::messages_stand_under_their_numbers(m, c.namespace, c.entity, n);
    }
    assert forall|n: SequenceNumber| #[trigger]
        is_to_be_seen(m, c, n) && n.0 >= from.0 implies is_on_it(page, n) || (page.len()
        == most_on_a_page(c) && is_behind_it(page, n)) by {
        assert(places::message_in(m, c.namespace, c.entity, n) is Some);
        let key = keys::message_key(c.namespace, c.entity, n);
        let j = choose|j: int| 0 <= j < walked.len() && walked[j] == key;
        order::sequences_read_back(prefix, n);
        assert(progress::numbered_by(walked[j]) == n);
        assert(progress::is_shown(m, c, session_seen(c), n));
        if progress::is_on(page, n) {
            assert(is_on_it(page, n));
        } else {
            assert(progress::is_behind(page, size, n));
        }
    }
    page
}

/// A browse for nothing is refused, and so is one with a session on a queue without, or
/// with a session that its caller does not hold.
pub proof fn other_browses_are_refused(m: Contents, c: CommandView)
    requires
        c.kind is Peek,
        machine::applied_time(m) matches Ok(time) && time.0 <= c.issued_at.0,
    ensures
        apply::applied(m, c).1 == m,
        c.kind->Peek_max_messages == 0 ==> apply::applied(m, c).0 == Err::<OutcomeView, ErrorView>(
            ErrorView::EmptyPeek,
        ),
        c.kind->Peek_max_messages >= 1 ==> (sending::queue_named(m, c) matches Some(config) ==> (
        c.kind->Peek_session matches Some(hold) ==> {
            &&& !config.requires_session ==> apply::applied(m, c).0 == Err::<
                OutcomeView,
                ErrorView,
            >(ErrorView::SessionNotSupported)
            &&& config.requires_session && !receiving::holds_session(m, c, hold)
                ==> apply::applied(m, c).0 is Err
        })),
{
}

} // verus!
