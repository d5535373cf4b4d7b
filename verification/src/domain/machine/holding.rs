//! What the holder of a session is promised, and what everybody else hears.

use vstd::prelude::*;

use crate::domain::codec;
use crate::domain::command::{CommandView, KindView, OutcomeView};
use crate::domain::error::ErrorView;
use crate::domain::keys;
use crate::domain::machine;
use crate::domain::machine::apply;
use crate::domain::machine::history;
use crate::domain::machine::lifecycle;
use crate::domain::machine::orderly;
use crate::domain::machine::receiving;
use crate::domain::machine::sending;
use crate::domain::machine::sessions;
use crate::domain::machine::shared;
use crate::domain::message::LockToken;
use crate::domain::queue::{QueueConfig, QueueCounters};
use crate::domain::session::{AcceptedView, HoldView, SessionLock, SessionRecord, SessionView};
use crate::domain::time::Timestamp;
use crate::storage;
use crate::storage::{Contents, OpView};

verus! {

// ---- what it is told in ----------------------------------------------------

/// What is stored of a session. One that was never locked or given state is not locked
/// and has none.
pub open spec fn session_at(m: Contents, c: CommandView, id: Seq<char>) -> Option<SessionView> {
    match machine::value_at::<SessionRecord>(m, keys::session_key(c.namespace, c.entity, id)) {
        Ok(Some(record)) => Some(record),
        Ok(None) => Some(SessionView { lock: None, state: Seq::empty() }),
        Err(_) => None,
    }
}

/// Whether somebody holds a session at the time of a command.
pub open spec fn is_held(m: Contents, c: CommandView, id: Seq<char>) -> bool {
    &&& session_at(m, c, id) matches Some(record)
    &&& record.lock matches Some(lock)
    &&& lock.locked_until.0 > c.issued_at.0
}

/// The session that a command of its holder names.
pub open spec fn hold_of(c: CommandView) -> Option<HoldView> {
    match c.kind {
        KindView::ReleaseSession { session } => Some(session),
        KindView::RenewSessionLock { session, .. } => Some(session),
        KindView::SetSessionState { session, .. } => Some(session),
        KindView::GetSessionState { session } => Some(session),
        _ => None,
    }
}

/// Whether a session was given to whoever asked: under a new token, for as long as was
/// asked, and with the state that it had.
pub open spec fn is_given(
    m: Contents,
    after: Contents,
    c: CommandView,
    config: QueueConfig,
    asked: Option<u64>,
    accepted: AcceptedView,
) -> bool {
    let id = accepted.session_id;
    let token = machine::next_token(m, c.namespace, c.entity);
    let until = sending::behind(c.issued_at, receiving::lasts(config, asked));
    &&& session_at(m, c, id) matches Some(before)
    &&& accepted.lock == (SessionLock { token: LockToken(token), locked_until: until })
    &&& accepted.state == before.state
    &&& session_at(after, c, id) == Some(
        SessionView { lock: Some(accepted.lock), state: before.state },
    )
    &&& machine::next_token(after, c.namespace, c.entity) == sending::next_to(token)
    &&& after.dom().contains(keys::session_lock_key(c.namespace, c.entity, until, id))
    &&& before.lock matches Some(lock) ==> lock.locked_until != until ==> !after.dom().contains(
        keys::session_lock_key(c.namespace, c.entity, lock.locked_until, id),
    )
}

// ---- who is given a session ------------------------------------------------

/// What a session is locked with.
spec fn locking(
    c: CommandView,
    id: Seq<char>,
    record: SessionView,
    counters: QueueCounters,
    until: Timestamp,
) -> Seq<OpView> {
    let lock = SessionLock { token: LockToken(counters.next_lock_token), locked_until: until };
    let cleared: Seq<OpView> = match record.lock {
        Some(previous) => Seq::<OpView>::empty().push(
            shared::drop_key(
                keys::session_lock_key(c.namespace, c.entity, previous.locked_until, id),
            ),
        ),
        None => Seq::empty(),
    };
    cleared.push(
        shared::put(
            keys::session_key(c.namespace, c.entity, id),
            codec::encoded::<SessionRecord>(SessionView { lock: Some(lock), ..record }),
        ),
    ).push(
        shared::mark(keys::session_lock_key(c.namespace, c.entity, until, id)),
    ).push(
        shared::put(
            keys::queue_counters_key(c.namespace, c.entity),
            codec::encoded::<QueueCounters>(
                QueueCounters {
                    next_lock_token: sending::next_to(counters.next_lock_token),
                    ..counters
                },
            ),
        ),
    )
}

/// Locks of one session that end at different times have different keys.
proof fn locks_have_their_own_keys(c: CommandView, id: Seq<char>, a: Timestamp, b: Timestamp)
    requires
        a != b,
    ensures
        keys::session_lock_key(c.namespace, c.entity, a, id) != keys::session_lock_key(
            c.namespace,
            c.entity,
            b,
            id,
        ),
{
    let prefix = keys::session_lock_prefix_key(c.namespace, c.entity);
    crate::domain::order::texts_read_back(prefix, a, id);
    crate::domain::order::texts_read_back(prefix, b, id);
}

proof fn locking_gives_a_session(
    m: Contents,
    c: CommandView,
    config: QueueConfig,
    asked: Option<u64>,
    id: Seq<char>,
    after: Contents,
)
    requires
        machine::counters_of(m, c) is Ok,
        session_at(m, c, id) matches Some(record) && record.state.len() <= usize::MAX,
        after == storage::apply_ops(
            m,
            locking(
                c,
                id,
                session_at(m, c, id)->Some_0,
                machine::counters_of(m, c)->Ok_0,
                sending::behind(c.issued_at, receiving::lasts(config, asked)),
            ).push(apply::clock_change(c.issued_at)),
        ),
    ensures
        ({
            let token = machine::next_token(m, c.namespace, c.entity);
            let until = sending::behind(c.issued_at, receiving::lasts(config, asked));
            is_given(
                m,
                after,
                c,
                config,
                asked,
                AcceptedView {
                    session_id: id,
                    lock: SessionLock { token: LockToken(token), locked_until: until },
                    state: session_at(m, c, id)->Some_0.state,
                },
            )
        }),
{
    broadcast use history::one_more_change;

    lifecycle::keys_begin_with_their_tags();
    let record = session_at(m, c, id)->Some_0;
    let counters = machine::counters_of(m, c)->Ok_0;
    let until = sending::behind(c.issued_at, receiving::lasts(config, asked));
    let lock = SessionLock { token: LockToken(counters.next_lock_token), locked_until: until };
    codec::stored_values_read_back::<SessionRecord>(SessionView { lock: Some(lock), ..record });
    codec::stored_values_read_back::<QueueCounters>(
        QueueCounters { next_lock_token: sending::next_to(counters.next_lock_token), ..counters },
    );
    if let Some(previous) = record.lock {
        if previous.locked_until != until {
            locks_have_their_own_keys(c, id, previous.locked_until, until);
        }
    }
}

/// Who names a session that nobody holds is given it.
pub proof fn free_sessions_are_given(m: Contents, c: CommandView, id: Seq<char>)
    requires
        orderly::orderly(m),
        c.kind is AcceptSession,
        c.kind->AcceptSession_session_id == Some(id),
        machine::applied_time(m) matches Ok(time) && time.0 <= c.issued_at.0,
        sending::queue_named(m, c) matches Some(config) && config.requires_session,
        session_at(m, c, id) matches Some(record) && record.state.len() <= usize::MAX,
        !is_held(m, c, id),
    ensures
        ({
            let config = sending::queue_named(m, c)->Some_0;
            &&& apply::applied(m, c).0 matches Ok(OutcomeView::SessionAccepted(Some(accepted)))
            &&& accepted.session_id == id
            &&& is_given(
                m,
                apply::applied(m, c).1,
                c,
                config,
                c.kind->AcceptSession_lock_duration_millis,
                accepted,
            )
        }),
{
    let config = sending::queue_named(m, c)->Some_0;
    let asked = c.kind->AcceptSession_lock_duration_millis;
    orderly::clocks_and_counters_are_legible(m, c);
    let record = session_at(m, c, id)->Some_0;
    let counters = machine::counters_of(m, c)->Ok_0;
    let until = sending::behind(c.issued_at, receiving::lasts(config, asked));
    lockings_take_their_step(m, c, id, record, counters, until);
    locking_gives_a_session(m, c, config, asked, id, apply::applied(m, c).1);
}

proof fn lockings_take_their_step(
    m: Contents,
    c: CommandView,
    id: Seq<char>,
    record: SessionView,
    counters: QueueCounters,
    until: Timestamp,
)
    requires
        machine::counters_of(m, c) == Ok::<QueueCounters, ErrorView>(counters),
    ensures
        sessions::session_locked(m, c, id, record, until, Seq::empty()) == Ok::<
            (Seq<OpView>, AcceptedView),
            ErrorView,
        >(
            (
                locking(c, id, record, counters, until),
                AcceptedView {
                    session_id: id,
                    lock: SessionLock {
                        token: LockToken(counters.next_lock_token),
                        locked_until: until,
                    },
                    state: record.state,
                },
            ),
        ),
        locking(c, id, record, counters, until).len() > 0,
{
}

/// A session that somebody holds is given to nobody else, and a queue without sessions
/// gives none.
pub proof fn held_sessions_are_not_given(m: Contents, c: CommandView)
    requires
        c.kind is AcceptSession,
        machine::applied_time(m) matches Ok(time) && time.0 <= c.issued_at.0,
        sending::queue_named(m, c) is Some,
    ensures
        ({
            let config = sending::queue_named(m, c)->Some_0;
            &&& !config.requires_session ==> apply::applied(m, c) == (
                Err::<OutcomeView, ErrorView>(ErrorView::SessionNotSupported),
                m,
            )
            &&& config.requires_session ==> (c.kind->AcceptSession_session_id matches Some(id)
                ==> is_held(m, c, id) ==> apply::applied(m, c) == (
                Err::<OutcomeView, ErrorView>(ErrorView::SessionAlreadyLocked { session_id: id }),
                m,
            ))
        }),
{
}

/// A session that a search comes upon is locked like one that was named.
proof fn searches_lock_what_they_find(
    m: Contents,
    c: CommandView,
    until: Timestamp,
    start: Seq<u8>,
    n: nat,
)
    ensures
        sessions::accept_from(m, c, until, start, n, Seq::empty()) matches Ok((changes, outcome))
            ==> {
            &&& outcome is SessionAccepted
            &&& outcome->SessionAccepted_0 matches Some(accepted) ==> {
                let id = accepted.session_id;
                &&& !is_held(m, c, id)
                &&& session_at(m, c, id) matches Some(record)
                &&& sessions::session_locked(m, c, id, record, until, Seq::empty()) == Ok::<
                    (Seq<OpView>, AcceptedView),
                    ErrorView,
                >((changes, accepted))
            }
        },
    decreases n,
{
    let prefix = keys::entity_session_ready_prefix_key(c.namespace, c.entity);
    let found = storage::scan(m, prefix, start, 1);
    if n > 0 && found.len() > 0 {
        if let Some(text) = keys::session_after(prefix, found[0].0) {
            if let Ok(id) = crate::domain::identifier::session_id_of(text) {
                searches_lock_what_they_find(
                    m,
                    c,
                    until,
                    keys::after_session_ready_key(c.namespace, c.entity, id),
                    (n - 1) as nat,
                );
            }
        }
    }
}

/// Who asks for any session is given one that nobody held, just as who names it.
pub proof fn any_session_is_given_like_a_named_one(
    m: Contents,
    c: CommandView,
    accepted: AcceptedView,
)
    requires
        c.kind is AcceptSession,
        c.kind->AcceptSession_session_id is None,
        sending::queue_named(m, c) is Some,
        apply::applied(m, c).0 == Ok::<OutcomeView, ErrorView>(
            OutcomeView::SessionAccepted(Some(accepted)),
        ),
        session_at(m, c, accepted.session_id) matches Some(record) ==> record.state.len()
            <= usize::MAX,
    ensures
        !is_held(m, c, accepted.session_id),
        is_given(
            m,
            apply::applied(m, c).1,
            c,
            sending::queue_named(m, c)->Some_0,
            c.kind->AcceptSession_lock_duration_millis,
            accepted,
        ),
{
    let config = sending::queue_named(m, c)->Some_0;
    let asked = c.kind->AcceptSession_lock_duration_millis;
    let until = sending::behind(c.issued_at, receiving::lasts(config, asked));
    let id = accepted.session_id;
    let prefix = keys::entity_session_ready_prefix_key(c.namespace, c.entity);
    searches_lock_what_they_find(m, c, until, prefix, machine::MAX_SESSION_SCAN as nat);
    let record = session_at(m, c, id)->Some_0;
    let counters = machine::counters_of(m, c)->Ok_0;
    lockings_take_their_step(m, c, id, record, counters, until);
    locking_gives_a_session(m, c, config, asked, id, apply::applied(m, c).1);
}

// ---- what the holder may do ------------------------------------------------

/// Whoever does not hold a session hears why: it is not locked or under another token,
/// or the lock has ended.
pub proof fn strangers_hear_why(m: Contents, c: CommandView, hold: HoldView)
    requires
        hold_of(c) == Some(hold),
        machine::applied_time(m) matches Ok(time) && time.0 <= c.issued_at.0,
        sending::queue_named(m, c) is Some,
        session_at(m, c, hold.session_id) is Some,
    ensures
        match session_at(m, c, hold.session_id)->Some_0.lock {
            None => apply::applied(m, c) == (
                Err::<OutcomeView, ErrorView>(
                    ErrorView::SessionLockNotHeld { session_id: hold.session_id },
                ),
                m,
            ),
            Some(lock) => {
                &&& lock.token != hold.token ==> apply::applied(m, c) == (
                    Err::<OutcomeView, ErrorView>(
                        ErrorView::SessionLockNotHeld { session_id: hold.session_id },
                    ),
                    m,
                )
                &&& lock.token == hold.token && lock.locked_until.0 <= c.issued_at.0
                    ==> apply::applied(m, c) == (
                    Err::<OutcomeView, ErrorView>(
                        ErrorView::SessionLockExpired {
                            session_id: hold.session_id,
                            locked_until: lock.locked_until,
                        },
                    ),
                    m,
                )
            },
        },
{
}

/// The holder of a session gives it back. Its state stays.
pub proof fn holders_release(m: Contents, c: CommandView, hold: HoldView)
    requires
        c.kind == (KindView::ReleaseSession { session: hold }),
        machine::applied_time(m) matches Ok(time) && time.0 <= c.issued_at.0,
        receiving::holds_session(m, c, hold),
        session_at(m, c, hold.session_id)->Some_0.state.len() <= usize::MAX,
    ensures
        ({
            let before = session_at(m, c, hold.session_id)->Some_0;
            let after = apply::applied(m, c).1;
            &&& apply::applied(m, c).0 == Ok::<OutcomeView, ErrorView>(
                OutcomeView::SessionReleased,
            )
            &&& session_at(after, c, hold.session_id) == Some(
                SessionView { lock: None, state: before.state },
            )
            &&& !after.dom().contains(
                keys::session_lock_key(
                    c.namespace,
                    c.entity,
                    before.lock->Some_0.locked_until,
                    hold.session_id,
                ),
            )
        }),
{
    broadcast use history::one_more_change;

    lifecycle::keys_begin_with_their_tags();
    let before = session_at(m, c, hold.session_id)->Some_0;
    codec::stored_values_read_back::<SessionRecord>(SessionView { lock: None, ..before });
}

/// The holder of a session keeps it for longer, under the same token and with the same
/// state.
pub proof fn holders_renew_sessions(m: Contents, c: CommandView, hold: HoldView)
    requires
        c.kind is RenewSessionLock,
        c.kind->RenewSessionLock_session == hold,
        machine::applied_time(m) matches Ok(time) && time.0 <= c.issued_at.0,
        sending::queue_named(m, c) is Some,
        receiving::holds_session(m, c, hold),
        session_at(m, c, hold.session_id)->Some_0.state.len() <= usize::MAX,
    ensures
        ({
            let before = session_at(m, c, hold.session_id)->Some_0;
            let after = apply::applied(m, c).1;
            let until = sending::behind(
                c.issued_at,
                receiving::lasts(
                    sending::queue_named(m, c)->Some_0,
                    c.kind->RenewSessionLock_lock_duration_millis,
                ),
            );
            &&& apply::applied(m, c).0 == Ok::<OutcomeView, ErrorView>(
                OutcomeView::SessionLockRenewed { locked_until: until },
            )
            &&& session_at(after, c, hold.session_id) == Some(
                SessionView {
                    lock: Some(SessionLock { token: hold.token, locked_until: until }),
                    state: before.state,
                },
            )
            &&& after.dom().contains(
                keys::session_lock_key(c.namespace, c.entity, until, hold.session_id),
            )
            &&& before.lock->Some_0.locked_until != until ==> !after.dom().contains(
                keys::session_lock_key(
                    c.namespace,
                    c.entity,
                    before.lock->Some_0.locked_until,
                    hold.session_id,
                ),
            )
        }),
{
    broadcast use history::one_more_change;

    lifecycle::keys_begin_with_their_tags();
    let before = session_at(m, c, hold.session_id)->Some_0;
    let until = sending::behind(
        c.issued_at,
        receiving::lasts(
            sending::queue_named(m, c)->Some_0,
            c.kind->RenewSessionLock_lock_duration_millis,
        ),
    );
    codec::stored_values_read_back::<SessionRecord>(
        SessionView {
            lock: Some(SessionLock { token: hold.token, locked_until: until }),
            ..before
        },
    );
    if before.lock->Some_0.locked_until != until {
        locks_have_their_own_keys(c, hold.session_id, before.lock->Some_0.locked_until, until);
    }
}

/// The holder of a session writes its state, and keeps the lock as it is.
pub proof fn holders_write_state(m: Contents, c: CommandView, hold: HoldView, state: Seq<u8>)
    requires
        c.kind == (KindView::SetSessionState { session: hold, state }),
        machine::applied_time(m) matches Ok(time) && time.0 <= c.issued_at.0,
        receiving::holds_session(m, c, hold),
        state.len() <= usize::MAX,
    ensures
        ({
            let before = session_at(m, c, hold.session_id)->Some_0;
            &&& apply::applied(m, c).0 == Ok::<OutcomeView, ErrorView>(
                OutcomeView::SessionStateSet,
            )
            &&& session_at(apply::applied(m, c).1, c, hold.session_id) == Some(
                SessionView { lock: before.lock, state },
            )
        }),
{
    broadcast use history::one_more_change;

    lifecycle::keys_begin_with_their_tags();
    let before = session_at(m, c, hold.session_id)->Some_0;
    codec::stored_values_read_back::<SessionRecord>(SessionView { state, ..before });
}

/// The holder of a session reads its state.
pub proof fn holders_read_state(m: Contents, c: CommandView, hold: HoldView)
    requires
        c.kind == (KindView::GetSessionState { session: hold }),
        machine::applied_time(m) matches Ok(time) && time.0 <= c.issued_at.0,
        receiving::holds_session(m, c, hold),
    ensures
        apply::applied(m, c) == (
            Ok::<OutcomeView, ErrorView>(
                OutcomeView::SessionState(session_at(m, c, hold.session_id)->Some_0.state),
            ),
            m,
        ),
{
}

// ---- what ends -------------------------------------------------------------

/// Whether the lock of a session that an entry of the lock index names has ended.
pub open spec fn has_ended(c: CommandView, key: Seq<u8>) -> bool {
    &&& keys::deadline_and_text(
        keys::session_lock_prefix_key(c.namespace, c.entity),
        key,
    ) matches Some((until, _))
    &&& until.0 <= c.issued_at.0
}

/// Whether a session is free in a store, with the state it had in another.
spec fn was_freed(m: Contents, after: Contents, c: CommandView, id: Seq<char>) -> bool {
    session_at(m, c, id) matches Some(before) && session_at(after, c, id) == Some(
        SessionView { lock: None, state: before.state },
    )
}

proof fn the_freed_stay_free(
    m: Contents,
    c: CommandView,
    locks: Seq<(Seq<u8>, Seq<u8>)>,
    batch: Seq<OpView>,
    released: nat,
    id: Seq<char>,
)
    requires
        sessions::release_elapsed(m, c, locks, batch, released) is Ok,
        was_freed(m, storage::apply_ops(m, batch), c, id),
        session_at(m, c, id)->Some_0.state.len() <= usize::MAX,
    ensures
        was_freed(
            m,
            storage::apply_ops(
                m,
                sessions::release_elapsed(m, c, locks, batch, released)->Ok_0.0,
            ),
            c,
            id,
        ),
    decreases locks.len(),
{
    broadcast use history::one_more_change;

    if locks.len() > 0 && has_ended(c, locks[0].0) {
        lifecycle::keys_begin_with_their_tags();
        let prefix = keys::session_lock_prefix_key(c.namespace, c.entity);
        let text = keys::deadline_and_text(prefix, locks[0].0)->Some_0.1;
        let other = crate::domain::identifier::session_id_of(text)->Ok_0;
        let record = machine::session_of(m, c, other)->Ok_0;
        let longer = shared::unlocked_session(c, other, record, batch);
        let key = keys::session_key(c.namespace, c.entity, id);
        if key == keys::session_key(c.namespace, c.entity, other) {
            codec::stored_values_read_back::<SessionRecord>(SessionView { lock: None, ..record });
        }
        assert(was_freed(m, storage::apply_ops(m, longer), c, id));
        the_freed_stay_free(m, c, locks.skip(1), longer, released + 1, id);
    }
}

proof fn ended_sessions_are_freed_on_the_way(
    m: Contents,
    c: CommandView,
    locks: Seq<(Seq<u8>, Seq<u8>)>,
    batch: Seq<OpView>,
    released: nat,
    at: int,
    id: Seq<char>,
)
    requires
        sessions::release_elapsed(m, c, locks, batch, released) is Ok,
        0 <= at < locks.len(),
        forall|j: int| 0 <= j <= at ==> has_ended(c, (#[trigger] locks[j]).0),
        keys::deadline_and_text(
            keys::session_lock_prefix_key(c.namespace, c.entity),
            locks[at].0,
        )->Some_0.1 == id,
        session_at(m, c, id) matches Some(record) ==> record.state.len() <= usize::MAX,
    ensures
        was_freed(
            m,
            storage::apply_ops(
                m,
                sessions::release_elapsed(m, c, locks, batch, released)->Ok_0.0,
            ),
            c,
            id,
        ),
        sessions::release_elapsed(m, c, locks, batch, released)->Ok_0.0.len() > 0,
    decreases locks.len(),
{
    broadcast use history::one_more_change;

    assert(has_ended(c, locks[0].0));
    let prefix = keys::session_lock_prefix_key(c.namespace, c.entity);
    let text = keys::deadline_and_text(prefix, locks[0].0)->Some_0.1;
    let first = crate::domain::identifier::session_id_of(text)->Ok_0;
    let record = machine::session_of(m, c, first)->Ok_0;
    let longer = shared::unlocked_session(c, first, record, batch);
    let rest = locks.skip(1);
    releases_only_grow(m, c, rest, longer, released + 1);
    if at == 0 {
        lifecycle::keys_begin_with_their_tags();
        codec::stored_values_read_back::<SessionRecord>(SessionView { lock: None, ..record });
        assert(first == id);
        the_freed_stay_free(m, c, rest, longer, released + 1, id);
    } else {
        assert forall|j: int| 0 <= j <= at - 1 implies has_ended(c, (#[trigger] rest[j]).0) by {
            assert(rest[j] == locks[j + 1]);
        }
        ended_sessions_are_freed_on_the_way(m, c, rest, longer, released + 1, at - 1, id);
    }
}

proof fn releases_only_grow(
    m: Contents,
    c: CommandView,
    locks: Seq<(Seq<u8>, Seq<u8>)>,
    batch: Seq<OpView>,
    released: nat,
)
    ensures
        sessions::release_elapsed(m, c, locks, batch, released) matches Ok((changes, _))
            ==> changes.len() >= batch.len(),
    decreases locks.len(),
{
    if locks.len() > 0 {
        let prefix = keys::session_lock_prefix_key(c.namespace, c.entity);
        if let Some((_, text)) = keys::deadline_and_text(prefix, locks[0].0) {
            if let Ok(id) = crate::domain::identifier::session_id_of(text) {
                if let Ok(record) = machine::session_of(m, c, id) {
                    releases_only_grow(
                        m,
                        c,
                        locks.skip(1),
                        shared::unlocked_session(c, id, record, batch),
                        released + 1,
                    );
                }
            }
        }
    }
}

/// A session whose lock has ended is free once the sweep has come by, which looks at so
/// many locks at a time. Its state stays.
pub proof fn ended_sessions_are_freed(m: Contents, c: CommandView, id: Seq<char>, i: int)
    requires
        c.kind is ExpireSessionLocks,
        apply::applied(m, c).0 is Ok,
        session_at(m, c, id) matches Some(record) ==> record.state.len() <= usize::MAX,
        ({
            let prefix = keys::session_lock_prefix_key(c.namespace, c.entity);
            let walked = storage::walk(m, prefix, prefix);
            &&& 0 <= i < 256
            &&& i < walked.len()
            &&& exists|until: Timestamp|
                walked[i] == #[trigger] keys::session_lock_key(c.namespace, c.entity, until, id)
            &&& forall|j: int| 0 <= j <= i ==> has_ended(c, #[trigger] walked[j])
        }),
    ensures
        apply::applied(m, c).0 matches Ok(OutcomeView::SessionLocksExpired { .. }),
        session_at(m, c, id) matches Some(before) && session_at(
            apply::applied(m, c).1,
            c,
            id,
        ) == Some(SessionView { lock: None, state: before.state }),
{
    let prefix = keys::session_lock_prefix_key(c.namespace, c.entity);
    let walked = storage::walk(m, prefix, prefix);
    let locks = storage::scan(m, prefix, prefix, machine::TIMER_SCAN_LIMIT);
    let until = choose|until: Timestamp|
        walked[i] == #[trigger] keys::session_lock_key(c.namespace, c.entity, until, id);
    crate::domain::order::texts_read_back(prefix, until, id);
    assert(locks[i].0 == walked[i]);
    assert forall|j: int| 0 <= j <= i implies has_ended(c, (#[trigger] locks[j]).0) by {
        assert(locks[j].0 == walked[j]);
    }
    ended_sessions_are_freed_on_the_way(m, c, locks, Seq::empty(), 0, i, id);
    let changes = sessions::release_elapsed(m, c, locks, Seq::empty(), 0)->Ok_0.0;
    ended_sessions_are_counted(m, c, locks, Seq::empty(), 0);
    history::one_more_change(m, changes, apply::clock_change(c.issued_at));
    lifecycle::keys_begin_with_their_tags();
}

/// How many locks of sessions have ended before the first that has not.
pub open spec fn how_many_ended(c: CommandView, entries: Seq<(Seq<u8>, Seq<u8>)>) -> nat
    decreases entries.len(),
{
    if entries.len() > 0 && has_ended(c, entries[0].0) {
        how_many_ended(c, entries.skip(1)) + 1
    } else {
        0
    }
}

proof fn ended_sessions_are_counted(
    m: Contents,
    c: CommandView,
    locks: Seq<(Seq<u8>, Seq<u8>)>,
    batch: Seq<OpView>,
    released: nat,
)
    ensures
        sessions::release_elapsed(m, c, locks, batch, released) matches Ok((_, outcome))
            ==> outcome == (OutcomeView::SessionLocksExpired {
            released: (released + how_many_ended(c, locks)) as u32,
        }),
    decreases locks.len(),
{
    if locks.len() > 0 && has_ended(c, locks[0].0) {
        let prefix = keys::session_lock_prefix_key(c.namespace, c.entity);
        let text = keys::deadline_and_text(prefix, locks[0].0)->Some_0.1;
        if let Ok(id) = crate::domain::identifier::session_id_of(text) {
            if let Ok(record) = machine::session_of(m, c, id) {
                ended_sessions_are_counted(
                    m,
                    c,
                    locks.skip(1),
                    shared::unlocked_session(c, id, record, batch),
                    released + 1,
                );
            }
        }
    }
}

/// The sweep tells how many locks of sessions have ended.
pub proof fn freed_sessions_are_told(m: Contents, c: CommandView)
    requires
        c.kind is ExpireSessionLocks,
        apply::applied(m, c).0 is Ok,
    ensures
        ({
            let prefix = keys::session_lock_prefix_key(c.namespace, c.entity);
            apply::applied(m, c).0 == Ok::<OutcomeView, ErrorView>(
                OutcomeView::SessionLocksExpired {
                    released: how_many_ended(c, storage::scan(m, prefix, prefix, 256)) as u32,
                },
            )
        }),
{
    let prefix = keys::session_lock_prefix_key(c.namespace, c.entity);
    ended_sessions_are_counted(
        m,
        c,
        storage::scan(m, prefix, prefix, machine::TIMER_SCAN_LIMIT),
        Seq::empty(),
        0,
    );
}

} // verus!
