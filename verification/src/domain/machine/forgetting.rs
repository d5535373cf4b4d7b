//! What a queue forgets of the identifiers it remembers: those whose time is over, and
//! no other.

use vstd::prelude::*;

use crate::domain::command::{CommandView, OutcomeView};
use crate::domain::error::ErrorView;
use crate::domain::keys;
use crate::domain::machine;
use crate::domain::machine::apply;
use crate::domain::machine::duplicate;
use crate::domain::machine::history;
use crate::domain::machine::lifecycle;
use crate::domain::machine::shared;
use crate::domain::order;
use crate::domain::time::Timestamp;
use crate::storage;
use crate::storage::{Contents, OpView};

verus! {

/// Until when an identifier is remembered.
pub open spec fn remembered_until(m: Contents, c: CommandView, id: Seq<char>) -> Option<Timestamp> {
    match machine::value_at::<Timestamp>(
        m,
        keys::duplicate_id_key(c.namespace, c.entity, id),
    ) {
        Ok(found) => found,
        Err(_) => None,
    }
}

/// Whether the time of an entry of the memory is over.
pub open spec fn is_past(c: CommandView, key: Seq<u8>) -> bool {
    &&& keys::deadline_and_text(
        keys::duplicate_expiry_prefix_key(c.namespace, c.entity),
        key,
    ) matches Some((until, _))
    &&& until.0 <= c.issued_at.0
}

/// The identifier that an entry of the memory names.
spec fn named_by(c: CommandView, key: Seq<u8>) -> (Timestamp, Seq<char>) {
    keys::deadline_and_text(keys::duplicate_expiry_prefix_key(c.namespace, c.entity), key)->Some_0
}

/// Whether entries are those of the memory.
spec fn are_of_the_memory(expiring: Seq<(Seq<u8>, Seq<u8>)>) -> bool {
    forall|i: int|
        0 <= i < expiring.len() ==> (#[trigger] expiring[i]).0.len() > 0 && expiring[i].0[0]
            == keys::TAG_DUPLICATE_EXPIRY
}

/// What forgetting an entry adds to a batch.
spec fn forgotten_one(m: Contents, c: CommandView, key: Seq<u8>, batch: Seq<OpView>) -> Seq<
    OpView,
> {
    let (until, id) = named_by(c, key);
    let looked_up = if duplicate::history_at(m, c.namespace, c.entity, id)->Ok_0 == Some(until) {
        batch.push(shared::drop_key(keys::duplicate_id_key(c.namespace, c.entity, id)))
    } else {
        batch
    };
    looked_up.push(shared::drop_key(key))
}

/// The first entry is forgotten, and then the rest.
proof fn one_entry_at_a_time(
    m: Contents,
    c: CommandView,
    expiring: Seq<(Seq<u8>, Seq<u8>)>,
    batch: Seq<OpView>,
    forgotten: nat,
)
    requires
        duplicate::forget_elapsed(m, c, expiring, batch, forgotten) is Ok,
        are_of_the_memory(expiring),
        expiring.len() > 0,
        is_past(c, expiring[0].0),
    ensures
        duplicate::forget_elapsed(m, c, expiring, batch, forgotten) == duplicate::forget_elapsed(
            m,
            c,
            expiring.skip(1),
            forgotten_one(m, c, expiring[0].0, batch),
            forgotten + 1,
        ),
        are_of_the_memory(expiring.skip(1)),
{
    let rest = expiring.skip(1);
    assert forall|i: int| 0 <= i < rest.len() implies (#[trigger] rest[i]).0.len() > 0
        && rest[i].0[0] == keys::TAG_DUPLICATE_EXPIRY by {
        assert(rest[i] == expiring[i + 1]);
    }
}

/// Forgetting brings nothing, and leaves what is remembered for longer alone.
proof fn forgetting_spares_what_is_remembered(
    m: Contents,
    c: CommandView,
    expiring: Seq<(Seq<u8>, Seq<u8>)>,
    batch: Seq<OpView>,
    forgotten: nat,
    id: Seq<char>,
)
    requires
        duplicate::forget_elapsed(m, c, expiring, batch, forgotten) is Ok,
        are_of_the_memory(expiring),
    ensures
        ({
            let changes = duplicate::forget_elapsed(m, c, expiring, batch, forgotten)->Ok_0.0;
            let key = keys::duplicate_id_key(c.namespace, c.entity, id);
            let before = storage::apply_ops(m, batch);
            let after = storage::apply_ops(m, changes);
            &&& changes.len() >= batch.len()
            &&& !before.dom().contains(key) ==> !after.dom().contains(key)
            &&& (remembered_until(m, c, id) matches Some(until) && until.0 > c.issued_at.0)
                ==> lifecycle::agree_on(before, after, key)
        }),
    decreases expiring.len(),
{
    broadcast use history::one_more_change;

    if expiring.len() > 0 && is_past(c, expiring[0].0) {
        lifecycle::keys_begin_with_their_tags();
        one_entry_at_a_time(m, c, expiring, batch, forgotten);
        let longer = forgotten_one(m, c, expiring[0].0, batch);
        assert(expiring[0].0[0] == keys::TAG_DUPLICATE_EXPIRY);
        forgetting_spares_what_is_remembered(
            m,
            c,
            expiring.skip(1),
            longer,
            forgotten + 1,
            id,
        );
    }
}

proof fn entries_are_forgotten_on_the_way(
    m: Contents,
    c: CommandView,
    expiring: Seq<(Seq<u8>, Seq<u8>)>,
    batch: Seq<OpView>,
    forgotten: nat,
    at: int,
)
    requires
        duplicate::forget_elapsed(m, c, expiring, batch, forgotten) is Ok,
        are_of_the_memory(expiring),
        0 <= at < expiring.len(),
        forall|j: int| 0 <= j <= at ==> is_past(c, (#[trigger] expiring[j]).0),
        remembered_until(m, c, named_by(c, expiring[at].0).1) == Some(
            named_by(c, expiring[at].0).0,
        ),
    ensures
        ({
            let changes = duplicate::forget_elapsed(m, c, expiring, batch, forgotten)->Ok_0.0;
            let id = named_by(c, expiring[at].0).1;
            &&& changes.len() > 0
            &&& !storage::apply_ops(m, changes).dom().contains(
                keys::duplicate_id_key(c.namespace, c.entity, id),
            )
        }),
    decreases expiring.len(),
{
    broadcast use history::one_more_change;

    assert(is_past(c, expiring[0].0));
    let rest = expiring.skip(1);
    let longer = forgotten_one(m, c, expiring[0].0, batch);
    let id = named_by(c, expiring[at].0).1;
    one_entry_at_a_time(m, c, expiring, batch, forgotten);
    if at == 0 {
        forgetting_spares_what_is_remembered(m, c, rest, longer, forgotten + 1, id);
    } else {
        assert forall|j: int| 0 <= j <= at - 1 implies is_past(c, (#[trigger] rest[j]).0) by {
            assert(rest[j] == expiring[j + 1]);
        }
        entries_are_forgotten_on_the_way(m, c, rest, longer, forgotten + 1, at - 1);
    }
}

/// How many entries of the memory are past before the first that is not.
pub open spec fn how_many_past(c: CommandView, entries: Seq<(Seq<u8>, Seq<u8>)>) -> nat
    decreases entries.len(),
{
    if entries.len() > 0 && is_past(c, entries[0].0) {
        how_many_past(c, entries.skip(1)) + 1
    } else {
        0
    }
}

proof fn forgotten_entries_are_counted(
    m: Contents,
    c: CommandView,
    expiring: Seq<(Seq<u8>, Seq<u8>)>,
    batch: Seq<OpView>,
    forgotten: nat,
)
    requires
        duplicate::forget_elapsed(m, c, expiring, batch, forgotten) is Ok,
        are_of_the_memory(expiring),
    ensures
        duplicate::forget_elapsed(m, c, expiring, batch, forgotten)->Ok_0.1 == (
        OutcomeView::DuplicateHistoryExpired {
            removed: (forgotten + how_many_past(c, expiring)) as u32,
        }),
    decreases expiring.len(),
{
    if expiring.len() > 0 && is_past(c, expiring[0].0) {
        one_entry_at_a_time(m, c, expiring, batch, forgotten);
        forgotten_entries_are_counted(
            m,
            c,
            expiring.skip(1),
            forgotten_one(m, c, expiring[0].0, batch),
            forgotten + 1,
        );
    }
}

proof fn walked_entries_are_of_the_memory(m: Contents, c: CommandView)
    requires
        m.dom().finite(),
    ensures
        ({
            let prefix = keys::duplicate_expiry_prefix_key(c.namespace, c.entity);
            are_of_the_memory(storage::scan(m, prefix, prefix, machine::TIMER_SCAN_LIMIT))
        }),
{
    let prefix = keys::duplicate_expiry_prefix_key(c.namespace, c.entity);
    let walked = storage::walk(m, prefix, prefix);
    let entries = storage::scan(m, prefix, prefix, machine::TIMER_SCAN_LIMIT);
    storage::walk_lists_the_selected_keys(m, prefix, prefix);
    assert forall|i: int| 0 <= i < entries.len() implies (#[trigger] entries[i]).0.len() > 0
        && entries[i].0[0] == keys::TAG_DUPLICATE_EXPIRY by {
        assert(walked.contains(walked[i]));
        assert(storage::selected(m, prefix, prefix).contains(walked[i]));
        assert(walked[i].subrange(0, prefix.len() as int)[0] == prefix[0]);
    }
}

/// An identifier whose time is over is forgotten once the sweep has come by, which looks
/// at so many at a time.
pub proof fn past_identifiers_are_forgotten(
    m: Contents,
    c: CommandView,
    id: Seq<char>,
    until: Timestamp,
    i: int,
)
    requires
        m.dom().finite(),
        c.kind is ExpireDuplicateHistory,
        apply::applied(m, c).0 is Ok,
        remembered_until(m, c, id) == Some(until),
        ({
            let prefix = keys::duplicate_expiry_prefix_key(c.namespace, c.entity);
            let walked = storage::walk(m, prefix, prefix);
            &&& 0 <= i < 256
            &&& i < walked.len()
            &&& walked[i] == keys::duplicate_expiry_key(c.namespace, c.entity, until, id)
            &&& forall|j: int| 0 <= j <= i ==> is_past(c, #[trigger] walked[j])
        }),
    ensures
        remembered_until(apply::applied(m, c).1, c, id) is None,
{
    let prefix = keys::duplicate_expiry_prefix_key(c.namespace, c.entity);
    let walked = storage::walk(m, prefix, prefix);
    let entries = storage::scan(m, prefix, prefix, machine::TIMER_SCAN_LIMIT);
    order::texts_read_back(prefix, until, id);
    walked_entries_are_of_the_memory(m, c);
    assert(entries[i].0 == walked[i]);
    assert forall|j: int| 0 <= j <= i implies is_past(c, (#[trigger] entries[j]).0) by {
        assert(entries[j].0 == walked[j]);
    }
    entries_are_forgotten_on_the_way(m, c, entries, Seq::empty(), 0, i);
    let changes = duplicate::forget_elapsed(m, c, entries, Seq::empty(), 0)->Ok_0.0;
    history::one_more_change(m, changes, apply::clock_change(c.issued_at));
    lifecycle::keys_begin_with_their_tags();
}

/// An identifier that is remembered for longer stays remembered, until when it was.
pub proof fn others_stay_remembered(m: Contents, c: CommandView, id: Seq<char>)
    requires
        m.dom().finite(),
        c.kind is ExpireDuplicateHistory,
        remembered_until(m, c, id) matches Some(until) && until.0 > c.issued_at.0,
    ensures
        remembered_until(apply::applied(m, c).1, c, id) == remembered_until(m, c, id),
{
    if apply::applied(m, c).0 is Ok {
        let prefix = keys::duplicate_expiry_prefix_key(c.namespace, c.entity);
        let entries = storage::scan(m, prefix, prefix, machine::TIMER_SCAN_LIMIT);
        walked_entries_are_of_the_memory(m, c);
        forgetting_spares_what_is_remembered(m, c, entries, Seq::empty(), 0, id);
        assert(storage::apply_ops(m, Seq::empty()) == m);
        let changes = duplicate::forget_elapsed(m, c, entries, Seq::empty(), 0)->Ok_0.0;
        history::one_more_change(m, changes, apply::clock_change(c.issued_at));
        lifecycle::keys_begin_with_their_tags();
    }
}

/// The sweep tells how many entries of the memory were past.
pub proof fn forgotten_identifiers_are_told(m: Contents, c: CommandView)
    requires
        m.dom().finite(),
        c.kind is ExpireDuplicateHistory,
        apply::applied(m, c).0 is Ok,
    ensures
        ({
            let prefix = keys::duplicate_expiry_prefix_key(c.namespace, c.entity);
            apply::applied(m, c).0 == Ok::<OutcomeView, ErrorView>(
                OutcomeView::DuplicateHistoryExpired {
                    removed: how_many_past(c, storage::scan(m, prefix, prefix, 256)) as u32,
                },
            )
        }),
{
    let prefix = keys::duplicate_expiry_prefix_key(c.namespace, c.entity);
    let entries = storage::scan(m, prefix, prefix, machine::TIMER_SCAN_LIMIT);
    walked_entries_are_of_the_memory(m, c);
    forgotten_entries_are_counted(m, c, entries, Seq::empty(), 0);
}

} // verus!
