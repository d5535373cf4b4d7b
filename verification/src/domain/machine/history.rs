//! What holds of a store as commands are applied to it.

use vstd::prelude::*;

use crate::domain::codec;
use crate::domain::command::{CommandView, OutcomeView};
use crate::domain::error::ErrorView;
use crate::domain::machine;
use crate::domain::machine::apply;
use crate::domain::time::Timestamp;
use crate::storage;
use crate::storage::{Contents, OpView};

verus! {

/// One more change comes last.
pub broadcast proof fn one_more_change(m: Contents, ops: Seq<OpView>, op: OpView)
    ensures
        #[trigger] storage::apply_ops(m, ops.push(op)) == storage::changed(
            storage::apply_ops(m, ops),
            op,
        ),
{
    assert(ops.push(op).drop_last() =~= ops);
}

/// Changes leave finitely many keys.
pub proof fn changes_stay_finite(m: Contents, ops: Seq<OpView>)
    requires
        m.dom().finite(),
    ensures
        storage::apply_ops(m, ops).dom().finite(),
    decreases ops.len(),
{
    if ops.len() > 0 {
        changes_stay_finite(m, ops.drop_last());
    }
}

/// A command that is rejected leaves the store as it was.
pub proof fn rejections_change_nothing(m: Contents, c: CommandView)
    ensures
        apply::applied(m, c).0 is Err ==> apply::applied(m, c).1 == m,
{
}

/// Browsing messages, listing rules and reading session state change nothing.
pub proof fn reads_change_nothing(m: Contents, c: CommandView)
    requires
        c.kind is Peek || c.kind is ListRules || c.kind is GetSessionState,
    ensures
        apply::applied(m, c).1 == m,
{
}

/// A command that was stamped before the last one that was applied is refused.
pub proof fn the_past_is_refused(m: Contents, c: CommandView)
    ensures
        machine::applied_time(m) matches Ok(last_applied) ==> c.issued_at.0 < last_applied.0
            ==> apply::applied(m, c) == (
            Err::<OutcomeView, ErrorView>(
                ErrorView::ClockRegression { last_applied, proposed: c.issued_at },
            ),
            m,
        ),
{
}

/// A command that changes anything sets the clock to its own time, and the clock
/// never goes back.
pub proof fn the_clock_never_goes_back(m: Contents, c: CommandView)
    ensures
        machine::applied_time(m) matches Ok(before) ==> (machine::applied_time(
            apply::applied(m, c).1,
        ) matches Ok(after) && before.0 <= after.0),
        apply::applied(m, c).1 != m ==> machine::applied_time(apply::applied(m, c).1) == Ok::<
            Timestamp,
            ErrorView,
        >(c.issued_at),
{
    broadcast use one_more_change;

    codec::stored_values_read_back::<Timestamp>(c.issued_at);
}

/// The outcomes of commands in order, and what the store holds afterwards.
pub open spec fn replayed(m: Contents, commands: Seq<CommandView>) -> (
    Seq<Result<OutcomeView, ErrorView>>,
    Contents,
)
    decreases commands.len(),
{
    if commands.len() == 0 {
        (Seq::empty(), m)
    } else {
        let (outcomes, before) = replayed(m, commands.drop_last());
        let (outcome, after) = apply::applied(before, commands.last());
        (outcomes.push(outcome), after)
    }
}

/// A replica that starts from a snapshot and applies the commands behind it ends
/// with the same store, and gave the same outcomes, as one that applied them
/// all.
pub proof fn a_snapshot_stands_for_its_commands(
    m: Contents,
    first: Seq<CommandView>,
    behind: Seq<CommandView>,
)
    ensures
        ({
            let snapshot = replayed(m, first);
            let rest = replayed(snapshot.1, behind);
            replayed(m, first + behind) == (snapshot.0 + rest.0, rest.1)
        }),
    decreases behind.len(),
{
    let whole = first + behind;
    if behind.len() == 0 {
        assert(whole =~= first);
        assert(replayed(m, first).0 + Seq::<Result<OutcomeView, ErrorView>>::empty() =~= replayed(
            m,
            first,
        ).0);
    } else {
        a_snapshot_stands_for_its_commands(m, first, behind.drop_last());
        assert(whole.drop_last() =~= first + behind.drop_last());
        let snapshot = replayed(m, first);
        let rest = replayed(snapshot.1, behind.drop_last());
        let (outcome, after) = apply::applied(rest.1, behind.last());
        assert((snapshot.0 + rest.0).push(outcome) =~= snapshot.0 + rest.0.push(outcome));
    }
}

/// However many commands are applied, the clock never goes back.
pub proof fn the_clock_never_goes_back_over_time(m: Contents, commands: Seq<CommandView>)
    requires
        machine::applied_time(m) is Ok,
    ensures
        machine::applied_time(replayed(m, commands).1) is Ok,
        machine::applied_time(m)->Ok_0.0 <= machine::applied_time(
            replayed(m, commands).1,
        )->Ok_0.0,
    decreases commands.len(),
{
    if commands.len() > 0 {
        the_clock_never_goes_back_over_time(m, commands.drop_last());
        the_clock_never_goes_back(replayed(m, commands.drop_last()).1, commands.last());
    }
}

/// Finitely many keys stay finitely many.
pub proof fn a_store_stays_finite(m: Contents, c: CommandView)
    requires
        m.dom().finite(),
    ensures
        apply::applied(m, c).1.dom().finite(),
{
    match apply::command_step(m, c, Seq::empty()) {
        Ok((changes, _)) => {
            changes_stay_finite(m, changes.push(apply::clock_change(c.issued_at)));
        },
        Err(_) => {},
    }
}

} // verus!
