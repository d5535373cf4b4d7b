//! Replicated time.

use vstd::prelude::*;

use crate::domain::wire::Wire;

verus! {

/// Milliseconds since the Unix epoch, assigned by the proposing leader and
/// carried in the replicated command.
///
/// The state machine never reads a local clock. Every deadline it evaluates is
/// derived from the timestamp on the command being applied.
#[derive(Clone, Copy, Debug, Default, PartialEq, Eq, PartialOrd, Ord, Hash, Structural)]
pub struct Timestamp(pub u64);

impl DeepView for Timestamp {
    type V = Timestamp;

    open spec fn deep_view(&self) -> Timestamp {
        *self
    }
}

/// `base` moved `millis` later, held at the largest timestamp.
pub open spec fn later(base: Timestamp, millis: u64) -> Timestamp {
    if base.0 + millis <= u64::MAX {
        Timestamp((base.0 + millis) as u64)
    } else {
        Timestamp(u64::MAX)
    }
}

impl Timestamp {
    /// The Unix epoch itself.
    pub fn unix_epoch() -> (epoch: Timestamp)
        ensures
            epoch == Timestamp(0),
    {
        Timestamp(0)
    }

    pub fn from_millis(millis: u64) -> (timestamp: Timestamp)
        ensures
            timestamp == Timestamp(millis),
    {
        Timestamp(millis)
    }

    pub fn as_millis(self) -> (millis: u64)
        ensures
            millis == self.0,
    {
        self.0
    }

    /// Saturates rather than wrapping so that a very large configured lifetime
    /// produces a deadline that never elapses instead of one already in the
    /// past.
    pub fn saturating_add_millis(self, millis: u64) -> (deadline: Timestamp)
        ensures
            deadline == later(self, millis),
    {
        Timestamp(self.0.saturating_add(millis))
    }
}

/// A deadline never precedes the instant it is counted from.
pub proof fn deadlines_never_move_back(base: Timestamp, millis: u64)
    ensures
        later(base, millis).0 >= base.0,
{
}

impl Wire for Timestamp {
    open spec fn fits(v: Timestamp) -> bool {
        true
    }

    open spec fn wire(v: Timestamp) -> Seq<u8> {
        <u64 as Wire>::wire(v.0)
    }

    open spec fn unwire(b: Seq<u8>) -> Option<(Timestamp, Seq<u8>)> {
        match <u64 as Wire>::unwire(b) {
            Some((value, rest)) => Some((Timestamp(value), rest)),
            None => None,
        }
    }

    proof fn round_trip(v: Timestamp, rest: Seq<u8>) {
        <u64 as Wire>::round_trip(v.0, rest);
    }

    fn write(&self, out: &mut Vec<u8>) {
        self.0.write(out);
    }

    fn read(b: &[u8]) -> (taken: Option<(Timestamp, &[u8])>) {
        match <u64 as Wire>::read(b) {
            Some((value, rest)) => Some((Timestamp(value), rest)),
            None => None,
        }
    }
}

} // verus!
