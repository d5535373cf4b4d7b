//! Requests that name messages by sequence number name each of them once.

use vstd::prelude::*;

use crate::domain::message::SequenceNumber;

verus! {

/// `s[i]` stands at an earlier index too.
pub open spec fn repeats(s: Seq<SequenceNumber>, i: int) -> bool {
    exists|j: int| 0 <= j < i && s[j] == s[i]
}

/// The first number from index `i` on that stands at an earlier index too.
pub open spec fn repeat_from(s: Seq<SequenceNumber>, i: int) -> Option<SequenceNumber>
    decreases s.len() - i,
{
    if i >= s.len() {
        None
    } else if repeats(s, i) {
        Some(s[i])
    } else {
        repeat_from(s, i + 1)
    }
}

/// The first number that is named a second time.
pub open spec fn first_repeat(s: Seq<SequenceNumber>) -> Option<SequenceNumber> {
    repeat_from(s, 0)
}

/// A request without a repeated number names distinct messages.
pub proof fn without_repeat_all_differ(s: Seq<SequenceNumber>)
    ensures
        first_repeat(s) is None <==> (forall|i: int, j: int|
            0 <= i < j < s.len() ==> s[i] != s[j]),
{
    repeat_from_none(s, 0);
    if forall|i: int| 0 <= i < s.len() ==> !repeats(s, i) {
        assert forall|i: int, j: int| 0 <= i < j < s.len() implies s[i] != s[j] by {
            assert(!repeats(s, j));
        }
    } else {
        let i = choose|i: int| 0 <= i < s.len() && repeats(s, i);
        let j = choose|j: int| 0 <= j < i && s[j] == s[i];
        assert(s[j] == s[i]);
    }
}

/// What is said to repeat is named twice.
pub proof fn what_repeats_is_named_twice(s: Seq<SequenceNumber>)
    ensures
        first_repeat(s) matches Some(n) ==> is_named_twice(s, n),
{
    repeats_are_named_twice(s, 0);
}

/// Whether a number stands at two indexes.
pub open spec fn is_named_twice(s: Seq<SequenceNumber>, n: SequenceNumber) -> bool {
    exists|i: int, j: int| 0 <= i < j < s.len() && #[trigger] s[i] == n && #[trigger] s[j] == n
}

proof fn repeats_are_named_twice(s: Seq<SequenceNumber>, i: int)
    requires
        0 <= i,
    ensures
        repeat_from(s, i) matches Some(n) ==> is_named_twice(s, n),
    decreases s.len() - i,
{
    if i < s.len() {
        if repeats(s, i) {
            let j = choose|j: int| 0 <= j < i && s[j] == s[i];
            assert(s[j] == s[i]);
        } else {
            repeats_are_named_twice(s, i + 1);
        }
    }
}

proof fn repeat_from_none(s: Seq<SequenceNumber>, i: int)
    requires
        0 <= i,
    ensures
        repeat_from(s, i) is None <==> (forall|k: int| i <= k < s.len() ==> !repeats(s, k)),
    decreases s.len() - i,
{
    if i < s.len() && !repeats(s, i) {
        repeat_from_none(s, i + 1);
    }
}

/// The first sequence number that `sequences` names a second time.
#[verifier::loop_isolation(false)]
pub fn find_repeat(sequences: &[SequenceNumber]) -> (found: Option<SequenceNumber>)
    ensures
        found == first_repeat(sequences@),
{
    let mut i: usize = 0;
    while i < sequences.len()
        invariant
            i <= sequences@.len(),
            repeat_from(sequences@, i as int) == first_repeat(sequences@),
        decreases sequences@.len() - i,
    {
        let mut j: usize = 0;
        while j < i
            invariant
                j <= i < sequences@.len(),
                forall|k: int| 0 <= k < j ==> sequences@[k] != sequences@[i as int],
            decreases i - j,
        {
            if sequences[j] == sequences[i] {
                return Some(sequences[i]);
            }
            j = j + 1;
        }
        i = i + 1;
    }
    None
}

} // verus!
