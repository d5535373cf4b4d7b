//! The byte layout of stored values.
//!
//! Integers are written by postcard as little-endian base 128 numbers. Text and
//! byte strings carry their length first, an optional value carries a presence
//! byte, an enumeration carries the number of its variant, and a record is its
//! fields one after the other.

use vstd::prelude::*;
use vstd::slice::slice_subrange;

use crate::bytes;

verus! {

/// `n` in base 128, least significant digit first, every digit but the last
/// marked by its top bit.
pub open spec fn varint(n: nat) -> Seq<u8>
    decreases n,
{
    if n < 128 {
        seq![n as u8]
    } else {
        seq![(n % 128 + 128) as u8] + varint(n / 128)
    }
}

/// Reads a base 128 number of at most `digits` digits whose digit in the last
/// place is at most `last`, and hands back the bytes behind it.
pub open spec fn take_varint(b: Seq<u8>, digits: nat, last: u8) -> Option<(nat, Seq<u8>)>
    decreases digits,
{
    if digits == 0 || b.len() == 0 {
        None
    } else if b[0] < 128 {
        if digits == 1 && b[0] > last {
            None
        } else {
            Some((b[0] as nat, b.skip(1)))
        }
    } else {
        match take_varint(b.skip(1), (digits - 1) as nat, last) {
            Some((high, rest)) => Some(((b[0] - 128) as nat + 128 * high, rest)),
            None => None,
        }
    }
}

/// One more than the largest number of `digits` base 128 digits whose last
/// place holds at most `last`.
pub open spec fn varint_bound(digits: nat, last: u8) -> nat
    decreases digits,
{
    if digits <= 1 {
        last as nat + 1
    } else {
        128 * varint_bound((digits - 1) as nat, last)
    }
}

/// A number that is small enough reads back.
pub proof fn varint_round_trip(n: nat, digits: nat, last: u8, rest: Seq<u8>)
    requires
        digits > 0,
        last < 128,
        n < varint_bound(digits, last),
    ensures
        take_varint(varint(n) + rest, digits, last) == Some((n, rest)),
    decreases digits,
{
    let b = varint(n) + rest;
    if n < 128 {
        assert(b.skip(1) =~= rest);
    } else {
        assert(digits > 1);
        varint_round_trip(n / 128, (digits - 1) as nat, last, rest);
        assert(b.skip(1) =~= varint(n / 128) + rest);
        assert((b[0] - 128) as nat == n % 128);
    }
}

/// A number that was read is in range.
pub proof fn take_varint_bounded(b: Seq<u8>, digits: nat, last: u8)
    requires
        last < 128,
    ensures
        take_varint(b, digits, last) matches Some((n, _)) ==> n < varint_bound(digits, last),
    decreases digits,
{
    if digits > 0 && b.len() > 0 {
        varint_bound_grows(digits, last);
        if b[0] >= 128 {
            take_varint_bounded(b.skip(1), (digits - 1) as nat, last);
        }
    }
}

proof fn varint_bound_grows(digits: nat, last: u8)
    requires
        last < 128,
    ensures
        digits > 1 ==> varint_bound(digits, last) >= 128,
    decreases digits,
{
    reveal_with_fuel(varint_bound, 2);
    if digits > 2 {
        varint_bound_grows((digits - 1) as nat, last);
    }
}

proof fn u64_bound()
    ensures
        varint_bound(10, 1) == 0x1_0000_0000_0000_0000,
{
    reveal_with_fuel(varint_bound, 10);
}

proof fn u32_bound()
    ensures
        varint_bound(5, 15) == 0x1_0000_0000,
{
    reveal_with_fuel(varint_bound, 5);
}

/// `postcard::to_stdvec` on a `u64`: its base 128 digits. Writing into a
/// growing vector does not fail.
#[verifier::external_body]
fn postcard_u64(value: u64) -> (written: Option<Vec<u8>>)
    ensures
        written is Some,
        written->Some_0@ == varint(value as nat),
{
    postcard::to_stdvec(&value).ok()
}

/// `postcard::take_from_bytes` for a `u64`: the number of at most ten base 128
/// digits that `b` begins with, and the bytes behind it. It fails when `b` ends
/// first, when a tenth digit says that more follow, or when the tenth digit
/// exceeds 1.
#[verifier::external_body]
fn postcard_take_u64(b: &[u8]) -> (taken: Option<(u64, &[u8])>)
    ensures
        match taken {
            Some((value, rest)) => take_varint(b@, 10, 1) == Some((value as nat, rest@)),
            None => take_varint(b@, 10, 1) is None,
        },
{
    postcard::take_from_bytes::<u64>(b).ok()
}

/// `postcard::take_from_bytes` for a `u32`: the same with at most five digits,
/// the fifth at most 15.
#[verifier::external_body]
fn postcard_take_u32(b: &[u8]) -> (taken: Option<(u32, &[u8])>)
    ensures
        match taken {
            Some((value, rest)) => take_varint(b@, 5, 15) == Some((value as nat, rest@)),
            None => take_varint(b@, 5, 15) is None,
        },
{
    postcard::take_from_bytes::<u32>(b).ok()
}

/// A value with a stored byte layout.
pub trait Wire: DeepView + Sized {
    /// Values that the layout can tell apart.
    spec fn fits(v: <Self as DeepView>::V) -> bool;

    /// The bytes that store `v`.
    spec fn wire(v: <Self as DeepView>::V) -> Seq<u8>;

    /// The value that `b` begins with, and the bytes behind it.
    spec fn unwire(b: Seq<u8>) -> Option<(<Self as DeepView>::V, Seq<u8>)>;

    /// A stored value reads back, whatever follows it.
    proof fn round_trip(v: <Self as DeepView>::V, rest: Seq<u8>)
        requires
            Self::fits(v),
        ensures
            Self::unwire(Self::wire(v) + rest) == Some((v, rest)),
    ;

    fn write(&self, out: &mut Vec<u8>)
        ensures
            final(out)@ == old(out)@ + Self::wire(self.deep_view()),
    ;

    fn read(b: &[u8]) -> (taken: Option<(Self, &[u8])>)
        ensures
            match taken {
                Some((value, rest)) => Self::unwire(b@) == Some((value.deep_view(), rest@)),
                None => Self::unwire(b@) is None,
            },
    ;
}

impl Wire for u64 {
    open spec fn fits(v: u64) -> bool {
        true
    }

    open spec fn wire(v: u64) -> Seq<u8> {
        varint(v as nat)
    }

    open spec fn unwire(b: Seq<u8>) -> Option<(u64, Seq<u8>)> {
        match take_varint(b, 10, 1) {
            Some((n, rest)) => Some((n as u64, rest)),
            None => None,
        }
    }

    proof fn round_trip(v: u64, rest: Seq<u8>) {
        u64_bound();
        varint_round_trip(v as nat, 10, 1, rest);
    }

    fn write(&self, out: &mut Vec<u8>) {
        let digits = postcard_u64(*self).unwrap();
        bytes::append(out, digits.as_slice());
    }

    fn read(b: &[u8]) -> (taken: Option<(u64, &[u8])>) {
        postcard_take_u64(b)
    }
}

impl Wire for u32 {
    open spec fn fits(v: u32) -> bool {
        true
    }

    open spec fn wire(v: u32) -> Seq<u8> {
        varint(v as nat)
    }

    open spec fn unwire(b: Seq<u8>) -> Option<(u32, Seq<u8>)> {
        match take_varint(b, 5, 15) {
            Some((n, rest)) => Some((n as u32, rest)),
            None => None,
        }
    }

    proof fn round_trip(v: u32, rest: Seq<u8>) {
        u32_bound();
        varint_round_trip(v as nat, 5, 15, rest);
    }

    fn write(&self, out: &mut Vec<u8>) {
        let digits = postcard_u64(*self as u64).unwrap();
        bytes::append(out, digits.as_slice());
    }

    fn read(b: &[u8]) -> (taken: Option<(u32, &[u8])>) {
        postcard_take_u32(b)
    }
}

impl Wire for usize {
    open spec fn fits(v: usize) -> bool {
        true
    }

    open spec fn wire(v: usize) -> Seq<u8> {
        varint(v as nat)
    }

    open spec fn unwire(b: Seq<u8>) -> Option<(usize, Seq<u8>)> {
        match take_varint(b, 10, 1) {
            Some((n, rest)) => if n <= usize::MAX {
                Some((n as usize, rest))
            } else {
                None
            },
            None => None,
        }
    }

    proof fn round_trip(v: usize, rest: Seq<u8>) {
        u64_bound();
        varint_round_trip(v as nat, 10, 1, rest);
    }

    fn write(&self, out: &mut Vec<u8>) {
        let digits = postcard_u64(*self as u64).unwrap();
        bytes::append(out, digits.as_slice());
    }

    fn read(b: &[u8]) -> (taken: Option<(usize, &[u8])>) {
        match postcard_take_u64(b) {
            Some((n, rest)) => if n <= usize::MAX as u64 {
                Some((n as usize, rest))
            } else {
                None
            },
            None => None,
        }
    }
}

impl Wire for bool {
    open spec fn fits(v: bool) -> bool {
        true
    }

    open spec fn wire(v: bool) -> Seq<u8> {
        seq![
            if v {
                1u8
            } else {
                0u8
            },
        ]
    }

    open spec fn unwire(b: Seq<u8>) -> Option<(bool, Seq<u8>)> {
        if b.len() == 0 || b[0] > 1 {
            None
        } else {
            Some((b[0] == 1, b.skip(1)))
        }
    }

    proof fn round_trip(v: bool, rest: Seq<u8>) {
        assert((Self::wire(v) + rest).skip(1) =~= rest);
    }

    fn write(&self, out: &mut Vec<u8>) {
        let ghost start = out@;
        out.push(
            if *self {
                1
            } else {
                0
            },
        );
        proof {
            assert(out@ =~= start + Self::wire(*self));
        }
    }

    fn read(b: &[u8]) -> (taken: Option<(bool, &[u8])>) {
        if b.len() == 0 || b[0] > 1 {
            None
        } else {
            Some((b[0] == 1, slice_subrange(b, 1, b.len())))
        }
    }
}

/// A byte string behind its length.
pub open spec fn block(v: Seq<u8>) -> Seq<u8> {
    varint(v.len()) + v
}

/// The byte string behind its length that `b` begins with.
pub open spec fn take_block(b: Seq<u8>) -> Option<(Seq<u8>, Seq<u8>)> {
    match usize::unwire(b) {
        Some((n, rest)) => if n <= rest.len() {
            Some((rest.take(n as int), rest.skip(n as int)))
        } else {
            None
        },
        None => None,
    }
}

proof fn block_round_trip(v: Seq<u8>, rest: Seq<u8>)
    requires
        v.len() <= usize::MAX,
    ensures
        take_block(block(v) + rest) == Some((v, rest)),
{
    let n = v.len() as usize;
    usize::round_trip(n, v + rest);
    assert(block(v) + rest =~= usize::wire(n) + (v + rest));
    assert((v + rest).take(n as int) =~= v);
    assert((v + rest).skip(n as int) =~= rest);
}

pub(crate) fn write_block(v: &[u8], out: &mut Vec<u8>)
    ensures
        final(out)@ == old(out)@ + block(v@),
{
    let ghost start = out@;
    v.len().write(out);
    bytes::append(out, v);
    proof {
        assert(out@ =~= start + block(v@));
    }
}

fn read_block(b: &[u8]) -> (taken: Option<(&[u8], &[u8])>)
    ensures
        match taken {
            Some((v, rest)) => take_block(b@) == Some((v@, rest@)),
            None => take_block(b@) is None,
        },
{
    match usize::read(b) {
        Some((n, rest)) => if n <= rest.len() {
            Some((slice_subrange(rest, 0, n), slice_subrange(rest, n, rest.len())))
        } else {
            None
        },
        None => None,
    }
}

impl Wire for Vec<u8> {
    open spec fn fits(v: Seq<u8>) -> bool {
        v.len() <= usize::MAX
    }

    open spec fn wire(v: Seq<u8>) -> Seq<u8> {
        block(v)
    }

    open spec fn unwire(b: Seq<u8>) -> Option<(Seq<u8>, Seq<u8>)> {
        take_block(b)
    }

    proof fn round_trip(v: Seq<u8>, rest: Seq<u8>) {
        block_round_trip(v, rest);
    }

    fn write(&self, out: &mut Vec<u8>) {
        proof {
            assert(self.deep_view() =~= self@);
        }
        write_block(self.as_slice(), out);
    }

    fn read(b: &[u8]) -> (taken: Option<(Vec<u8>, &[u8])>) {
        match read_block(b) {
            Some((v, rest)) => {
                let copy = bytes::copy_bytes(v);
                proof {
                    assert(copy.deep_view() =~= copy@);
                }
                Some((copy, rest))
            },
            None => None,
        }
    }
}

impl Wire for String {
    open spec fn fits(v: Seq<char>) -> bool {
        bytes::utf8(v).len() <= usize::MAX
    }

    open spec fn wire(v: Seq<char>) -> Seq<u8> {
        block(bytes::utf8(v))
    }

    open spec fn unwire(b: Seq<u8>) -> Option<(Seq<char>, Seq<u8>)> {
        match take_block(b) {
            Some((v, rest)) => match bytes::from_utf8(v) {
                Some(text) => Some((text, rest)),
                None => None,
            },
            None => None,
        }
    }

    proof fn round_trip(v: Seq<char>, rest: Seq<u8>) {
        block_round_trip(bytes::utf8(v), rest);
        bytes::utf8_round_trip(v);
    }

    fn write(&self, out: &mut Vec<u8>) {
        write_block(self.as_str().as_bytes(), out);
    }

    fn read(b: &[u8]) -> (taken: Option<(String, &[u8])>) {
        match read_block(b) {
            Some((v, rest)) => match bytes::read_text(v) {
                Some(text) => Some((text.to_owned(), rest)),
                None => None,
            },
            None => None,
        }
    }
}

impl<T: Wire> Wire for Option<T> {
    open spec fn fits(v: Option<T::V>) -> bool {
        v is Some ==> T::fits(v->Some_0)
    }

    open spec fn wire(v: Option<T::V>) -> Seq<u8> {
        match v {
            None => seq![0u8],
            Some(v) => seq![1u8] + T::wire(v),
        }
    }

    open spec fn unwire(b: Seq<u8>) -> Option<(Option<T::V>, Seq<u8>)> {
        if b.len() == 0 || b[0] > 1 {
            None
        } else if b[0] == 0 {
            Some((None, b.skip(1)))
        } else {
            match T::unwire(b.skip(1)) {
                Some((v, rest)) => Some((Some(v), rest)),
                None => None,
            }
        }
    }

    proof fn round_trip(v: Option<T::V>, rest: Seq<u8>) {
        let b = Self::wire(v) + rest;
        match v {
            None => {
                assert(b.skip(1) =~= rest);
            },
            Some(v) => {
                T::round_trip(v, rest);
                assert(b.skip(1) =~= T::wire(v) + rest);
            },
        }
    }

    fn write(&self, out: &mut Vec<u8>) {
        let ghost start = out@;
        match self {
            None => {
                out.push(0);
            },
            Some(v) => {
                out.push(1);
                v.write(out);
            },
        }
        proof {
            assert(out@ =~= start + Self::wire(self.deep_view()));
        }
    }

    fn read(b: &[u8]) -> (taken: Option<(Option<T>, &[u8])>) {
        if b.len() == 0 || b[0] > 1 {
            None
        } else if b[0] == 0 {
            Some((None, slice_subrange(b, 1, b.len())))
        } else {
            match T::read(slice_subrange(b, 1, b.len())) {
                Some((v, rest)) => Some((Some(v), rest)),
                None => None,
            }
        }
    }
}

/// Two values one after the other.
impl<A: Wire, B: Wire> Wire for (A, B) {
    open spec fn fits(v: (A::V, B::V)) -> bool {
        A::fits(v.0) && B::fits(v.1)
    }

    open spec fn wire(v: (A::V, B::V)) -> Seq<u8> {
        A::wire(v.0) + B::wire(v.1)
    }

    open spec fn unwire(b: Seq<u8>) -> Option<((A::V, B::V), Seq<u8>)> {
        match A::unwire(b) {
            None => None,
            Some((x, rest)) => match B::unwire(rest) {
                None => None,
                Some((y, rest)) => Some(((x, y), rest)),
            },
        }
    }

    proof fn round_trip(v: (A::V, B::V), rest: Seq<u8>) {
        A::round_trip(v.0, B::wire(v.1) + rest);
        B::round_trip(v.1, rest);
        assert(Self::wire(v) + rest =~= A::wire(v.0) + (B::wire(v.1) + rest));
    }

    fn write(&self, out: &mut Vec<u8>) {
        let ghost start = out@;
        self.0.write(out);
        self.1.write(out);
        proof {
            assert(out@ =~= start + Self::wire(self.deep_view()));
        }
    }

    fn read(b: &[u8]) -> (taken: Option<((A, B), &[u8])>) {
        match A::read(b) {
            None => None,
            Some((x, rest)) => match B::read(rest) {
                None => None,
                Some((y, rest)) => Some(((x, y), rest)),
            },
        }
    }
}

} // verus!
