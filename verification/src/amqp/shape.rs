//! The shape of encoded AMQP values: where they end, and whether every compound
//! header in them can be taken at its word.

use vstd::prelude::*;

use crate::amqp::fault::CodecFault;
use crate::bytes;

verus! {

/// How many octets follow a fixed-width format code.
pub open spec fn fixed_width(code: u8) -> Option<nat> {
    if 0x40 <= code <= 0x45 {
        Some(0)
    } else if 0x50 <= code <= 0x56 {
        Some(1)
    } else if 0x60 <= code <= 0x61 {
        Some(2)
    } else if 0x70 <= code <= 0x74 {
        Some(4)
    } else if 0x80 <= code <= 0x84 {
        Some(8)
    } else if code == 0x94 || code == 0x98 {
        Some(16)
    } else {
        None
    }
}

/// How wide the length is that follows a format code: of a binary, string or
/// symbol, or of a list, map or array.
pub open spec fn length_width(code: u8) -> Option<nat> {
    if code == 0xa0 || code == 0xa1 || code == 0xa3 || code == 0xc0 || code == 0xc1 || code
        == 0xe0 {
        Some(1)
    } else if code == 0xb0 || code == 0xb1 || code == 0xb3 || code == 0xd0 || code == 0xd1 || code
        == 0xf0 {
        Some(4)
    } else {
        None
    }
}

/// How many octets the value at the start of `b` takes.
pub open spec fn value_len(b: Seq<u8>) -> Result<nat, CodecFault>
    decreases b.len(),
{
    if b.len() == 0 {
        Err(CodecFault::MissingValue)
    } else if b[0] == 0 {
        match value_len(b.skip(1)) {
            Err(fault) => Err(fault),
            Ok(descriptor) => if descriptor > b.len() - 1 {
                Err(CodecFault::Truncated)
            } else {
                match value_len(b.skip(1 + descriptor as int)) {
                    Err(fault) => Err(fault),
                    Ok(value) => Ok(1 + descriptor + value),
                }
            },
        }
    } else if let Some(width) = fixed_width(b[0]) {
        if 1 + width > b.len() {
            Err(CodecFault::Truncated)
        } else {
            Ok(1 + width)
        }
    } else if let Some(width) = length_width(b[0]) {
        if 1 + width > b.len() {
            Err(CodecFault::MissingLength)
        } else {
            let total = 1 + width + bytes::be_value(b.subrange(1, 1 + width as int));
            if total > b.len() {
                Err(CodecFault::Truncated)
            } else {
                Ok(total)
            }
        }
    } else {
        Err(CodecFault::FormatCode(b[0]))
    }
}

/// A value takes no more octets than there are.
pub proof fn value_len_is_bounded(b: Seq<u8>)
    ensures
        match value_len(b) {
            Ok(len) => 1 <= len <= b.len(),
            Err(_) => true,
        },
    decreases b.len(),
{
    if b.len() > 0 && b[0] == 0 {
        value_len_is_bounded(b.skip(1));
        if let Ok(descriptor) = value_len(b.skip(1)) {
            value_len_is_bounded(b.skip(1 + descriptor as int));
        }
    }
}

/// How many octets a value takes is told by those octets alone.
pub proof fn a_value_tells_its_own_length(b: Seq<u8>, c: Seq<u8>, len: nat)
    requires
        value_len(b) == Ok::<nat, CodecFault>(len),
        len <= c.len(),
        b.take(len as int) == c.take(len as int),
    ensures
        value_len(c) == Ok::<nat, CodecFault>(len),
    decreases b.len(),
{
    value_len_is_bounded(b);
    assert(forall|i: int| 0 <= i < len ==> b.take(len as int)[i] == b[i]);
    assert(forall|i: int| 0 <= i < len ==> c.take(len as int)[i] == c[i]);
    assert(b[0] == c[0]);
    if b[0] == 0 {
        let d = value_len(b.skip(1))->Ok_0;
        let v = value_len(b.skip(1 + d as int))->Ok_0;
        value_len_is_bounded(b.skip(1));
        value_len_is_bounded(b.skip(1 + d as int));
        assert(b.skip(1).take(d as int) =~= c.skip(1).take(d as int));
        a_value_tells_its_own_length(b.skip(1), c.skip(1), d);
        assert(b.skip(1 + d as int).take(v as int) =~= c.skip(1 + d as int).take(v as int));
        a_value_tells_its_own_length(b.skip(1 + d as int), c.skip(1 + d as int), v);
    } else if fixed_width(b[0]) is Some {
    } else if let Some(width) = length_width(b[0]) {
        assert(b.subrange(1, 1 + width as int) =~= c.subrange(1, 1 + width as int));
    }
}

/// The length of an encoded value does not depend on what follows it.
pub proof fn lengths_ignore_what_follows(b: Seq<u8>, rest: Seq<u8>)
    requires
        value_len(b) is Ok,
    ensures
        value_len(b + rest) == value_len(b),
        value_len(b.take(value_len(b)->Ok_0 as int) + rest) == value_len(b),
{
    let len = value_len(b)->Ok_0;
    value_len_is_bounded(b);
    assert((b + rest).take(len as int) =~= b.take(len as int));
    a_value_tells_its_own_length(b, b + rest, len);
    assert((b.take(len as int) + rest).take(len as int) =~= b.take(len as int));
    a_value_tells_its_own_length(b, b.take(len as int) + rest, len);
}

/// No encoded value begins with another one: cut short, it is none.
pub proof fn values_cut_short_are_refused(b: Seq<u8>, end: int)
    requires
        value_len(b) is Ok,
        0 <= end < value_len(b)->Ok_0,
    ensures
        value_len(b.take(end)) is Err,
{
    value_len_is_bounded(b);
    let cut = b.take(end);
    if let Ok(len) = value_len(cut) {
        value_len_is_bounded(cut);
        assert(cut.take(len as int) =~= b.take(len as int));
        a_value_tells_its_own_length(cut, b, len);
    }
}

fn fixed(code: u8) -> (width: Option<usize>)
    ensures
        match width {
            Some(width) => fixed_width(code) == Some(width as nat),
            None => fixed_width(code) is None,
        },
{
    if 0x40 <= code && code <= 0x45 {
        Some(0)
    } else if 0x50 <= code && code <= 0x56 {
        Some(1)
    } else if 0x60 <= code && code <= 0x61 {
        Some(2)
    } else if 0x70 <= code && code <= 0x74 {
        Some(4)
    } else if 0x80 <= code && code <= 0x84 {
        Some(8)
    } else if code == 0x94 || code == 0x98 {
        Some(16)
    } else {
        None
    }
}

fn length(code: u8) -> (width: Option<usize>)
    ensures
        match width {
            Some(width) => length_width(code) == Some(width as nat) && (width == 1 || width == 4),
            None => length_width(code) is None,
        },
{
    if code == 0xa0 || code == 0xa1 || code == 0xa3 || code == 0xc0 || code == 0xc1 || code == 0xe0 {
        Some(1)
    } else if code == 0xb0 || code == 0xb1 || code == 0xb3 || code == 0xd0 || code == 0xd1 || code
        == 0xf0 {
        Some(4)
    } else {
        None
    }
}

fn value_len_at(data: &[u8], from: usize) -> (len: Result<usize, CodecFault>)
    requires
        from <= data@.len(),
    ensures
        match len {
            Ok(len) => value_len(data@.skip(from as int)) == Ok::<nat, CodecFault>(len as nat)
                && from + len <= data@.len(),
            Err(fault) => value_len(data@.skip(from as int)) == Err::<nat, CodecFault>(fault),
        },
    decreases data@.len() - from,
{
    let total: usize = data.len();
    let ghost b = data@.skip(from as int);
    if from == total {
        return Err(CodecFault::MissingValue);
    }
    let code: u8 = data[from];
    proof {
        assert(b[0] == code);
        value_len_is_bounded(b);
    }
    let rest: usize = total - from;
    if code == 0 {
        proof {
            assert(data@.skip(from + 1) =~= b.skip(1));
        }
        let descriptor: usize = value_len_at(data, from + 1)?;
        let start: usize = from + 1 + descriptor;
        proof {
            assert(data@.skip(start as int) =~= b.skip(1 + descriptor as int));
        }
        let value: usize = value_len_at(data, start)?;
        return Ok(1 + descriptor + value);
    }
    if let Some(width) = fixed(code) {
        if width >= rest {
            return Err(CodecFault::Truncated);
        }
        return Ok(1 + width);
    }
    if let Some(width) = length(code) {
        if width >= rest {
            return Err(CodecFault::MissingLength);
        }
        let declared: u64 = bytes::read_be(data, from + 1, width);
        proof {
            bytes::span_values();
            assert(data@.subrange(from + 1, from + 1 + width) =~= b.subrange(1, 1 + width));
        }
        let room: usize = rest - 1 - width;
        if declared > room as u64 {
            return Err(CodecFault::Truncated);
        }
        return Ok(1 + width + declared as usize);
    }
    Err(CodecFault::FormatCode(code))
}

/// How many octets the encoded value at the start of `data` takes.
pub fn encoded_value_len(data: &[u8]) -> (len: Result<usize, CodecFault>)
    ensures
        match len {
            Ok(len) => value_len(data@) == Ok::<nat, CodecFault>(len as nat) && len <= data@.len(),
            Err(fault) => value_len(data@) == Err::<nat, CodecFault>(fault),
        },
{
    proof {
        assert(data@.skip(0) =~= data@);
    }
    value_len_at(data, 0)
}

// ---- compound headers ------------------------------------------------------

/// Whether a format code can introduce a descriptor.
pub open spec fn names_descriptor(code: u8) -> bool {
    code == 0xa3 || code == 0xb3 || code == 0x44 || code == 0x53 || code == 0x80
}

/// The octets of a big-endian number, if they are there.
pub open spec fn number_at(b: Seq<u8>, at: int, width: nat) -> Option<nat> {
    if 0 <= at && at + width <= b.len() {
        Some(bytes::be_value(b.subrange(at, at + width)))
    } else {
        None
    }
}

/// Walks over the value whose format code is `code`, or the octet at `at`, and
/// gives the place behind it and the format code that the next element of the
/// surrounding array would share. There is no such place when the octets run
/// out, when the size that a list, map or array declares cannot hold its own
/// header, or when a map holds an odd number of values.
pub open spec fn walk(b: Seq<u8>, at: int, code: Option<u8>) -> Option<(int, Option<u8>)>
    decreases b.len() - at, 0int, 0nat,
{
    if at < 0 || at > b.len() || (code is None && at == b.len()) {
        None
    } else {
        let c = match code {
            Some(c) => c,
            None => b[at],
        };
        let p = match code {
            Some(_) => at,
            None => at + 1,
        };
        if c == 0 {
            if code is Some || p >= b.len() || !names_descriptor(b[p]) {
                None
            } else {
                match walk(b, p, None) {
                    None => None,
                    Some((q, _)) => if q <= p || q > b.len() {
                        None
                    } else {
                        walk(b, q, None)
                    },
                }
            }
        } else if let Some(width) = fixed_width(c) {
            if p + width > b.len() {
                None
            } else {
                Some((p + width, code))
            }
        } else if let Some(width) = length_width(c) {
            match number_at(b, p, width) {
                None => None,
                Some(size) => if c == 0xa0 || c == 0xa1 || c == 0xa3 || c == 0xb0 || c == 0xb1 || c
                    == 0xb3 {
                    if p + width + size > b.len() {
                        None
                    } else {
                        Some((p + width + size, code))
                    }
                } else {
                    match number_at(b, p + width, width) {
                        None => None,
                        Some(count) => {
                            let q = p + 2 * width;
                            if c == 0xc0 || c == 0xd0 {
                                if size < width {
                                    None
                                } else {
                                    walk_all(b, q, None, count)
                                }
                            } else if c == 0xc1 || c == 0xd1 {
                                if size < width || count % 2 != 0 {
                                    None
                                } else {
                                    walk_all(b, q, code, count)
                                }
                            } else if count > size {
                                None
                            } else if count == 0 {
                                Some((q, None))
                            } else if size < width + 1 || q >= b.len() {
                                None
                            } else {
                                match walk_all(b, q + 1, Some(b[q]), count) {
                                    None => None,
                                    Some((r, _)) => Some((r, None)),
                                }
                            }
                        },
                    }
                },
            }
        } else {
            None
        }
    }
}

/// Walks over `n` values in a row.
pub open spec fn walk_all(b: Seq<u8>, at: int, code: Option<u8>, n: nat) -> Option<
    (int, Option<u8>),
>
    decreases b.len() - at, 1int, n,
{
    if n == 0 {
        Some((at, code))
    } else {
        match walk(b, at, code) {
            None => None,
            Some((p, next)) => if p < at || p > b.len() {
                None
            } else {
                walk_all(b, p, next, (n - 1) as nat)
            },
        }
    }
}

/// Whether `b` holds one well shaped value at its start.
pub open spec fn well_shaped(b: Seq<u8>) -> bool {
    walk(b, 0, None) is Some
}

/// A walk never leaves the octets, nor goes back.
pub proof fn walk_stays_inside(b: Seq<u8>, at: int, code: Option<u8>)
    ensures
        match walk(b, at, code) {
            Some((p, _)) => at <= p <= b.len() && (code is None ==> at < p),
            None => true,
        },
    decreases b.len() - at, 0int, 0nat,
{
    if at < 0 || at > b.len() || (code is None && at == b.len()) {
    } else {
        let c = match code {
            Some(c) => c,
            None => b[at],
        };
        let p = match code {
            Some(_) => at,
            None => at + 1,
        };
        if c == 0 {
            if code is None && p < b.len() {
                if let Some((q, _)) = walk(b, p, None) {
                    if p < q <= b.len() {
                        walk_stays_inside(b, q, None);
                    }
                }
            }
        } else if fixed_width(c) is Some {
        } else if let Some(width) = length_width(c) {
            if let Some(count) = number_at(b, p + width, width) {
                let q = p + 2 * width;
                walk_all_stays_inside(b, q, None, count);
                walk_all_stays_inside(b, q, code, count);
                if q < b.len() {
                    walk_all_stays_inside(b, q + 1, Some(b[q]), count);
                }
            }
        }
    }
}

/// Walks over several values never leave the octets, nor go back.
pub proof fn walk_all_stays_inside(b: Seq<u8>, at: int, code: Option<u8>, n: nat)
    requires
        at <= b.len(),
    ensures
        match walk_all(b, at, code, n) {
            Some((p, _)) => at <= p <= b.len(),
            None => true,
        },
    decreases b.len() - at, 1int, n,
{
    if n > 0 {
        walk_stays_inside(b, at, code);
        if let Some((p, next)) = walk(b, at, code) {
            walk_all_stays_inside(b, p, next, (n - 1) as nat);
        }
    }
}

/// The number in `width` octets, if they are there.
fn read_number(data: &[u8], at: usize, width: usize) -> (number: Option<u64>)
    requires
        at <= data@.len(),
        width == 1 || width == 4,
    ensures
        match number {
            Some(number) => number_at(data@, at as int, width as nat) == Some(number as nat)
                && at + width <= data@.len() && number <= u32::MAX,
            None => number_at(data@, at as int, width as nat) is None,
        },
{
    let total: usize = data.len();
    if total - at < width {
        return None;
    }
    proof {
        bytes::span_values();
    }
    Some(bytes::read_be(data, at, width))
}

/// Walks over the value at `at`.
fn walk_value(data: &[u8], at: usize, code: Option<u8>) -> (end: Option<(usize, Option<u8>)>)
    requires
        at <= data@.len(),
    ensures
        match end {
            Some((p, next)) => walk(data@, at as int, code) == Some((p as int, next)),
            None => walk(data@, at as int, code) is None,
        },
    decreases data@.len() - at, 0int, 0nat,
{
    let total: usize = data.len();
    let ghost b = data@;
    proof {
        walk_stays_inside(b, at as int, code);
    }
    let (c, p): (u8, usize) = match code {
        Some(c) => (c, at),
        None => {
            if at == total {
                return None;
            }
            (data[at], at + 1)
        },
    };
    if c == 0 {
        if code.is_some() || p >= total {
            return None;
        }
        let d: u8 = data[p];
        if !(d == 0xa3 || d == 0xb3 || d == 0x44 || d == 0x53 || d == 0x80) {
            return None;
        }
        proof {
            walk_stays_inside(b, p as int, None);
        }
        let (q, _) = walk_value(data, p, None)?;
        return walk_value(data, q, None);
    }
    if let Some(width) = fixed(c) {
        if total - p < width {
            return None;
        }
        return Some((p + width, code));
    }
    if let Some(width) = length(c) {
        let size: u64 = read_number(data, p, width)?;
        if c == 0xa0 || c == 0xa1 || c == 0xa3 || c == 0xb0 || c == 0xb1 || c == 0xb3 {
            let room: usize = total - p - width;
            if size > room as u64 {
                return None;
            }
            return Some((p + width + size as usize, code));
        }
        let count: u64 = read_number(data, p + width, width)?;
        let q: usize = p + 2 * width;
        if c == 0xc0 || c == 0xd0 {
            if size < width as u64 {
                return None;
            }
            return walk_values(data, q, None, count);
        }
        if c == 0xc1 || c == 0xd1 {
            if size < width as u64 || count % 2 != 0 {
                return None;
            }
            return walk_values(data, q, code, count);
        }
        if count > size {
            return None;
        }
        if count == 0 {
            return Some((q, None));
        }
        if size < width as u64 + 1 || q >= total {
            return None;
        }
        let element: u8 = data[q];
        return match walk_values(data, q + 1, Some(element), count) {
            None => None,
            Some((r, _)) => Some((r, None)),
        };
    }
    None
}

/// Walks over `count` values in a row.
#[verifier::loop_isolation(false)]
fn walk_values(data: &[u8], at: usize, code: Option<u8>, count: u64) -> (end: Option<
    (usize, Option<u8>),
>)
    requires
        at <= data@.len(),
    ensures
        match end {
            Some((p, next)) => walk_all(data@, at as int, code, count as nat) == Some(
                (p as int, next),
            ),
            None => walk_all(data@, at as int, code, count as nat) is None,
        },
    decreases data@.len() - at, 1int, 0nat,
{
    let mut p: usize = at;
    let mut next: Option<u8> = code;
    let mut left: u64 = count;
    while left > 0
        invariant
            at <= p <= data@.len(),
            left <= count,
            walk_all(data@, p as int, next, left as nat) == walk_all(
                data@,
                at as int,
                code,
                count as nat,
            ),
        decreases left,
    {
        proof {
            walk_stays_inside(data@, p as int, next);
        }
        match walk_value(data, p, next) {
            None => {
                return None;
            },
            Some((q, following)) => {
                p = q;
                next = following;
            },
        }
        left = left - 1;
    }
    Some((p, next))
}

/// Whether `data` holds one well shaped value at its start.
pub fn is_well_shaped(data: &[u8]) -> (yes: bool)
    ensures
        yes == well_shaped(data@),
{
    walk_value(data, 0, None).is_some()
}

} // verus!
