//! Text: splitting, decimal numbers and percent encoding.

use vstd::prelude::*;

use crate::bytes;

verus! {

// ---- splitting -------------------------------------------------------------

/// Where a character is first, from `i` on.
pub open spec fn position(s: Seq<char>, c: char, i: int) -> Option<int>
    decreases s.len() - i,
{
    if i < 0 || i >= s.len() {
        None
    } else if s[i] == c {
        Some(i)
    } else {
        position(s, c, i + 1)
    }
}

pub proof fn position_is_found(s: Seq<char>, c: char, i: int)
    requires
        0 <= i,
    ensures
        match position(s, c, i) {
            Some(j) => i <= j < s.len() && s[j] == c && forall|k: int| i <= k < j ==> s[k] != c,
            None => forall|k: int| i <= k < s.len() ==> s[k] != c,
        },
    decreases s.len() - i,
{
    if i < s.len() && s[i] != c {
        position_is_found(s, c, i + 1);
    }
}

/// The parts of a text between separators. There is one more than separators.
pub open spec fn split(s: Seq<char>, separator: char) -> Seq<Seq<char>>
    decreases s.len(),
{
    match position(s, separator, 0) {
        None => seq![s],
        Some(i) => if 0 <= i < s.len() {
            seq![s.take(i)] + split(s.skip(i + 1), separator)
        } else {
            seq![s]
        },
    }
}

/// Where a character is first.
#[verifier::loop_isolation(false)]
pub fn find(text: &str, c: char) -> (found: Option<usize>)
    ensures
        match found {
            Some(i) => position(text@, c, 0) == Some(i as int) && i < text@.len(),
            None => position(text@, c, 0) is None,
        },
{
    let n: usize = text.unicode_len();
    let mut i: usize = 0;
    while i < n
        invariant
            i <= n == text@.len(),
            position(text@, c, 0) == position(text@, c, i as int),
        decreases n - i,
    {
        if text.get_char(i) == c {
            return Some(i);
        }
        i = i + 1;
    }
    None
}

/// The parts of a text between separators.
#[verifier::loop_isolation(false)]
pub fn split_text(text: &str, separator: char) -> (parts: Vec<String>)
    ensures
        parts.deep_view() == split(text@, separator),
{
    let ghost whole = split(text@, separator);
    let mut parts: Vec<String> = Vec::new();
    let mut rest: &str = text;
    proof {
        assert(parts.deep_view() + split(rest@, separator) =~= whole);
    }
    loop
        invariant
            parts.deep_view() + split(rest@, separator) == whole,
        decreases rest@.len(),
    {
        let ghost before = parts.deep_view();
        let i: usize = match find(rest, separator) {
            Some(i) => i,
            None => {
                parts.push(rest.to_owned());
                proof {
                    assert(parts.deep_view() =~= before + seq![rest@]);
                }
                return parts;
            },
        };
        let n: usize = rest.unicode_len();
        let ghost left = rest@;
        parts.push(rest.substring_char(0, i).to_owned());
        rest = rest.substring_char(i + 1, n);
        proof {
            assert(left.take(i as int) =~= left.subrange(0, i as int));
            assert(left.skip(i + 1) =~= rest@);
            assert(parts.deep_view() =~= before + seq![left.take(i as int)]);
            assert(parts.deep_view() + split(rest@, separator) =~= before + (seq![
                left.take(i as int),
            ] + split(rest@, separator)));
        }
    }
}

// ---- decimal numbers -------------------------------------------------------

/// The decimal digits of a number.
pub open spec fn decimal(n: nat) -> Seq<u8>
    decreases n,
{
    if n < 10 {
        seq![(0x30 + n) as u8]
    } else {
        decimal(n / 10).push((0x30 + n % 10) as u8)
    }
}

pub open spec fn is_digit(c: char) -> bool {
    '0' <= c <= '9'
}

/// The number that decimal digits are.
pub open spec fn digits_value(s: Seq<char>) -> nat
    decreases s.len(),
{
    if s.len() == 0 {
        0
    } else {
        10 * digits_value(s.drop_last()) + (s.last() as u32 - 0x30) as nat
    }
}

/// The number that a text is, if it is nothing but digits and fits.
pub open spec fn parsed_u64(s: Seq<char>) -> Option<u64> {
    if s.len() > 0 && (forall|i: int| 0 <= i < s.len() ==> is_digit(#[trigger] s[i]))
        && digits_value(s) <= u64::MAX {
        Some(digits_value(s) as u64)
    } else {
        None
    }
}

/// More digits make no less of a number.
proof fn digits_grow(s: Seq<char>, i: int)
    requires
        0 <= i <= s.len(),
    ensures
        digits_value(s.take(i)) <= digits_value(s),
    decreases s.len() - i,
{
    if i < s.len() {
        digits_grow(s, i + 1);
        assert(s.take(i + 1).drop_last() =~= s.take(i));
    } else {
        assert(s.take(i) =~= s);
    }
}

/// The number that a text is.
#[verifier::loop_isolation(false)]
pub fn parse_u64(text: &str) -> (value: Option<u64>)
    ensures
        value == parsed_u64(text@),
{
    let ghost s = text@;
    let n: usize = text.unicode_len();
    if n == 0 {
        return None;
    }
    let mut value: u64 = 0;
    let mut fits: bool = true;
    let mut i: usize = 0;
    proof {
        assert(s.take(0) =~= Seq::<char>::empty());
    }
    while i < n
        invariant
            i <= n == s.len(),
            forall|k: int| 0 <= k < i ==> is_digit(#[trigger] s[k]),
            fits ==> value == digits_value(s.take(i as int)),
            !fits ==> digits_value(s) > u64::MAX,
        decreases n - i,
    {
        let c: char = text.get_char(i);
        if c < '0' || c > '9' {
            proof {
                assert(!is_digit(s[i as int]));
            }
            return None;
        }
        let digit: u64 = (c as u32 - 0x30) as u64;
        proof {
            assert(s.take(i + 1).drop_last() =~= s.take(i as int));
            assert(s.take(i + 1).last() == s[i as int]);
            digits_grow(s, i + 1);
        }
        if fits {
            if value > 1844674407370955161 || (value == 1844674407370955161 && digit > 5) {
                fits = false;
            } else {
                value = value * 10 + digit;
            }
        }
        i = i + 1;
    }
    proof {
        assert(s.take(n as int) =~= s);
    }
    if fits {
        Some(value)
    } else {
        None
    }
}

/// Adds the decimal digits of a number.
pub fn push_decimal(out: &mut Vec<u8>, n: u64)
    ensures
        final(out)@ == old(out)@ + decimal(n as nat),
    decreases n,
{
    let ghost before = out@;
    if n < 10 {
        out.push(0x30 + n as u8);
        proof {
            assert(out@ =~= before + decimal(n as nat));
        }
    } else {
        push_decimal(out, n / 10);
        let digit: u8 = (n % 10) as u8;
        out.push(0x30 + digit);
        proof {
            assert(out@ =~= before + decimal(n as nat));
        }
    }
}

/// Octets below 128 as text.
pub open spec fn ascii_text(b: Seq<u8>) -> Seq<char> {
    Seq::new(b.len(), |i: int| b[i] as char)
}

/// The digits of a number read back as that number.
pub proof fn decimals_read_back(n: nat)
    ensures
        digits_value(ascii_text(decimal(n))) == n,
        decimal(n).len() > 0,
        forall|i: int|
            0 <= i < decimal(n).len() ==> is_digit(#[trigger] ascii_text(decimal(n))[i]),
    decreases n,
{
    let text = ascii_text(decimal(n));
    if n < 10 {
        assert(text.drop_last() =~= Seq::<char>::empty());
        assert(text.last() as u32 == 0x30 + n);
        assert(digits_value(text.drop_last()) == 0);
    } else {
        decimals_read_back(n / 10);
        assert(text.last() as u32 == 0x30 + n % 10);
        let shorter = ascii_text(decimal(n / 10));
        assert(text.drop_last() =~= shorter);
        assert forall|i: int| 0 <= i < text.len() implies is_digit(#[trigger] text[i]) by {
            if i < shorter.len() {
                assert(text[i] == shorter[i]);
            }
        }
    }
}

// ---- percent encoding ------------------------------------------------------

pub open spec fn is_hex(b: u8) -> bool {
    0x30 <= b <= 0x39 || 0x41 <= b <= 0x46 || 0x61 <= b <= 0x66
}

pub open spec fn hex_value(b: u8) -> u8 {
    if b <= 0x39 {
        (b - 0x30) as u8
    } else if b <= 0x46 {
        (b - 0x37) as u8
    } else {
        (b - 0x57) as u8
    }
}

/// Whether `%` and two hexadecimal digits come first.
pub open spec fn is_escape(b: Seq<u8>) -> bool {
    b.len() >= 3 && b[0] == 0x25 && is_hex(b[1]) && is_hex(b[2])
}

/// What is percent-encoded: each `%` with two hexadecimal digits behind it is the
/// octet that they name, and every other octet is itself.
pub open spec fn percent_octets(b: Seq<u8>) -> Seq<u8>
    decreases b.len(),
{
    if b.len() == 0 {
        Seq::empty()
    } else if is_escape(b) {
        seq![(16 * hex_value(b[1]) + hex_value(b[2])) as u8] + percent_octets(b.skip(3))
    } else {
        seq![b[0]] + percent_octets(b.skip(1))
    }
}

/// Whether each `%` has two hexadecimal digits behind it.
pub open spec fn well_escaped(b: Seq<u8>) -> bool
    decreases b.len(),
{
    if b.len() == 0 {
        true
    } else if b[0] == 0x25 {
        is_escape(b) && well_escaped(b.skip(3))
    } else {
        well_escaped(b.skip(1))
    }
}

/// What a text is percent-encoded to be, when that is text.
pub open spec fn percent_decoded(text: Seq<char>) -> Option<Seq<char>> {
    bytes::from_utf8(percent_octets(bytes::utf8(text)))
}

fn hex_digit(b: u8) -> (yes: bool)
    ensures
        yes == is_hex(b),
{
    (0x30 <= b && b <= 0x39) || (0x41 <= b && b <= 0x46) || (0x61 <= b && b <= 0x66)
}

/// Whether each `%` has two hexadecimal digits behind it.
#[verifier::loop_isolation(false)]
pub fn is_well_escaped(text: &str) -> (yes: bool)
    ensures
        yes == well_escaped(bytes::utf8(text@)),
{
    let b = text.as_bytes();
    let ghost s = b@;
    let n: usize = b.len();
    let mut i: usize = 0;
    proof {
        assert(s.skip(0) =~= s);
    }
    while i < n
        invariant
            i <= n == s.len(),
            well_escaped(s) == well_escaped(s.skip(i as int)),
        decreases n - i,
    {
        let ghost rest = s.skip(i as int);
        if b[i] == 0x25 {
            if n - i < 3 || !hex_digit(b[i + 1]) || !hex_digit(b[i + 2]) {
                return false;
            }
            proof {
                assert(rest.skip(3) =~= s.skip(i + 3));
            }
            i = i + 3;
        } else {
            proof {
                assert(rest.skip(1) =~= s.skip(i + 1));
            }
            i = i + 1;
        }
    }
    true
}

/// `percent_encoding::percent_decode_str` with `PercentDecode::decode_utf8`: a
/// `%` with two hexadecimal digits behind it becomes the octet that they name,
/// everything else stays, and the result is refused unless it is UTF-8.
#[verifier::external_body]
pub(crate) fn percent_decode(text: &str) -> (decoded: Option<String>)
    ensures
        match decoded {
            Some(decoded) => percent_decoded(text@) == Some(decoded@),
            None => percent_decoded(text@) is None,
        },
{
    percent_encoding::percent_decode_str(text).decode_utf8().ok().map(|text| text.into_owned())
}

} // verus!
