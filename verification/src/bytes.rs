//! Byte strings: lexicographic order, big-endian integers and UTF-8 text.

use vstd::prelude::*;
use vstd::slice::slice_subrange;

verus! {

/// `a` sorts before `b` because they first part at index `i`.
pub open spec fn parts_below(a: Seq<u8>, b: Seq<u8>, i: int) -> bool {
    &&& 0 <= i <= a.len()
    &&& i < b.len()
    &&& forall|j: int| 0 <= j < i ==> a[j] == b[j]
    &&& i < a.len() ==> a[i] < b[i]
}

/// Lexicographic order of byte strings.
pub open spec fn lex_lt(a: Seq<u8>, b: Seq<u8>) -> bool {
    exists|i: int| parts_below(a, b, i)
}

pub open spec fn lex_le(a: Seq<u8>, b: Seq<u8>) -> bool {
    a == b || lex_lt(a, b)
}

/// `s` begins with `prefix`.
pub open spec fn has_prefix(s: Seq<u8>, prefix: Seq<u8>) -> bool {
    prefix.len() <= s.len() && s.subrange(0, prefix.len() as int) == prefix
}

/// `s` ends with `suffix`.
pub open spec fn has_suffix(s: Seq<u8>, suffix: Seq<u8>) -> bool {
    suffix.len() <= s.len() && s.subrange(s.len() - suffix.len(), s.len() as int) == suffix
}

/// `part` occurs in `s` at index `at`.
pub open spec fn occurs_at(s: Seq<u8>, part: Seq<u8>, at: int) -> bool {
    0 <= at && at + part.len() <= s.len() && s.subrange(at, at + part.len()) == part
}

/// `part` occurs somewhere in `s`.
pub open spec fn has_part(s: Seq<u8>, part: Seq<u8>) -> bool {
    exists|at: int| occurs_at(s, part, at)
}

/// The order is strict: nothing sorts before itself.
pub proof fn lex_irreflexive(a: Seq<u8>)
    ensures
        !lex_lt(a, a),
{
}

/// The order is transitive.
pub proof fn lex_transitive(a: Seq<u8>, b: Seq<u8>, c: Seq<u8>)
    requires
        lex_lt(a, b),
        lex_lt(b, c),
    ensures
        lex_lt(a, c),
{
    let i = choose|i: int| parts_below(a, b, i);
    let k = choose|k: int| parts_below(b, c, k);
    let m = if i < k { i } else { k };
    assert(parts_below(a, c, m));
}

/// The order is total: two byte strings are equal or one sorts before the other.
pub proof fn lex_total(a: Seq<u8>, b: Seq<u8>)
    ensures
        a == b || lex_lt(a, b) || lex_lt(b, a),
{
    lex_total_from(a, b, 0);
}

proof fn lex_total_from(a: Seq<u8>, b: Seq<u8>, i: int)
    requires
        0 <= i <= a.len(),
        i <= b.len(),
        forall|j: int| 0 <= j < i ==> a[j] == b[j],
    ensures
        a == b || lex_lt(a, b) || lex_lt(b, a),
    decreases a.len() - i,
{
    if i < a.len() && i < b.len() && a[i] == b[i] {
        lex_total_from(a, b, i + 1);
    } else if i == a.len() && i == b.len() {
        assert(a =~= b);
    } else if i < b.len() && (i == a.len() || a[i] < b[i]) {
        assert(parts_below(a, b, i));
    } else {
        assert(parts_below(b, a, i));
    }
}

/// The order is asymmetric.
pub proof fn lex_asymmetric(a: Seq<u8>, b: Seq<u8>)
    requires
        lex_lt(a, b),
    ensures
        !lex_lt(b, a),
        a != b,
{
    if lex_lt(b, a) {
        lex_transitive(a, b, a);
    }
    lex_irreflexive(a);
}

/// A common prefix does not change the order.
pub proof fn lex_after_prefix(p: Seq<u8>, a: Seq<u8>, b: Seq<u8>)
    ensures
        lex_lt(p + a, p + b) <==> lex_lt(a, b),
{
    if lex_lt(a, b) {
        let i = choose|i: int| parts_below(a, b, i);
        assert(parts_below(p + a, p + b, p.len() + i));
    }
    if lex_lt(p + a, p + b) {
        let i = choose|i: int| parts_below(p + a, p + b, i);
        if i < p.len() {
            assert((p + a)[i] == (p + b)[i]);
        }
        assert forall|j: int| 0 <= j < i - p.len() implies a[j] == b[j] by {
            assert((p + a)[p.len() + j] == (p + b)[p.len() + j]);
        }
        assert(parts_below(a, b, i - p.len()));
    }
}

/// The first `n` big-endian base 256 digits of `x`.
pub open spec fn be(x: nat, n: nat) -> Seq<u8>
    decreases n,
{
    if n == 0 {
        Seq::empty()
    } else {
        be(x / 256, (n - 1) as nat).push((x % 256) as u8)
    }
}

/// The number whose big-endian base 256 digits are `s`.
pub open spec fn be_value(s: Seq<u8>) -> nat
    decreases s.len(),
{
    if s.len() == 0 {
        0
    } else {
        be_value(s.drop_last()) * 256 + s.last() as nat
    }
}

/// How many numbers `n` base 256 digits can tell apart.
pub open spec fn span(n: nat) -> nat
    decreases n,
{
    if n == 0 {
        1
    } else {
        256 * span((n - 1) as nat)
    }
}

pub proof fn be_len(x: nat, n: nat)
    ensures
        be(x, n).len() == n,
    decreases n,
{
    if n > 0 {
        be_len(x / 256, (n - 1) as nat);
    }
}

/// Digits read back as the number they were written from.
pub proof fn be_round_trip(x: nat, n: nat)
    requires
        x < span(n),
    ensures
        be_value(be(x, n)) == x,
    decreases n,
{
    if n > 0 {
        be_round_trip(x / 256, (n - 1) as nat);
        assert(be(x, n).drop_last() =~= be(x / 256, (n - 1) as nat));
    }
}

/// A number written back gives the digits it was read from.
pub proof fn be_value_round_trip(s: Seq<u8>)
    ensures
        be_value(s) < span(s.len()),
        be(be_value(s), s.len()) == s,
    decreases s.len(),
{
    if s.len() > 0 {
        be_value_round_trip(s.drop_last());
        assert(be(be_value(s), s.len()) =~= s);
    } else {
        assert(be(be_value(s), s.len()) =~= s);
    }
}

/// Big-endian digits of equal length sort as the numbers they write.
pub proof fn be_order(x: nat, y: nat, n: nat)
    requires
        x < span(n),
        y < span(n),
    ensures
        lex_lt(be(x, n), be(y, n)) <==> x < y,
    decreases n,
{
    be_len(x, n);
    be_len(y, n);
    if n > 0 {
        let m = (n - 1) as nat;
        be_order(x / 256, y / 256, m);
        be_len(x / 256, m);
        be_len(y / 256, m);
        let a = be(x / 256, m);
        let b = be(y / 256, m);
        if x / 256 < y / 256 {
            let i = choose|i: int| parts_below(a, b, i);
            assert(parts_below(be(x, n), be(y, n), i));
        } else if x / 256 == y / 256 {
            if x < y {
                assert(parts_below(be(x, n), be(y, n), m as int));
            } else if lex_lt(be(x, n), be(y, n)) {
                let i = choose|i: int| parts_below(be(x, n), be(y, n), i);
                assert(a[i] == b[i] || i == m);
            }
        } else {
            be_order(y / 256, x / 256, m);
            let i = choose|i: int| parts_below(b, a, i);
            assert(parts_below(be(y, n), be(x, n), i));
            lex_asymmetric(be(y, n), be(x, n));
        }
    } else {
        lex_irreflexive(be(x, n));
        assert(be(x, n) =~= be(y, n));
    }
}

pub proof fn span_values()
    ensures
        span(1) == 0x100,
        span(2) == 0x1_0000,
        span(3) == 0x100_0000,
        span(4) == 0x1_0000_0000,
        span(8) == 0x1_0000_0000_0000_0000,
{
    reveal_with_fuel(span, 9);
}

/// Appends `value` as eight big-endian bytes.
pub fn push_be64(out: &mut Vec<u8>, value: u64)
    ensures
        final(out)@ == old(out)@ + be(value as nat, 8),
{
    let ghost start = out@;
    out.push((value / 0x100_0000_0000_0000) as u8);
    out.push(((value / 0x1_0000_0000_0000) % 256) as u8);
    out.push(((value / 0x100_0000_0000) % 256) as u8);
    out.push(((value / 0x1_0000_0000) % 256) as u8);
    out.push(((value / 0x100_0000) % 256) as u8);
    out.push(((value / 0x1_0000) % 256) as u8);
    out.push(((value / 0x100) % 256) as u8);
    out.push((value % 256) as u8);
    proof {
        reveal_with_fuel(be, 9);
        let x = value as nat;
        assert(x / 256 / 256 == x / 0x1_0000);
        assert(x / 0x1_0000 / 256 == x / 0x100_0000);
        assert(x / 0x100_0000 / 256 == x / 0x1_0000_0000);
        assert(x / 0x1_0000_0000 / 256 == x / 0x100_0000_0000);
        assert(x / 0x100_0000_0000 / 256 == x / 0x1_0000_0000_0000);
        assert(x / 0x1_0000_0000_0000 / 256 == x / 0x100_0000_0000_0000);
        assert(out@ =~= start + be(x, 8));
    }
}

/// Appends `value` as four big-endian bytes.
pub fn push_be32(out: &mut Vec<u8>, value: u32)
    ensures
        final(out)@ == old(out)@ + be(value as nat, 4),
{
    let ghost start = out@;
    out.push((value / 0x100_0000) as u8);
    out.push(((value / 0x1_0000) % 256) as u8);
    out.push(((value / 0x100) % 256) as u8);
    out.push((value % 256) as u8);
    proof {
        reveal_with_fuel(be, 5);
        let x = value as nat;
        assert(x / 256 / 256 == x / 0x1_0000);
        assert(x / 0x1_0000 / 256 == x / 0x100_0000);
        assert(out@ =~= start + be(x, 4));
    }
}

/// Reads the big-endian number written in `bytes[from..from + n]`.
pub fn read_be(bytes: &[u8], from: usize, n: usize) -> (value: u64)
    requires
        from + n <= bytes@.len(),
        n <= 8,
    ensures
        value as nat == be_value(bytes@.subrange(from as int, from + n)),
        value < span(n as nat),
{
    let total: usize = bytes.len();
    let mut value: u64 = 0;
    let mut i: usize = 0;
    proof {
        assert(bytes@.subrange(from as int, from as int) =~= Seq::<u8>::empty());
        span_values();
        reveal_with_fuel(span, 9);
    }
    while i < n
        invariant
            i <= n <= 8,
            total == bytes@.len(),
            from + n <= total,
            value as nat == be_value(bytes@.subrange(from as int, from + i)),
            value < span(i as nat),
        decreases n - i,
    {
        proof {
            reveal_with_fuel(span, 9);
            assert(bytes@.subrange(from as int, from + i + 1).drop_last() =~= bytes@.subrange(
                from as int,
                from + i,
            ));
        }
        value = value * 256 + bytes[from + i] as u64;
        i = i + 1;
    }
    value
}

/// Whether `a` sorts before `b`.
pub fn sorts_below(a: &[u8], b: &[u8]) -> (below: bool)
    ensures
        below == lex_lt(a@, b@),
{
    let mut i: usize = 0;
    while i < a.len() && i < b.len() && a[i] == b[i]
        invariant
            i <= a@.len(),
            i <= b@.len(),
            forall|j: int| 0 <= j < i ==> a@[j] == b@[j],
        decreases a@.len() - i,
    {
        i = i + 1;
    }
    if i < b.len() && (i == a.len() || a[i] < b[i]) {
        proof {
            assert(parts_below(a@, b@, i as int));
        }
        true
    } else {
        proof {
            if i < a@.len() && i < b@.len() {
                assert(parts_below(b@, a@, i as int));
                lex_asymmetric(b@, a@);
            } else if i < a@.len() {
                assert(parts_below(b@, a@, i as int));
                lex_asymmetric(b@, a@);
            } else {
                assert(a@ =~= b@);
            }
        }
        false
    }
}

/// Whether two byte strings are equal.
pub fn same_bytes(a: &[u8], b: &[u8]) -> (same: bool)
    ensures
        same == (a@ == b@),
{
    if a.len() != b.len() {
        return false;
    }
    let mut i: usize = 0;
    while i < a.len()
        invariant
            i <= a@.len(),
            a@.len() == b@.len(),
            forall|j: int| 0 <= j < i ==> a@[j] == b@[j],
        decreases a@.len() - i,
    {
        if a[i] != b[i] {
            return false;
        }
        i = i + 1;
    }
    assert(a@ =~= b@);
    true
}

/// Whether `s` begins with `prefix`.
pub fn starts_with(s: &[u8], prefix: &[u8]) -> (starts: bool)
    ensures
        starts == has_prefix(s@, prefix@),
{
    prefix.len() <= s.len() && same_bytes(slice_subrange(s, 0, prefix.len()), prefix)
}

/// Whether `s` ends with `suffix`.
pub fn ends_with(s: &[u8], suffix: &[u8]) -> (ends: bool)
    ensures
        ends == has_suffix(s@, suffix@),
{
    suffix.len() <= s.len() && same_bytes(
        slice_subrange(s, s.len() - suffix.len(), s.len()),
        suffix,
    )
}

/// Whether `part` occurs in `s`.
pub fn contains(s: &[u8], part: &[u8]) -> (found: bool)
    ensures
        found == has_part(s@, part@),
{
    if part.len() > s.len() {
        return false;
    }
    let mut at: usize = 0;
    while at <= s.len() - part.len()
        invariant
            part@.len() <= s@.len(),
            at <= s@.len() - part@.len() + 1,
            forall|j: int| 0 <= j < at ==> !occurs_at(s@, part@, j),
        decreases s@.len() - at,
    {
        if same_bytes(slice_subrange(s, at, at + part.len()), part) {
            proof {
                assert(occurs_at(s@, part@, at as int));
            }
            return true;
        }
        if at == s.len() - part.len() {
            proof {
                assert forall|j: int| !occurs_at(s@, part@, j) by {
                    if 0 <= j < at {
                    }
                }
            }
            return false;
        }
        at = at + 1;
    }
    false
}

/// The index of the first `byte` in `s` at or after `from`.
pub fn find_byte(s: &[u8], from: usize, byte: u8) -> (found: Option<usize>)
    requires
        from <= s@.len(),
    ensures
        match found {
            Some(i) => from <= i < s@.len() && s@[i as int] == byte && (forall|j: int|
                from <= j < i ==> s@[j] != byte),
            None => forall|j: int| from <= j < s@.len() ==> s@[j] != byte,
        },
{
    let mut i: usize = from;
    while i < s.len()
        invariant
            from <= i <= s@.len(),
            forall|j: int| from <= j < i ==> s@[j] != byte,
        decreases s@.len() - i,
    {
        if s[i] == byte {
            return Some(i);
        }
        i = i + 1;
    }
    None
}

/// A copy of `s`.
pub fn copy_bytes(s: &[u8]) -> (copy: Vec<u8>)
    ensures
        copy@ == s@,
{
    let mut copy: Vec<u8> = Vec::new();
    append(&mut copy, s);
    proof {
        assert(copy@ =~= s@);
    }
    copy
}

/// Appends `s` to `out`.
pub fn append(out: &mut Vec<u8>, s: &[u8])
    ensures
        final(out)@ == old(out)@ + s@,
{
    out.extend_from_slice(s);
}

/// The byte `b` with an ASCII upper-case letter folded to lower case.
pub open spec fn fold_byte(b: u8) -> u8 {
    if 0x41 <= b <= 0x5A {
        (b + 0x20) as u8
    } else {
        b
    }
}

/// The bytes `s` with ASCII upper-case letters folded to lower case.
pub open spec fn fold(s: Seq<u8>) -> Seq<u8> {
    s.map_values(|b: u8| fold_byte(b))
}

/// A copy of `s` with ASCII upper-case letters folded to lower case.
pub fn fold_bytes(s: &[u8]) -> (folded: Vec<u8>)
    ensures
        folded@ == fold(s@),
{
    let mut folded: Vec<u8> = Vec::new();
    let mut i: usize = 0;
    while i < s.len()
        invariant
            i <= s@.len(),
            folded@ =~= fold(s@.subrange(0, i as int)),
        decreases s@.len() - i,
    {
        let b: u8 = s[i];
        if 0x41 <= b && b <= 0x5A {
            folded.push(b + 0x20);
        } else {
            folded.push(b);
        }
        i = i + 1;
        proof {
            assert(folded@ =~= fold(s@.subrange(0, i as int)));
        }
    }
    proof {
        assert(s@.subrange(0, i as int) =~= s@);
    }
    folded
}

/// The character `c` with an ASCII upper-case letter folded to lower case.
pub open spec fn fold_char(c: char) -> char {
    if 0x41 <= c as u32 <= 0x5A {
        ((c as u32 + 0x20) as u32) as char
    } else {
        c
    }
}

/// The text `s` with ASCII upper-case letters folded to lower case.
pub open spec fn fold_text(s: Seq<char>) -> Seq<char> {
    s.map_values(|c: char| fold_char(c))
}

/// The UTF-8 encoding of `text`.
pub open spec fn utf8(text: Seq<char>) -> Seq<u8> {
    vstd::utf8::encode_utf8(text)
}

/// The text whose UTF-8 encoding is `bytes`, when there is one.
pub open spec fn from_utf8(bytes: Seq<u8>) -> Option<Seq<char>> {
    if vstd::utf8::valid_utf8(bytes) {
        Some(vstd::utf8::decode_utf8(bytes))
    } else {
        None
    }
}

/// Text reads back out of its own encoding.
pub proof fn utf8_round_trip(text: Seq<char>)
    ensures
        from_utf8(utf8(text)) == Some(text),
{
    vstd::utf8::encode_utf8_valid_utf8(text);
    vstd::utf8::encode_utf8_decode_utf8(text);
}

/// Text is determined by its encoding.
pub proof fn utf8_injective(a: Seq<char>, b: Seq<char>)
    requires
        utf8(a) == utf8(b),
    ensures
        a == b,
{
    utf8_round_trip(a);
    utf8_round_trip(b);
}

/// Texts are encoded one behind the other.
pub proof fn utf8_joins(a: Seq<char>, b: Seq<char>)
    ensures
        utf8(a + b) == utf8(a) + utf8(b),
    decreases a.len(),
{
    if a.len() == 0 {
        assert(a + b =~= b);
        assert(utf8(a) + utf8(b) =~= utf8(b));
    } else {
        assert((a + b).drop_first() =~= a.drop_first() + b);
        utf8_joins(a.drop_first(), b);
        assert(utf8(a + b) =~= utf8(a) + utf8(b));
    }
}

/// Text in ASCII without upper-case letters is encoded in octets that fold to
/// themselves.
pub proof fn lower_case_is_folded(text: Seq<char>)
    requires
        forall|i: int|
            0 <= i < text.len() ==> {
                let c = #[trigger] text[i] as u32;
                c <= 0x7F && !(0x41 <= c <= 0x5A)
            },
    ensures
        fold(utf8(text)) == utf8(text),
    decreases text.len(),
{
    if text.len() > 0 {
        let rest = text.drop_first();
        assert forall|i: int| 0 <= i < rest.len() implies {
            let c = #[trigger] rest[i] as u32;
            c <= 0x7F && !(0x41 <= c <= 0x5A)
        } by {
            assert(rest[i] == text[i + 1]);
        }
        lower_case_is_folded(rest);
        let c = text[0] as u32;
        assert(c <= 0x7F ==> (c & 0x7F) as u8 == c) by (bit_vector);
        assert(utf8(text) =~= seq![c as u8] + utf8(rest));
        assert(fold(utf8(text)) =~= utf8(text)) by {
            assert forall|i: int| 0 <= i < utf8(text).len() implies fold(utf8(text))[i] == utf8(
                text,
            )[i] by {
                if i > 0 {
                    assert(utf8(text)[i] == utf8(rest)[i - 1]);
                    assert(fold(utf8(rest))[i - 1] == utf8(rest)[i - 1]);
                }
            }
        }
    }
}

/// The text in `bytes`, when they are valid UTF-8.
pub fn read_text(bytes: &[u8]) -> (text: Option<&str>)
    ensures
        match text {
            Some(text) => from_utf8(bytes@) == Some(text@),
            None => from_utf8(bytes@) is None,
        },
{
    let text = text_from_utf8(bytes);
    proof {
        if text is Some {
            utf8_round_trip(text->Some_0@);
        }
    }
    text
}

/// Folding the octets of a character is folding the character.
proof fn scalars_fold(c: char)
    ensures
        fold(vstd::utf8::encode_scalar(c as u32)) == vstd::utf8::encode_scalar(
            fold_char(c) as u32,
        ),
{
    let x = c as u32;
    assert(x <= 0x7F ==> (x & 0x7F) as u8 == x) by (bit_vector);
    let y = fold_char(c) as u32;
    assert(y <= 0x7F ==> (y & 0x7F) as u8 == y) by (bit_vector);
    assert(0xC0u8 | ((x >> 6) & 0x1F) as u8 >= 0x80) by (bit_vector);
    assert(0xE0u8 | ((x >> 12) & 0x0F) as u8 >= 0x80) by (bit_vector);
    assert(0xF0u8 | ((x >> 18) & 0x7) as u8 >= 0x80) by (bit_vector);
    assert(0x80u8 | (x & 0x3F) as u8 >= 0x80) by (bit_vector);
    assert(0x80u8 | ((x >> 6) & 0x3F) as u8 >= 0x80) by (bit_vector);
    assert(0x80u8 | ((x >> 12) & 0x3F) as u8 >= 0x80) by (bit_vector);
    if 0x41 <= x <= 0x5A {
        assert(y == x + 0x20);
    }
    assert(fold(vstd::utf8::encode_scalar(x)) =~= vstd::utf8::encode_scalar(y));
}

/// Folding the octets of a text is folding the text.
pub proof fn texts_fold(text: Seq<char>)
    ensures
        fold(utf8(text)) == utf8(fold_text(text)),
    decreases text.len(),
{
    if text.len() > 0 {
        let rest = text.drop_first();
        let first = vstd::utf8::encode_scalar(text[0] as u32);
        texts_fold(rest);
        scalars_fold(text[0]);
        assert(fold_text(text).drop_first() =~= fold_text(rest));
        assert(fold(first + utf8(rest)) =~= fold(first) + fold(utf8(rest)));
    } else {
        assert(fold_text(text) =~= text);
        assert(fold(utf8(text)) =~= utf8(text));
    }
}

/// The text with its ASCII upper-case letters folded to lower case.
pub(crate) fn ascii_lowercase(text: &str) -> (folded: String)
    ensures
        folded@ == fold_text(text@),
{
    let folded = fold_bytes(text.as_bytes());
    proof {
        texts_fold(text@);
        utf8_round_trip(fold_text(text@));
    }
    match read_text(folded.as_slice()) {
        Some(folded) => folded.to_owned(),
        // Folded text is text.
        None => String::new(),
    }
}

/// Whether two texts are equal.
pub fn same_text(a: &str, b: &str) -> (same: bool)
    ensures
        same == (a@ == b@),
{
    let same = same_bytes(a.as_bytes(), b.as_bytes());
    proof {
        if utf8(a@) == utf8(b@) {
            utf8_injective(a@, b@);
        }
    }
    same
}

/// `std::str::from_utf8`: the text whose UTF-8 encoding is `bytes`, or nothing
/// when `bytes` is not valid UTF-8.
#[verifier::external_body]
pub(crate) fn text_from_utf8(bytes: &[u8]) -> (text: Option<&str>)
    ensures
        text is Some <==> vstd::utf8::valid_utf8(bytes@),
        text is Some ==> utf8(text->Some_0@) == bytes@,
{
    std::str::from_utf8(bytes).ok()
}

} // verus!
