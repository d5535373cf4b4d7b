//! How keys sort, and how they stay apart.

use vstd::prelude::*;

use crate::bytes;
use crate::domain::identifier;
use crate::domain::keys;
use crate::domain::keys::SEPARATOR;
use crate::domain::message::SequenceNumber;
use crate::domain::time::Timestamp;

verus! {

/// Whether a text holds no control character, as no identifier does.
pub open spec fn clean(text: Seq<char>) -> bool {
    forall|i: int| 0 <= i < text.len() ==> !identifier::is_control(#[trigger] text[i])
}

/// Whether no octet is a control character of ASCII.
pub open spec fn plain(b: Seq<u8>) -> bool {
    forall|i: int| 0 <= i < b.len() ==> #[trigger] b[i] >= 0x20
}

proof fn scalars_are_plain(c: u32)
    requires
        c >= 0x20,
    ensures
        plain(vstd::utf8::encode_scalar(c)),
{
    assert(c <= 0x7f && c >= 0x20 ==> (c & 0x7f) as u8 >= 0x20) by (bit_vector);
    assert(0xC0u8 | ((c >> 6) & 0x1F) as u8 >= 0x20) by (bit_vector);
    assert(0xE0u8 | ((c >> 12) & 0x0F) as u8 >= 0x20) by (bit_vector);
    assert(0xF0u8 | ((c >> 18) & 0x7) as u8 >= 0x20) by (bit_vector);
    assert(0x80u8 | (c & 0x3F) as u8 >= 0x20) by (bit_vector);
    assert(0x80u8 | ((c >> 6) & 0x3F) as u8 >= 0x20) by (bit_vector);
    assert(0x80u8 | ((c >> 12) & 0x3F) as u8 >= 0x20) by (bit_vector);
}

/// The encoding of a text without control characters holds no separator.
pub proof fn clean_text_is_plain(text: Seq<char>)
    requires
        clean(text),
    ensures
        plain(bytes::utf8(text)),
    decreases text.len(),
{
    if text.len() > 0 {
        let rest = text.drop_first();
        assert forall|i: int| 0 <= i < rest.len() implies !identifier::is_control(
            #[trigger] rest[i],
        ) by {
            assert(rest[i] == text[i + 1]);
        }
        clean_text_is_plain(rest);
        assert(!identifier::is_control(text[0]));
        scalars_are_plain(text[0] as u32);
    }
}

// ---- reading back ----------------------------------------------------------

/// A sequence number reads back out of the end of a key.
pub proof fn sequences_read_back(key: Seq<u8>, sequence: SequenceNumber)
    ensures
        keys::last_sequence(keys::numbered(key, sequence.0)) == Some(sequence),
{
    let whole = keys::numbered(key, sequence.0);
    bytes::be_len(sequence.0 as nat, 8);
    bytes::span_values();
    bytes::be_round_trip(sequence.0 as nat, 8);
    assert(whole.subrange(whole.len() - 8, whole.len() as int) =~= bytes::be(
        sequence.0 as nat,
        8,
    ));
}

/// A deadline and a sequence number read back out of the end of a key.
pub proof fn deadlines_read_back(key: Seq<u8>, deadline: Timestamp, sequence: SequenceNumber)
    ensures
        keys::last_deadline(keys::numbered(keys::numbered(key, deadline.0), sequence.0)) == Some(
            (deadline, sequence),
        ),
{
    let inner = keys::numbered(key, deadline.0);
    let whole = keys::numbered(inner, sequence.0);
    sequences_read_back(inner, sequence);
    bytes::be_len(sequence.0 as nat, 8);
    bytes::be_len(deadline.0 as nat, 8);
    bytes::span_values();
    bytes::be_round_trip(deadline.0 as nat, 8);
    assert(whole.subrange(whole.len() - 16, whole.len() - 8) =~= bytes::be(deadline.0 as nat, 8));
}

/// A deadline and a text read back from behind a prefix, whatever the text is.
pub proof fn texts_read_back(prefix: Seq<u8>, deadline: Timestamp, text: Seq<char>)
    ensures
        keys::deadline_and_text(
            prefix,
            keys::numbered(prefix, deadline.0) + bytes::utf8(text),
        ) == Some((deadline, text)),
{
    let whole = keys::numbered(prefix, deadline.0) + bytes::utf8(text);
    let from = prefix.len() as int;
    bytes::be_len(deadline.0 as nat, 8);
    bytes::span_values();
    bytes::be_round_trip(deadline.0 as nat, 8);
    bytes::utf8_round_trip(text);
    assert(whole.subrange(from, from + 8) =~= bytes::be(deadline.0 as nat, 8));
    assert(whole.subrange(from + 8, whole.len() as int) =~= bytes::utf8(text));
}

proof fn segments_read_back(before: Seq<u8>, text: Seq<char>, rest: Seq<u8>)
    requires
        clean(text),
    ensures
        keys::segment(before + bytes::utf8(text) + seq![SEPARATOR] + rest, before.len() as int)
            == Some((text, (before.len() + bytes::utf8(text).len()) as int)),
{
    let whole = before + bytes::utf8(text) + seq![SEPARATOR] + rest;
    let from = before.len() as int;
    let end = (before.len() + bytes::utf8(text).len()) as int;
    clean_text_is_plain(text);
    bytes::utf8_round_trip(text);
    assert(keys::separator_at(whole, from, end)) by {
        assert forall|j: int| from <= j < end implies whole[j] != SEPARATOR by {
            assert(whole[j] == bytes::utf8(text)[j - from]);
        }
    }
    let found = choose|other: int| keys::separator_at(whole, from, other);
    assert(found == end) by {
        if found < end {
            assert(whole[found] != SEPARATOR);
        }
        if end < found {
            assert(whole[end] != SEPARATOR);
        }
    }
    assert(whole.subrange(from, end) =~= bytes::utf8(text));
}

/// The namespace and the entity of a key read back, whatever follows them.
pub proof fn scopes_read_back(tag: u8, namespace: Seq<char>, entity: Seq<char>, rest: Seq<u8>)
    requires
        clean(namespace),
        clean(entity),
    ensures
        keys::scope_parts(keys::scope_key(tag, namespace, entity) + rest) == Some(
            (namespace, entity),
        ),
{
    let whole = keys::scope_key(tag, namespace, entity) + rest;
    let n = bytes::utf8(namespace);
    let e = bytes::utf8(entity);
    segments_read_back(seq![tag], namespace, e + seq![SEPARATOR] + rest);
    assert(whole =~= seq![tag] + n + seq![SEPARATOR] + (e + seq![SEPARATOR] + rest));
    segments_read_back(seq![tag] + n + seq![SEPARATOR], entity, rest);
    assert(whole =~= (seq![tag] + n + seq![SEPARATOR]) + e + seq![SEPARATOR] + rest);
}

/// The session of a key reads back from behind its entity's prefix.
pub proof fn sessions_read_back(prefix: Seq<u8>, session_id: Seq<char>, rest: Seq<u8>)
    requires
        clean(session_id),
    ensures
        keys::session_after(
            prefix,
            prefix + bytes::utf8(session_id) + seq![SEPARATOR] + rest,
        ) == Some(session_id),
{
    segments_read_back(prefix, session_id, rest);
}

// ---- staying apart ---------------------------------------------------------

/// What ends at a separator ends there alone.
pub(crate) proof fn separated(a: Seq<u8>, b: Seq<u8>, rest: Seq<u8>)
    requires
        plain(a),
        plain(b),
        bytes::has_prefix(b + seq![SEPARATOR] + rest, a + seq![SEPARATOR]),
    ensures
        a == b,
{
    let longer = b + seq![SEPARATOR] + rest;
    let shorter = a + seq![SEPARATOR];
    assert forall|i: int| 0 <= i < shorter.len() implies shorter[i] == longer[i] by {
        assert(longer.subrange(0, shorter.len() as int)[i] == shorter[i]);
    }
    if a.len() < b.len() {
        assert(shorter[a.len() as int] == SEPARATOR);
        assert(longer[a.len() as int] == b[a.len() as int]);
    }
    if b.len() < a.len() {
        assert(longer[b.len() as int] == SEPARATOR);
        assert(shorter[b.len() as int] == a[b.len() as int]);
    }
    assert forall|i: int| 0 <= i < a.len() implies a[i] == b[i] by {
        assert(shorter[i] == longer[i]);
    }
    assert(a =~= b);
}

/// A key lies under the prefix of one kind, one namespace and one entity. No
/// name is a prefix of another here, however similar they are.
pub proof fn a_key_lies_in_one_scope(
    tag: u8,
    namespace: Seq<char>,
    entity: Seq<char>,
    other_tag: u8,
    other_namespace: Seq<char>,
    other_entity: Seq<char>,
    rest: Seq<u8>,
)
    requires
        clean(namespace),
        clean(entity),
        clean(other_namespace),
        clean(other_entity),
        bytes::has_prefix(
            keys::scope_key(other_tag, other_namespace, other_entity) + rest,
            keys::scope_key(tag, namespace, entity),
        ),
    ensures
        tag == other_tag,
        namespace == other_namespace,
        entity == other_entity,
{
    let p = keys::scope_key(tag, namespace, entity);
    let k = keys::scope_key(other_tag, other_namespace, other_entity) + rest;
    let n = bytes::utf8(namespace);
    let e = bytes::utf8(entity);
    let on = bytes::utf8(other_namespace);
    let oe = bytes::utf8(other_entity);
    assert forall|i: int| 0 <= i < p.len() implies p[i] == k[i] by {
        assert(k.subrange(0, p.len() as int)[i] == p[i]);
    }
    assert(p[0] == tag && k[0] == other_tag);
    clean_text_is_plain(namespace);
    clean_text_is_plain(entity);
    clean_text_is_plain(other_namespace);
    clean_text_is_plain(other_entity);
    let tail = on + seq![SEPARATOR] + (oe + seq![SEPARATOR] + rest);
    assert(k =~= seq![other_tag] + tail);
    assert(bytes::has_prefix(tail, n + seq![SEPARATOR])) by {
        assert forall|i: int| 0 <= i < n.len() + 1 implies tail[i] == (n + seq![SEPARATOR])[i] by {
            assert(p[i + 1] == k[i + 1]);
        }
        assert(tail.subrange(0, (n.len() + 1) as int) =~= n + seq![SEPARATOR]);
    }
    separated(n, on, oe + seq![SEPARATOR] + rest);
    let end = oe + seq![SEPARATOR] + rest;
    let at = 1 + n.len() + 1;
    assert(bytes::has_prefix(end, e + seq![SEPARATOR])) by {
        assert forall|i: int| 0 <= i < e.len() + 1 implies end[i] == (e + seq![SEPARATOR])[i] by {
            assert(p[at + i] == k[at + i]);
            assert(k[at + i] == end[i]);
        }
        assert(end.subrange(0, (e.len() + 1) as int) =~= e + seq![SEPARATOR]);
    }
    separated(e, oe, rest);
    bytes::utf8_injective(namespace, other_namespace);
    bytes::utf8_injective(entity, other_entity);
}

/// An identifier is remembered under a key of its own: no two queues and no two
/// identifiers share one, whatever the identifiers hold.
pub proof fn remembered_identifiers_share_no_key(
    namespace: Seq<char>,
    entity: Seq<char>,
    message_id: Seq<char>,
    other_namespace: Seq<char>,
    other_entity: Seq<char>,
    other_id: Seq<char>,
)
    requires
        clean(namespace),
        clean(entity),
        clean(other_namespace),
        clean(other_entity),
        keys::duplicate_id_key(namespace, entity, message_id) == keys::duplicate_id_key(
            other_namespace,
            other_entity,
            other_id,
        ),
    ensures
        namespace == other_namespace,
        entity == other_entity,
        message_id == other_id,
{
    let tag = keys::TAG_DUPLICATE_ID;
    let scope = keys::scope_key(tag, namespace, entity);
    let key = keys::duplicate_id_key(namespace, entity, message_id);
    assert(key.subrange(0, scope.len() as int) =~= scope);
    a_key_lies_in_one_scope(
        tag,
        namespace,
        entity,
        tag,
        other_namespace,
        other_entity,
        bytes::utf8(other_id),
    );
    let end = scope.len() as int;
    assert(key.skip(end) =~= bytes::utf8(message_id));
    assert(key.skip(end) =~= bytes::utf8(other_id));
    bytes::utf8_injective(message_id, other_id);
}

/// A session's entries lie under its own prefix alone.
pub proof fn a_session_entry_lies_in_one_session(
    namespace: Seq<char>,
    entity: Seq<char>,
    session_id: Seq<char>,
    other: Seq<char>,
    rest: Seq<u8>,
)
    requires
        clean(session_id),
        clean(other),
        bytes::has_prefix(
            keys::session_ready_prefix_key(namespace, entity, other) + rest,
            keys::session_ready_prefix_key(namespace, entity, session_id),
        ),
    ensures
        session_id == other,
{
    let scope = keys::entity_session_ready_prefix_key(namespace, entity);
    let p = keys::session_ready_prefix_key(namespace, entity, session_id);
    let k = keys::session_ready_prefix_key(namespace, entity, other) + rest;
    let s = bytes::utf8(session_id);
    let o = bytes::utf8(other);
    clean_text_is_plain(session_id);
    clean_text_is_plain(other);
    let end = o + seq![SEPARATOR] + rest;
    assert(k =~= scope + end);
    assert(bytes::has_prefix(end, s + seq![SEPARATOR])) by {
        assert forall|i: int| 0 <= i < s.len() + 1 implies end[i] == (s + seq![SEPARATOR])[i] by {
            assert(k.subrange(0, p.len() as int)[scope.len() + i] == p[scope.len() + i]);
        }
        assert(end.subrange(0, (s.len() + 1) as int) =~= s + seq![SEPARATOR]);
    }
    separated(s, o, rest);
    bytes::utf8_injective(session_id, other);
}

// ---- order -----------------------------------------------------------------

/// Keys under one prefix sort as the numbers behind it.
pub proof fn numbers_sort(prefix: Seq<u8>, a: u64, b: u64)
    ensures
        bytes::lex_lt(keys::numbered(prefix, a), keys::numbered(prefix, b)) <==> a < b,
{
    bytes::span_values();
    bytes::lex_after_prefix(prefix, bytes::be(a as nat, 8), bytes::be(b as nat, 8));
    bytes::be_order(a as nat, b as nat, 8);
}

/// Ready messages sort in the order in which they were sent.
pub proof fn ready_keys_sort_by_sequence(
    namespace: Seq<char>,
    entity: Seq<char>,
    a: SequenceNumber,
    b: SequenceNumber,
)
    ensures
        bytes::lex_lt(
            keys::ready_key(namespace, entity, a),
            keys::ready_key(namespace, entity, b),
        ) <==> a.0 < b.0,
{
    numbers_sort(keys::ready_prefix_key(namespace, entity), a.0, b.0);
}

/// Keys with two numbers sort by the first, and by the second where the first is
/// the same: locks, lifetimes and scheduled messages sort by their deadlines.
pub proof fn deadlines_sort(prefix: Seq<u8>, a: u64, m: u64, b: u64, n: u64)
    ensures
        bytes::lex_lt(
            keys::numbered(keys::numbered(prefix, a), m),
            keys::numbered(keys::numbered(prefix, b), n),
        ) <==> a < b || (a == b && m < n),
{
    let one = keys::numbered(keys::numbered(prefix, a), m);
    let other = keys::numbered(keys::numbered(prefix, b), n);
    if a == b {
        numbers_sort(keys::numbered(prefix, a), m, n);
    } else if a < b {
        numbers_sort(prefix, a, b);
        extended_order(prefix, a, b, bytes::be(m as nat, 8), bytes::be(n as nat, 8));
    } else {
        numbers_sort(prefix, b, a);
        extended_order(prefix, b, a, bytes::be(n as nat, 8), bytes::be(m as nat, 8));
        bytes::lex_asymmetric(other, one);
    }
}

/// What follows a number does not change the order of two that differ.
proof fn extended_order(prefix: Seq<u8>, a: u64, b: u64, x: Seq<u8>, y: Seq<u8>)
    requires
        a < b,
    ensures
        bytes::lex_lt(keys::numbered(prefix, a) + x, keys::numbered(prefix, b) + y),
{
    numbers_sort(prefix, a, b);
    bytes::be_len(a as nat, 8);
    bytes::be_len(b as nat, 8);
    let p = keys::numbered(prefix, a);
    let q = keys::numbered(prefix, b);
    let i = choose|i: int| bytes::parts_below(p, q, i);
    assert(bytes::parts_below(p + x, q + y, i));
}

/// Entries with a deadline and a text sort by the deadline first.
pub proof fn earlier_deadlines_come_first(
    prefix: Seq<u8>,
    a: Timestamp,
    x: Seq<char>,
    b: Timestamp,
    y: Seq<char>,
)
    requires
        a.0 < b.0,
    ensures
        bytes::lex_lt(
            keys::numbered(prefix, a.0) + bytes::utf8(x),
            keys::numbered(prefix, b.0) + bytes::utf8(y),
        ),
{
    extended_order(prefix, a.0, b.0, bytes::utf8(x), bytes::utf8(y));
}

/// Entries with a deadline and a text sort by the deadline, and by the octets of
/// the text where the deadline is the same.
pub proof fn deadlines_and_texts_sort(
    prefix: Seq<u8>,
    a: Timestamp,
    x: Seq<char>,
    b: Timestamp,
    y: Seq<char>,
)
    ensures
        bytes::lex_lt(
            keys::numbered(prefix, a.0) + bytes::utf8(x),
            keys::numbered(prefix, b.0) + bytes::utf8(y),
        ) <==> a.0 < b.0 || (a.0 == b.0 && bytes::lex_lt(bytes::utf8(x), bytes::utf8(y))),
{
    let one = keys::numbered(prefix, a.0) + bytes::utf8(x);
    let other = keys::numbered(prefix, b.0) + bytes::utf8(y);
    if a.0 == b.0 {
        bytes::lex_after_prefix(keys::numbered(prefix, a.0), bytes::utf8(x), bytes::utf8(y));
    } else if a.0 < b.0 {
        earlier_deadlines_come_first(prefix, a, x, b, y);
    } else {
        earlier_deadlines_come_first(prefix, b, y, a, x);
        bytes::lex_asymmetric(other, one);
    }
}

/// The identifiers that a queue remembers sort by when they are forgotten, and
/// by their octets where that is the same.
pub proof fn duplicate_expiry_keys_sort(
    namespace: Seq<char>,
    entity: Seq<char>,
    a: Timestamp,
    x: Seq<char>,
    b: Timestamp,
    y: Seq<char>,
)
    ensures
        bytes::lex_lt(
            keys::duplicate_expiry_key(namespace, entity, a, x),
            keys::duplicate_expiry_key(namespace, entity, b, y),
        ) <==> a.0 < b.0 || (a.0 == b.0 && bytes::lex_lt(bytes::utf8(x), bytes::utf8(y))),
{
    deadlines_and_texts_sort(keys::duplicate_expiry_prefix_key(namespace, entity), a, x, b, y);
}

/// Session locks sort by when they end, and by the octets of the session where
/// that is the same.
pub proof fn session_lock_keys_sort(
    namespace: Seq<char>,
    entity: Seq<char>,
    a: Timestamp,
    x: Seq<char>,
    b: Timestamp,
    y: Seq<char>,
)
    ensures
        bytes::lex_lt(
            keys::session_lock_key(namespace, entity, a, x),
            keys::session_lock_key(namespace, entity, b, y),
        ) <==> a.0 < b.0 || (a.0 == b.0 && bytes::lex_lt(bytes::utf8(x), bytes::utf8(y))),
{
    deadlines_and_texts_sort(keys::session_lock_prefix_key(namespace, entity), a, x, b, y);
}

/// Of two sessions, the one whose octets sort first has all its entries first.
proof fn earlier_sessions_come_first(
    namespace: Seq<char>,
    entity: Seq<char>,
    x: Seq<char>,
    m: SequenceNumber,
    y: Seq<char>,
    n: SequenceNumber,
)
    requires
        clean(x),
        clean(y),
        bytes::lex_lt(bytes::utf8(x), bytes::utf8(y)),
    ensures
        bytes::lex_lt(
            keys::session_ready_key(namespace, entity, x, m),
            keys::session_ready_key(namespace, entity, y, n),
        ),
{
    let own = keys::session_ready_key(namespace, entity, x, m);
    let between = keys::after_session_ready_key(namespace, entity, x);
    let next = keys::session_ready_key(namespace, entity, y, n);
    a_walk_resumes_behind_a_session(namespace, entity, x, y, m);
    a_walk_resumes_behind_a_session(namespace, entity, x, y, n);
    bytes::lex_transitive(own, between, next);
}

/// The ready messages of sessions sort by the octets of the session, and by
/// their sequence numbers within one.
pub proof fn session_ready_keys_sort(
    namespace: Seq<char>,
    entity: Seq<char>,
    x: Seq<char>,
    m: SequenceNumber,
    y: Seq<char>,
    n: SequenceNumber,
)
    requires
        clean(x),
        clean(y),
    ensures
        bytes::lex_lt(
            keys::session_ready_key(namespace, entity, x, m),
            keys::session_ready_key(namespace, entity, y, n),
        ) <==> bytes::lex_lt(bytes::utf8(x), bytes::utf8(y)) || (x == y && m.0 < n.0),
{
    let one = keys::session_ready_key(namespace, entity, x, m);
    let other = keys::session_ready_key(namespace, entity, y, n);
    bytes::lex_total(bytes::utf8(x), bytes::utf8(y));
    if bytes::utf8(x) == bytes::utf8(y) {
        bytes::utf8_injective(x, y);
        bytes::lex_irreflexive(bytes::utf8(x));
        numbers_sort(keys::session_ready_prefix_key(namespace, entity, x), m.0, n.0);
    } else if bytes::lex_lt(bytes::utf8(x), bytes::utf8(y)) {
        earlier_sessions_come_first(namespace, entity, x, m, y, n);
    } else {
        earlier_sessions_come_first(namespace, entity, y, n, x, m);
        bytes::lex_asymmetric(other, one);
        bytes::lex_asymmetric(bytes::utf8(y), bytes::utf8(x));
    }
}

/// A walk that resumes behind a session is past every entry of it, and before
/// every entry of a session that sorts after it.
pub proof fn a_walk_resumes_behind_a_session(
    namespace: Seq<char>,
    entity: Seq<char>,
    session_id: Seq<char>,
    later: Seq<char>,
    sequence: SequenceNumber,
)
    requires
        clean(session_id),
        clean(later),
        bytes::lex_lt(bytes::utf8(session_id), bytes::utf8(later)),
    ensures
        bytes::lex_lt(
            keys::session_ready_key(namespace, entity, session_id, sequence),
            keys::after_session_ready_key(namespace, entity, session_id),
        ),
        bytes::lex_lt(
            keys::after_session_ready_key(namespace, entity, session_id),
            keys::session_ready_key(namespace, entity, later, sequence),
        ),
        bytes::has_prefix(
            keys::after_session_ready_key(namespace, entity, session_id),
            keys::entity_session_ready_prefix_key(namespace, entity),
        ),
{
    let scope = keys::entity_session_ready_prefix_key(namespace, entity);
    let s = bytes::utf8(session_id);
    let l = bytes::utf8(later);
    let resume = keys::after_session_ready_key(namespace, entity, session_id);
    let own = keys::session_ready_key(namespace, entity, session_id, sequence);
    let next = keys::session_ready_key(namespace, entity, later, sequence);
    clean_text_is_plain(later);
    let at = (scope.len() + s.len()) as int;
    assert(own[at] == SEPARATOR);
    assert(resume[at] == 1);
    assert(bytes::parts_below(own, resume, at));
    let i = choose|i: int| bytes::parts_below(s, l, i);
    let j = scope.len() + i;
    assert(next[j] == l[i]);
    assert forall|k: int| 0 <= k < j implies resume[k] == next[k] by {
        if k >= scope.len() {
            assert(s[k - scope.len()] == l[k - scope.len()]);
        }
    }
    assert(bytes::parts_below(resume, next, j));
    assert(resume.subrange(0, scope.len() as int) =~= scope);
}

} // verus!
