//! What may be the name of something, and which names are kept for the broker.

use vstd::prelude::*;

use crate::bytes;
use crate::domain::identifier;
use crate::domain::identifier::IdentifierError;

verus! {

/// Whether a character cannot be seen.
pub open spec fn is_invisible(c: char) -> bool {
    (c as u32) < 32 || (127 <= (c as u32) && (c as u32) <= 159)
}

/// Whether all characters of a text can be seen.
pub open spec fn is_visible(text: Seq<char>) -> bool {
    forall|i: int| 0 <= i < text.len() ==> !is_invisible(#[trigger] text[i])
}

/// Whether a character is a letter or a digit of the plain alphabet.
pub open spec fn is_plain(c: char) -> bool {
    let n = c as u32;
    (97 <= n && n <= 122) || (65 <= n && n <= 90) || (48 <= n && n <= 57)
}

/// Whether a character may stand inside a name: a letter, a digit, a full stop, a hyphen
/// or an underscore.
pub open spec fn is_fit_for_a_name(c: char) -> bool {
    is_plain(c) || c as u32 == 46 || c as u32 == 45 || c as u32 == 95
}

/// An identifier is a text that is not empty, not too long, and can be seen. Each other
/// text is told why it is none.
pub proof fn identifiers_can_be_seen(kind: &'static str, text: Seq<char>, most: usize)
    ensures
        ({
            let fault = identifier::identifier_fault(kind, text, most);
            if text.len() == 0 {
                fault == Some(IdentifierError::Empty { kind })
            } else if bytes::utf8(text).len() > most {
                fault == Some(IdentifierError::TooLong { kind, maximum: most })
            } else if !is_visible(text) {
                fault == Some(IdentifierError::ControlCharacter { kind })
            } else {
                fault is None
            }
        }),
{
    assert(forall|c: char| identifier::is_control(c) == is_invisible(c));
    if !is_visible(text) {
        let i = choose|i: int| 0 <= i < text.len() && is_invisible(#[trigger] text[i]);
        assert(identifier::is_control(text[i]));
    } else {
        assert forall|i: int| 0 <= i < text.len() implies !identifier::is_control(
            #[trigger] text[i],
        ) by {
            assert(!is_invisible(text[i]));
        }
    }
}

/// A session is named by a text of up to 128 octets that can be seen, and keeps it.
pub proof fn sessions_keep_their_names(text: Seq<char>)
    ensures
        identifier::session_id_of(text) matches Ok(id) ==> id == text,
        identifier::session_id_of(text) is Ok <==> text.len() > 0 && bytes::utf8(text).len() <= 128
            && is_visible(text),
{
    identifiers_can_be_seen("session id", text, 128);
}

/// The broker itself names paths of up to 342 octets that can be seen, as they are.
pub proof fn inner_paths_keep_their_names(path: Seq<char>)
    ensures
        identifier::internal_path(path) matches Ok(kept) ==> kept == path,
        identifier::internal_path(path) is Ok <==> path.len() > 0 && bytes::utf8(path).len() <= 342
            && is_visible(path),
{
    identifiers_can_be_seen("entity path", path, 342);
}

/// A name has letters and digits at its ends, and between them also full stops, hyphens
/// and underscores. Each other text is told why it is none.
pub proof fn names_are_plain(kind: &'static str, text: Seq<char>, most: usize)
    ensures
        ({
            let fault = identifier::name_fault(kind, text, most);
            let plain = is_plain(text.first()) && is_plain(text.last()) && forall|i: int|
                0 <= i < text.len() ==> is_fit_for_a_name(#[trigger] text[i]);
            if text.len() == 0 {
                fault == Some(IdentifierError::Empty { kind })
            } else if text.len() > most {
                fault == Some(IdentifierError::TooManyCharacters { kind, maximum: most })
            } else if !plain {
                fault == Some(IdentifierError::RestrictedCharacter { kind })
            } else {
                fault is None
            }
        }),
{
    assert forall|i: int| 0 <= i < text.len() implies identifier::is_name_character(
        #[trigger] text[i],
    ) == is_fit_for_a_name(text[i]) by {}
    if exists|i: int| 0 <= i < text.len() && !identifier::is_name_character(#[trigger] text[i]) {
        let i = choose|i: int|
            0 <= i < text.len() && !identifier::is_name_character(#[trigger] text[i]);
        assert(!is_fit_for_a_name(text[i]));
    } else {
        assert forall|i: int| 0 <= i < text.len() implies is_fit_for_a_name(
            #[trigger] text[i],
        ) by {
            assert(identifier::is_name_character(text[i]));
        }
    }
}

/// A rule is named by up to fifty characters that can be seen.
pub proof fn rules_have_visible_names(text: Seq<char>)
    ensures
        ({
            let fault = identifier::rule_name_fault(text);
            if text.len() == 0 {
                fault == Some(IdentifierError::Empty { kind: "rule name" })
            } else if text.len() > 50 {
                fault == Some(
                    IdentifierError::TooManyCharacters { kind: "rule name", maximum: 50 },
                )
            } else if !is_visible(text) {
                fault == Some(IdentifierError::ControlCharacter { kind: "rule name" })
            } else {
                fault is None
            }
        }),
{
    if !is_visible(text) {
        let i = choose|i: int| 0 <= i < text.len() && is_invisible(#[trigger] text[i]);
        assert(identifier::is_control(text[i]));
    } else {
        assert forall|i: int| 0 <= i < text.len() implies !identifier::is_control(
            #[trigger] text[i],
        ) by {
            assert(!is_invisible(text[i]));
        }
    }
}

/// Which names are kept for the broker does not depend on the case of letters.
pub proof fn kept_names_are_kept_in_any_case(one: Seq<char>, other: Seq<char>)
    requires
        bytes::fold(bytes::utf8(one)) == bytes::fold(bytes::utf8(other)),
    ensures
        identifier::names_dead_letter_queue(one) == identifier::names_dead_letter_queue(other),
        identifier::names_subscription(one) == identifier::names_subscription(other),
        identifier::names_management(one) == identifier::names_management(other),
{
}

/// A path behind which the suffix of dead-letter queues stands is one of theirs, and a
/// path of which it is not the end is none.
pub proof fn dead_letter_queues_end_in_their_suffix(path: Seq<char>)
    ensures
        ({
            let octets = bytes::fold(bytes::utf8(path));
            let suffix = bytes::utf8("/$deadletterqueue"@);
            identifier::names_dead_letter_queue(path) <==> octets.len() >= suffix.len()
                && octets.subrange(octets.len() - suffix.len(), octets.len() as int) == suffix
        }),
        ({
            let octets = bytes::fold(bytes::utf8(path));
            let suffix = bytes::utf8("/$management"@);
            identifier::names_management(path) <==> octets.len() >= suffix.len()
                && octets.subrange(octets.len() - suffix.len(), octets.len() as int) == suffix
        }),
        ({
            let octets = bytes::fold(bytes::utf8(path));
            let suffix = bytes::utf8("/subscriptions"@);
            octets.len() >= suffix.len() && octets.subrange(
                octets.len() - suffix.len(),
                octets.len() as int,
            ) == suffix ==> identifier::names_subscription(path)
        }),
{
}

} // verus!
