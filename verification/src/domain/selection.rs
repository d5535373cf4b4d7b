//! What the rules of a subscription select.

use vstd::prelude::*;

use crate::bytes;
use crate::domain::rule;
use crate::domain::rule::{PropertiesView, Property, RuleConfigError, RuleFilterView};

verus! {

// ---- application properties ------------------------------------------------

/// Whether some property has a name, in any ASCII case, and a value.
pub open spec fn carries(s: Seq<Property>, name: Seq<char>, value: Seq<u8>) -> bool {
    exists|j: int|
        0 <= j < s.len() && bytes::fold_text((#[trigger] s[j]).0) == bytes::fold_text(name)
            && s[j].1 == value
}

/// Whether two names are one but for ASCII case.
pub open spec fn names_collide(s: Seq<Property>) -> bool {
    exists|i: int, j: int|
        0 <= i < j < s.len() && bytes::fold_text((#[trigger] s[i]).0) == bytes::fold_text(
            (#[trigger] s[j]).0,
        )
}

/// An upper-case letter of ASCII folds to the lower-case one, and nothing else
/// changes.
pub proof fn only_capitals_fold(c: char)
    ensures
        'A' <= c <= 'Z' ==> bytes::fold_char(c) as u32 == c as u32 + 32,
        !('A' <= c <= 'Z') ==> bytes::fold_char(c) == c,
{
}

/// What is folded stays as it is when it is folded again.
pub proof fn folding_twice_is_folding_once(text: Seq<char>)
    ensures
        bytes::fold_text(bytes::fold_text(text)) == bytes::fold_text(text),
        bytes::fold_text(text).len() == text.len(),
{
    assert forall|i: int| 0 <= i < text.len() implies bytes::fold_char(
        #[trigger] bytes::fold_text(text)[i],
    ) == bytes::fold_text(text)[i] by {
        only_capitals_fold(text[i]);
        only_capitals_fold(bytes::fold_char(text[i]));
    }
    assert(bytes::fold_text(bytes::fold_text(text)) =~= bytes::fold_text(text));
}

/// Whether `at` is a property of `s` under its folded name.
spec fn is_folded_from(s: Seq<Property>, p: Property) -> bool {
    exists|j: int|
        0 <= j < s.len() && p == (bytes::fold_text((#[trigger] s[j]).0), s[j].1)
}

/// What is bound is there, and whatever was there stays there.
proof fn binding_adds_one(acc: Seq<Property>, name: Seq<char>, value: Seq<u8>)
    requires
        rule::ascending(acc),
        !rule::bound(acc, name),
    ensures
        rule::ascending(rule::bind(acc, name, value)),
        forall|p: Property|
            #[trigger] rule::bind(acc, name, value).contains(p) <==> acc.contains(p) || p == (
                name,
                value,
            ),
{
    rule::binding_keeps_order(acc, name, value);
    rule::rank_properties(acc, name);
    let at = rule::rank(acc, name);
    let t = rule::bind(acc, name, value);
    assert forall|p: Property|
        #[trigger] t.contains(p) <==> acc.contains(p) || p == (name, value) by {
        if acc.contains(p) {
            let i = choose|i: int| 0 <= i < acc.len() && acc[i] == p;
            if i < at {
                assert(t[i] == p);
            } else {
                assert(t[i + 1] == p);
            }
        }
        if p == (name, value) {
            assert(t[at] == p);
        }
        if t.contains(p) {
            let i = choose|i: int| 0 <= i < t.len() && t[i] == p;
            if i < at {
                assert(acc[i] == p);
            } else if i > at {
                assert(acc[i - 1] == p);
            }
        }
    }
}

/// A name is bound when it stands among the names.
proof fn bound_names_are_there(acc: Seq<Property>, name: Seq<char>)
    requires
        rule::ascending(acc),
    ensures
        rule::bound(acc, name) <==> exists|i: int|
            0 <= i < acc.len() && (#[trigger] acc[i]).0 == name,
{
    rule::rank_properties(acc, name);
    let at = rule::rank(acc, name);
    if exists|i: int| 0 <= i < acc.len() && (#[trigger] acc[i]).0 == name {
        let i = choose|i: int| 0 <= i < acc.len() && (#[trigger] acc[i]).0 == name;
        bytes::lex_irreflexive(bytes::utf8(name));
        if i < at {
            assert(rule::name_lt(acc[i].0, name));
        }
        if at < i {
            assert(rule::name_lt(acc[at].0, acc[i].0));
        }
    }
}

proof fn folding_keeps_what_is_there(s: Seq<Property>, acc: Seq<Property>)
    requires
        rule::ascending(acc),
    ensures
        match rule::canonical_onto(s, acc) {
            Some(folded) => {
                &&& rule::ascending(folded)
                &&& forall|p: Property|
                    #[trigger] folded.contains(p) <==> acc.contains(p) || is_folded_from(s, p)
                &&& !names_collide(s)
                &&& forall|i: int, j: int|
                    0 <= i < s.len() && 0 <= j < acc.len() ==> (#[trigger] acc[j]).0
                        != bytes::fold_text((#[trigger] s[i]).0)
            },
            None => names_collide(s) || exists|i: int, j: int|
                0 <= i < s.len() && 0 <= j < acc.len() && (#[trigger] acc[j]).0
                    == bytes::fold_text((#[trigger] s[i]).0),
        },
    decreases s.len(),
{
    if s.len() > 0 {
        let name = bytes::fold_text(s[0].0);
        let value = s[0].1;
        let rest = s.skip(1);
        bound_names_are_there(acc, name);
        if !rule::bound(acc, name) {
            binding_adds_one(acc, name, value);
            let next = rule::bind(acc, name, value);
            folding_keeps_what_is_there(rest, next);
            assert(next.contains((name, value)));
            assert forall|j: int| 0 <= j < next.len() implies (acc.contains(#[trigger] next[j])
                || next[j] == (name, value)) by {
                assert(next.contains(next[j]));
            }
            assert forall|j: int| 0 <= j < acc.len() implies next.contains(#[trigger] acc[j]) by {
                assert(acc.contains(acc[j]));
            }
            match rule::canonical_onto(rest, next) {
                Some(folded) => {
                    assert forall|p: Property|
                        #[trigger] folded.contains(p) <==> acc.contains(p) || is_folded_from(
                            s,
                            p,
                        ) by {
                        if is_folded_from(rest, p) {
                            let j = choose|j: int|
                                0 <= j < rest.len() && p == (
                                    bytes::fold_text((#[trigger] rest[j]).0),
                                    rest[j].1,
                                );
                            assert(s[j + 1] == rest[j]);
                        }
                        if is_folded_from(s, p) {
                            let j = choose|j: int|
                                0 <= j < s.len() && p == (
                                    bytes::fold_text((#[trigger] s[j]).0),
                                    s[j].1,
                                );
                            if j > 0 {
                                assert(rest[j - 1] == s[j]);
                            }
                        }
                        if p == (name, value) {
                            assert(p == (bytes::fold_text(s[0].0), s[0].1));
                        }
                    }
                    let k = choose|k: int| 0 <= k < next.len() && next[k] == (name, value);
                    assert forall|i: int, j: int|
                        0 <= i < j < s.len() implies bytes::fold_text((#[trigger] s[i]).0)
                        != bytes::fold_text((#[trigger] s[j]).0) by {
                        assert(rest[j - 1] == s[j]);
                        if i == 0 {
                            assert(next[k].0 != bytes::fold_text(rest[j - 1].0));
                        } else {
                            assert(rest[i - 1] == s[i]);
                        }
                    }
                    assert forall|i: int, j: int|
                        0 <= i < s.len() && 0 <= j < acc.len() implies (#[trigger] acc[j]).0
                        != bytes::fold_text((#[trigger] s[i]).0) by {
                        if i > 0 {
                            assert(rest[i - 1] == s[i]);
                            let l = choose|l: int| 0 <= l < next.len() && next[l] == acc[j];
                            assert(next[l].0 != bytes::fold_text(rest[i - 1].0));
                        }
                    }
                },
                None => {
                    if names_collide(rest) {
                        let (i, j) = choose|i: int, j: int|
                            0 <= i < j < rest.len() && bytes::fold_text((#[trigger] rest[i]).0)
                                == bytes::fold_text((#[trigger] rest[j]).0);
                        assert(s[i + 1] == rest[i] && s[j + 1] == rest[j]);
                    } else {
                        let (i, j) = choose|i: int, j: int|
                            0 <= i < rest.len() && 0 <= j < next.len() && (#[trigger] next[j]).0
                                == bytes::fold_text((#[trigger] rest[i]).0);
                        assert(s[i + 1] == rest[i]);
                        if acc.contains(next[j]) {
                            let l = choose|l: int| 0 <= l < acc.len() && acc[l] == next[j];
                            assert(acc[l].0 == bytes::fold_text(s[i + 1].0));
                        } else {
                            assert(bytes::fold_text(s[0].0) == bytes::fold_text(s[i + 1].0));
                        }
                    }
                },
            }
        } else {
            let j = choose|j: int| 0 <= j < acc.len() && (#[trigger] acc[j]).0 == name;
            assert(acc[j].0 == bytes::fold_text(s[0].0));
        }
    }
}

/// Properties are looked up without regard to ASCII case, so two names that differ in
/// nothing else cannot both be had. Any others are kept, under their folded names, with
/// the values they had, and nothing is added.
pub proof fn properties_are_kept_under_folded_names(s: Seq<Property>)
    ensures
        rule::canonical(s) is None <==> names_collide(s),
        rule::canonical(s) matches Some(folded) ==> {
            &&& rule::ascending(folded)
            &&& forall|i: int|
                0 <= i < s.len() ==> folded.contains(
                    (bytes::fold_text((#[trigger] s[i]).0), s[i].1),
                )
            &&& forall|k: int|
                0 <= k < folded.len() ==> carries(s, (#[trigger] folded[k]).0, folded[k].1)
            &&& forall|k: int|
                0 <= k < folded.len() ==> bytes::fold_text((#[trigger] folded[k]).0)
                    == folded[k].0
        },
{
    folding_keeps_what_is_there(s, Seq::empty());
    if let Some(folded) = rule::canonical(s) {
        assert forall|i: int| 0 <= i < s.len() implies folded.contains(
            (bytes::fold_text((#[trigger] s[i]).0), s[i].1),
        ) by {
            assert(is_folded_from(s, (bytes::fold_text(s[i].0), s[i].1)));
        }
        assert forall|k: int| 0 <= k < folded.len() implies carries(
            s,
            (#[trigger] folded[k]).0,
            folded[k].1,
        ) && bytes::fold_text(folded[k].0) == folded[k].0 by {
            assert(folded.contains(folded[k]));
            assert(is_folded_from(s, folded[k]));
            let j = choose|j: int|
                0 <= j < s.len() && folded[k] == (bytes::fold_text((#[trigger] s[j]).0), s[j].1);
            folding_twice_is_folding_once(s[j].0);
        }
    }
}

proof fn exact_names_are_found(s: Seq<Property>, name: Seq<char>)
    ensures
        match rule::exact(s, name) {
            Some(value) => s.contains((name, value)),
            None => forall|j: int| 0 <= j < s.len() ==> (#[trigger] s[j]).0 != name,
        },
    decreases s.len(),
{
    if s.len() > 0 {
        let rest = s.skip(1);
        exact_names_are_found(rest, name);
        if s[0].0 == name {
            assert(s[0] == (name, s[0].1));
        } else {
            match rule::exact(s, name) {
                Some(value) => {
                    let j = choose|j: int| 0 <= j < rest.len() && rest[j] == (name, value);
                    assert(s[j + 1] == rest[j]);
                },
                None => {
                    assert forall|j: int| 0 <= j < s.len() implies (#[trigger] s[j]).0 != name by {
                        if j > 0 {
                            assert(rest[j - 1] == s[j]);
                        }
                    }
                },
            }
        }
    }
}

proof fn caseless_names_are_found(s: Seq<Property>, name: Seq<char>)
    ensures
        match rule::caseless(s, name) {
            Some(value) => carries(s, name, value),
            None => forall|j: int|
                0 <= j < s.len() ==> bytes::fold_text((#[trigger] s[j]).0) != bytes::fold_text(
                    name,
                ),
        },
    decreases s.len(),
{
    if s.len() > 0 {
        let rest = s.skip(1);
        caseless_names_are_found(rest, name);
        if bytes::fold_text(s[0].0) != bytes::fold_text(name) {
            match rule::caseless(s, name) {
                Some(value) => {
                    let j = choose|j: int|
                        0 <= j < rest.len() && bytes::fold_text((#[trigger] rest[j]).0)
                            == bytes::fold_text(name) && rest[j].1 == value;
                    assert(s[j + 1] == rest[j]);
                },
                None => {
                    assert forall|j: int| 0 <= j < s.len() implies bytes::fold_text(
                        (#[trigger] s[j]).0,
                    ) != bytes::fold_text(name) by {
                        if j > 0 {
                            assert(rest[j - 1] == s[j]);
                        }
                    }
                },
            }
        }
    }
}

/// A property is found by its name, in any ASCII case, with the value it has; one that
/// differs only by case does not hide one of exactly the name.
pub proof fn a_property_is_found_by_its_name(s: Seq<Property>, name: Seq<char>, value: Seq<u8>)
    ensures
        rule::property_named(s, name) == Some(value) ==> carries(s, name, value),
        !names_collide(s) && carries(s, name, value) ==> rule::property_named(s, name) == Some(
            value,
        ),
        rule::ascending(s) && s.contains((name, value)) ==> rule::property_named(s, name) == Some(
            value,
        ),
{
    exact_names_are_found(s, name);
    caseless_names_are_found(s, name);
    if let Some(found) = rule::exact(s, name) {
        let j = choose|j: int| 0 <= j < s.len() && s[j] == (name, found);
        assert(bytes::fold_text(s[j].0) == bytes::fold_text(name) && s[j].1 == found);
        if s.contains((name, value)) && rule::ascending(s) {
            let i = choose|i: int| 0 <= i < s.len() && s[i] == (name, value);
            bytes::lex_irreflexive(bytes::utf8(name));
            if i < j {
                assert(rule::name_lt(s[i].0, s[j].0));
            } else if j < i {
                assert(rule::name_lt(s[j].0, s[i].0));
            }
        }
        if carries(s, name, value) && !names_collide(s) {
            let i = choose|i: int|
                0 <= i < s.len() && bytes::fold_text((#[trigger] s[i]).0) == bytes::fold_text(
                    name,
                ) && s[i].1 == value;
            if i < j {
                assert(bytes::fold_text(s[i].0) == bytes::fold_text(s[j].0));
            } else if j < i {
                assert(bytes::fold_text(s[j].0) == bytes::fold_text(s[i].0));
            }
        }
    } else {
        if s.contains((name, value)) {
            let i = choose|i: int| 0 <= i < s.len() && s[i] == (name, value);
            assert(s[i].0 == name);
        }
        if carries(s, name, value) && !names_collide(s) {
            let i = choose|i: int|
                0 <= i < s.len() && bytes::fold_text((#[trigger] s[i]).0) == bytes::fold_text(
                    name,
                ) && s[i].1 == value;
            let found = rule::caseless(s, name)->Some_0;
            let j = choose|j: int|
                0 <= j < s.len() && bytes::fold_text((#[trigger] s[j]).0) == bytes::fold_text(
                    name,
                ) && s[j].1 == found;
            if i < j {
                assert(bytes::fold_text(s[i].0) == bytes::fold_text(s[j].0));
            } else if j < i {
                assert(bytes::fold_text(s[j].0) == bytes::fold_text(s[i].0));
            }
        }
    }
}

// ---- filters ---------------------------------------------------------------

/// A rule without conditions selects every message or none.
pub proof fn plain_rules_select_all_or_nothing(actual: PropertiesView)
    ensures
        rule::selects(RuleFilterView::True, actual),
        !rule::selects(RuleFilterView::False, actual),
{
}

/// A filter that demands something of a member selects no message that has something
/// else there, or nothing: this holds of each member, whatever the others are.
pub proof fn a_filter_refuses_what_differs_in_a_member(
    filter: PropertiesView,
    actual: PropertiesView,
)
    ensures
        filter.correlation_id is Some && actual.correlation_id != filter.correlation_id
            ==> !rule::selects(RuleFilterView::Correlation(filter), actual),
        filter.message_id is Some && actual.message_id != filter.message_id ==> !rule::selects(
            RuleFilterView::Correlation(filter),
            actual,
        ),
        filter.to is Some && actual.to != filter.to ==> !rule::selects(
            RuleFilterView::Correlation(filter),
            actual,
        ),
        filter.reply_to is Some && actual.reply_to != filter.reply_to ==> !rule::selects(
            RuleFilterView::Correlation(filter),
            actual,
        ),
        filter.subject is Some && actual.subject != filter.subject ==> !rule::selects(
            RuleFilterView::Correlation(filter),
            actual,
        ),
        filter.session_id is Some && actual.session_id != filter.session_id ==> !rule::selects(
            RuleFilterView::Correlation(filter),
            actual,
        ),
        filter.reply_to_session_id is Some && actual.reply_to_session_id
            != filter.reply_to_session_id ==> !rule::selects(
            RuleFilterView::Correlation(filter),
            actual,
        ),
        filter.content_type is Some && actual.content_type != filter.content_type
            ==> !rule::selects(RuleFilterView::Correlation(filter), actual),
{
}

/// A filter that demands a property selects no message that does not carry it with
/// the value demanded.
pub proof fn a_filter_refuses_what_lacks_a_property(
    filter: PropertiesView,
    actual: PropertiesView,
    i: int,
)
    requires
        0 <= i < filter.application_properties.len(),
        !carries(
            actual.application_properties,
            filter.application_properties[i].0,
            filter.application_properties[i].1,
        ),
    ensures
        !rule::selects(RuleFilterView::Correlation(filter), actual),
{
    a_property_is_found_by_its_name(
        actual.application_properties,
        filter.application_properties[i].0,
        filter.application_properties[i].1,
    );
}

/// A filter selects every message that agrees with it wherever it demands something.
pub proof fn a_filter_selects_what_agrees_with_it(filter: PropertiesView, actual: PropertiesView)
    requires
        filter.correlation_id is None || actual.correlation_id == filter.correlation_id,
        filter.message_id is None || actual.message_id == filter.message_id,
        filter.to is None || actual.to == filter.to,
        filter.reply_to is None || actual.reply_to == filter.reply_to,
        filter.subject is None || actual.subject == filter.subject,
        filter.session_id is None || actual.session_id == filter.session_id,
        filter.reply_to_session_id is None || actual.reply_to_session_id
            == filter.reply_to_session_id,
        filter.content_type is None || actual.content_type == filter.content_type,
        !names_collide(actual.application_properties),
        forall|i: int|
            0 <= i < filter.application_properties.len() ==> carries(
                actual.application_properties,
                (#[trigger] filter.application_properties[i]).0,
                filter.application_properties[i].1,
            ),
    ensures
        rule::selects(RuleFilterView::Correlation(filter), actual),
{
    assert forall|i: int|
        0 <= i < filter.application_properties.len() implies rule::property_named(
        actual.application_properties,
        (#[trigger] filter.application_properties[i]).0,
    ) == Some(filter.application_properties[i].1) by {
        a_property_is_found_by_its_name(
            actual.application_properties,
            filter.application_properties[i].0,
            filter.application_properties[i].1,
        );
    }
}

/// Folding the names of its properties changes nothing else of a message.
pub proof fn only_names_are_folded(properties: PropertiesView)
    ensures
        match rule::canonical_view(properties) {
            Ok(folded) => {
                &&& folded.correlation_id == properties.correlation_id
                &&& folded.message_id == properties.message_id
                &&& folded.to == properties.to
                &&& folded.reply_to == properties.reply_to
                &&& folded.subject == properties.subject
                &&& folded.session_id == properties.session_id
                &&& folded.reply_to_session_id == properties.reply_to_session_id
                &&& folded.content_type == properties.content_type
                &&& !names_collide(properties.application_properties)
                &&& !names_collide(folded.application_properties)
                &&& forall|name: Seq<char>, value: Seq<u8>|
                    #[trigger] carries(folded.application_properties, name, value) <==> carries(
                        properties.application_properties,
                        name,
                        value,
                    )
            },
            Err(error) => error == RuleConfigError::DuplicateApplicationProperty && names_collide(
                properties.application_properties,
            ),
        },
{
    let s = properties.application_properties;
    properties_are_kept_under_folded_names(s);
    if let Ok(view) = rule::canonical_view(properties) {
        let folded = view.application_properties;
        assert forall|i: int, j: int| 0 <= i < j < folded.len() implies bytes::fold_text(
            (#[trigger] folded[i]).0,
        ) != bytes::fold_text((#[trigger] folded[j]).0) by {
            assert(rule::name_lt(folded[i].0, folded[j].0));
            bytes::lex_irreflexive(bytes::utf8(folded[i].0));
        }
        assert forall|name: Seq<char>, value: Seq<u8>|
            #[trigger] carries(folded, name, value) <==> carries(s, name, value) by {
            if carries(s, name, value) {
                let j = choose|j: int|
                    0 <= j < s.len() && bytes::fold_text((#[trigger] s[j]).0) == bytes::fold_text(
                        name,
                    ) && s[j].1 == value;
                let p = (bytes::fold_text(s[j].0), s[j].1);
                assert(folded.contains(p));
                let k = choose|k: int| 0 <= k < folded.len() && folded[k] == p;
                assert(bytes::fold_text(folded[k].0) == folded[k].0);
            }
            if carries(folded, name, value) {
                let k = choose|k: int|
                    0 <= k < folded.len() && bytes::fold_text((#[trigger] folded[k]).0)
                        == bytes::fold_text(name) && folded[k].1 == value;
                assert(carries(s, folded[k].0, folded[k].1));
                let j = choose|j: int|
                    0 <= j < s.len() && bytes::fold_text((#[trigger] s[j]).0) == bytes::fold_text(
                        folded[k].0,
                    ) && s[j].1 == folded[k].1;
                assert(bytes::fold_text(s[j].0) == bytes::fold_text(name) && s[j].1 == value);
            }
        }
    }
}

// ---- which filters are stored ----------------------------------------------

/// A property weighs as much as its name and its value together, beside the others.
pub proof fn properties_weigh_one_by_one(s: Seq<Property>, p: Property)
    ensures
        rule::property_bytes(Seq::empty(), 0) == 0,
        rule::property_bytes(s.push(p), (s.len() + 1) as int) == rule::property_bytes(s, s.len() as int)
            + bytes::utf8(p.0).len() + p.1.len(),
{
    first_properties_weigh_the_same(s, p, s.len() as int);
}

proof fn first_properties_weigh_the_same(s: Seq<Property>, p: Property, n: int)
    requires
        n <= s.len(),
    ensures
        rule::property_bytes(s.push(p), n) == rule::property_bytes(s, n),
    decreases n,
{
    if n > 0 {
        first_properties_weigh_the_same(s, p, n - 1);
    }
}

/// How long a text is, if there is one.
pub open spec fn length_of(text: Option<Seq<char>>) -> nat {
    if text is Some {
        bytes::utf8(text->Some_0).len()
    } else {
        0
    }
}

/// A correlation filter is stored unless it demands a session, demands nothing, names a
/// property twice, or is longer than a message may be. What is stored demands the same.
pub proof fn filters_are_stored_as_they_are(filter: PropertiesView)
    ensures
        ({
            let stored = rule::canonical_filter(RuleFilterView::Correlation(filter));
            let length = length_of(filter.correlation_id) + length_of(filter.message_id)
                + length_of(filter.to) + length_of(filter.reply_to) + length_of(filter.subject)
                + length_of(filter.reply_to_session_id) + length_of(filter.content_type)
                + rule::property_bytes(
                filter.application_properties,
                filter.application_properties.len() as int,
            );
            let demands = filter.correlation_id is Some || filter.message_id is Some || filter.to
                is Some || filter.reply_to is Some || filter.subject is Some
                || filter.reply_to_session_id is Some || filter.content_type is Some
                || filter.application_properties.len() > 0;
            if filter.session_id is Some {
                stored == Err::<RuleFilterView, RuleConfigError>(
                    RuleConfigError::SessionIdNotSupported,
                )
            } else if !demands {
                stored == Err::<RuleFilterView, RuleConfigError>(
                    RuleConfigError::EmptyCorrelationFilter,
                )
            } else if names_collide(filter.application_properties) {
                stored == Err::<RuleFilterView, RuleConfigError>(
                    RuleConfigError::DuplicateApplicationProperty,
                )
            } else if length > 262_144 {
                stored matches Err(RuleConfigError::CorrelationFilterTooLarge { maximum, .. })
                    && maximum == 262_144
            } else {
                &&& stored matches Ok(RuleFilterView::Correlation(kept))
                &&& kept.correlation_id == filter.correlation_id
                &&& kept.message_id == filter.message_id
                &&& kept.to == filter.to
                &&& kept.reply_to == filter.reply_to
                &&& kept.subject == filter.subject
                &&& kept.session_id is None
                &&& kept.reply_to_session_id == filter.reply_to_session_id
                &&& kept.content_type == filter.content_type
                &&& forall|name: Seq<char>, value: Seq<u8>|
                    #[trigger] carries(kept.application_properties, name, value) <==> carries(
                        filter.application_properties,
                        name,
                        value,
                    )
            }
        }),
        rule::canonical_filter(RuleFilterView::True) == Ok::<RuleFilterView, RuleConfigError>(
            RuleFilterView::True,
        ),
        rule::canonical_filter(RuleFilterView::False) == Ok::<RuleFilterView, RuleConfigError>(
            RuleFilterView::False,
        ),
{
    only_names_are_folded(filter);
    properties_are_kept_under_folded_names(filter.application_properties);
    if filter.application_properties.len() == 0 {
        assert(filter.application_properties =~= Seq::empty());
    }
}

} // verus!
