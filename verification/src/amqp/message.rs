//! Messages as sections of octets.

use vstd::prelude::*;

use crate::amqp::composite;
use crate::amqp::composite::{
    write_composite, Composite, AMQP_SEQUENCE, AMQP_VALUE, APPLICATION_PROPERTIES, DATA,
    DELIVERY_ANNOTATIONS, FOOTER, HEADER, MESSAGE_ANNOTATIONS, PROPERTIES,
};
use crate::amqp::encoding;
use crate::amqp::encoding::{decode_value, encode_value};
use crate::amqp::fault::CodecFault;
use crate::amqp::fields;
use crate::amqp::fields::{described, take_described, take_list, Copied, Field};
use crate::amqp::shape;
use crate::amqp::shape::encoded_value_len;
use crate::amqp::types;
use crate::amqp::types::{
    Annotations, AnnotationsView, ApplicationProperties, Body, BodyView, Header, Message,
    MessageView, Properties, PropertiesMap,
};
use crate::amqp::value;
use crate::amqp::value::{AmqpValue, DescriptorView, ValueView};
use crate::bytes;

verus! {

// ---- sections --------------------------------------------------------------

/// A described section.
pub open spec fn section(code: u64, v: ValueView) -> ValueView {
    ValueView::Described(DescriptorView::Code(code), Box::new(v))
}

pub open spec fn if_some(o: Option<ValueView>) -> Seq<ValueView> {
    match o {
        Some(v) => seq![v],
        None => Seq::empty(),
    }
}

pub open spec fn header_section(m: MessageView) -> Option<ValueView> {
    match m.header {
        Some(header) => Some(composite::composite_value::<Header>(header)),
        None => None,
    }
}

pub open spec fn annotations_section(code: u64, annotations: Option<AnnotationsView>) -> Option<
    ValueView,
> {
    match annotations {
        Some(annotations) => Some(section(code, <Annotations as Field>::value_of(annotations))),
        None => None,
    }
}

pub open spec fn properties_section(m: MessageView) -> Option<ValueView> {
    match m.properties {
        Some(properties) => Some(composite::composite_value::<Properties>(properties)),
        None => None,
    }
}

pub open spec fn application_section(m: MessageView) -> Option<ValueView> {
    match m.application_properties {
        Some(properties) => Some(
            section(APPLICATION_PROPERTIES, <PropertiesMap as Field>::value_of(properties)),
        ),
        None => None,
    }
}

/// The sections before the body.
pub open spec fn leading_sections(m: MessageView) -> Seq<ValueView> {
    if_some(header_section(m)) + if_some(
        annotations_section(DELIVERY_ANNOTATIONS, m.delivery_annotations),
    ) + if_some(annotations_section(MESSAGE_ANNOTATIONS, m.message_annotations)) + if_some(
        properties_section(m),
    ) + if_some(application_section(m))
}

/// The sections of the body. A data or sequence body has at least one.
pub open spec fn body_sections(body: BodyView) -> Result<Seq<ValueView>, CodecFault> {
    match body {
        BodyView::Data(sections) => if sections.len() == 0 {
            Err(CodecFault::EmptyBody)
        } else {
            Ok(data_sections(sections))
        },
        BodyView::Sequence(sections) => if sections.len() == 0 {
            Err(CodecFault::EmptyBody)
        } else {
            Ok(sequence_sections(sections))
        },
        BodyView::Single(v) => Ok(seq![section(AMQP_VALUE, v)]),
        BodyView::Empty => Ok(Seq::empty()),
    }
}

pub open spec fn data_sections(sections: Seq<Seq<u8>>) -> Seq<ValueView> {
    Seq::new(sections.len(), |i: int| section(DATA, ValueView::Binary(sections[i])))
}

pub open spec fn sequence_sections(sections: Seq<Seq<ValueView>>) -> Seq<ValueView> {
    Seq::new(sections.len(), |i: int| section(AMQP_SEQUENCE, ValueView::List(sections[i])))
}

pub open spec fn footer_section(m: MessageView) -> Option<ValueView> {
    annotations_section(FOOTER, m.footer)
}

/// `octets` followed by the encoded sections from `i` on.
pub open spec fn encoded_from(s: Seq<ValueView>, i: int, octets: Seq<u8>) -> Result<
    Seq<u8>,
    CodecFault,
>
    decreases s.len() - i,
{
    if i < 0 || i >= s.len() {
        Ok(octets)
    } else {
        match encoding::encoded(s[i]) {
            Err(fault) => Err(fault),
            Ok(encoded) => encoded_from(s, i + 1, octets + encoded),
        }
    }
}

/// The octets of a message.
pub open spec fn message_octets(m: MessageView) -> Result<Seq<u8>, CodecFault> {
    match encoded_from(leading_sections(m), 0, Seq::empty()) {
        Err(fault) => Err(fault),
        Ok(leading) => match body_sections(m.body) {
            Err(fault) => Err(fault),
            Ok(body) => match encoded_from(body, 0, leading) {
                Err(fault) => Err(fault),
                Ok(octets) => encoded_from(if_some(footer_section(m)), 0, octets),
            },
        },
    }
}

// ---- reading ---------------------------------------------------------------

/// The place of a section in a message.
pub open spec fn section_rank(code: u64) -> Option<u8> {
    if code == HEADER {
        Some(1)
    } else if code == DELIVERY_ANNOTATIONS {
        Some(2)
    } else if code == MESSAGE_ANNOTATIONS {
        Some(3)
    } else if code == PROPERTIES {
        Some(4)
    } else if code == APPLICATION_PROPERTIES {
        Some(5)
    } else if code == DATA || code == AMQP_SEQUENCE || code == AMQP_VALUE {
        Some(6)
    } else if code == FOOTER {
        Some(7)
    } else {
        None
    }
}

/// A body with one more section. The sections of a body are of one type, and a
/// value stands alone.
pub open spec fn body_with_section(body: BodyView, code: u64, v: ValueView) -> Result<
    BodyView,
    CodecFault,
> {
    if code == DATA {
        match v {
            ValueView::Binary(octets) => match body {
                BodyView::Empty => Ok(BodyView::Data(seq![octets])),
                BodyView::Data(sections) => Ok(BodyView::Data(sections.push(octets))),
                _ => Err(CodecFault::MixedBody),
            },
            _ => Err(CodecFault::NotData),
        }
    } else if code == AMQP_SEQUENCE {
        match v {
            ValueView::List(items) => match body {
                BodyView::Empty => Ok(BodyView::Sequence(seq![items])),
                BodyView::Sequence(sections) => Ok(BodyView::Sequence(sections.push(items))),
                _ => Err(CodecFault::MixedBody),
            },
            _ => Err(CodecFault::NotSequence),
        }
    } else {
        match body {
            BodyView::Empty => Ok(BodyView::Single(v)),
            _ => Err(CodecFault::MixedBody),
        }
    }
}

/// `m` with one more section.
pub open spec fn with_section(m: MessageView, code: u64, v: ValueView) -> Result<
    MessageView,
    CodecFault,
> {
    if code == HEADER {
        if m.header is Some {
            Err(CodecFault::DuplicateSection(code))
        } else {
            match fields::taken_list(v) {
                Err(fault) => Err(fault),
                Ok(f) => match Header::of_fields(f) {
                    Err(fault) => Err(fault),
                    Ok(header) => Ok(MessageView { header: Some(header), ..m }),
                },
            }
        }
    } else if code == DELIVERY_ANNOTATIONS {
        if m.delivery_annotations is Some {
            Err(CodecFault::DuplicateSection(code))
        } else {
            match <Annotations as Field>::of_value(v) {
                Err(fault) => Err(fault),
                Ok(a) => Ok(MessageView { delivery_annotations: Some(a), ..m }),
            }
        }
    } else if code == MESSAGE_ANNOTATIONS {
        if m.message_annotations is Some {
            Err(CodecFault::DuplicateSection(code))
        } else {
            match <Annotations as Field>::of_value(v) {
                Err(fault) => Err(fault),
                Ok(a) => Ok(MessageView { message_annotations: Some(a), ..m }),
            }
        }
    } else if code == PROPERTIES {
        if m.properties is Some {
            Err(CodecFault::DuplicateSection(code))
        } else {
            match fields::taken_list(v) {
                Err(fault) => Err(fault),
                Ok(f) => match Properties::of_fields(f) {
                    Err(fault) => Err(fault),
                    Ok(properties) => Ok(MessageView { properties: Some(properties), ..m }),
                },
            }
        }
    } else if code == APPLICATION_PROPERTIES {
        if m.application_properties is Some {
            Err(CodecFault::DuplicateSection(code))
        } else {
            match <PropertiesMap as Field>::of_value(v) {
                Err(fault) => Err(fault),
                Ok(p) => Ok(MessageView { application_properties: Some(p), ..m }),
            }
        }
    } else if code == DATA || code == AMQP_SEQUENCE || code == AMQP_VALUE {
        match body_with_section(m.body, code, v) {
            Err(fault) => Err(fault),
            Ok(body) => Ok(MessageView { body, ..m }),
        }
    } else {
        if m.footer is Some {
            Err(CodecFault::DuplicateSection(code))
        } else {
            match <Annotations as Field>::of_value(v) {
                Err(fault) => Err(fault),
                Ok(a) => Ok(MessageView { footer: Some(a), ..m }),
            }
        }
    }
}

/// `m` and the place of its last section, with one more section.
pub open spec fn extended(m: MessageView, rank: u8, v: ValueView) -> Result<
    (MessageView, u8),
    CodecFault,
> {
    match fields::taken_described(v) {
        Err(fault) => Err(fault),
        Ok((code, inner)) => match section_rank(code) {
            None => Err(CodecFault::UnknownSection(code)),
            Some(next) => if next < rank {
                Err(CodecFault::SectionOrder)
            } else {
                match with_section(m, code, inner) {
                    Err(fault) => Err(fault),
                    Ok(m) => Ok((m, next)),
                }
            },
        },
    }
}

/// `m` with the sections in `b`.
pub open spec fn message_from(b: Seq<u8>, m: MessageView, rank: u8) -> Result<
    MessageView,
    CodecFault,
>
    decreases b.len(),
{
    if b.len() == 0 {
        Ok(m)
    } else {
        match shape::value_len(b) {
            Err(fault) => Err(fault),
            Ok(n) => match encoding::decoded(b.take(n as int)) {
                Err(fault) => Err(fault),
                Ok(v) => match extended(m, rank, v) {
                    Err(fault) => Err(fault),
                    Ok((m, next)) => if 1 <= n <= b.len() {
                        message_from(b.skip(n as int), m, next)
                    } else {
                        Ok(m)
                    },
                },
            },
        }
    }
}

/// The message that octets are.
pub open spec fn message_of(b: Seq<u8>) -> Result<MessageView, CodecFault> {
    message_from(b, types::no_message(), 0)
}

// ---- what is read is what was written --------------------------------------

/// `m` with the sections in `s` from `i` on.
pub open spec fn absorbed(s: Seq<ValueView>, i: int, m: MessageView, rank: u8) -> Result<
    (MessageView, u8),
    CodecFault,
>
    decreases s.len() - i,
{
    if i < 0 || i >= s.len() {
        Ok((m, rank))
    } else {
        match extended(m, rank, s[i]) {
            Err(fault) => Err(fault),
            Ok((m, rank)) => absorbed(s, i + 1, m, rank),
        }
    }
}

/// Octets one part behind the other.
pub open spec fn joined(parts: Seq<Seq<u8>>, i: int) -> Seq<u8>
    decreases parts.len() - i,
{
    if i < 0 || i >= parts.len() {
        Seq::empty()
    } else {
        parts[i] + joined(parts, i + 1)
    }
}

proof fn joining_one_more(parts: Seq<Seq<u8>>, part: Seq<u8>, i: int)
    requires
        0 <= i <= parts.len(),
    ensures
        joined(parts.push(part), i) == joined(parts, i) + part,
    decreases parts.len() - i,
{
    if i < parts.len() {
        joining_one_more(parts, part, i + 1);
        assert(parts.push(part)[i] == parts[i]);
        assert(parts[i] + (joined(parts, i + 1) + part) =~= parts[i] + joined(parts, i + 1) + part);
    } else {
        assert(joined(parts.push(part), i + 1) =~= Seq::<u8>::empty());
        assert(joined(parts, i) =~= Seq::<u8>::empty());
        assert(part + Seq::<u8>::empty() =~= Seq::<u8>::empty() + part);
    }
}

/// Whether every part was written for the section in its place.
pub open spec fn written(s: Seq<ValueView>, parts: Seq<Seq<u8>>) -> bool {
    &&& s.len() == parts.len()
    &&& forall|i: int|
        #![trigger parts[i]]
        0 <= i < s.len() ==> encoding::reads_back(s[i], parts[i])
}

proof fn sections_are_absorbed(
    s: Seq<ValueView>,
    parts: Seq<Seq<u8>>,
    i: int,
    m: MessageView,
    rank: u8,
)
    requires
        0 <= i <= s.len(),
        written(s, parts),
        forall|k: int| 0 <= k < s.len() ==> encoding::readable(#[trigger] s[k]),
    ensures
        match absorbed(s, i, m, rank) {
            Ok((m2, _)) => message_from(joined(parts, i), m, rank) == Ok::<
                MessageView,
                CodecFault,
            >(m2),
            Err(fault) => message_from(joined(parts, i), m, rank) == Err::<
                MessageView,
                CodecFault,
            >(fault),
        },
    decreases s.len() - i,
{
    if i < s.len() {
        let rest = joined(parts, i + 1);
        let b = joined(parts, i);
        let n = parts[i].len();
        assert(encoding::reads_back(s[i], parts[i]));
        assert(shape::value_len(parts[i] + rest) == Ok::<nat, CodecFault>(n));
        shape::value_len_is_bounded(b);
        assert(b.take(n as int) =~= parts[i]);
        assert(b.skip(n as int) =~= rest);
        if let Ok((m2, next)) = extended(m, rank, s[i]) {
            sections_are_absorbed(s, parts, i + 1, m2, next);
        }
    }
}

/// All sections of a message.
pub open spec fn all_sections(m: MessageView) -> Seq<ValueView> {
    match body_sections(m.body) {
        Ok(body) => leading_sections(m) + body + if_some(footer_section(m)),
        Err(_) => Seq::empty(),
    }
}

/// Whether every one of several values can be written, and is short enough to be.
pub open spec fn all_encodable(s: Seq<ValueView>) -> bool {
    forall|i: int| 0 <= i < s.len() ==> encoding::encodable(#[trigger] s[i])
}

/// Whether a message is sure to be written: a data or sequence body has a
/// section, and every section can be written and is short enough.
pub open spec fn message_is_encodable(m: MessageView) -> bool {
    body_sections(m.body) is Ok && all_encodable(all_sections(m))
}

/// If a message is sure to be written, so are all its parts.
proof fn parts_of_encodable_messages(m: MessageView)
    requires
        message_is_encodable(m),
    ensures
        all_encodable(leading_sections(m)),
        all_encodable(body_sections(m.body)->Ok_0),
        all_encodable(if_some(footer_section(m))),
{
    let a = leading_sections(m);
    let b = body_sections(m.body)->Ok_0;
    let c = if_some(footer_section(m));
    let all = all_sections(m);
    assert forall|i: int| 0 <= i < a.len() implies encoding::encodable(#[trigger] a[i]) by {
        assert(all[i] == a[i]);
    }
    assert forall|i: int| 0 <= i < b.len() implies encoding::encodable(#[trigger] b[i]) by {
        assert(all[a.len() + i] == b[i]);
    }
    assert forall|i: int| 0 <= i < c.len() implies encoding::encodable(#[trigger] c[i]) by {
        assert(all[a.len() + b.len() + i] == c[i]);
    }
}

/// Whether every section of a message can be told from its AMQP value: no map
/// in it holds a key twice, and a data or sequence body has a section.
pub open spec fn sound_message(m: MessageView) -> bool {
    &&& m.header matches Some(header) ==> Header::sound_fields(header)
    &&& m.delivery_annotations matches Some(a) ==> <Annotations as Field>::sound(a)
    &&& m.message_annotations matches Some(a) ==> <Annotations as Field>::sound(a)
    &&& m.properties matches Some(properties) ==> Properties::sound_fields(properties)
    &&& m.application_properties matches Some(p) ==> <PropertiesMap as Field>::sound(p)
    &&& m.footer matches Some(a) ==> <Annotations as Field>::sound(a)
    &&& body_sections(m.body) is Ok
}

/// Whether a message is read as it was written.
pub open spec fn message_reads_back(m: MessageView) -> bool {
    &&& sound_message(m)
    &&& forall|i: int|
        0 <= i < all_sections(m).len() ==> encoding::readable(#[trigger] all_sections(m)[i])
}

proof fn absorbing_in_two_steps(
    a: Seq<ValueView>,
    b: Seq<ValueView>,
    i: int,
    m: MessageView,
    rank: u8,
)
    requires
        0 <= i <= a.len(),
    ensures
        absorbed(a + b, i, m, rank) == match absorbed(a, i, m, rank) {
            Err(fault) => Err::<(MessageView, u8), CodecFault>(fault),
            Ok((m2, next)) => absorbed(b, 0, m2, next),
        },
    decreases a.len() - i,
{
    if i < a.len() {
        assert((a + b)[i] == a[i]);
        if let Ok((m2, next)) = extended(m, rank, a[i]) {
            absorbing_in_two_steps(a, b, i + 1, m2, next);
        }
    } else {
        absorbing_behind(a, b, 0, m, rank);
    }
}

proof fn absorbing_behind(
    a: Seq<ValueView>,
    b: Seq<ValueView>,
    i: int,
    m: MessageView,
    rank: u8,
)
    requires
        0 <= i <= b.len(),
    ensures
        absorbed(a + b, a.len() + i, m, rank) == absorbed(b, i, m, rank),
    decreases b.len() - i,
{
    if i < b.len() {
        assert((a + b)[a.len() + i] == b[i]);
        if let Ok((m2, next)) = extended(m, rank, b[i]) {
            absorbing_behind(a, b, i + 1, m2, next);
        }
    }
}

/// One section that may be absent.
proof fn absorbing_one(o: Option<ValueView>, m: MessageView, rank: u8)
    ensures
        absorbed(if_some(o), 0, m, rank) == match o {
            None => Ok::<(MessageView, u8), CodecFault>((m, rank)),
            Some(v) => extended(m, rank, v),
        },
{
    if let Some(v) = o {
        assert(if_some(o)[0] == v);
        if let Ok((m2, next)) = extended(m, rank, v) {
            assert(absorbed(if_some(o), 1, m2, next) == Ok::<(MessageView, u8), CodecFault>(
                (m2, next),
            ));
        }
    }
}

proof fn data_is_absorbed(sections: Seq<Seq<u8>>, i: int, m: MessageView, rank: u8)
    requires
        0 <= i <= sections.len(),
        sections.len() > 0,
        rank <= 6,
        m.body == if i == 0 {
            BodyView::Empty
        } else {
            BodyView::Data(sections.take(i))
        },
    ensures
        absorbed(data_sections(sections), i, m, rank) == Ok::<(MessageView, u8), CodecFault>(
            (
                MessageView { body: BodyView::Data(sections), ..m },
                if i == sections.len() {
                    rank
                } else {
                    6
                },
            ),
        ),
    decreases sections.len() - i,
{
    if i < sections.len() {
        let m2 = MessageView { body: BodyView::Data(sections.take(i + 1)), ..m };
        if i == 0 {
            assert(seq![sections[0]] =~= sections.take(1));
        } else {
            assert(sections.take(i).push(sections[i]) =~= sections.take(i + 1));
        }
        data_is_absorbed(sections, i + 1, m2, 6);
    } else {
        assert(sections.take(i) =~= sections);
    }
}

proof fn sequences_are_absorbed(
    sections: Seq<Seq<ValueView>>,
    i: int,
    m: MessageView,
    rank: u8,
)
    requires
        0 <= i <= sections.len(),
        sections.len() > 0,
        rank <= 6,
        m.body == if i == 0 {
            BodyView::Empty
        } else {
            BodyView::Sequence(sections.take(i))
        },
    ensures
        absorbed(sequence_sections(sections), i, m, rank) == Ok::<(MessageView, u8), CodecFault>(
            (
                MessageView { body: BodyView::Sequence(sections), ..m },
                if i == sections.len() {
                    rank
                } else {
                    6
                },
            ),
        ),
    decreases sections.len() - i,
{
    if i < sections.len() {
        let m2 = MessageView { body: BodyView::Sequence(sections.take(i + 1)), ..m };
        if i == 0 {
            assert(seq![sections[0]] =~= sections.take(1));
        } else {
            assert(sections.take(i).push(sections[i]) =~= sections.take(i + 1));
        }
        sequences_are_absorbed(sections, i + 1, m2, 6);
    } else {
        assert(sections.take(i) =~= sections);
    }
}

proof fn body_is_absorbed(m: MessageView, before: MessageView, rank: u8)
    requires
        body_sections(m.body) is Ok,
        before.body is Empty,
        rank <= 6,
    ensures
        absorbed(body_sections(m.body)->Ok_0, 0, before, rank) matches Ok((after, next)) && after
            == (MessageView { body: m.body, ..before }) && next <= 6,
{
    let body = body_sections(m.body)->Ok_0;
    match m.body {
        BodyView::Data(sections) => data_is_absorbed(sections, 0, before, rank),
        BodyView::Sequence(sections) => sequences_are_absorbed(sections, 0, before, rank),
        BodyView::Single(v) => {
            absorbing_one(Some(section(AMQP_VALUE, v)), before, rank);
            assert(if_some(Some(section(AMQP_VALUE, v))) =~= body);
        },
        BodyView::Empty => {
            assert(absorbed(body, 0, before, rank) == Ok::<(MessageView, u8), CodecFault>(
                (before, rank),
            ));
        },
    }
}

proof fn header_is_absorbed(m: MessageView, before: MessageView, rank: u8)
    requires
        sound_message(m),
        before.header is None,
        rank < 1,
    ensures
        absorbed(if_some(header_section(m)), 0, before, rank) matches Ok((after, next)) && after
            == (MessageView { header: m.header, ..before }) && next <= 1,
{
    absorbing_one(header_section(m), before, rank);
    if let Some(header) = m.header {
        Header::fields_read_back(header);
    }
}

proof fn delivery_annotations_are_absorbed(m: MessageView, before: MessageView, rank: u8)
    requires
        sound_message(m),
        before.delivery_annotations is None,
        rank < 2,
    ensures
        absorbed(
            if_some(annotations_section(DELIVERY_ANNOTATIONS, m.delivery_annotations)),
            0,
            before,
            rank,
        ) matches Ok((after, next)) && next <= 2 && after == (MessageView {
            delivery_annotations: m.delivery_annotations,
            ..before
        }),
{
    absorbing_one(annotations_section(DELIVERY_ANNOTATIONS, m.delivery_annotations), before, rank);
    if let Some(a) = m.delivery_annotations {
        <Annotations as Field>::reads_back(a);
    }
}

proof fn message_annotations_are_absorbed(m: MessageView, before: MessageView, rank: u8)
    requires
        sound_message(m),
        before.message_annotations is None,
        rank < 3,
    ensures
        absorbed(
            if_some(annotations_section(MESSAGE_ANNOTATIONS, m.message_annotations)),
            0,
            before,
            rank,
        ) matches Ok((after, next)) && next <= 3 && after == (MessageView {
            message_annotations: m.message_annotations,
            ..before
        }),
{
    absorbing_one(annotations_section(MESSAGE_ANNOTATIONS, m.message_annotations), before, rank);
    if let Some(a) = m.message_annotations {
        <Annotations as Field>::reads_back(a);
    }
}

proof fn properties_are_absorbed(m: MessageView, before: MessageView, rank: u8)
    requires
        sound_message(m),
        before.properties is None,
        rank < 4,
    ensures
        absorbed(if_some(properties_section(m)), 0, before, rank) matches Ok((after, next)) && after
            == (MessageView { properties: m.properties, ..before }) && next <= 4,
{
    absorbing_one(properties_section(m), before, rank);
    if let Some(properties) = m.properties {
        Properties::fields_read_back(properties);
    }
}

proof fn application_properties_are_absorbed(m: MessageView, before: MessageView, rank: u8)
    requires
        sound_message(m),
        before.application_properties is None,
        rank < 5,
    ensures
        absorbed(if_some(application_section(m)), 0, before, rank) matches Ok((after, next))
            && next <= 5 && after == (MessageView {
            application_properties: m.application_properties,
            ..before
        }),
{
    absorbing_one(application_section(m), before, rank);
    if let Some(p) = m.application_properties {
        <PropertiesMap as Field>::reads_back(p);
    }
}

proof fn footer_is_absorbed(m: MessageView, before: MessageView, rank: u8)
    requires
        sound_message(m),
        before.footer is None,
        rank < 7,
    ensures
        absorbed(if_some(footer_section(m)), 0, before, rank) matches Ok((after, next)) && after
            == (MessageView { footer: m.footer, ..before }) && next <= 7,
{
    absorbing_one(footer_section(m), before, rank);
    if let Some(a) = m.footer {
        <Annotations as Field>::reads_back(a);
    }
}

/// What is absorbed section by section, and then what follows.
proof fn absorbing_on(
    a: Seq<ValueView>,
    b: Seq<ValueView>,
    m: MessageView,
    next: MessageView,
    r: u8,
)
    requires
        absorbed(a, 0, m, 0) == Ok::<(MessageView, u8), CodecFault>((next, r)),
    ensures
        absorbed(a + b, 0, m, 0) == absorbed(b, 0, next, r),
{
    absorbing_in_two_steps(a, b, 0, m, 0);
}

/// The sections of a message make the message.
pub proof fn sections_make_the_message(m: MessageView)
    requires
        sound_message(m),
    ensures
        absorbed(all_sections(m), 0, types::no_message(), 0) matches Ok((made, _)) && made == m,
{
    let s1 = if_some(header_section(m));
    let s2 = if_some(annotations_section(DELIVERY_ANNOTATIONS, m.delivery_annotations));
    let s3 = if_some(annotations_section(MESSAGE_ANNOTATIONS, m.message_annotations));
    let s4 = if_some(properties_section(m));
    let s5 = if_some(application_section(m));
    let s6 = body_sections(m.body)->Ok_0;
    let s7 = if_some(footer_section(m));
    let m0 = types::no_message();
    header_is_absorbed(m, m0, 0);
    let (m1, r1) = absorbed(s1, 0, m0, 0)->Ok_0;
    delivery_annotations_are_absorbed(m, m1, r1);
    let (m2, r2) = absorbed(s2, 0, m1, r1)->Ok_0;
    absorbing_on(s1, s2, m0, m1, r1);
    message_annotations_are_absorbed(m, m2, r2);
    let (m3, r3) = absorbed(s3, 0, m2, r2)->Ok_0;
    absorbing_on(s1 + s2, s3, m0, m2, r2);
    properties_are_absorbed(m, m3, r3);
    let (m4, r4) = absorbed(s4, 0, m3, r3)->Ok_0;
    absorbing_on(s1 + s2 + s3, s4, m0, m3, r3);
    application_properties_are_absorbed(m, m4, r4);
    let (m5, r5) = absorbed(s5, 0, m4, r4)->Ok_0;
    absorbing_on(s1 + s2 + s3 + s4, s5, m0, m4, r4);
    body_is_absorbed(m, m5, r5);
    let (m6, r6) = absorbed(s6, 0, m5, r5)->Ok_0;
    absorbing_on(s1 + s2 + s3 + s4 + s5, s6, m0, m5, r5);
    footer_is_absorbed(m, m6, r6);
    absorbing_on(s1 + s2 + s3 + s4 + s5 + s6, s7, m0, m6, r6);
}

/// What is written for each section.
pub open spec fn parts_of(s: Seq<ValueView>) -> Seq<Seq<u8>> {
    Seq::new(s.len(), |i: int| encoding::encoded(s[i])->Ok_0)
}

proof fn encoding_joins_the_parts(s: Seq<ValueView>, i: int, octets: Seq<u8>)
    requires
        0 <= i <= s.len(),
        encoded_from(s, i, octets) is Ok,
    ensures
        encoded_from(s, i, octets)->Ok_0 == octets + joined(parts_of(s), i),
    decreases s.len() - i,
{
    if i < s.len() {
        let part = encoding::encoded(s[i])->Ok_0;
        encoding_joins_the_parts(s, i + 1, octets + part);
        assert(octets + part + joined(parts_of(s), i + 1) =~= octets + (part + joined(
            parts_of(s),
            i + 1,
        )));
    } else {
        assert(octets + joined(parts_of(s), i) =~= octets);
    }
}

proof fn joining_two_lists(a: Seq<Seq<u8>>, b: Seq<Seq<u8>>, i: int)
    requires
        0 <= i <= a.len(),
    ensures
        joined(a + b, i) == joined(a, i) + joined(b, 0),
    decreases a.len() - i,
{
    if i < a.len() {
        joining_two_lists(a, b, i + 1);
        assert((a + b)[i] == a[i]);
        assert(a[i] + (joined(a, i + 1) + joined(b, 0)) =~= a[i] + joined(a, i + 1) + joined(b, 0));
    } else {
        joining_behind(a, b, 0);
        assert(joined(a, i) + joined(b, 0) =~= joined(b, 0));
    }
}

proof fn joining_behind(a: Seq<Seq<u8>>, b: Seq<Seq<u8>>, i: int)
    requires
        0 <= i <= b.len(),
    ensures
        joined(a + b, a.len() + i) == joined(b, i),
    decreases b.len() - i,
{
    if i < b.len() {
        joining_behind(a, b, i + 1);
        assert((a + b)[a.len() + i] == b[i]);
    }
}

// ---- how it is done --------------------------------------------------------

/// Appends the encoding of sections.
#[verifier::loop_isolation(false)]
fn append_sections(octets: &mut Vec<u8>, sections: &Vec<AmqpValue>) -> (done: Result<
    (),
    CodecFault,
>)
    ensures
        match done {
            Ok(_) => encoded_from(value::meanings(sections@), 0, old(octets)@) == Ok::<
                Seq<u8>,
                CodecFault,
            >(final(octets)@) && written(
                value::meanings(sections@),
                parts_of(value::meanings(sections@)),
            ),
            Err(fault) => encoded_from(value::meanings(sections@), 0, old(octets)@) == Err::<
                Seq<u8>,
                CodecFault,
            >(fault) && !all_encodable(value::meanings(sections@)),
        },
{
    let ghost s = value::meanings(sections@);
    let ghost whole = encoded_from(s, 0, octets@);
    let mut i: usize = 0;
    while i < sections.len()
        invariant
            i <= sections@.len(),
            encoded_from(s, i as int, octets@) == whole,
            forall|k: int|
                #![trigger parts_of(s)[k]]
                0 <= k < i ==> encoding::reads_back(s[k], parts_of(s)[k]),
        decreases sections@.len() - i,
    {
        proof {
            assert(s[i as int] == value::meaning(sections@[i as int]));
        }
        let encoded = encode_value(&sections[i])?;
        proof {
            assert(parts_of(s)[i as int] == encoded@);
        }
        bytes::append(octets, encoded.as_slice());
        i = i + 1;
    }
    Ok(())
}

fn annotations_to_value(code: u64, annotations: &Annotations) -> (value: AmqpValue)
    ensures
        value::meaning(value) == section(
            code,
            <Annotations as Field>::value_of(annotations.deep_view()),
        ),
{
    described(code, annotations.to_value())
}

fn push_section(sections: &mut Vec<AmqpValue>, section: AmqpValue)
    ensures
        value::meanings(final(sections)@) == value::meanings(old(sections)@) + seq![
            value::meaning(section),
        ],
{
    let ghost before = value::meanings(sections@);
    let ghost last = value::meaning(section);
    sections.push(section);
    proof {
        assert(value::meanings(sections@) =~= before + seq![last]);
    }
}

fn push_leading(message: &Message) -> (sections: Vec<AmqpValue>)
    ensures
        value::meanings(sections@) == leading_sections(message.deep_view()),
{
    let ghost m = message.deep_view();
    let mut sections: Vec<AmqpValue> = Vec::new();
    let ghost none = Seq::<ValueView>::empty();
    proof {
        assert(value::meanings(sections@) =~= none);
    }
    if let Some(header) = &message.header {
        push_section(&mut sections, write_composite(header));
    }
    proof {
        assert(value::meanings(sections@) =~= if_some(header_section(m)));
    }
    let ghost s1 = value::meanings(sections@);
    if let Some(annotations) = &message.delivery_annotations {
        push_section(&mut sections, annotations_to_value(DELIVERY_ANNOTATIONS, annotations));
    }
    proof {
        assert(value::meanings(sections@) =~= s1 + if_some(
            annotations_section(DELIVERY_ANNOTATIONS, m.delivery_annotations),
        ));
    }
    let ghost s2 = value::meanings(sections@);
    if let Some(annotations) = &message.message_annotations {
        push_section(&mut sections, annotations_to_value(MESSAGE_ANNOTATIONS, annotations));
    }
    proof {
        assert(value::meanings(sections@) =~= s2 + if_some(
            annotations_section(MESSAGE_ANNOTATIONS, m.message_annotations),
        ));
    }
    let ghost s3 = value::meanings(sections@);
    if let Some(properties) = &message.properties {
        push_section(&mut sections, write_composite(properties));
    }
    proof {
        assert(value::meanings(sections@) =~= s3 + if_some(properties_section(m)));
    }
    let ghost s4 = value::meanings(sections@);
    if let Some(properties) = &message.application_properties {
        push_section(
            &mut sections,
            described(APPLICATION_PROPERTIES, properties.0.to_value()),
        );
    }
    proof {
        assert(value::meanings(sections@) =~= s4 + if_some(application_section(m)));
    }
    sections
}

#[verifier::loop_isolation(false)]
fn push_body(body: &Body) -> (sections: Result<Vec<AmqpValue>, CodecFault>)
    ensures
        match sections {
            Ok(sections) => body_sections(body.deep_view()) == Ok::<Seq<ValueView>, CodecFault>(
                value::meanings(sections@),
            ),
            Err(fault) => body_sections(body.deep_view()) == Err::<Seq<ValueView>, CodecFault>(
                fault,
            ),
        },
{
    let mut made: Vec<AmqpValue> = Vec::new();
    match body {
        Body::Data(sections) => {
            if sections.len() == 0 {
                return Err(CodecFault::EmptyBody);
            }
            let ghost s = sections.deep_view();
            let mut i: usize = 0;
            while i < sections.len()
                invariant
                    i <= sections@.len(),
                    made@.len() == i,
                    forall|k: int|
                        0 <= k < i ==> value::meaning(#[trigger] made@[k]) == data_sections(s)[k],
                decreases sections@.len() - i,
            {
                let octets = bytes::copy_bytes(sections[i].as_slice());
                proof {
                    assert(s[i as int] == sections@[i as int].deep_view());
                    assert(sections@[i as int].deep_view() =~= octets@);
                }
                made.push(described(DATA, AmqpValue::Binary(octets)));
                i = i + 1;
            }
            proof {
                assert(value::meanings(made@) =~= data_sections(s));
            }
            Ok(made)
        },
        Body::Sequence(sections) => {
            if sections.len() == 0 {
                return Err(CodecFault::EmptyBody);
            }
            let ghost s = types::sequences(sections@);
            let mut i: usize = 0;
            while i < sections.len()
                invariant
                    i <= sections@.len(),
                    made@.len() == i,
                    forall|k: int|
                        0 <= k < i ==> value::meaning(#[trigger] made@[k]) == sequence_sections(
                            s,
                        )[k],
                decreases sections@.len() - i,
            {
                made.push(
                    described(AMQP_SEQUENCE, AmqpValue::List(value::copy_values(&sections[i]))),
                );
                i = i + 1;
            }
            proof {
                assert(value::meanings(made@) =~= sequence_sections(s));
            }
            Ok(made)
        },
        Body::Single(single) => {
            made.push(described(AMQP_VALUE, single.copied()));
            proof {
                assert(value::meanings(made@) =~= seq![section(AMQP_VALUE, single.deep_view())]);
            }
            Ok(made)
        },
        Body::Empty => {
            proof {
                assert(value::meanings(made@) =~= Seq::<ValueView>::empty());
            }
            Ok(made)
        },
    }
}

/// Encodes a message. What was encoded is decoded to the same message.
pub fn encode_message(message: &Message) -> (octets: Result<Vec<u8>, CodecFault>)
    ensures
        match octets {
            Ok(octets) => {
                &&& message_octets(message.deep_view()) == Ok::<Seq<u8>, CodecFault>(octets@)
                &&& message_reads_back(message.deep_view()) ==> message_of(octets@) == Ok::<
                    MessageView,
                    CodecFault,
                >(message.deep_view())
            },
            Err(fault) => message_octets(message.deep_view()) == Err::<Seq<u8>, CodecFault>(fault)
                && !message_is_encodable(message.deep_view()),
        },
{
    let ghost m = message.deep_view();
    let mut octets: Vec<u8> = Vec::new();
    proof {
        if message_is_encodable(m) {
            parts_of_encodable_messages(m);
        }
        assert(octets@ =~= Seq::<u8>::empty());
    }
    let leading = push_leading(message);
    append_sections(&mut octets, &leading)?;
    let ghost first = octets@;
    let body = push_body(&message.body)?;
    append_sections(&mut octets, &body)?;
    let ghost second = octets@;
    let mut trailing: Vec<AmqpValue> = Vec::new();
    proof {
        assert(value::meanings(trailing@) =~= Seq::<ValueView>::empty());
    }
    if let Some(footer) = &message.footer {
        push_section(&mut trailing, annotations_to_value(FOOTER, footer));
    }
    proof {
        assert(value::meanings(trailing@) =~= if_some(footer_section(m)));
    }
    append_sections(&mut octets, &trailing)?;
    proof {
        let a = value::meanings(leading@);
        let b = value::meanings(body@);
        let c = value::meanings(trailing@);
        encoding_joins_the_parts(a, 0, Seq::empty());
        encoding_joins_the_parts(b, 0, first);
        encoding_joins_the_parts(c, 0, second);
        joining_two_lists(parts_of(a), parts_of(b), 0);
        joining_two_lists(parts_of(a) + parts_of(b), parts_of(c), 0);
        let s = all_sections(m);
        let parts = parts_of(a) + parts_of(b) + parts_of(c);
        assert(parts =~= parts_of(s));
        assert(octets@ =~= joined(parts, 0));
        assert forall|i: int|
            #![trigger parts[i]]
            0 <= i < s.len() implies encoding::reads_back(s[i], parts[i]) by {
            if i < a.len() {
                assert(parts[i] == parts_of(a)[i]);
            } else if i < a.len() + b.len() {
                assert(parts[i] == parts_of(b)[i - a.len()]);
            } else {
                assert(parts[i] == parts_of(c)[i - a.len() - b.len()]);
            }
        }
        if message_reads_back(m) {
            sections_are_absorbed(s, parts, 0, types::no_message(), 0);
            sections_make_the_message(m);
        }
    }
    Ok(octets)
}

/// The place of a section in a message.
fn message_section_rank(code: u64) -> (rank: Option<u8>)
    ensures
        rank == section_rank(code),
{
    if code == HEADER {
        Some(1)
    } else if code == DELIVERY_ANNOTATIONS {
        Some(2)
    } else if code == MESSAGE_ANNOTATIONS {
        Some(3)
    } else if code == PROPERTIES {
        Some(4)
    } else if code == APPLICATION_PROPERTIES {
        Some(5)
    } else if code == DATA || code == AMQP_SEQUENCE || code == AMQP_VALUE {
        Some(6)
    } else if code == FOOTER {
        Some(7)
    } else {
        None
    }
}

/// Adds a body section.
fn add_body_section(body: Body, code: u64, inner: &AmqpValue) -> (added: Result<Body, CodecFault>)
    ensures
        match added {
            Ok(added) => body_with_section(body.deep_view(), code, value::meaning(*inner)) == Ok::<
                BodyView,
                CodecFault,
            >(added.deep_view()),
            Err(fault) => body_with_section(body.deep_view(), code, value::meaning(*inner))
                == Err::<BodyView, CodecFault>(fault),
        },
{
    if code == DATA {
        match inner {
            AmqpValue::Binary(octets) => {
                let copy = octets.copied();
                proof {
                    assert(octets.deep_view() =~= octets@);
                }
                match body {
                    Body::Empty => {
                        let mut sections: Vec<Vec<u8>> = Vec::new();
                        sections.push(copy);
                        proof {
                            assert(sections.deep_view() =~= seq![octets@]);
                        }
                        Ok(Body::Data(sections))
                    },
                    Body::Data(sections) => {
                        let mut sections = sections;
                        let ghost before = sections.deep_view();
                        sections.push(copy);
                        proof {
                            assert(sections.deep_view() =~= before.push(octets@));
                        }
                        Ok(Body::Data(sections))
                    },
                    _ => Err(CodecFault::MixedBody),
                }
            },
            _ => Err(CodecFault::NotData),
        }
    } else if code == AMQP_SEQUENCE {
        match inner {
            AmqpValue::List(items) => {
                let copy = value::copy_values(items);
                match body {
                    Body::Empty => {
                        let mut sections: Vec<Vec<AmqpValue>> = Vec::new();
                        sections.push(copy);
                        proof {
                            assert(types::sequences(sections@) =~= seq![value::meanings(items@)]);
                        }
                        Ok(Body::Sequence(sections))
                    },
                    Body::Sequence(sections) => {
                        let mut sections = sections;
                        let ghost before = types::sequences(sections@);
                        sections.push(copy);
                        proof {
                            assert(types::sequences(sections@) =~= before.push(
                                value::meanings(items@),
                            ));
                        }
                        Ok(Body::Sequence(sections))
                    },
                    _ => Err(CodecFault::MixedBody),
                }
            },
            _ => Err(CodecFault::NotSequence),
        }
    } else {
        match body {
            Body::Empty => Ok(Body::Single(inner.copied())),
            _ => Err(CodecFault::MixedBody),
        }
    }
}

/// Adds a section to a message.
fn add_section(message: Message, code: u64, inner: &AmqpValue) -> (added: Result<
    Message,
    CodecFault,
>)
    requires
        section_rank(code) is Some,
    ensures
        match added {
            Ok(added) => with_section(message.deep_view(), code, value::meaning(*inner)) == Ok::<
                MessageView,
                CodecFault,
            >(added.deep_view()),
            Err(fault) => with_section(message.deep_view(), code, value::meaning(*inner)) == Err::<
                MessageView,
                CodecFault,
            >(fault),
        },
{
    let mut message = message;
    if code == HEADER {
        if message.header.is_some() {
            return Err(CodecFault::DuplicateSection(code));
        }
        let f = take_list(inner)?;
        let header = Header::read_fields(f)?;
        message.header = Some(header);
    } else if code == DELIVERY_ANNOTATIONS {
        if message.delivery_annotations.is_some() {
            return Err(CodecFault::DuplicateSection(code));
        }
        let annotations = <Annotations as Field>::from_value(inner)?;
        message.delivery_annotations = Some(annotations);
    } else if code == MESSAGE_ANNOTATIONS {
        if message.message_annotations.is_some() {
            return Err(CodecFault::DuplicateSection(code));
        }
        let annotations = <Annotations as Field>::from_value(inner)?;
        message.message_annotations = Some(annotations);
    } else if code == PROPERTIES {
        if message.properties.is_some() {
            return Err(CodecFault::DuplicateSection(code));
        }
        let f = take_list(inner)?;
        let properties = Properties::read_fields(f)?;
        message.properties = Some(properties);
    } else if code == APPLICATION_PROPERTIES {
        if message.application_properties.is_some() {
            return Err(CodecFault::DuplicateSection(code));
        }
        let properties = <PropertiesMap as Field>::from_value(inner)?;
        message.application_properties = Some(ApplicationProperties(properties));
    } else if code == FOOTER {
        if message.footer.is_some() {
            return Err(CodecFault::DuplicateSection(code));
        }
        let annotations = <Annotations as Field>::from_value(inner)?;
        message.footer = Some(annotations);
    } else {
        let body = add_body_section(message.body, code, inner)?;
        message.body = body;
    }
    Ok(message)
}

/// Decodes a message.
#[verifier::loop_isolation(false)]
pub fn decode_message(encoded: &[u8]) -> (message: Result<Message, CodecFault>)
    ensures
        match message {
            Ok(message) => message_of(encoded@) == Ok::<MessageView, CodecFault>(
                message.deep_view(),
            ),
            Err(fault) => message_of(encoded@) == Err::<MessageView, CodecFault>(fault),
        },
{
    let total: usize = encoded.len();
    let mut message = Message::default();
    let mut offset: usize = 0;
    let mut last: u8 = 0;
    let ghost whole = message_of(encoded@);
    proof {
        assert(encoded@.skip(0) =~= encoded@);
    }
    while offset < total
        invariant
            offset <= total == encoded@.len(),
            message_from(encoded@.skip(offset as int), message.deep_view(), last) == whole,
        decreases total - offset,
    {
        let rest = vstd::slice::slice_subrange(encoded, offset, total);
        proof {
            assert(rest@ =~= encoded@.skip(offset as int));
            shape::value_len_is_bounded(rest@);
        }
        let n: usize = encoded_value_len(rest)?;
        let part = vstd::slice::slice_subrange(rest, 0, n);
        proof {
            assert(part@ =~= rest@.take(n as int));
            assert(rest@.skip(n as int) =~= encoded@.skip(offset + n));
        }
        let decoded = decode_value(part)?;
        let (code, inner) = take_described(&decoded)?;
        let rank: u8 = match message_section_rank(code) {
            Some(rank) => rank,
            None => return Err(CodecFault::UnknownSection(code)),
        };
        if rank < last {
            return Err(CodecFault::SectionOrder);
        }
        message = add_section(message, code, inner)?;
        last = rank;
        offset = offset + n;
    }
    proof {
        assert(encoded@.skip(offset as int) =~= Seq::<u8>::empty());
    }
    Ok(message)
}

} // verus!
