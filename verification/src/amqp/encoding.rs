//! AMQP values and their octets.
//!
//! The encoding itself is `serde_amqp`'s. What that crate does is believed; how
//! values are carried to it and back is proved.

use vstd::prelude::*;

use crate::amqp::fault::CodecFault;
use crate::amqp::shape;
use crate::amqp::value;
use crate::amqp::value::{AmqpValue, Descriptor, DescriptorView, Symbol, ValueView};
use crate::bytes;

verus! {

/// A value as `serde_amqp` holds it.
#[verifier::external_type_specification]
#[verifier::external_body]
pub struct ExAmqpValue(serde_amqp::Value);

/// What a value of `serde_amqp` holds.
pub uninterp spec fn held(value: serde_amqp::Value) -> ValueView;

/// Whether `serde_amqp` takes two values for one key.
pub uninterp spec fn same_key(a: ValueView, b: ValueView) -> bool;

/// The octets that `serde_amqp` writes for a value, if it writes any.
pub uninterp spec fn amqp_encoded(value: ValueView) -> Option<Seq<u8>>;

/// The value that `serde_amqp` reads from octets, if it reads one.
pub uninterp spec fn amqp_decoded(octets: Seq<u8>) -> Option<ValueView>;

// ---- kinds of values -------------------------------------------------------

pub open spec fn is_integer(v: ValueView) -> bool {
    match v {
        ValueView::Null => true,
        ValueView::Bool(_) => true,
        ValueView::Ubyte(_) => true,
        ValueView::Ushort(_) => true,
        ValueView::Uint(_) => true,
        ValueView::Ulong(_) => true,
        ValueView::Byte(_) => true,
        ValueView::Short(_) => true,
        ValueView::Int(_) => true,
        ValueView::Long(_) => true,
        _ => false,
    }
}

pub open spec fn is_text(v: ValueView) -> bool {
    match v {
        ValueView::Char(_) => true,
        ValueView::Timestamp(_) => true,
        ValueView::Uuid(_) => true,
        ValueView::Binary(_) => true,
        ValueView::String(_) => true,
        ValueView::Symbol(_) => true,
        _ => false,
    }
}

pub open spec fn is_real(v: ValueView) -> bool {
    match v {
        ValueView::Float(_) => true,
        ValueView::Double(_) => true,
        ValueView::Decimal32(_) => true,
        ValueView::Decimal64(_) => true,
        ValueView::Decimal128(_) => true,
        _ => false,
    }
}

/// A key that is told from others by what it holds.
pub open spec fn is_plain_key(v: ValueView) -> bool {
    is_integer(v) || is_text(v)
}

/// Whether two keys are one.
pub open spec fn keys_agree(a: ValueView, b: ValueView) -> bool {
    if is_plain_key(a) && is_plain_key(b) {
        a == b
    } else {
        same_key(a, b)
    }
}

/// Whether no key occurs twice.
pub open spec fn keys_differ(entries: Seq<(ValueView, ValueView)>) -> bool {
    forall|i: int, j: int|
        #![trigger entries[i], entries[j]]
        0 <= i < j < entries.len() ==> !keys_agree(entries[i].0, entries[j].0)
}

/// What a serializer still takes the next text, octets or number for.
#[derive(Clone, Copy, Debug, PartialEq, Eq, Structural)]
pub enum Mark {
    Plain,
    Symbol,
    Timestamp,
}

/// What a serializer of `serde_amqp` carries from one value to the next: its
/// mark, whether it takes sequences for arrays, and whether it writes an element
/// of an array. It writes a descriptor and the value behind it with one
/// serializer, and so it does the key and the value of a map's entry. Every item
/// of a list, map or array gets a new one.
#[derive(Clone, Copy, Debug, PartialEq, Eq, Structural)]
pub struct Pen {
    pub mark: Mark,
    pub array: bool,
    pub element: bool,
}

/// A new serializer.
pub open spec fn new_pen(element: bool) -> Pen {
    Pen { mark: Mark::Plain, array: false, element }
}

/// A serializer that has written a symbol. It forgets the mark, except in an
/// array.
pub open spec fn behind_symbol(pen: Pen) -> Pen {
    Pen {
        mark: if pen.element {
            Mark::Symbol
        } else {
            Mark::Plain
        },
        ..pen
    }
}

pub open spec fn behind_descriptor(descriptor: DescriptorView, pen: Pen) -> Pen {
    match descriptor {
        DescriptorView::Name(_) => behind_symbol(pen),
        DescriptorView::Code(_) => pen,
    }
}

/// A serializer that has written `v`, or nothing where it cannot go on: a mark
/// that does not fit the value ends it, and no map holds a key twice.
pub open spec fn behind(v: ValueView, pen: Pen) -> Option<Pen>
    decreases v,
{
    match v {
        ValueView::Long(_) => if pen.mark is Symbol {
            None
        } else {
            Some(pen)
        },
        ValueView::Timestamp(_) => Some(Pen { mark: Mark::Timestamp, ..pen }),
        ValueView::Binary(_) => if pen.mark is Plain {
            Some(pen)
        } else {
            None
        },
        ValueView::String(_) => match pen.mark {
            Mark::Plain => Some(pen),
            Mark::Symbol => Some(behind_symbol(pen)),
            Mark::Timestamp => None,
        },
        ValueView::Symbol(_) => Some(behind_symbol(pen)),
        ValueView::Uuid(_) => Some(Pen { mark: Mark::Plain, ..pen }),
        ValueView::Decimal32(_) => Some(Pen { mark: Mark::Plain, ..pen }),
        ValueView::Decimal64(_) => Some(Pen { mark: Mark::Plain, ..pen }),
        ValueView::Decimal128(_) => Some(Pen { mark: Mark::Plain, ..pen }),
        ValueView::List(items) => if forall|i: int|
            0 <= i < items.len() ==> behind(#[trigger] items[i], new_pen(pen.array)) is Some {
            Some(pen)
        } else {
            None
        },
        ValueView::Array(items) => if forall|i: int|
            0 <= i < items.len() ==> behind(#[trigger] items[i], new_pen(true)) is Some {
            Some(Pen { array: true, ..pen })
        } else {
            None
        },
        ValueView::Mapping(entries) => if keys_differ(entries) && forall|i: int|
            #![trigger entries[i]]
            0 <= i < entries.len() ==> match behind(entries[i].0, new_pen(false)) {
                Some(left) => behind(entries[i].1, left) is Some,
                None => false,
            } {
            Some(pen)
        } else {
            None
        },
        ValueView::Described(descriptor, inner) => behind(
            *inner,
            behind_descriptor(descriptor, pen),
        ),
        _ => Some(pen),
    }
}

/// What can be written.
pub open spec fn writable(v: ValueView) -> bool {
    behind(v, new_pen(false)) is Some
}

/// How many items a list, map or array may have to be read.
pub const MAX_ITEMS: usize = 65_536;

/// Whether every character of a text is an ASCII one.
pub open spec fn is_ascii_text(text: Seq<char>) -> bool {
    forall|i: int| 0 <= i < text.len() ==> (#[trigger] text[i]) as nat <= 127
}

/// Whether an array can be read that holds `a` beside `b`: its elements share
/// one format code. A text counts its characters there, and not its octets.
pub open spec fn share_a_code(a: ValueView, b: ValueView) -> bool {
    match a {
        ValueView::Bool(_) => b is Bool,
        ValueView::Ubyte(_) => b is Ubyte,
        ValueView::Ushort(_) => b is Ushort,
        ValueView::Uint(_) => b is Uint,
        ValueView::Ulong(_) => b is Ulong,
        ValueView::Byte(_) => b is Byte,
        ValueView::Short(_) => b is Short,
        ValueView::Int(_) => b is Int,
        ValueView::Long(_) => b is Long,
        ValueView::Float(_) => b is Float,
        ValueView::Double(_) => b is Double,
        ValueView::Decimal32(_) => b is Decimal32,
        ValueView::Decimal64(_) => b is Decimal64,
        ValueView::Decimal128(_) => b is Decimal128,
        ValueView::Char(_) => b is Char,
        ValueView::Timestamp(_) => b is Timestamp,
        ValueView::Uuid(_) => b is Uuid,
        ValueView::Binary(_) => b is Binary,
        ValueView::Symbol(_) => b is Symbol,
        ValueView::String(text) => b is String && is_ascii_text(text),
        _ => false,
    }
}

/// What a value is behind its descriptors.
pub open spec fn core_of(v: ValueView) -> ValueView
    decreases v,
{
    match v {
        ValueView::Described(_, inner) => core_of(*inner),
        _ => v,
    }
}

/// Whether the value of an entry is written for what it is behind its key: a
/// sequence behind an array is taken for an array, and a number behind a time
/// for a time.
pub open spec fn stands_behind(key: ValueView, value: ValueView) -> bool {
    &&& !(core_of(key) is Array && core_of(value) is List)
    &&& !(core_of(key) is Timestamp && core_of(value) is Long)
}

/// Whether a value is a map without entries.
pub open spec fn is_empty_map(v: ValueView) -> bool {
    v matches ValueView::Mapping(entries) && entries.len() == 0
}

/// Whether a value is a list without items.
pub open spec fn is_empty_list(v: ValueView) -> bool {
    v matches ValueView::List(items) && items.len() == 0
}

/// What is read back as it was written, whatever follows it: scalars, lists, maps,
/// described values, and arrays of one kind of scalar other than null, of maps
/// without entries, or of a single null, list or array.
pub open spec fn readable_anywhere(v: ValueView) -> bool
    decreases v,
{
    match v {
        ValueView::List(items) => items.len() <= MAX_ITEMS && forall|i: int|
            0 <= i < items.len() ==> readable_anywhere(#[trigger] items[i]),
        ValueView::Array(items) => items.len() <= MAX_ITEMS && {
            ||| forall|i: int|
                0 <= i < items.len() ==> share_a_code(#[trigger] items[i], items[0])
            ||| forall|i: int| 0 <= i < items.len() ==> is_empty_map(#[trigger] items[i])
            ||| items.len() == 1 && items[0] is Null
            ||| items.len() == 1 && (items[0] is List || items[0] is Array) && readable_anywhere(
                items[0],
            )
        },
        ValueView::Mapping(entries) => 2 * entries.len() <= MAX_ITEMS && forall|i: int|
            #![trigger entries[i]]
            0 <= i < entries.len() ==> {
                &&& readable_anywhere(entries[i].0)
                &&& readable_anywhere(entries[i].1)
                &&& stands_behind(entries[i].0, entries[i].1)
            },
        ValueView::Described(_, inner) => readable_anywhere(*inner),
        _ => true,
    }
}

/// What is read back as it was written. What stands last in it may also be an array
/// of nulls, or of lists without items: these are written with an octet each, of
/// which only the first is read.
pub open spec fn readable(v: ValueView) -> bool
    decreases v,
{
    ||| readable_anywhere(v)
    ||| match v {
        ValueView::List(items) => {
            &&& 0 < items.len() <= MAX_ITEMS
            &&& forall|i: int|
                0 <= i < items.len() - 1 ==> readable_anywhere(#[trigger] items[i])
            &&& readable(items[items.len() - 1])
        },
        ValueView::Array(items) => items.len() <= MAX_ITEMS && {
            ||| forall|i: int| 0 <= i < items.len() ==> (#[trigger] items[i]) is Null
            ||| forall|i: int| 0 <= i < items.len() ==> is_empty_list(#[trigger] items[i])
            ||| items.len() == 1 && (items[0] is List || items[0] is Array) && readable(items[0])
        },
        ValueView::Mapping(entries) => {
            &&& 0 < 2 * entries.len() <= MAX_ITEMS
            &&& forall|i: int|
                #![trigger entries[i]]
                0 <= i < entries.len() ==> {
                    &&& readable_anywhere(entries[i].0)
                    &&& i < entries.len() - 1 ==> readable_anywhere(entries[i].1)
                    &&& stands_behind(entries[i].0, entries[i].1)
                }
            &&& readable(entries[entries.len() - 1].1)
        },
        ValueView::Described(_, inner) => readable(*inner),
        _ => false,
    }
}

/// How many octets a value takes at most.
pub open spec fn weight(v: ValueView) -> nat
    decreases v, 0nat,
{
    match v {
        ValueView::Binary(octets) => 5 + octets.len(),
        ValueView::String(text) => 5 + bytes::utf8(text).len(),
        ValueView::Symbol(text) => 5 + bytes::utf8(text).len(),
        ValueView::List(items) => 9 + weight_of_all(items, items.len()),
        ValueView::Array(items) => 9 + weight_of_all(items, items.len()),
        ValueView::Mapping(entries) => 9 + weight_of_entries(entries, entries.len()),
        ValueView::Described(DescriptorView::Name(name), inner) => 6 + bytes::utf8(name).len()
            + weight(*inner),
        ValueView::Described(DescriptorView::Code(_), inner) => 10 + weight(*inner),
        _ => 17,
    }
}

/// How many octets the first `n` of several values take at most.
pub open spec fn weight_of_all(items: Seq<ValueView>, n: nat) -> nat
    decreases items, n,
{
    if n == 0 || n > items.len() {
        0
    } else {
        weight_of_all(items, (n - 1) as nat) + weight(items[n - 1])
    }
}

/// How many octets the first `n` entries of a map take at most.
pub open spec fn weight_of_entries(entries: Seq<(ValueView, ValueView)>, n: nat) -> nat
    decreases entries, n,
{
    if n == 0 || n > entries.len() {
        0
    } else {
        weight_of_entries(entries, (n - 1) as nat) + weight(entries[n - 1].0) + weight(
            entries[n - 1].1,
        )
    }
}

/// The longest content that a length of four octets can tell, beside a count.
pub const MAX_CONTENT: u32 = 0xffff_fffb;

/// Whether a value can be written, and is short enough to be.
pub open spec fn encodable(v: ValueView) -> bool {
    writable(v) && weight(v) <= MAX_CONTENT
}

pub open spec fn held_all(items: Seq<serde_amqp::Value>) -> Seq<ValueView> {
    Seq::new(items.len(), |i: int| held(items[i]))
}

pub open spec fn held_entries(entries: Seq<(serde_amqp::Value, serde_amqp::Value)>) -> Seq<
    (ValueView, ValueView),
> {
    Seq::new(entries.len(), |i: int| (held(entries[i].0), held(entries[i].1)))
}

// ---- values in the hands of serde_amqp -------------------------------------

/// Makes a `serde_amqp::Value` of a null, boolean or integer. It holds the same,
/// under the variant of the same name.
#[verifier::external_body]
fn outside_integer(value: &AmqpValue) -> (made: Option<serde_amqp::Value>)
    ensures
        match made {
            Some(made) => held(made) == value::meaning(*value),
            None => !is_integer(value::meaning(*value)),
        },
{
    Some(match value {
        AmqpValue::Null => serde_amqp::Value::Null,
        AmqpValue::Bool(v) => serde_amqp::Value::Bool(*v),
        AmqpValue::Ubyte(v) => serde_amqp::Value::Ubyte(*v),
        AmqpValue::Ushort(v) => serde_amqp::Value::Ushort(*v),
        AmqpValue::Uint(v) => serde_amqp::Value::Uint(*v),
        AmqpValue::Ulong(v) => serde_amqp::Value::Ulong(*v),
        AmqpValue::Byte(v) => serde_amqp::Value::Byte(*v),
        AmqpValue::Short(v) => serde_amqp::Value::Short(*v),
        AmqpValue::Int(v) => serde_amqp::Value::Int(*v),
        AmqpValue::Long(v) => serde_amqp::Value::Long(*v),
        _ => return None,
    })
}

/// Makes a `serde_amqp::Value` of a character, time, identifier, octets, string
/// or symbol. It holds the same, under the variant of the same name.
#[verifier::external_body]
fn outside_text(value: &AmqpValue) -> (made: Option<serde_amqp::Value>)
    ensures
        match made {
            Some(made) => held(made) == value::meaning(*value),
            None => !is_text(value::meaning(*value)),
        },
{
    Some(match value {
        AmqpValue::Char(v) => serde_amqp::Value::Char(*v),
        AmqpValue::Timestamp(v) => serde_amqp::Value::Timestamp((*v).into()),
        AmqpValue::Uuid(v) => serde_amqp::Value::Uuid((*v).into()),
        AmqpValue::Binary(v) => serde_amqp::Value::Binary(v.clone().into()),
        AmqpValue::String(v) => serde_amqp::Value::String(v.clone()),
        AmqpValue::Symbol(v) => serde_amqp::Value::Symbol(v.0.clone().into()),
        _ => return None,
    })
}

/// Makes a `serde_amqp::Value` of a floating point or decimal number. A decimal
/// one is made of its octets. A floating point one is read, with
/// `serde_amqp::from_slice`, from its format code and its octets in network
/// order, which are its encoding; it then has those bits.
#[verifier::external_body]
fn outside_real(value: &AmqpValue) -> (made: Option<serde_amqp::Value>)
    ensures
        match made {
            Some(made) => held(made) == value::meaning(*value),
            None => !is_real(value::meaning(*value)),
        },
{
    match value {
        AmqpValue::Float(v) => {
            serde_amqp::from_slice(&[&[0x72], &v.to_be_bytes()[..]].concat()).ok()
        },
        AmqpValue::Double(v) => {
            serde_amqp::from_slice(&[&[0x82], &v.to_be_bytes()[..]].concat()).ok()
        },
        AmqpValue::Decimal32(v) => Some(serde_amqp::Value::Decimal32((*v).into())),
        AmqpValue::Decimal64(v) => Some(serde_amqp::Value::Decimal64((*v).into())),
        AmqpValue::Decimal128(v) => Some(serde_amqp::Value::Decimal128((*v).into())),
        _ => None,
    }
}

/// Makes a `serde_amqp::Value::List`.
#[verifier::external_body]
fn outside_list(items: Vec<serde_amqp::Value>) -> (made: serde_amqp::Value)
    ensures
        held(made) == ValueView::List(held_all(items@)),
{
    serde_amqp::Value::List(items)
}

/// Makes a `serde_amqp::Value::Array`.
#[verifier::external_body]
fn outside_array(items: Vec<serde_amqp::Value>) -> (made: serde_amqp::Value)
    ensures
        held(made) == ValueView::Array(held_all(items@)),
{
    serde_amqp::Value::Array(items.into())
}

/// Makes a `serde_amqp::Value::Map` with `OrderedMap`'s `FromIterator`, which
/// keeps the entries in their order as long as no key occurs twice.
#[verifier::external_body]
fn outside_map(entries: Vec<(serde_amqp::Value, serde_amqp::Value)>) -> (made: serde_amqp::Value)
    requires
        keys_differ(held_entries(entries@)),
    ensures
        held(made) == ValueView::Mapping(held_entries(entries@)),
{
    serde_amqp::Value::Map(entries.into_iter().collect())
}

/// Makes a `serde_amqp::Value::Described`.
#[verifier::external_body]
fn outside_described(descriptor: &Descriptor, inner: serde_amqp::Value) -> (made: serde_amqp::Value)
    ensures
        held(made) == ValueView::Described(descriptor.deep_view(), Box::new(held(inner))),
{
    serde_amqp::Value::Described(Box::new(serde_amqp::described::Described {
        descriptor: match descriptor {
            Descriptor::Name(name) => {
                serde_amqp::descriptor::Descriptor::Name(name.as_str().into())
            },
            Descriptor::Code(code) => serde_amqp::descriptor::Descriptor::Code(*code),
        },
        value: inner,
    }))
}

/// `==` of `serde_amqp::Value`, by which its maps tell keys apart: values of
/// different variants differ, and integers, characters, times, identifiers,
/// octets, strings and symbols are equal when they hold the same.
#[verifier::external_body]
fn outside_same(a: &serde_amqp::Value, b: &serde_amqp::Value) -> (same: bool)
    ensures
        is_plain_key(held(*a)) && is_plain_key(held(*b)) ==> same == (held(*a) == held(*b)),
        !(is_plain_key(held(*a)) && is_plain_key(held(*b))) ==> same == same_key(
            held(*a),
            held(*b),
        ),
{
    a == b
}

/// The null, boolean or integer that a `serde_amqp::Value` holds, under the
/// variant of the same name.
#[verifier::external_body]
fn inside_integer(value: &serde_amqp::Value) -> (found: Option<AmqpValue>)
    ensures
        match found {
            Some(found) => value::meaning(found) == held(*value),
            None => !is_integer(held(*value)),
        },
{
    Some(match value {
        serde_amqp::Value::Null => AmqpValue::Null,
        serde_amqp::Value::Bool(v) => AmqpValue::Bool(*v),
        serde_amqp::Value::Ubyte(v) => AmqpValue::Ubyte(*v),
        serde_amqp::Value::Ushort(v) => AmqpValue::Ushort(*v),
        serde_amqp::Value::Uint(v) => AmqpValue::Uint(*v),
        serde_amqp::Value::Ulong(v) => AmqpValue::Ulong(*v),
        serde_amqp::Value::Byte(v) => AmqpValue::Byte(*v),
        serde_amqp::Value::Short(v) => AmqpValue::Short(*v),
        serde_amqp::Value::Int(v) => AmqpValue::Int(*v),
        serde_amqp::Value::Long(v) => AmqpValue::Long(*v),
        _ => return None,
    })
}

/// The character, time, identifier, octets, string or symbol that a
/// `serde_amqp::Value` holds, under the variant of the same name.
#[verifier::external_body]
fn inside_text(value: &serde_amqp::Value) -> (found: Option<AmqpValue>)
    ensures
        match found {
            Some(found) => value::meaning(found) == held(*value),
            None => !is_text(held(*value)),
        },
{
    Some(match value {
        serde_amqp::Value::Char(v) => AmqpValue::Char(*v),
        serde_amqp::Value::Timestamp(v) => AmqpValue::Timestamp(v.milliseconds()),
        serde_amqp::Value::Uuid(v) => AmqpValue::Uuid(*v.as_inner()),
        serde_amqp::Value::Binary(v) => AmqpValue::Binary(v.to_vec()),
        serde_amqp::Value::String(v) => AmqpValue::String(v.clone()),
        serde_amqp::Value::Symbol(v) => AmqpValue::Symbol(Symbol(v.0.clone())),
        _ => return None,
    })
}

/// The floating point or decimal number that a `serde_amqp::Value` holds, by its
/// bits or octets.
#[verifier::external_body]
fn inside_real(value: &serde_amqp::Value) -> (found: Option<AmqpValue>)
    ensures
        match found {
            Some(found) => value::meaning(found) == held(*value),
            None => !is_real(held(*value)),
        },
{
    Some(match value {
        serde_amqp::Value::Float(v) => AmqpValue::Float(v.to_bits()),
        serde_amqp::Value::Double(v) => AmqpValue::Double(v.to_bits()),
        serde_amqp::Value::Decimal32(v) => AmqpValue::Decimal32(*v.as_inner()),
        serde_amqp::Value::Decimal64(v) => AmqpValue::Decimal64(*v.as_inner()),
        serde_amqp::Value::Decimal128(v) => AmqpValue::Decimal128(*v.as_inner()),
        _ => return None,
    })
}

/// A compound value, taken apart.
enum Opened {
    List(Vec<serde_amqp::Value>),
    Array(Vec<serde_amqp::Value>),
    Mapping(Vec<(serde_amqp::Value, serde_amqp::Value)>),
    Described(Descriptor, serde_amqp::Value),
    Scalar,
}

/// Takes a compound `serde_amqp::Value` apart, the entries of a map in their
/// order.
#[verifier::external_body]
fn open(value: serde_amqp::Value) -> (opened: Opened)
    ensures
        match opened {
            Opened::List(items) => held(value) == ValueView::List(held_all(items@)),
            Opened::Array(items) => held(value) == ValueView::Array(held_all(items@)),
            Opened::Mapping(entries) => held(value) == ValueView::Mapping(held_entries(entries@)),
            Opened::Described(descriptor, inner) => held(value) == ValueView::Described(
                descriptor.deep_view(),
                Box::new(held(inner)),
            ),
            Opened::Scalar => is_integer(held(value)) || is_text(held(value)) || is_real(
                held(value),
            ),
        },
{
    match value {
        serde_amqp::Value::List(items) => Opened::List(items),
        serde_amqp::Value::Array(items) => Opened::Array(items.into_inner()),
        serde_amqp::Value::Map(entries) => Opened::Mapping(entries.into_iter().collect()),
        serde_amqp::Value::Described(inner) => Opened::Described(
            match inner.descriptor {
                serde_amqp::descriptor::Descriptor::Name(name) => Descriptor::Name(Symbol(name.0)),
                serde_amqp::descriptor::Descriptor::Code(code) => Descriptor::Code(code),
            },
            inner.value,
        ),
        _ => Opened::Scalar,
    }
}

/// Encodes with `serde_amqp::to_vec`, which breaks off with a panic on what is
/// not `writable`, and fails only where a text, octets or the content of a list,
/// map or array are longer than `MAX_CONTENT`. What is written depends on the
/// value alone, takes as many octets as its format codes and lengths tell, and no
/// more than the longest form of each part does. A `readable` value is written in
/// well shaped octets, from which `serde_amqp::from_slice` reads it; it stops behind
/// the value, whether or not octets are left. Nothing is said of reading arrays of
/// several lists or arrays, of maps with entries, of described values, of several
/// kinds of values, or of texts beyond ASCII, of several nulls where anything follows
/// them, nor of more than `MAX_ITEMS` items.
#[verifier::external_body]
fn encode_outside(value: &serde_amqp::Value) -> (octets: Option<Vec<u8>>)
    requires
        writable(held(*value)),
    ensures
        match octets {
            Some(octets) => {
                &&& amqp_encoded(held(*value)) == Some(octets@)
                &&& shape::value_len(octets@) == Ok::<nat, CodecFault>(octets@.len())
                &&& octets@.len() <= weight(held(*value))
                &&& readable(held(*value)) ==> shape::well_shaped(octets@) && amqp_decoded(octets@)
                    == Some(held(*value))
            },
            None => amqp_encoded(held(*value)) is None && weight(held(*value)) > MAX_CONTENT,
        },
{
    serde_amqp::to_vec(value).ok()
}

/// Decodes with `serde_amqp::from_slice`. What is read depends on the octets
/// alone. A header whose size cannot hold it makes that function subtract below
/// zero, and so does a map with an odd number of values; well shaped octets
/// have neither.
#[verifier::external_body]
fn decode_outside(octets: &[u8]) -> (value: Option<serde_amqp::Value>)
    requires
        shape::well_shaped(octets@),
    ensures
        match value {
            Some(value) => amqp_decoded(octets@) == Some(held(value)),
            None => amqp_decoded(octets@) is None,
        },
{
    serde_amqp::from_slice(octets).ok()
}

// ---- to and fro ------------------------------------------------------------

/// Hands a value to `serde_amqp`, if a serializer with `pen` can write it, with
/// what the serializer carries on.
fn to_outside(value: &AmqpValue, pen: Pen) -> (made: Option<(serde_amqp::Value, Pen)>)
    ensures
        match made {
            Some((made, left)) => behind(value::meaning(*value), pen) == Some(left) && held(made)
                == value::meaning(*value),
            None => behind(value::meaning(*value), pen) is None,
        },
    decreases value,
{
    let ghost v = value::meaning(*value);
    match value {
        AmqpValue::List(items) => {
            match all_to_outside(items, pen.array) {
                None => {
                    proof {
                        let m = value::meanings(items@);
                        assert(v == ValueView::List(m));
                        let i = choose|i: int|
                            0 <= i < m.len() && behind(#[trigger] m[i], new_pen(pen.array)) is None;
                        assert(behind(m[i], new_pen(pen.array)) is None);
                    }
                    None
                },
                Some(made) => {
                    proof {
                        assert(v == ValueView::List(value::meanings(items@)));
                        assert(behind(v, pen) == Some(pen));
                    }
                    Some((outside_list(made), pen))
                },
            }
        },
        AmqpValue::Array(items) => {
            match all_to_outside(items, true) {
                None => {
                    proof {
                        let m = value::meanings(items@);
                        assert(v == ValueView::Array(m));
                        let i = choose|i: int|
                            0 <= i < m.len() && behind(#[trigger] m[i], new_pen(true)) is None;
                        assert(behind(m[i], new_pen(true)) is None);
                    }
                    None
                },
                Some(made) => {
                    proof {
                        assert(v == ValueView::Array(value::meanings(items@)));
                        assert(behind(v, pen) == Some(Pen { array: true, ..pen }));
                    }
                    Some(
                        (
                            outside_array(made),
                            Pen { mark: pen.mark, array: true, element: pen.element },
                        ),
                    )
                },
            }
        },
        AmqpValue::Mapping(entries) => {
            let ghost m = value::entry_meanings(entries@);
            match entries_to_outside(entries) {
                None => {
                    proof {
                        assert(v == ValueView::Mapping(m));
                    }
                    None
                },
                Some(made) => {
                    proof {
                        assert(v == ValueView::Mapping(m));
                        assert forall|i: int|
                            #![trigger m[i]]
                            0 <= i < m.len() implies match behind(m[i].0, new_pen(false)) {
                            Some(left) => behind(m[i].1, left) is Some,
                            None => false,
                        } by {
                            assert(entry_is_writable(m[i]));
                        }
                        assert(behind(v, pen) == Some(pen));
                    }
                    Some((outside_map(made), pen))
                },
            }
        },
        AmqpValue::Described(descriptor, inner) => {
            let behind_it = match descriptor {
                Descriptor::Name(_) => after_symbol(pen),
                Descriptor::Code(_) => pen,
            };
            match to_outside(&**inner, behind_it) {
                None => None,
                Some((made, left)) => {
                    proof {
                        assert(v == ValueView::Described(
                            descriptor.deep_view(),
                            Box::new(value::meaning(**inner)),
                        ));
                        assert(behind_it == behind_descriptor(descriptor.deep_view(), pen));
                        assert(behind(v, pen) == Some(left));
                    }
                    Some((outside_described(descriptor, made), left))
                },
            }
        },
        _ => {
            let left = after_scalar(value, pen)?;
            if let Some(made) = outside_integer(value) {
                return Some((made, left));
            }
            if let Some(made) = outside_text(value) {
                return Some((made, left));
            }
            match outside_real(value) {
                None => None,
                Some(made) => Some((made, left)),
            }
        },
    }
}

fn after_symbol(pen: Pen) -> (left: Pen)
    ensures
        left == behind_symbol(pen),
{
    let mark = if pen.element {
        Mark::Symbol
    } else {
        Mark::Plain
    };
    Pen { mark, array: pen.array, element: pen.element }
}

/// What a serializer carries on from a value that is no list, map or array and
/// not described, if it can write it.
fn after_scalar(value: &AmqpValue, pen: Pen) -> (left: Option<Pen>)
    requires
        !(value is List || value is Array || value is Mapping || value is Described),
    ensures
        left == behind(value::meaning(*value), pen),
{
    match value {
        AmqpValue::Long(_) => if pen.mark == Mark::Symbol {
            None
        } else {
            Some(pen)
        },
        AmqpValue::Timestamp(_) => Some(
            Pen { mark: Mark::Timestamp, array: pen.array, element: pen.element },
        ),
        AmqpValue::Binary(_) => if pen.mark == Mark::Plain {
            Some(pen)
        } else {
            None
        },
        AmqpValue::String(_) => match pen.mark {
            Mark::Plain => Some(pen),
            Mark::Symbol => Some(after_symbol(pen)),
            Mark::Timestamp => None,
        },
        AmqpValue::Symbol(_) => Some(after_symbol(pen)),
        AmqpValue::Uuid(_)
        | AmqpValue::Decimal32(_)
        | AmqpValue::Decimal64(_)
        | AmqpValue::Decimal128(_) => Some(
            Pen { mark: Mark::Plain, array: pen.array, element: pen.element },
        ),
        _ => Some(pen),
    }
}

/// Hands the items of a list, or the elements of an array, to `serde_amqp`, if
/// they can be written.
#[verifier::loop_isolation(false)]
fn all_to_outside(items: &Vec<AmqpValue>, element: bool) -> (made: Option<Vec<serde_amqp::Value>>)
    ensures
        match made {
            Some(made) => {
                &&& held_all(made@) == value::meanings(items@)
                &&& forall|i: int|
                    0 <= i < items@.len() ==> behind(
                        #[trigger] value::meanings(items@)[i],
                        new_pen(element),
                    ) is Some
            },
            None => exists|i: int|
                0 <= i < items@.len() && behind(
                    #[trigger] value::meanings(items@)[i],
                    new_pen(element),
                ) is None,
        },
    decreases items,
{
    let pen = Pen { mark: Mark::Plain, array: false, element };
    let mut made: Vec<serde_amqp::Value> = Vec::new();
    let mut i: usize = 0;
    while i < items.len()
        invariant
            i <= items@.len(),
            made@.len() == i,
            forall|k: int|
                0 <= k < i ==> {
                    &&& held(#[trigger] made@[k]) == value::meanings(items@)[k]
                    &&& behind(value::meanings(items@)[k], pen) is Some
                },
        decreases items@.len() - i,
    {
        let ghost m = value::meanings(items@)[i as int];
        match to_outside(&items[i], pen) {
            None => {
                proof {
                    assert(behind(m, new_pen(element)) is None);
                }
                return None;
            },
            Some((outside, _)) => made.push(outside),
        }
        i = i + 1;
    }
    proof {
        assert(held_all(made@) =~= value::meanings(items@));
    }
    Some(made)
}

/// Whether a serializer can write an entry of a map.
pub open spec fn entry_is_writable(entry: (ValueView, ValueView)) -> bool {
    match behind(entry.0, new_pen(false)) {
        Some(left) => behind(entry.1, left) is Some,
        None => false,
    }
}

/// Hands the entries of a map to `serde_amqp`, if they can be written.
#[verifier::loop_isolation(false)]
fn entries_to_outside(entries: &Vec<(AmqpValue, AmqpValue)>) -> (made: Option<
    Vec<(serde_amqp::Value, serde_amqp::Value)>,
>)
    ensures
        match made {
            Some(made) => {
                &&& held_entries(made@) == value::entry_meanings(entries@)
                &&& keys_differ(value::entry_meanings(entries@))
                &&& forall|i: int|
                    0 <= i < entries@.len() ==> entry_is_writable(
                        #[trigger] value::entry_meanings(entries@)[i],
                    )
            },
            None => {
                ||| !keys_differ(value::entry_meanings(entries@))
                ||| exists|i: int|
                    0 <= i < entries@.len() && !entry_is_writable(
                        #[trigger] value::entry_meanings(entries@)[i],
                    )
            },
        },
    decreases entries,
{
    let ghost m = value::entry_meanings(entries@);
    let pen = Pen { mark: Mark::Plain, array: false, element: false };
    let mut made: Vec<(serde_amqp::Value, serde_amqp::Value)> = Vec::new();
    let mut i: usize = 0;
    while i < entries.len()
        invariant
            i <= entries@.len(),
            made@.len() == i,
            forall|k: int|
                0 <= k < i ==> {
                    &&& (held((#[trigger] made@[k]).0), held(made@[k].1)) == m[k]
                    &&& entry_is_writable(m[k])
                },
            forall|k: int, l: int|
                #![trigger m[k], m[l]]
                0 <= k < l < i ==> !keys_agree(m[k].0, m[l].0),
        decreases entries@.len() - i,
    {
        let entry = &entries[i];
        proof {
            assert(m[i as int] == (value::meaning(entry.0), value::meaning(entry.1)));
        }
        let (key, left) = match to_outside(&entry.0, pen) {
            Some(made_key) => made_key,
            None => {
                proof {
                    assert(!entry_is_writable(m[i as int]));
                }
                return None;
            },
        };
        let mut j: usize = 0;
        while j < made.len()
            invariant
                j <= made@.len(),
                forall|k: int|
                    0 <= k < j ==> !keys_agree((#[trigger] m[k]).0, m[i as int].0),
            decreases made@.len() - j,
        {
            proof {
                assert((held(made@[j as int].0), held(made@[j as int].1)) == m[j as int]);
            }
            if outside_same(&made[j].0, &key) {
                proof {
                    assert(keys_agree(m[j as int].0, m[i as int].0));
                }
                return None;
            }
            j = j + 1;
        }
        let held_value = match to_outside(&entry.1, left) {
            Some((held_value, _)) => held_value,
            None => {
                proof {
                    assert(!entry_is_writable(m[i as int]));
                }
                return None;
            },
        };
        made.push((key, held_value));
        i = i + 1;
    }
    proof {
        assert(held_entries(made@) =~= m);
    }
    Some(made)
}

/// Takes a value over from `serde_amqp`.
fn from_outside(value: serde_amqp::Value) -> (taken: AmqpValue)
    ensures
        value::meaning(taken) == held(value),
    decreases held(value), 0nat,
{
    if let Some(taken) = inside_integer(&value) {
        return taken;
    }
    if let Some(taken) = inside_text(&value) {
        return taken;
    }
    if let Some(taken) = inside_real(&value) {
        return taken;
    }
    let ghost h = held(value);
    match open(value) {
        Opened::List(items) => {
            proof {
                assert(decreases_to!(h => h->List_0));
            }
            AmqpValue::List(all_from_outside(items))
        },
        Opened::Array(items) => {
            proof {
                assert(decreases_to!(h => h->Array_0));
            }
            AmqpValue::Array(all_from_outside(items))
        },
        Opened::Mapping(entries) => {
            proof {
                assert(decreases_to!(h => h->Mapping_0));
            }
            AmqpValue::Mapping(entries_from_outside(entries))
        },
        Opened::Described(descriptor, inner) => {
            proof {
                assert(decreases_to!(h => h->Described_1));
                assert(*h->Described_1 == held(inner));
            }
            AmqpValue::Described(descriptor, Box::new(from_outside(inner)))
        },
        // A scalar has been taken over above.
        Opened::Scalar => AmqpValue::Null,
    }
}

#[verifier::loop_isolation(false)]
fn all_from_outside(items: Vec<serde_amqp::Value>) -> (taken: Vec<AmqpValue>)
    ensures
        value::meanings(taken@) == held_all(items@),
    decreases held_all(items@), 0nat,
{
    let ghost whole = held_all(items@);
    let ghost all = items@;
    let mut taken: Vec<AmqpValue> = Vec::new();
    let mut i: usize = 0;
    let n: usize = items.len();
    let mut rest = items;
    while i < n
        invariant
            i <= n == all.len(),
            rest@ == all.skip(i as int),
            taken@.len() == i,
            forall|k: int|
                0 <= k < i ==> value::meaning(#[trigger] taken@[k]) == whole[k],
        decreases n - i,
    {
        let ghost before = rest@;
        let next = rest.remove(0);
        proof {
            assert(next == all[i as int]);
            assert(whole[i as int] == held(next));
            assert(rest@ =~= all.skip(i + 1));
        }
        taken.push(from_outside(next));
        i = i + 1;
    }
    proof {
        assert(value::meanings(taken@) =~= whole);
    }
    taken
}

#[verifier::loop_isolation(false)]
fn entries_from_outside(entries: Vec<(serde_amqp::Value, serde_amqp::Value)>) -> (taken: Vec<
    (AmqpValue, AmqpValue),
>)
    ensures
        value::entry_meanings(taken@) == held_entries(entries@),
    decreases held_entries(entries@), 0nat,
{
    let ghost whole = held_entries(entries@);
    let ghost all = entries@;
    let mut taken: Vec<(AmqpValue, AmqpValue)> = Vec::new();
    let mut i: usize = 0;
    let n: usize = entries.len();
    let mut rest = entries;
    while i < n
        invariant
            i <= n == all.len(),
            rest@ == all.skip(i as int),
            taken@.len() == i,
            forall|k: int|
                0 <= k < i ==> (
                    value::meaning((#[trigger] taken@[k]).0),
                    value::meaning(taken@[k].1),
                ) == whole[k],
        decreases n - i,
    {
        let (key, entry) = rest.remove(0);
        proof {
            assert((key, entry) == all[i as int]);
            assert(whole[i as int] == (held(key), held(entry)));
            assert(rest@ =~= all.skip(i + 1));
            assert(decreases_to!(whole => whole[i as int]));
            assert(decreases_to!(whole[i as int] => whole[i as int].0));
            assert(decreases_to!(whole[i as int] => whole[i as int].1));
        }
        taken.push((from_outside(key), from_outside(entry)));
        i = i + 1;
    }
    proof {
        assert(value::entry_meanings(taken@) =~= whole);
    }
    taken
}

// ---- octets ----------------------------------------------------------------

/// The octets of a value.
pub open spec fn encoded(v: ValueView) -> Result<Seq<u8>, CodecFault> {
    if !writable(v) {
        Err(CodecFault::NotEncodable)
    } else {
        match amqp_encoded(v) {
            Some(octets) => Ok(octets),
            None => Err(CodecFault::NotEncodable),
        }
    }
}

/// The value at the start of octets.
pub open spec fn decoded(octets: Seq<u8>) -> Result<ValueView, CodecFault> {
    if !shape::well_shaped(octets) {
        Err(CodecFault::Malformed)
    } else {
        match amqp_decoded(octets) {
            Some(v) => Ok(v),
            None => Err(CodecFault::Malformed),
        }
    }
}

/// What octets that were written for a value let a reader do: find their end,
/// whatever follows, and read the value again.
pub open spec fn reads_back(v: ValueView, octets: Seq<u8>) -> bool {
    &&& forall|rest: Seq<u8>| #[trigger]
        shape::value_len(octets + rest) == Ok::<nat, CodecFault>(octets.len())
    &&& readable(v) ==> decoded(octets) == Ok::<ValueView, CodecFault>(v)
}

/// Encodes a value.
pub fn encode_value(value: &AmqpValue) -> (octets: Result<Vec<u8>, CodecFault>)
    ensures
        match octets {
            Ok(octets) => {
                &&& encoded(value::meaning(*value)) == Ok::<Seq<u8>, CodecFault>(octets@)
                &&& reads_back(value::meaning(*value), octets@)
                &&& octets@.len() <= weight(value::meaning(*value))
            },
            Err(fault) => encoded(value::meaning(*value)) == Err::<Seq<u8>, CodecFault>(fault)
                && !encodable(value::meaning(*value)),
        },
{
    let pen = Pen { mark: Mark::Plain, array: false, element: false };
    match to_outside(value, pen) {
        None => Err(CodecFault::NotEncodable),
        Some((outside, _)) => match encode_outside(&outside) {
            None => Err(CodecFault::NotEncodable),
            Some(octets) => {
                proof {
                    assert forall|rest: Seq<u8>| #[trigger]
                        shape::value_len(octets@ + rest) == Ok::<nat, CodecFault>(
                            octets@.len(),
                        ) by {
                        shape::lengths_ignore_what_follows(octets@, rest);
                    }
                }
                Ok(octets)
            },
        },
    }
}

/// Decodes the value at the start of octets.
pub fn decode_value(octets: &[u8]) -> (value: Result<AmqpValue, CodecFault>)
    ensures
        match value {
            Ok(value) => decoded(octets@) == Ok::<ValueView, CodecFault>(value::meaning(value)),
            Err(fault) => decoded(octets@) == Err::<ValueView, CodecFault>(fault),
        },
{
    if !shape::is_well_shaped(octets) {
        return Err(CodecFault::Malformed);
    }
    match decode_outside(octets) {
        None => Err(CodecFault::Malformed),
        Some(outside) => Ok(from_outside(outside)),
    }
}

} // verus!
