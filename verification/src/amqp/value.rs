//! Untyped AMQP 1.0 values.

use vstd::prelude::*;

use crate::bytes;

verus! {

/// An ASCII name from a constrained domain.
#[derive(Debug, PartialEq, Eq)]
pub struct Symbol(pub String);

impl Symbol {
    pub fn new(text: &str) -> (symbol: Symbol)
        ensures
            symbol.deep_view() == text@,
    {
        Symbol(text.to_owned())
    }

    pub fn as_str(&self) -> (text: &str)
        ensures
            text@ == self.deep_view(),
    {
        self.0.as_str()
    }
}

impl DeepView for Symbol {
    type V = Seq<char>;

    open spec fn deep_view(&self) -> Seq<char> {
        self.0@
    }
}

impl Clone for Symbol {
    fn clone(&self) -> (copy: Self)
        ensures
            copy.deep_view() == self.deep_view(),
    {
        Symbol(self.0.clone())
    }
}

/// What tells how a described value is to be read.
#[derive(Debug, PartialEq, Eq)]
pub enum Descriptor {
    Name(Symbol),
    Code(u64),
}

/// A descriptor, by its text or number.
pub enum DescriptorView {
    Name(Seq<char>),
    Code(u64),
}

impl DeepView for Descriptor {
    type V = DescriptorView;

    open spec fn deep_view(&self) -> DescriptorView {
        match self {
            Descriptor::Name(name) => DescriptorView::Name(name.deep_view()),
            Descriptor::Code(code) => DescriptorView::Code(*code),
        }
    }
}

impl Clone for Descriptor {
    fn clone(&self) -> (copy: Self)
        ensures
            copy.deep_view() == self.deep_view(),
    {
        match self {
            Descriptor::Name(name) => Descriptor::Name(name.clone()),
            Descriptor::Code(code) => Descriptor::Code(*code),
        }
    }
}

/// An AMQP value. Floating point numbers are held by their bits, and decimal
/// ones by their octets, in network order.
#[derive(Debug, PartialEq, Eq)]
pub enum AmqpValue {
    Null,
    Bool(bool),
    Ubyte(u8),
    Ushort(u16),
    Uint(u32),
    Ulong(u64),
    Byte(i8),
    Short(i16),
    Int(i32),
    Long(i64),
    Float(u32),
    Double(u64),
    Decimal32([u8; 4]),
    Decimal64([u8; 8]),
    Decimal128([u8; 16]),
    Char(char),
    Timestamp(i64),
    Uuid([u8; 16]),
    Binary(Vec<u8>),
    String(String),
    Symbol(Symbol),
    List(Vec<AmqpValue>),
    Mapping(Vec<(AmqpValue, AmqpValue)>),
    Array(Vec<AmqpValue>),
    Described(Descriptor, Box<AmqpValue>),
}

/// An AMQP value, with its texts and octets as sequences.
pub enum ValueView {
    Null,
    Bool(bool),
    Ubyte(u8),
    Ushort(u16),
    Uint(u32),
    Ulong(u64),
    Byte(i8),
    Short(i16),
    Int(i32),
    Long(i64),
    Float(u32),
    Double(u64),
    Decimal32(Seq<u8>),
    Decimal64(Seq<u8>),
    Decimal128(Seq<u8>),
    Char(char),
    Timestamp(i64),
    Uuid(Seq<u8>),
    Binary(Seq<u8>),
    String(Seq<char>),
    Symbol(Seq<char>),
    List(Seq<ValueView>),
    Mapping(Seq<(ValueView, ValueView)>),
    Array(Seq<ValueView>),
    Described(DescriptorView, Box<ValueView>),
}

/// What a value means.
pub open spec fn meaning(value: AmqpValue) -> ValueView
    decreases value,
{
    match value {
        AmqpValue::Null => ValueView::Null,
        AmqpValue::Bool(v) => ValueView::Bool(v),
        AmqpValue::Ubyte(v) => ValueView::Ubyte(v),
        AmqpValue::Ushort(v) => ValueView::Ushort(v),
        AmqpValue::Uint(v) => ValueView::Uint(v),
        AmqpValue::Ulong(v) => ValueView::Ulong(v),
        AmqpValue::Byte(v) => ValueView::Byte(v),
        AmqpValue::Short(v) => ValueView::Short(v),
        AmqpValue::Int(v) => ValueView::Int(v),
        AmqpValue::Long(v) => ValueView::Long(v),
        AmqpValue::Float(v) => ValueView::Float(v),
        AmqpValue::Double(v) => ValueView::Double(v),
        AmqpValue::Decimal32(v) => ValueView::Decimal32(v@),
        AmqpValue::Decimal64(v) => ValueView::Decimal64(v@),
        AmqpValue::Decimal128(v) => ValueView::Decimal128(v@),
        AmqpValue::Char(v) => ValueView::Char(v),
        AmqpValue::Timestamp(v) => ValueView::Timestamp(v),
        AmqpValue::Uuid(v) => ValueView::Uuid(v@),
        AmqpValue::Binary(v) => ValueView::Binary(v@),
        AmqpValue::String(v) => ValueView::String(v@),
        AmqpValue::Symbol(v) => ValueView::Symbol(v.deep_view()),
        AmqpValue::List(items) => ValueView::List(meanings(items@)),
        AmqpValue::Mapping(entries) => ValueView::Mapping(entry_meanings(entries@)),
        AmqpValue::Array(items) => ValueView::Array(meanings(items@)),
        AmqpValue::Described(descriptor, inner) => ValueView::Described(
            descriptor.deep_view(),
            Box::new(meaning(*inner)),
        ),
    }
}

/// What a sequence of values means.
pub open spec fn meanings(items: Seq<AmqpValue>) -> Seq<ValueView>
    decreases items,
{
    Seq::new(
        items.len(),
        |i: int|
            if 0 <= i < items.len() {
                meaning(items[i])
            } else {
                ValueView::Null
            },
    )
}

/// What a sequence of entries means.
pub open spec fn entry_meanings(entries: Seq<(AmqpValue, AmqpValue)>) -> Seq<(ValueView, ValueView)>
    decreases entries,
{
    Seq::new(
        entries.len(),
        |i: int|
            if 0 <= i < entries.len() {
                (meaning(entries[i].0), meaning(entries[i].1))
            } else {
                (ValueView::Null, ValueView::Null)
            },
    )
}

impl DeepView for AmqpValue {
    type V = ValueView;

    open spec fn deep_view(&self) -> ValueView {
        meaning(*self)
    }
}

/// Copies a value.
#[verifier::loop_isolation(false)]
pub fn copy_value(value: &AmqpValue) -> (copy: AmqpValue)
    ensures
        meaning(copy) == meaning(*value),
    decreases value,
{
    match value {
        AmqpValue::Null => AmqpValue::Null,
        AmqpValue::Bool(v) => AmqpValue::Bool(*v),
        AmqpValue::Ubyte(v) => AmqpValue::Ubyte(*v),
        AmqpValue::Ushort(v) => AmqpValue::Ushort(*v),
        AmqpValue::Uint(v) => AmqpValue::Uint(*v),
        AmqpValue::Ulong(v) => AmqpValue::Ulong(*v),
        AmqpValue::Byte(v) => AmqpValue::Byte(*v),
        AmqpValue::Short(v) => AmqpValue::Short(*v),
        AmqpValue::Int(v) => AmqpValue::Int(*v),
        AmqpValue::Long(v) => AmqpValue::Long(*v),
        AmqpValue::Float(v) => AmqpValue::Float(*v),
        AmqpValue::Double(v) => AmqpValue::Double(*v),
        AmqpValue::Decimal32(v) => AmqpValue::Decimal32(*v),
        AmqpValue::Decimal64(v) => AmqpValue::Decimal64(*v),
        AmqpValue::Decimal128(v) => AmqpValue::Decimal128(*v),
        AmqpValue::Char(v) => AmqpValue::Char(*v),
        AmqpValue::Timestamp(v) => AmqpValue::Timestamp(*v),
        AmqpValue::Uuid(v) => AmqpValue::Uuid(*v),
        AmqpValue::Binary(v) => AmqpValue::Binary(bytes::copy_bytes(v.as_slice())),
        AmqpValue::String(v) => AmqpValue::String(v.clone()),
        AmqpValue::Symbol(v) => AmqpValue::Symbol(v.clone()),
        AmqpValue::List(items) => AmqpValue::List(copy_values(items)),
        AmqpValue::Array(items) => AmqpValue::Array(copy_values(items)),
        AmqpValue::Mapping(entries) => {
            let mut copies: Vec<(AmqpValue, AmqpValue)> = Vec::new();
            let mut i: usize = 0;
            while i < entries.len()
                invariant
                    i <= entries@.len(),
                    copies@.len() == i,
                    forall|k: int|
                        0 <= k < i ==> meaning((#[trigger] copies@[k]).0) == meaning(
                            entries@[k].0,
                        ) && meaning(copies@[k].1) == meaning(entries@[k].1),
                decreases entries@.len() - i,
            {
                let entry = &entries[i];
                copies.push((copy_value(&entry.0), copy_value(&entry.1)));
                i = i + 1;
            }
            proof {
                assert(entry_meanings(copies@) =~= entry_meanings(entries@));
            }
            AmqpValue::Mapping(copies)
        },
        AmqpValue::Described(descriptor, inner) => AmqpValue::Described(
            descriptor.clone(),
            Box::new(copy_value(&**inner)),
        ),
    }
}

/// Copies values.
#[verifier::loop_isolation(false)]
pub fn copy_values(items: &Vec<AmqpValue>) -> (copies: Vec<AmqpValue>)
    ensures
        meanings(copies@) == meanings(items@),
    decreases items,
{
    let mut copies: Vec<AmqpValue> = Vec::new();
    let mut i: usize = 0;
    while i < items.len()
        invariant
            i <= items@.len(),
            copies@.len() == i,
            forall|k: int|
                0 <= k < i ==> meaning(#[trigger] copies@[k]) == meaning(items@[k]),
        decreases items@.len() - i,
    {
        copies.push(copy_value(&items[i]));
        i = i + 1;
    }
    proof {
        assert(meanings(copies@) =~= meanings(items@));
    }
    copies
}

impl Clone for AmqpValue {
    fn clone(&self) -> (copy: Self)
        ensures
            copy.deep_view() == self.deep_view(),
    {
        copy_value(self)
    }
}

} // verus!
