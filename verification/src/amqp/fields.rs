//! How typed fields are carried in AMQP values, and lists of them in described
//! values.

use vstd::prelude::*;

use crate::amqp::entries;
use crate::amqp::entries::{Key, OrderedMap};
use crate::amqp::fault::CodecFault;
use crate::amqp::value;
use crate::amqp::value::{AmqpValue, Descriptor, DescriptorView, Symbol, ValueView};
use crate::bytes;

verus! {

// ---- lists of fields -------------------------------------------------------

/// The field at a place. Fields that are not there are null.
pub open spec fn item(f: Seq<ValueView>, i: int) -> ValueView {
    if 0 <= i < f.len() {
        f[i]
    } else {
        ValueView::Null
    }
}

/// Fields without the nulls at their end.
pub open spec fn trimmed(f: Seq<ValueView>) -> Seq<ValueView>
    decreases f.len(),
{
    if f.len() > 0 && f.last() == ValueView::Null {
        trimmed(f.drop_last())
    } else {
        f
    }
}

/// No field is lost by leaving out the nulls at the end.
pub proof fn trimming_keeps_items(f: Seq<ValueView>, i: int)
    ensures
        item(trimmed(f), i) == item(f, i),
    decreases f.len(),
{
    if f.len() > 0 && f.last() == ValueView::Null {
        trimming_keeps_items(f.drop_last(), i);
    }
}

/// A described list of fields.
pub open spec fn described_list(code: u64, f: Seq<ValueView>) -> ValueView {
    ValueView::Described(DescriptorView::Code(code), Box::new(ValueView::List(trimmed(f))))
}

/// The number that describes a value, and the value.
pub open spec fn taken_described(v: ValueView) -> Result<(u64, ValueView), CodecFault> {
    match v {
        ValueView::Described(descriptor, inner) => match descriptor {
            DescriptorView::Code(code) => Ok((code, *inner)),
            DescriptorView::Name(_) => Err(CodecFault::SymbolicDescriptor),
        },
        _ => Err(CodecFault::NotDescribed),
    }
}

/// The items of a list.
pub open spec fn taken_list(v: ValueView) -> Result<Seq<ValueView>, CodecFault> {
    match v {
        ValueView::List(items) => Ok(items),
        _ => Err(CodecFault::NotList),
    }
}

/// The number that describes a list of fields, and the fields.
pub open spec fn taken_fields(v: ValueView) -> Result<(u64, Seq<ValueView>), CodecFault> {
    match taken_described(v) {
        Err(fault) => Err(fault),
        Ok((code, inner)) => match taken_list(inner) {
            Err(fault) => Err(fault),
            Ok(items) => Ok((code, items)),
        },
    }
}

pub fn take_described(value: &AmqpValue) -> (taken: Result<(u64, &AmqpValue), CodecFault>)
    ensures
        match taken {
            Ok((code, inner)) => taken_described(value::meaning(*value)) == Ok::<
                (u64, ValueView),
                CodecFault,
            >((code, value::meaning(*inner))),
            Err(fault) => taken_described(value::meaning(*value)) == Err::<
                (u64, ValueView),
                CodecFault,
            >(fault),
        },
{
    match value {
        AmqpValue::Described(descriptor, inner) => match descriptor {
            Descriptor::Code(code) => Ok((*code, &**inner)),
            Descriptor::Name(_) => Err(CodecFault::SymbolicDescriptor),
        },
        _ => Err(CodecFault::NotDescribed),
    }
}

pub fn take_list(value: &AmqpValue) -> (taken: Result<&Vec<AmqpValue>, CodecFault>)
    ensures
        match taken {
            Ok(items) => taken_list(value::meaning(*value)) == Ok::<Seq<ValueView>, CodecFault>(
                value::meanings(items@),
            ),
            Err(fault) => taken_list(value::meaning(*value)) == Err::<Seq<ValueView>, CodecFault>(
                fault,
            ),
        },
{
    match value {
        AmqpValue::List(items) => Ok(items),
        _ => Err(CodecFault::NotList),
    }
}

pub fn take_fields(value: &AmqpValue) -> (taken: Result<(u64, &Vec<AmqpValue>), CodecFault>)
    ensures
        match taken {
            Ok((code, items)) => taken_fields(value::meaning(*value)) == Ok::<
                (u64, Seq<ValueView>),
                CodecFault,
            >((code, value::meanings(items@))),
            Err(fault) => taken_fields(value::meaning(*value)) == Err::<
                (u64, Seq<ValueView>),
                CodecFault,
            >(fault),
        },
{
    let (code, inner) = take_described(value)?;
    let items = take_list(inner)?;
    Ok((code, items))
}

pub fn described(code: u64, inner: AmqpValue) -> (value: AmqpValue)
    ensures
        value::meaning(value) == ValueView::Described(
            DescriptorView::Code(code),
            Box::new(value::meaning(inner)),
        ),
{
    AmqpValue::Described(Descriptor::Code(code), Box::new(inner))
}

/// A list of fields, without the nulls at its end.
pub fn list(fields: Vec<AmqpValue>) -> (value: AmqpValue)
    ensures
        value::meaning(value) == ValueView::List(trimmed(value::meanings(fields@))),
{
    let mut fields = fields;
    let ghost whole = trimmed(value::meanings(fields@));
    let mut more: bool = true;
    while more
        invariant
            trimmed(value::meanings(fields@)) == whole,
            !more ==> value::meanings(fields@) == whole,
        decreases fields@.len() + if more {
                1int
            } else {
                0int
            },
    {
        let n: usize = fields.len();
        let ghost before = value::meanings(fields@);
        if n == 0 {
            more = false;
        } else {
            let null: bool = match &fields[n - 1] {
                AmqpValue::Null => true,
                _ => false,
            };
            proof {
                assert(before.last() == value::meaning(fields@[n - 1]));
            }
            if null {
                fields.pop();
                proof {
                    assert(value::meanings(fields@) =~= before.drop_last());
                }
            } else {
                more = false;
            }
        }
    }
    AmqpValue::List(fields)
}

// ---- typed fields ----------------------------------------------------------

/// What can be copied.
pub trait Copied: DeepView + Sized {
    fn copied(&self) -> (copy: Self)
        ensures
            copy.deep_view() == self.deep_view(),
    ;
}

/// What a field of a composite type can be.
pub trait Field: Copied {
    /// Whether a value can be told from its AMQP value.
    spec fn sound(v: Self::V) -> bool;

    spec fn value_of(v: Self::V) -> ValueView;

    spec fn of_value(v: ValueView) -> Result<Self::V, CodecFault>;

    proof fn reads_back(v: Self::V)
        requires
            Self::sound(v),
        ensures
            !(Self::value_of(v) is Null),
            Self::of_value(Self::value_of(v)) == Ok::<Self::V, CodecFault>(v),
    ;

    fn to_value(&self) -> (value: AmqpValue)
        ensures
            value::meaning(value) == Self::value_of(self.deep_view()),
    ;

    fn from_value(value: &AmqpValue) -> (read: Result<Self, CodecFault>)
        ensures
            match read {
                Ok(read) => Self::of_value(value::meaning(*value)) == Ok::<Self::V, CodecFault>(
                    read.deep_view(),
                ),
                Err(fault) => Self::of_value(value::meaning(*value)) == Err::<Self::V, CodecFault>(
                    fault,
                ),
            },
    ;
}

/// The value of a field that may be absent.
pub open spec fn value_of_optional<T: Field>(o: Option<T::V>) -> ValueView {
    match o {
        None => ValueView::Null,
        Some(v) => T::value_of(v),
    }
}

/// A field that may be absent.
pub open spec fn optional_at<T: Field>(f: Seq<ValueView>, i: int) -> Result<
    Option<T::V>,
    CodecFault,
> {
    if item(f, i) is Null {
        Ok(None)
    } else {
        match T::of_value(item(f, i)) {
            Ok(v) => Ok(Some(v)),
            Err(fault) => Err(fault),
        }
    }
}

/// A field that has to be there.
pub open spec fn required_at<T: Field>(f: Seq<ValueView>, code: u64, i: int) -> Result<
    T::V,
    CodecFault,
> {
    match optional_at::<T>(f, i) {
        Err(fault) => Err(fault),
        Ok(Some(v)) => Ok(v),
        Ok(None) => Err(CodecFault::Required(code, i as usize)),
    }
}

pub open spec fn sound_optional<T: Field>(o: Option<T::V>) -> bool {
    match o {
        None => true,
        Some(v) => T::sound(v),
    }
}

/// What has been read, unless a field before it could not be.
pub open spec fn unless_faulty<T, U>(
    field: Result<T, CodecFault>,
    read: Result<U, CodecFault>,
) -> Result<U, CodecFault> {
    match field {
        Err(fault) => Err(fault),
        Ok(_) => read,
    }
}

pub open spec fn or_default<T>(o: Option<T>, default: T) -> T {
    match o {
        Some(v) => v,
        None => default,
    }
}

/// A field that may be absent is read as it was written.
pub proof fn optional_reads_back<T: Field>(f: Seq<ValueView>, i: int, o: Option<T::V>)
    requires
        item(f, i) == value_of_optional::<T>(o),
        sound_optional::<T>(o),
    ensures
        optional_at::<T>(f, i) == Ok::<Option<T::V>, CodecFault>(o),
{
    if let Some(v) = o {
        T::reads_back(v);
    }
}

pub fn optional<T: Field>(field: &Option<T>) -> (value: AmqpValue)
    ensures
        value::meaning(value) == value_of_optional::<T>(field.deep_view()),
{
    match field {
        None => AmqpValue::Null,
        Some(field) => field.to_value(),
    }
}

pub fn read_optional<T: Field>(fields: &Vec<AmqpValue>, i: usize) -> (read: Result<
    Option<T>,
    CodecFault,
>)
    ensures
        match read {
            Ok(read) => optional_at::<T>(value::meanings(fields@), i as int) == Ok::<
                Option<T::V>,
                CodecFault,
            >(read.deep_view()),
            Err(fault) => optional_at::<T>(value::meanings(fields@), i as int) == Err::<
                Option<T::V>,
                CodecFault,
            >(fault),
        },
{
    if i >= fields.len() {
        return Ok(None);
    }
    match &fields[i] {
        AmqpValue::Null => Ok(None),
        value => match T::from_value(value) {
            Ok(read) => Ok(Some(read)),
            Err(fault) => Err(fault),
        },
    }
}

pub fn read_required<T: Field>(fields: &Vec<AmqpValue>, code: u64, i: usize) -> (read: Result<
    T,
    CodecFault,
>)
    ensures
        match read {
            Ok(read) => required_at::<T>(value::meanings(fields@), code, i as int) == Ok::<
                T::V,
                CodecFault,
            >(read.deep_view()),
            Err(fault) => required_at::<T>(value::meanings(fields@), code, i as int) == Err::<
                T::V,
                CodecFault,
            >(fault),
        },
{
    match read_optional::<T>(fields, i)? {
        Some(read) => Ok(read),
        None => Err(CodecFault::Required(code, i)),
    }
}

/// Reads a field that has no way to be absent.
pub fn read_plain<T: Field>(fields: &Vec<AmqpValue>, i: usize) -> (read: Result<T, CodecFault>)
    ensures
        match read {
            Ok(read) => T::of_value(item(value::meanings(fields@), i as int)) == Ok::<
                T::V,
                CodecFault,
            >(read.deep_view()),
            Err(fault) => T::of_value(item(value::meanings(fields@), i as int)) == Err::<
                T::V,
                CodecFault,
            >(fault),
        },
{
    if i >= fields.len() {
        return T::from_value(&AmqpValue::Null);
    }
    T::from_value(&fields[i])
}

pub fn copy_optional<T: Copied>(field: &Option<T>) -> (copy: Option<T>)
    ensures
        copy.deep_view() == field.deep_view(),
{
    match field {
        None => None,
        Some(field) => Some(field.copied()),
    }
}

/// Copies a sequence.
pub fn copy_all<T: Copied>(items: &Vec<T>) -> (copies: Vec<T>)
    ensures
        copies.deep_view() == items.deep_view(),
{
    let mut copies: Vec<T> = Vec::new();
    let mut i: usize = 0;
    while i < items.len()
        invariant
            i <= items@.len(),
            copies@.len() == i,
            forall|k: int|
                0 <= k < i ==> (#[trigger] copies@[k]).deep_view() == items@[k].deep_view(),
        decreases items@.len() - i,
    {
        copies.push(items[i].copied());
        i = i + 1;
    }
    proof {
        assert(copies.deep_view() =~= items.deep_view());
    }
    copies
}

impl Copied for bool {
    fn copied(&self) -> (copy: Self) {
        *self
    }
}

impl Field for bool {
    open spec fn sound(v: bool) -> bool {
        true
    }

    open spec fn value_of(v: bool) -> ValueView {
        ValueView::Bool(v)
    }

    open spec fn of_value(v: ValueView) -> Result<bool, CodecFault> {
        match v {
            ValueView::Bool(v) => Ok(v),
            _ => Err(CodecFault::NotBoolean),
        }
    }

    proof fn reads_back(v: bool) {
    }

    fn to_value(&self) -> (value: AmqpValue) {
        AmqpValue::Bool(*self)
    }

    fn from_value(value: &AmqpValue) -> (read: Result<Self, CodecFault>) {
        match value {
            AmqpValue::Bool(v) => Ok(*v),
            _ => Err(CodecFault::NotBoolean),
        }
    }
}

impl Copied for u8 {
    fn copied(&self) -> (copy: Self) {
        *self
    }
}

impl Field for u8 {
    open spec fn sound(v: u8) -> bool {
        true
    }

    open spec fn value_of(v: u8) -> ValueView {
        ValueView::Ubyte(v)
    }

    open spec fn of_value(v: ValueView) -> Result<u8, CodecFault> {
        match v {
            ValueView::Ubyte(v) => Ok(v),
            _ => Err(CodecFault::NotUbyte),
        }
    }

    proof fn reads_back(v: u8) {
    }

    fn to_value(&self) -> (value: AmqpValue) {
        AmqpValue::Ubyte(*self)
    }

    fn from_value(value: &AmqpValue) -> (read: Result<Self, CodecFault>) {
        match value {
            AmqpValue::Ubyte(v) => Ok(*v),
            _ => Err(CodecFault::NotUbyte),
        }
    }
}

impl Copied for u16 {
    fn copied(&self) -> (copy: Self) {
        *self
    }
}

impl Field for u16 {
    open spec fn sound(v: u16) -> bool {
        true
    }

    open spec fn value_of(v: u16) -> ValueView {
        ValueView::Ushort(v)
    }

    open spec fn of_value(v: ValueView) -> Result<u16, CodecFault> {
        match v {
            ValueView::Ushort(v) => Ok(v),
            _ => Err(CodecFault::NotUshort),
        }
    }

    proof fn reads_back(v: u16) {
    }

    fn to_value(&self) -> (value: AmqpValue) {
        AmqpValue::Ushort(*self)
    }

    fn from_value(value: &AmqpValue) -> (read: Result<Self, CodecFault>) {
        match value {
            AmqpValue::Ushort(v) => Ok(*v),
            _ => Err(CodecFault::NotUshort),
        }
    }
}

impl Copied for u32 {
    fn copied(&self) -> (copy: Self) {
        *self
    }
}

impl Field for u32 {
    open spec fn sound(v: u32) -> bool {
        true
    }

    open spec fn value_of(v: u32) -> ValueView {
        ValueView::Uint(v)
    }

    open spec fn of_value(v: ValueView) -> Result<u32, CodecFault> {
        match v {
            ValueView::Uint(v) => Ok(v),
            _ => Err(CodecFault::NotUint),
        }
    }

    proof fn reads_back(v: u32) {
    }

    fn to_value(&self) -> (value: AmqpValue) {
        AmqpValue::Uint(*self)
    }

    fn from_value(value: &AmqpValue) -> (read: Result<Self, CodecFault>) {
        match value {
            AmqpValue::Uint(v) => Ok(*v),
            _ => Err(CodecFault::NotUint),
        }
    }
}

impl Copied for u64 {
    fn copied(&self) -> (copy: Self) {
        *self
    }
}

impl Field for u64 {
    open spec fn sound(v: u64) -> bool {
        true
    }

    open spec fn value_of(v: u64) -> ValueView {
        ValueView::Ulong(v)
    }

    open spec fn of_value(v: ValueView) -> Result<u64, CodecFault> {
        match v {
            ValueView::Ulong(v) => Ok(v),
            _ => Err(CodecFault::NotUlong),
        }
    }

    proof fn reads_back(v: u64) {
    }

    fn to_value(&self) -> (value: AmqpValue) {
        AmqpValue::Ulong(*self)
    }

    fn from_value(value: &AmqpValue) -> (read: Result<Self, CodecFault>) {
        match value {
            AmqpValue::Ulong(v) => Ok(*v),
            _ => Err(CodecFault::NotUlong),
        }
    }
}

impl Copied for i64 {
    fn copied(&self) -> (copy: Self) {
        *self
    }
}

/// A number of milliseconds since the epoch, carried as an AMQP timestamp.
impl Field for i64 {
    open spec fn sound(v: i64) -> bool {
        true
    }

    open spec fn value_of(v: i64) -> ValueView {
        ValueView::Timestamp(v)
    }

    open spec fn of_value(v: ValueView) -> Result<i64, CodecFault> {
        match v {
            ValueView::Timestamp(v) => Ok(v),
            _ => Err(CodecFault::NotTimestamp),
        }
    }

    proof fn reads_back(v: i64) {
    }

    fn to_value(&self) -> (value: AmqpValue) {
        AmqpValue::Timestamp(*self)
    }

    fn from_value(value: &AmqpValue) -> (read: Result<Self, CodecFault>) {
        match value {
            AmqpValue::Timestamp(v) => Ok(*v),
            _ => Err(CodecFault::NotTimestamp),
        }
    }
}

impl Copied for String {
    fn copied(&self) -> (copy: Self) {
        self.clone()
    }
}

impl Field for String {
    open spec fn sound(v: Seq<char>) -> bool {
        true
    }

    open spec fn value_of(v: Seq<char>) -> ValueView {
        ValueView::String(v)
    }

    open spec fn of_value(v: ValueView) -> Result<Seq<char>, CodecFault> {
        match v {
            ValueView::String(v) => Ok(v),
            _ => Err(CodecFault::NotString),
        }
    }

    proof fn reads_back(v: Seq<char>) {
    }

    fn to_value(&self) -> (value: AmqpValue) {
        AmqpValue::String(self.copied())
    }

    fn from_value(value: &AmqpValue) -> (read: Result<Self, CodecFault>) {
        match value {
            AmqpValue::String(v) => Ok(v.copied()),
            _ => Err(CodecFault::NotString),
        }
    }
}

impl Copied for Symbol {
    fn copied(&self) -> (copy: Self) {
        self.clone()
    }
}

impl Field for Symbol {
    open spec fn sound(v: Seq<char>) -> bool {
        true
    }

    open spec fn value_of(v: Seq<char>) -> ValueView {
        ValueView::Symbol(v)
    }

    open spec fn of_value(v: ValueView) -> Result<Seq<char>, CodecFault> {
        match v {
            ValueView::Symbol(v) => Ok(v),
            _ => Err(CodecFault::NotSymbol),
        }
    }

    proof fn reads_back(v: Seq<char>) {
    }

    fn to_value(&self) -> (value: AmqpValue) {
        AmqpValue::Symbol(self.copied())
    }

    fn from_value(value: &AmqpValue) -> (read: Result<Self, CodecFault>) {
        match value {
            AmqpValue::Symbol(v) => Ok(v.copied()),
            _ => Err(CodecFault::NotSymbol),
        }
    }
}

impl Copied for Vec<u8> {
    fn copied(&self) -> (copy: Self) {
        let copy = bytes::copy_bytes(self.as_slice());
        proof {
            assert(copy.deep_view() =~= self.deep_view());
        }
        copy
    }
}

impl Field for Vec<u8> {
    open spec fn sound(v: Seq<u8>) -> bool {
        true
    }

    open spec fn value_of(v: Seq<u8>) -> ValueView {
        ValueView::Binary(v)
    }

    open spec fn of_value(v: ValueView) -> Result<Seq<u8>, CodecFault> {
        match v {
            ValueView::Binary(v) => Ok(v),
            _ => Err(CodecFault::NotBinary),
        }
    }

    proof fn reads_back(v: Seq<u8>) {
    }

    fn to_value(&self) -> (value: AmqpValue) {
        let copy = self.copied();
        proof {
            assert(self.deep_view() =~= self@);
            assert(copy.deep_view() =~= copy@);
        }
        AmqpValue::Binary(copy)
    }

    fn from_value(value: &AmqpValue) -> (read: Result<Self, CodecFault>) {
        match value {
            AmqpValue::Binary(v) => {
                let read = v.copied();
                proof {
                    assert(v.deep_view() =~= v@);
                }
                Ok(read)
            },
            _ => Err(CodecFault::NotBinary),
        }
    }
}

impl Copied for AmqpValue {
    fn copied(&self) -> (copy: Self) {
        value::copy_value(self)
    }
}

impl<T: Copied> Copied for Option<T> {
    fn copied(&self) -> (copy: Self) {
        copy_optional(self)
    }
}

impl<K: Key + Copied, V: Copied> Copied for OrderedMap<K, V> {
    fn copied(&self) -> (copy: Self) {
        let mut copy: OrderedMap<K, V> = OrderedMap { entries: Vec::new() };
        let mut i: usize = 0;
        while i < self.entries.len()
            invariant
                i <= self.entries@.len(),
                copy.entries@.len() == i,
                forall|k: int|
                    0 <= k < i ==> (#[trigger] copy.entries@[k]).0.deep_view()
                        == self.entries@[k].0.deep_view() && copy.entries@[k].1.deep_view()
                        == self.entries@[k].1.deep_view(),
            decreases self.entries@.len() - i,
        {
            let entry = &self.entries[i];
            copy.entries.push((entry.0.copied(), entry.1.copied()));
            i = i + 1;
        }
        proof {
            assert(entries::entries_view(copy.entries@) =~= entries::entries_view(self.entries@));
            entries::view_is_of_entries(copy);
            entries::view_is_of_entries(*self);
        }
        copy
    }
}

// ---- symbols ---------------------------------------------------------------

/// The symbols of an array, from `i` on.
pub open spec fn symbols_from(items: Seq<ValueView>, i: int) -> Result<Seq<Seq<char>>, CodecFault>
    decreases items.len() - i,
{
    if i < 0 || i >= items.len() {
        Ok(Seq::empty())
    } else {
        match items[i] {
            ValueView::Symbol(symbol) => match symbols_from(items, i + 1) {
                Ok(rest) => Ok(seq![symbol] + rest),
                Err(fault) => Err(fault),
            },
            _ => Err(CodecFault::NotSymbol),
        }
    }
}

pub open spec fn symbol_values(symbols: Seq<Seq<char>>) -> Seq<ValueView> {
    Seq::new(symbols.len(), |i: int| ValueView::Symbol(symbols[i]))
}

proof fn symbols_read_back(symbols: Seq<Seq<char>>, i: int)
    requires
        0 <= i <= symbols.len(),
    ensures
        symbols_from(symbol_values(symbols), i) == Ok::<Seq<Seq<char>>, CodecFault>(
            symbols.skip(i),
        ),
    decreases symbols.len() - i,
{
    if i < symbols.len() {
        symbols_read_back(symbols, i + 1);
        assert(seq![symbols[i]] + symbols.skip(i + 1) =~= symbols.skip(i));
    } else {
        assert(symbols.skip(i) =~= Seq::<Seq<char>>::empty());
    }
}

/// What was read so far, and what follows, is what is read.
proof fn symbols_extend(items: Seq<ValueView>, i: int, so_far: Seq<Seq<char>>)
    requires
        0 <= i < items.len(),
        items[i] is Symbol,
    ensures
        match symbols_from(items, i) {
            Ok(all) => symbols_from(items, i + 1) is Ok && so_far + all == so_far.push(
                items[i]->Symbol_0,
            ) + symbols_from(items, i + 1)->Ok_0,
            Err(fault) => symbols_from(items, i + 1) == Err::<Seq<Seq<char>>, CodecFault>(fault),
        },
{
    if let Ok(rest) = symbols_from(items, i + 1) {
        assert(so_far + (seq![items[i]->Symbol_0] + rest) =~= so_far.push(items[i]->Symbol_0)
            + rest);
    }
}

impl Copied for Vec<Symbol> {
    fn copied(&self) -> (copy: Self) {
        copy_all(self)
    }
}

impl Field for Vec<Symbol> {
    open spec fn sound(v: Seq<Seq<char>>) -> bool {
        true
    }

    open spec fn value_of(v: Seq<Seq<char>>) -> ValueView {
        ValueView::Array(symbol_values(v))
    }

    open spec fn of_value(v: ValueView) -> Result<Seq<Seq<char>>, CodecFault> {
        match v {
            ValueView::Array(items) => symbols_from(items, 0),
            _ => Err(CodecFault::NotSymbolArray),
        }
    }

    proof fn reads_back(v: Seq<Seq<char>>) {
        symbols_read_back(v, 0);
        assert(v.skip(0) =~= v);
    }

    fn to_value(&self) -> (value: AmqpValue) {
        let mut items: Vec<AmqpValue> = Vec::new();
        let mut i: usize = 0;
        while i < self.len()
            invariant
                i <= self@.len(),
                items@.len() == i,
                forall|k: int|
                    0 <= k < i ==> value::meaning(#[trigger] items@[k]) == ValueView::Symbol(
                        self@[k].deep_view(),
                    ),
            decreases self@.len() - i,
        {
            items.push(AmqpValue::Symbol(self[i].clone()));
            i = i + 1;
        }
        proof {
            assert(value::meanings(items@) =~= symbol_values(self.deep_view()));
        }
        AmqpValue::Array(items)
    }

    fn from_value(value: &AmqpValue) -> (read: Result<Self, CodecFault>) {
        let items = match value {
            AmqpValue::Array(items) => items,
            _ => return Err(CodecFault::NotSymbolArray),
        };
        let ghost all = value::meanings(items@);
        let mut read: Vec<Symbol> = Vec::new();
        let mut i: usize = 0;
        proof {
            assert(read.deep_view() =~= Seq::<Seq<char>>::empty());
            if let Ok(rest) = symbols_from(all, 0) {
                assert(read.deep_view() + rest =~= rest);
            }
        }
        while i < items.len()
            invariant
                i <= items@.len(),
                all == value::meanings(items@),
                value::meaning(*value) == ValueView::Array(all),
                match symbols_from(all, i as int) {
                    Ok(rest) => symbols_from(all, 0) == Ok::<Seq<Seq<char>>, CodecFault>(
                        read.deep_view() + rest,
                    ),
                    Err(fault) => symbols_from(all, 0) == Err::<Seq<Seq<char>>, CodecFault>(fault),
                },
            decreases items@.len() - i,
        {
            proof {
                assert(all[i as int] == value::meaning(items@[i as int]));
            }
            match &items[i] {
                AmqpValue::Symbol(symbol) => {
                    let ghost before = read.deep_view();
                    proof {
                        symbols_extend(all, i as int, before);
                    }
                    read.push(symbol.clone());
                    proof {
                        assert(read.deep_view() =~= before.push(symbol.deep_view()));
                    }
                },
                _ => {
                    proof {
                        assert(!(all[i as int] is Symbol));
                        assert(symbols_from(all, i as int) is Err);
                    }
                    return Err(CodecFault::NotSymbol);
                },
            }
            i = i + 1;
        }
        proof {
            assert(read.deep_view() + Seq::<Seq<char>>::empty() =~= read.deep_view());
        }
        Ok(read)
    }
}

// ---- maps ------------------------------------------------------------------

/// What a map can map to.
pub trait Slot: Copied {
    spec fn sound_slot(v: Self::V) -> bool;

    spec fn slot_value(v: Self::V) -> ValueView;

    spec fn of_slot(v: ValueView) -> Result<Self::V, CodecFault>;

    proof fn slot_reads_back(v: Self::V)
        requires
            Self::sound_slot(v),
        ensures
            Self::of_slot(Self::slot_value(v)) == Ok::<Self::V, CodecFault>(v),
    ;

    fn to_slot(&self) -> (value: AmqpValue)
        ensures
            value::meaning(value) == Self::slot_value(self.deep_view()),
    ;

    fn from_slot(value: &AmqpValue) -> (read: Result<Self, CodecFault>)
        ensures
            match read {
                Ok(read) => Self::of_slot(value::meaning(*value)) == Ok::<Self::V, CodecFault>(
                    read.deep_view(),
                ),
                Err(fault) => Self::of_slot(value::meaning(*value)) == Err::<Self::V, CodecFault>(
                    fault,
                ),
            },
    ;
}

impl Slot for AmqpValue {
    open spec fn sound_slot(v: ValueView) -> bool {
        true
    }

    open spec fn slot_value(v: ValueView) -> ValueView {
        v
    }

    open spec fn of_slot(v: ValueView) -> Result<ValueView, CodecFault> {
        Ok(v)
    }

    proof fn slot_reads_back(v: ValueView) {
    }

    fn to_slot(&self) -> (value: AmqpValue) {
        self.copied()
    }

    fn from_slot(value: &AmqpValue) -> (read: Result<Self, CodecFault>) {
        Ok(value.copied())
    }
}

impl<T: Field> Slot for Option<T> {
    open spec fn sound_slot(v: Option<T::V>) -> bool {
        sound_optional::<T>(v)
    }

    open spec fn slot_value(v: Option<T::V>) -> ValueView {
        value_of_optional::<T>(v)
    }

    open spec fn of_slot(v: ValueView) -> Result<Option<T::V>, CodecFault> {
        if v is Null {
            Ok(None)
        } else {
            match T::of_value(v) {
                Ok(v) => Ok(Some(v)),
                Err(fault) => Err(fault),
            }
        }
    }

    proof fn slot_reads_back(v: Option<T::V>) {
        if let Some(v) = v {
            T::reads_back(v);
        }
    }

    fn to_slot(&self) -> (value: AmqpValue) {
        optional(self)
    }

    fn from_slot(value: &AmqpValue) -> (read: Result<Self, CodecFault>) {
        match value {
            AmqpValue::Null => Ok(None),
            value => match T::from_value(value) {
                Ok(read) => Ok(Some(read)),
                Err(fault) => Err(fault),
            },
        }
    }
}

/// `map` with the entries from `i` on inserted, one after the other.
pub open spec fn gathered<K: Field, V: Slot>(
    e: Seq<(ValueView, ValueView)>,
    i: int,
    map: Seq<(K::V, V::V)>,
) -> Result<Seq<(K::V, V::V)>, CodecFault>
    decreases e.len() - i,
{
    if i < 0 || i >= e.len() {
        Ok(map)
    } else {
        match K::of_value(e[i].0) {
            Err(fault) => Err(fault),
            Ok(key) => match V::of_slot(e[i].1) {
                Err(fault) => Err(fault),
                Ok(value) => gathered::<K, V>(e, i + 1, entries::inserted(map, key, value)),
            },
        }
    }
}

/// Entries as AMQP values.
pub open spec fn entry_values<K: Field, V: Slot>(m: Seq<(K::V, V::V)>) -> Seq<
    (ValueView, ValueView),
> {
    Seq::new(m.len(), |i: int| (K::value_of(m[i].0), V::slot_value(m[i].1)))
}

/// Whether the entries of a map can be told from their AMQP values.
pub open spec fn sound_entries<K: Field, V: Slot>(m: Seq<(K::V, V::V)>) -> bool {
    &&& entries::distinct(m)
    &&& forall|i: int|
        #![trigger m[i]]
        0 <= i < m.len() ==> K::sound(m[i].0) && V::sound_slot(m[i].1)
}

proof fn entries_gather<K: Field, V: Slot>(m: Seq<(K::V, V::V)>, i: int)
    requires
        0 <= i <= m.len(),
        sound_entries::<K, V>(m),
    ensures
        gathered::<K, V>(entry_values::<K, V>(m), i, m.take(i)) == Ok::<
            Seq<(K::V, V::V)>,
            CodecFault,
        >(m),
    decreases m.len() - i,
{
    if i < m.len() {
        K::reads_back(m[i].0);
        V::slot_reads_back(m[i].1);
        entries_gather::<K, V>(m, i + 1);
        entries::place_is_found(m.take(i), m[i].0, 0);
        assert(m.take(i).push(m[i]) =~= m.take(i + 1));
        assert(m[i] == (m[i].0, m[i].1));
    } else {
        assert(m.take(i) =~= m);
    }
}

impl<K: Key + Field, V: Slot> Field for OrderedMap<K, V> {
    open spec fn sound(v: Seq<(K::V, V::V)>) -> bool {
        sound_entries::<K, V>(v)
    }

    open spec fn value_of(v: Seq<(K::V, V::V)>) -> ValueView {
        ValueView::Mapping(entry_values::<K, V>(v))
    }

    open spec fn of_value(v: ValueView) -> Result<Seq<(K::V, V::V)>, CodecFault> {
        match v {
            ValueView::Mapping(e) => gathered::<K, V>(e, 0, Seq::empty()),
            _ => Err(CodecFault::NotMap),
        }
    }

    proof fn reads_back(v: Seq<(K::V, V::V)>) {
        entries_gather::<K, V>(v, 0);
        assert(v.take(0) =~= Seq::<(K::V, V::V)>::empty());
    }

    #[verifier::loop_isolation(false)]
    fn to_value(&self) -> (value: AmqpValue) {
        let mut made: Vec<(AmqpValue, AmqpValue)> = Vec::new();
        let mut i: usize = 0;
        let n: usize = self.len();
        while i < n
            invariant
                i <= n == self.deep_view().len(),
                made@.len() == i,
                forall|k: int|
                    0 <= k < i ==> (
                        value::meaning((#[trigger] made@[k]).0),
                        value::meaning(made@[k].1),
                    ) == entry_values::<K, V>(self.deep_view())[k],
            decreases n - i,
        {
            let (key, slot) = self.entry(i);
            made.push((key.to_value(), slot.to_slot()));
            i = i + 1;
        }
        proof {
            assert(value::entry_meanings(made@) =~= entry_values::<K, V>(self.deep_view()));
        }
        AmqpValue::Mapping(made)
    }

    #[verifier::loop_isolation(false)]
    fn from_value(value: &AmqpValue) -> (read: Result<Self, CodecFault>) {
        let entries = match value {
            AmqpValue::Mapping(entries) => entries,
            _ => return Err(CodecFault::NotMap),
        };
        let ghost e = value::entry_meanings(entries@);
        let ghost whole = gathered::<K, V>(e, 0, Seq::empty());
        let mut map: OrderedMap<K, V> = OrderedMap::new();
        let mut i: usize = 0;
        while i < entries.len()
            invariant
                i <= entries@.len(),
                gathered::<K, V>(e, i as int, map.deep_view()) == whole,
            decreases entries@.len() - i,
        {
            let entry = &entries[i];
            proof {
                assert(e[i as int] == (value::meaning(entry.0), value::meaning(entry.1)));
            }
            let key = K::from_value(&entry.0)?;
            let slot = V::from_slot(&entry.1)?;
            map.insert(key, slot);
            i = i + 1;
        }
        Ok(map)
    }
}

} // verus!
