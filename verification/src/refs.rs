//! Borrowed views of owned values.
use vstd::prelude::*;

use crate::compound::found;
use crate::list::found_at;
use crate::model::{Nbt, nbt_tag};
use crate::mutf8::{MUTF8Str, fits_codec, mutf8_encoding, mutf8_lossy};
use crate::tag::{NBT, TagID, tag_byte};
use crate::value::{OwnCompound, OwnList, OwnValue};

verus! {

/// A value borrowed from an owned document.
pub enum RefValue<'a> {
    End,
    Byte(i8),
    Short(i16),
    Int(i32),
    Long(i64),
    /// The IEEE 754 bits.
    Float(u32),
    /// The IEEE 754 bits.
    Double(u64),
    ByteArray(&'a [i8]),
    String(RefString<'a>),
    List(RefList<'a>),
    Compound(RefCompound<'a>),
    IntArray(&'a [i32]),
    LongArray(&'a [i64]),
}

/// A borrowed string payload.
#[derive(Clone, Copy)]
pub struct RefString<'a> {
    pub bytes: &'a [u8],
}

/// A borrowed list.
#[derive(Clone, Copy)]
pub struct RefList<'a> {
    pub list: &'a OwnList,
}

/// A borrowed compound.
#[derive(Clone, Copy)]
pub struct RefCompound<'a> {
    pub compound: &'a OwnCompound,
}

/// The model of a borrowed value.
pub open spec fn ref_view(r: RefValue) -> Nbt {
    match r {
        RefValue::End => Nbt::End,
        RefValue::Byte(x) => Nbt::Byte(x),
        RefValue::Short(x) => Nbt::Short(x),
        RefValue::Int(x) => Nbt::Int(x),
        RefValue::Long(x) => Nbt::Long(x),
        RefValue::Float(x) => Nbt::Float(x),
        RefValue::Double(x) => Nbt::Double(x),
        RefValue::ByteArray(s) => Nbt::ByteArray(s@),
        RefValue::String(s) => Nbt::String(s.bytes@),
        RefValue::List(l) => Nbt::List(l.list.tag, l.list@),
        RefValue::Compound(c) => Nbt::Compound(c.compound@),
        RefValue::IntArray(s) => Nbt::IntArray(s@),
        RefValue::LongArray(s) => Nbt::LongArray(s@),
    }
}

impl<'a> View for RefValue<'a> {
    type V = Nbt;

    open spec fn view(&self) -> Nbt {
        ref_view(*self)
    }
}

/// Borrows an owned value.
pub fn ref_value<'a>(v: &'a OwnValue) -> (r: RefValue<'a>)
    ensures
        r@ == v@,
{
    match v {
        OwnValue::End => RefValue::End,
        OwnValue::Byte(x) => RefValue::Byte(*x),
        OwnValue::Short(x) => RefValue::Short(*x),
        OwnValue::Int(x) => RefValue::Int(*x),
        OwnValue::Long(x) => RefValue::Long(*x),
        OwnValue::Float(x) => RefValue::Float(*x),
        OwnValue::Double(x) => RefValue::Double(*x),
        OwnValue::ByteArray(s) => RefValue::ByteArray(s.as_slice()),
        OwnValue::String(s) => RefValue::String(RefString { bytes: s.data.as_slice() }),
        OwnValue::List(l) => RefValue::List(RefList { list: l }),
        OwnValue::Compound(c) => RefValue::Compound(RefCompound { compound: c }),
        OwnValue::IntArray(s) => RefValue::IntArray(s.as_slice()),
        OwnValue::LongArray(s) => RefValue::LongArray(s.as_slice()),
    }
}

/// The tag byte of a borrowed value.
pub fn ref_tag_byte(v: &RefValue) -> (t: u8)
    ensures
        t == nbt_tag(v@),
{
    match v {
        RefValue::End => 0,
        RefValue::Byte(_) => 1,
        RefValue::Short(_) => 2,
        RefValue::Int(_) => 3,
        RefValue::Long(_) => 4,
        RefValue::Float(_) => 5,
        RefValue::Double(_) => 6,
        RefValue::ByteArray(_) => 7,
        RefValue::String(_) => 8,
        RefValue::List(_) => 9,
        RefValue::Compound(_) => 10,
        RefValue::IntArray(_) => 11,
        RefValue::LongArray(_) => 12,
    }
}

impl<'a> RefString<'a> {
    /// The Modified UTF-8 bytes.
    pub fn raw_bytes(&self) -> (r: MUTF8Str<'a>)
        ensures
            r.spec_bytes() == self.bytes@,
    {
        MUTF8Str::from_mutf8_unchecked(self.bytes)
    }

    /// The string, decoded leniently.
    pub fn decode(&self) -> (r: String)
        requires
            fits_codec(self.bytes@.len()),
        ensures
            r@ == mutf8_lossy(self.bytes@),
            forall|t: Seq<char>| #[trigger] mutf8_encoding(t) == self.bytes@ ==> r@ == t,
    {
        self.raw_bytes().decode_lossy()
    }

    /// The string, decoded leniently.
    pub fn to_utf8_string(&self) -> (r: String)
        requires
            fits_codec(self.bytes@.len()),
        ensures
            r@ == mutf8_lossy(self.bytes@),
            forall|t: Seq<char>| #[trigger] mutf8_encoding(t) == self.bytes@ ==> r@ == t,
    {
        self.decode()
    }
}

/// A borrowed value of a document that was read (the same view as `RefValue`).
pub type ImmutableValue<'a> = RefValue<'a>;

/// A borrowed string payload of a document that was read.
pub type ImmutableString<'a> = RefString<'a>;

/// A borrowed list of a document that was read.
pub type ImmutableList<'a> = RefList<'a>;

/// A borrowed compound of a document that was read.
pub type ImmutableCompound<'a> = RefCompound<'a>;

/// Where to look inside a value: an element of a list by position, or an
/// entry of a compound by name.
pub enum Index<'k> {
    Pos(usize),
    Key(&'k str),
}

/// What `RefValue::get` returns, against the model.
pub open spec fn found_by(r: Option<RefValue>, v: Nbt, index: Index) -> bool {
    match index {
        Index::Pos(i) => match v {
            Nbt::List(_, s) => found_at(r, s, i as int),
            _ => r is None,
        },
        Index::Key(k) => match v {
            Nbt::Compound(es) => found(r, es, mutf8_encoding(k@)),
            _ => r is None,
        },
    }
}

impl<'a> RefValue<'a> {
    /// Whether the value is a End.
    pub fn is_end(&self) -> (b: bool)
        ensures
            b == (self@ is End),
    {
        match self {
            RefValue::End => true,
            _ => false,
        }
    }

    /// Whether the value is a Byte.
    pub fn is_byte(&self) -> (b: bool)
        ensures
            b == (self@ is Byte),
    {
        match self {
            RefValue::Byte(_) => true,
            _ => false,
        }
    }

    /// Whether the value is a Short.
    pub fn is_short(&self) -> (b: bool)
        ensures
            b == (self@ is Short),
    {
        match self {
            RefValue::Short(_) => true,
            _ => false,
        }
    }

    /// Whether the value is a Int.
    pub fn is_int(&self) -> (b: bool)
        ensures
            b == (self@ is Int),
    {
        match self {
            RefValue::Int(_) => true,
            _ => false,
        }
    }

    /// Whether the value is a Long.
    pub fn is_long(&self) -> (b: bool)
        ensures
            b == (self@ is Long),
    {
        match self {
            RefValue::Long(_) => true,
            _ => false,
        }
    }

    /// Whether the value is a Float.
    pub fn is_float(&self) -> (b: bool)
        ensures
            b == (self@ is Float),
    {
        match self {
            RefValue::Float(_) => true,
            _ => false,
        }
    }

    /// Whether the value is a Double.
    pub fn is_double(&self) -> (b: bool)
        ensures
            b == (self@ is Double),
    {
        match self {
            RefValue::Double(_) => true,
            _ => false,
        }
    }

    /// Whether the value is a ByteArray.
    pub fn is_byte_array(&self) -> (b: bool)
        ensures
            b == (self@ is ByteArray),
    {
        match self {
            RefValue::ByteArray(_) => true,
            _ => false,
        }
    }

    /// Whether the value is a String.
    pub fn is_string(&self) -> (b: bool)
        ensures
            b == (self@ is String),
    {
        match self {
            RefValue::String(_) => true,
            _ => false,
        }
    }

    /// Whether the value is a List.
    pub fn is_list(&self) -> (b: bool)
        ensures
            b == (self@ is List),
    {
        match self {
            RefValue::List(_) => true,
            _ => false,
        }
    }

    /// Whether the value is a Compound.
    pub fn is_compound(&self) -> (b: bool)
        ensures
            b == (self@ is Compound),
    {
        match self {
            RefValue::Compound(_) => true,
            _ => false,
        }
    }

    /// Whether the value is a IntArray.
    pub fn is_int_array(&self) -> (b: bool)
        ensures
            b == (self@ is IntArray),
    {
        match self {
            RefValue::IntArray(_) => true,
            _ => false,
        }
    }

    /// Whether the value is a LongArray.
    pub fn is_long_array(&self) -> (b: bool)
        ensures
            b == (self@ is LongArray),
    {
        match self {
            RefValue::LongArray(_) => true,
            _ => false,
        }
    }

    /// `Some(())` for an End, else `None`.
    pub fn as_end(&self) -> (r: Option<()>)
        ensures
            r is Some <==> self@ is End,
    {
        match self {
            RefValue::End => Some(()),
            _ => None,
        }
    }

    /// The payload of a Byte, else `None`.
    pub fn as_byte(&self) -> (r: Option<i8>)
        ensures
            match r {
                Some(x) => *self == RefValue::Byte(x),
                None => !(self@ is Byte),
            },
    {
        match self {
            RefValue::Byte(x) => Some(*x),
            _ => None,
        }
    }

    /// The payload of a Short, else `None`.
    pub fn as_short(&self) -> (r: Option<i16>)
        ensures
            match r {
                Some(x) => *self == RefValue::Short(x),
                None => !(self@ is Short),
            },
    {
        match self {
            RefValue::Short(x) => Some(*x),
            _ => None,
        }
    }

    /// The payload of a Int, else `None`.
    pub fn as_int(&self) -> (r: Option<i32>)
        ensures
            match r {
                Some(x) => *self == RefValue::Int(x),
                None => !(self@ is Int),
            },
    {
        match self {
            RefValue::Int(x) => Some(*x),
            _ => None,
        }
    }

    /// The payload of a Long, else `None`.
    pub fn as_long(&self) -> (r: Option<i64>)
        ensures
            match r {
                Some(x) => *self == RefValue::Long(x),
                None => !(self@ is Long),
            },
    {
        match self {
            RefValue::Long(x) => Some(*x),
            _ => None,
        }
    }

    /// The payload of a Float (its IEEE 754 bits), else `None`.
    pub fn as_float(&self) -> (r: Option<u32>)
        ensures
            match r {
                Some(x) => *self == RefValue::Float(x),
                None => !(self@ is Float),
            },
    {
        match self {
            RefValue::Float(x) => Some(*x),
            _ => None,
        }
    }

    /// The payload of a Double (its IEEE 754 bits), else `None`.
    pub fn as_double(&self) -> (r: Option<u64>)
        ensures
            match r {
                Some(x) => *self == RefValue::Double(x),
                None => !(self@ is Double),
            },
    {
        match self {
            RefValue::Double(x) => Some(*x),
            _ => None,
        }
    }

    /// The payload of a ByteArray, else `None`.
    pub fn as_byte_array(&self) -> (r: Option<&'a [i8]>)
        ensures
            match r {
                Some(x) => *self == RefValue::ByteArray(x),
                None => !(self@ is ByteArray),
            },
    {
        match self {
            RefValue::ByteArray(x) => Some(*x),
            _ => None,
        }
    }

    /// The payload of a String, else `None`.
    pub fn as_string(&self) -> (r: Option<RefString<'a>>)
        ensures
            match r {
                Some(x) => *self == RefValue::String(x),
                None => !(self@ is String),
            },
    {
        match self {
            RefValue::String(x) => Some(*x),
            _ => None,
        }
    }

    /// The payload of a List, else `None`.
    pub fn as_list(&self) -> (r: Option<RefList<'a>>)
        ensures
            match r {
                Some(x) => *self == RefValue::List(x),
                None => !(self@ is List),
            },
    {
        match self {
            RefValue::List(x) => Some(*x),
            _ => None,
        }
    }

    /// The payload of a Compound, else `None`.
    pub fn as_compound(&self) -> (r: Option<RefCompound<'a>>)
        ensures
            match r {
                Some(x) => *self == RefValue::Compound(x),
                None => !(self@ is Compound),
            },
    {
        match self {
            RefValue::Compound(x) => Some(*x),
            _ => None,
        }
    }

    /// The payload of a IntArray, else `None`.
    pub fn as_int_array(&self) -> (r: Option<&'a [i32]>)
        ensures
            match r {
                Some(x) => *self == RefValue::IntArray(x),
                None => !(self@ is IntArray),
            },
    {
        match self {
            RefValue::IntArray(x) => Some(*x),
            _ => None,
        }
    }

    /// The payload of a LongArray, else `None`.
    pub fn as_long_array(&self) -> (r: Option<&'a [i64]>)
        ensures
            match r {
                Some(x) => *self == RefValue::LongArray(x),
                None => !(self@ is LongArray),
            },
    {
        match self {
            RefValue::LongArray(x) => Some(*x),
            _ => None,
        }
    }

    /// The tag type of the value.
    pub fn tag_id(&self) -> (t: TagID)
        ensures
            tag_byte(t) == nbt_tag(self@),
    {
        TagID::from_u8_unchecked(ref_tag_byte(self))
    }

    /// Whether the value has the tag type of `T`.
    pub fn is_<T: NBT>(&self) -> (b: bool)
        ensures
            b == (nbt_tag(self@) == tag_byte(T::spec_tag_id())),
    {
        ref_tag_byte(self) == T::tag_id().to_u8()
    }

    /// The value itself, when it has the tag type of `T`.
    pub fn into_<T: NBT>(self) -> (r: Option<RefValue<'a>>)
        ensures
            nbt_tag(self@) == tag_byte(T::spec_tag_id()) ==> r == Some(self),
            nbt_tag(self@) != tag_byte(T::spec_tag_id()) ==> r is None,
    {
        if self.is_::<T>() {
            Some(self)
        } else {
            None
        }
    }

    /// The element at a position of a list, or the first entry of a compound
    /// with a name; `None` when there is none, or when the value is not of
    /// the kind the index asks for.
    pub fn get(&self, index: Index) -> (r: Option<RefValue<'a>>)
        requires
            index matches Index::Key(k) ==> fits_codec(k@.len()),
        ensures
            found_by(r, self@, index),
    {
        match index {
            Index::Pos(i) => match self {
                RefValue::List(l) => l.get(i),
                _ => None,
            },
            Index::Key(k) => match self {
                RefValue::Compound(c) => c.get(k),
                _ => None,
            },
        }
    }
}

impl<'a> RefValue<'a> {
    /// As `get`, when what is found has the tag type of `T`.
    pub fn get_<T: NBT>(&self, index: Index) -> (r: Option<RefValue<'a>>)
        requires
            index matches Index::Key(k) ==> fits_codec(k@.len()),
        ensures
            match r {
                Some(v) => found_by(r, self@, index) && nbt_tag(v@) == tag_byte(T::spec_tag_id()),
                None => forall|w: RefValue| #[trigger] found_by(Some(w), self@, index) ==> nbt_tag(w@)
                    != tag_byte(T::spec_tag_id()),
            },
    {
        match self.get(index) {
            Some(v) => v.into_::<T>(),
            None => None,
        }
    }
}

impl OwnValue {
    /// Borrows the value.
    pub fn to_ref<'a>(&'a self) -> (r: RefValue<'a>)
        ensures
            r@ == self@,
    {
        ref_value(self)
    }

    /// The tag type of the value.
    pub fn tag_id(&self) -> (t: TagID)
        ensures
            tag_byte(t) == nbt_tag(self@),
    {
        ref_value(self).tag_id()
    }

    /// Whether the value has the tag type of `T`.
    pub fn is_<T: NBT>(&self) -> (b: bool)
        ensures
            b == (nbt_tag(self@) == tag_byte(T::spec_tag_id())),
    {
        ref_value(self).is_::<T>()
    }

    /// The element at a position of a list, or the first entry of a compound
    /// with a name (see `RefValue::get`).
    pub fn get<'a>(&'a self, index: Index) -> (r: Option<RefValue<'a>>)
        requires
            index matches Index::Key(k) ==> fits_codec(k@.len()),
        ensures
            found_by(r, self@, index),
    {
        ref_value(self).get(index)
    }

    /// As `get`, when what is found has the tag type of `T`.
    pub fn get_<'a, T: NBT>(&'a self, index: Index) -> (r: Option<RefValue<'a>>)
        requires
            index matches Index::Key(k) ==> fits_codec(k@.len()),
        ensures
            match r {
                Some(v) => found_by(r, self@, index) && nbt_tag(v@) == tag_byte(T::spec_tag_id()),
                None => forall|w: RefValue| #[trigger] found_by(Some(w), self@, index) ==> nbt_tag(w@)
                    != tag_byte(T::spec_tag_id()),
            },
    {
        match ref_value(self).get(index) {
            Some(v) => {
                if v.is_::<T>() {
                    Some(v)
                } else {
                    None
                }
            },
            None => None,
        }
    }
}

/// A borrowed string of Modified UTF-8 bytes.
pub trait StringRef {
    /// The bytes.
    spec fn spec_raw(&self) -> Seq<u8>;

    /// The bytes, as a Modified UTF-8 string.
    fn raw_bytes(&self) -> (r: MUTF8Str)
        ensures
            r.spec_bytes() == self.spec_raw(),
    ;

    /// The string, decoded leniently.
    fn decode(&self) -> (r: String)
        requires
            fits_codec(self.spec_raw().len()),
        ensures
            r@ == mutf8_lossy(self.spec_raw()),
            forall|t: Seq<char>| #[trigger] mutf8_encoding(t) == self.spec_raw() ==> r@ == t,
    ;

    /// The string, decoded leniently.
    fn to_utf8_string(&self) -> (r: String)
        requires
            fits_codec(self.spec_raw().len()),
        ensures
            r@ == mutf8_lossy(self.spec_raw()),
            forall|t: Seq<char>| #[trigger] mutf8_encoding(t) == self.spec_raw() ==> r@ == t,
    ;
}

/// A string of a document that can be read.
pub trait ReadableString {
    /// The bytes.
    spec fn spec_raw(&self) -> Seq<u8>;

    /// The Modified UTF-8 bytes.
    fn raw_bytes(&self) -> (r: &[u8])
        ensures
            r@ == self.spec_raw(),
    ;

    /// The string, decoded leniently.
    fn decode(&self) -> (r: String)
        requires
            fits_codec(self.spec_raw().len()),
        ensures
            r@ == mutf8_lossy(self.spec_raw()),
            forall|t: Seq<char>| #[trigger] mutf8_encoding(t) == self.spec_raw() ==> r@ == t,
    ;
}

impl<'a> StringRef for RefString<'a> {
    open spec fn spec_raw(&self) -> Seq<u8> {
        self.bytes@
    }

    fn raw_bytes(&self) -> (r: MUTF8Str) {
        MUTF8Str::from_mutf8_unchecked(self.bytes)
    }

    fn decode(&self) -> (r: String) {
        MUTF8Str::from_mutf8_unchecked(self.bytes).decode_lossy()
    }

    fn to_utf8_string(&self) -> (r: String) {
        MUTF8Str::from_mutf8_unchecked(self.bytes).decode_lossy()
    }
}

impl<'a> ReadableString for RefString<'a> {
    open spec fn spec_raw(&self) -> Seq<u8> {
        self.bytes@
    }

    fn raw_bytes(&self) -> (r: &[u8]) {
        self.bytes
    }

    fn decode(&self) -> (r: String) {
        MUTF8Str::from_mutf8_unchecked(self.bytes).decode_lossy()
    }
}

} // verus!
