//! The tag types of the NBT format.
//!
//! | ID | Tag | Payload |
//! |----|-----|---------|
//! | 0 | End | nothing |
//! | 1 | Byte | `i8` |
//! | 2 | Short | `i16` |
//! | 3 | Int | `i32` |
//! | 4 | Long | `i64` |
//! | 5 | Float | 32-bit IEEE 754 |
//! | 6 | Double | 64-bit IEEE 754 |
//! | 7 | ByteArray | `[i8]` |
//! | 8 | String | Modified UTF-8 bytes |
//! | 9 | List | values of one tag type |
//! | 10 | Compound | named values |
//! | 11 | IntArray | `[i32]` |
//! | 12 | LongArray | `[i64]` |
use core::marker::PhantomData;
use vstd::prelude::*;

use crate::error::Error;

verus! {

/// An NBT tag type: the byte in front of every value of a document.
#[derive(Clone, Copy, PartialEq, Eq, Structural, Debug, Hash)]
pub enum TagID {
    /// 0: ends a compound.
    End,
    /// 1: a signed 8-bit integer.
    Byte,
    /// 2: a signed 16-bit integer.
    Short,
    /// 3: a signed 32-bit integer.
    Int,
    /// 4: a signed 64-bit integer.
    Long,
    /// 5: a 32-bit floating point number.
    Float,
    /// 6: a 64-bit floating point number.
    Double,
    /// 7: an array of signed bytes.
    ByteArray,
    /// 8: a Modified UTF-8 string.
    String,
    /// 9: a list of values of one tag type.
    List,
    /// 10: named values.
    Compound,
    /// 11: an array of signed 32-bit integers.
    IntArray,
    /// 12: an array of signed 64-bit integers.
    LongArray,
}

/// The byte that stands for a tag type.
pub open spec fn tag_byte(t: TagID) -> u8 {
    match t {
        TagID::End => 0,
        TagID::Byte => 1,
        TagID::Short => 2,
        TagID::Int => 3,
        TagID::Long => 4,
        TagID::Float => 5,
        TagID::Double => 6,
        TagID::ByteArray => 7,
        TagID::String => 8,
        TagID::List => 9,
        TagID::Compound => 10,
        TagID::IntArray => 11,
        TagID::LongArray => 12,
    }
}

/// The tag type that a byte stands for, where it stands for one.
pub open spec fn tag_of_byte(b: u8) -> Option<TagID> {
    if b == 0 {
        Some(TagID::End)
    } else if b == 1 {
        Some(TagID::Byte)
    } else if b == 2 {
        Some(TagID::Short)
    } else if b == 3 {
        Some(TagID::Int)
    } else if b == 4 {
        Some(TagID::Long)
    } else if b == 5 {
        Some(TagID::Float)
    } else if b == 6 {
        Some(TagID::Double)
    } else if b == 7 {
        Some(TagID::ByteArray)
    } else if b == 8 {
        Some(TagID::String)
    } else if b == 9 {
        Some(TagID::List)
    } else if b == 10 {
        Some(TagID::Compound)
    } else if b == 11 {
        Some(TagID::IntArray)
    } else if b == 12 {
        Some(TagID::LongArray)
    } else {
        None
    }
}

/// The width in bytes of the payload of a tag type whose payload has a fixed width.
pub open spec fn fixed_width(b: u8) -> int {
    if b == 1 {
        1
    } else if b == 2 {
        2
    } else if b == 3 || b == 5 {
        4
    } else if b == 4 || b == 6 {
        8
    } else {
        0
    }
}

impl TagID {
    /// The byte that stands for this tag type.
    pub fn to_u8(self) -> (b: u8)
        ensures
            b == tag_byte(self),
            b <= 12,
    {
        match self {
            TagID::End => 0,
            TagID::Byte => 1,
            TagID::Short => 2,
            TagID::Int => 3,
            TagID::Long => 4,
            TagID::Float => 5,
            TagID::Double => 6,
            TagID::ByteArray => 7,
            TagID::String => 8,
            TagID::List => 9,
            TagID::Compound => 10,
            TagID::IntArray => 11,
            TagID::LongArray => 12,
        }
    }

    /// The tag type that `value` stands for, or `Error::INVALID(value)` for a
    /// byte above 12.
    pub fn from_u8(value: u8) -> (r: Result<TagID, Error>)
        ensures
            value <= 12 ==> (r matches Ok(t) && tag_byte(t) == value && tag_of_byte(value) == Some(
                t,
            )),
            value > 12 ==> (r matches Err(Error::INVALID(v)) && v == value),
    {
        match value {
            0 => Ok(TagID::End),
            1 => Ok(TagID::Byte),
            2 => Ok(TagID::Short),
            3 => Ok(TagID::Int),
            4 => Ok(TagID::Long),
            5 => Ok(TagID::Float),
            6 => Ok(TagID::Double),
            7 => Ok(TagID::ByteArray),
            8 => Ok(TagID::String),
            9 => Ok(TagID::List),
            10 => Ok(TagID::Compound),
            11 => Ok(TagID::IntArray),
            12 => Ok(TagID::LongArray),
            _ => Err(Error::INVALID(value)),
        }
    }

    /// The tag type that `value` stands for; `value` must name one.
    pub fn from_u8_unchecked(value: u8) -> (t: TagID)
        requires
            value <= 12,
        ensures
            tag_byte(t) == value,
            tag_of_byte(value) == Some(t),
    {
        match Self::from_u8(value) {
            Ok(t) => t,
            Err(_) => TagID::End,
        }
    }

    /// Primitive tags (End, Byte, Short, Int, Long, Float, Double) store
    /// their value directly, in a fixed number of bytes.
    pub fn is_primitive(self) -> (b: bool)
        ensures
            b <==> tag_byte(self) <= 6,
    {
        matches!(
            self,
            TagID::End | TagID::Byte | TagID::Short | TagID::Int | TagID::Long | TagID::Float
                | TagID::Double
        )
    }

    /// Array tags (ByteArray, IntArray, LongArray) store a run of numbers.
    pub fn is_array(self) -> (b: bool)
        ensures
            b <==> (self == TagID::ByteArray || self == TagID::IntArray || self
                == TagID::LongArray),
    {
        matches!(self, TagID::ByteArray | TagID::IntArray | TagID::LongArray)
    }

    /// Composite tags (List, Compound) hold other values.
    pub fn is_composite(self) -> (b: bool)
        ensures
            b <==> (self == TagID::List || self == TagID::Compound),
    {
        matches!(self, TagID::List | TagID::Compound)
    }
}

/// A tag type is primitive, an array, composite, or String, and only one of these.
pub proof fn lemma_tag_classes_partition(t: TagID)
    ensures
        (tag_byte(t) <= 6) as int + (t == TagID::ByteArray || t == TagID::IntArray || t
            == TagID::LongArray) as int + (t == TagID::List || t == TagID::Compound) as int + (t
            == TagID::String) as int == 1,
{
}

/// Every tag type is found again from its byte.
pub proof fn lemma_tag_byte_roundtrip(t: TagID, b: u8)
    ensures
        tag_of_byte(tag_byte(t)) == Some(t),
        tag_of_byte(b) matches Some(u) ==> tag_byte(u) == b,
        tag_of_byte(b) is Some <==> b <= 12,
{
}

/// The width in bytes of the payload of a primitive tag type; `None` for the
/// others, whose payload carries its own length.
pub fn tag_size(tag_id: TagID) -> (r: Option<usize>)
    ensures
        tag_byte(tag_id) <= 6 ==> r == Some(fixed_width(tag_byte(tag_id)) as usize),
        tag_byte(tag_id) > 6 ==> r is None,
{
    match tag_id {
        TagID::End => Some(0),
        TagID::Byte => Some(1),
        TagID::Short => Some(2),
        TagID::Int | TagID::Float => Some(4),
        TagID::Long | TagID::Double => Some(8),
        _ => None,
    }
}

// ---------------------------------------------------------------------------
// Marker types, one per tag type.
// ---------------------------------------------------------------------------

/// A type that stands for one tag type.
pub trait NBT {
    /// The tag type this marker stands for.
    spec fn spec_tag_id() -> TagID;

    /// Returns the tag type this marker stands for.
    fn tag_id() -> (t: TagID)
        ensures
            t == Self::spec_tag_id(),
    ;
}

/// Closes the set of marker types to those of this crate.
pub trait Sealed {}

/// Marker types of the primitive tag types.
pub trait PrimitiveNBTBase: NBT {}

/// Marker for the End tag (0).
#[derive(Clone, Copy)]
pub struct End;

/// Marker for the Byte tag (1).
#[derive(Clone, Copy)]
pub struct Byte;

/// Marker for the Short tag (2).
#[derive(Clone, Copy)]
pub struct Short;

/// Marker for the Int tag (3).
#[derive(Clone, Copy)]
pub struct Int;

/// Marker for the Long tag (4).
#[derive(Clone, Copy)]
pub struct Long;

/// Marker for the Float tag (5).
#[derive(Clone, Copy)]
pub struct Float;

/// Marker for the Double tag (6).
#[derive(Clone, Copy)]
pub struct Double;

/// Marker for the ByteArray tag (7).
#[derive(Clone, Copy)]
pub struct ByteArray;

/// Marker for the String tag (8).
#[derive(Clone, Copy)]
pub struct String;

/// Marker for the List tag (9).
#[derive(Clone, Copy)]
pub struct List;

/// Marker for the Compound tag (10).
#[derive(Clone, Copy)]
pub struct Compound;

/// Marker for the IntArray tag (11).
#[derive(Clone, Copy)]
pub struct IntArray;

/// Marker for the LongArray tag (12).
#[derive(Clone, Copy)]
pub struct LongArray;

impl NBT for End {
    open spec fn spec_tag_id() -> TagID {
        TagID::End
    }

    fn tag_id() -> (t: TagID) {
        TagID::End
    }
}

impl NBT for Byte {
    open spec fn spec_tag_id() -> TagID {
        TagID::Byte
    }

    fn tag_id() -> (t: TagID) {
        TagID::Byte
    }
}

impl NBT for Short {
    open spec fn spec_tag_id() -> TagID {
        TagID::Short
    }

    fn tag_id() -> (t: TagID) {
        TagID::Short
    }
}

impl NBT for Int {
    open spec fn spec_tag_id() -> TagID {
        TagID::Int
    }

    fn tag_id() -> (t: TagID) {
        TagID::Int
    }
}

impl NBT for Long {
    open spec fn spec_tag_id() -> TagID {
        TagID::Long
    }

    fn tag_id() -> (t: TagID) {
        TagID::Long
    }
}

impl NBT for Float {
    open spec fn spec_tag_id() -> TagID {
        TagID::Float
    }

    fn tag_id() -> (t: TagID) {
        TagID::Float
    }
}

impl NBT for Double {
    open spec fn spec_tag_id() -> TagID {
        TagID::Double
    }

    fn tag_id() -> (t: TagID) {
        TagID::Double
    }
}

impl NBT for ByteArray {
    open spec fn spec_tag_id() -> TagID {
        TagID::ByteArray
    }

    fn tag_id() -> (t: TagID) {
        TagID::ByteArray
    }
}

impl NBT for String {
    open spec fn spec_tag_id() -> TagID {
        TagID::String
    }

    fn tag_id() -> (t: TagID) {
        TagID::String
    }
}

impl NBT for List {
    open spec fn spec_tag_id() -> TagID {
        TagID::List
    }

    fn tag_id() -> (t: TagID) {
        TagID::List
    }
}

impl NBT for Compound {
    open spec fn spec_tag_id() -> TagID {
        TagID::Compound
    }

    fn tag_id() -> (t: TagID) {
        TagID::Compound
    }
}

impl NBT for IntArray {
    open spec fn spec_tag_id() -> TagID {
        TagID::IntArray
    }

    fn tag_id() -> (t: TagID) {
        TagID::IntArray
    }
}

impl NBT for LongArray {
    open spec fn spec_tag_id() -> TagID {
        TagID::LongArray
    }

    fn tag_id() -> (t: TagID) {
        TagID::LongArray
    }
}

impl Sealed for End {}

impl Sealed for Byte {}

impl Sealed for Short {}

impl Sealed for Int {}

impl Sealed for Long {}

impl Sealed for Float {}

impl Sealed for Double {}

impl Sealed for ByteArray {}

impl Sealed for String {}

impl Sealed for List {}

impl Sealed for Compound {}

impl Sealed for IntArray {}

impl Sealed for LongArray {}

impl PrimitiveNBTBase for End {}

impl PrimitiveNBTBase for Byte {}

impl PrimitiveNBTBase for Short {}

impl PrimitiveNBTBase for Int {}

impl PrimitiveNBTBase for Long {}

impl PrimitiveNBTBase for Float {}

impl PrimitiveNBTBase for Double {}

// ---------------------------------------------------------------------------
// The tag markers of the serde and reader interfaces.
// ---------------------------------------------------------------------------

/// Tag marker for the End tag (0).
#[derive(Clone, Copy)]
pub struct TagEnd;

/// Tag marker for the Byte tag (1).
#[derive(Clone, Copy)]
pub struct TagByte;

/// Tag marker for the Short tag (2).
#[derive(Clone, Copy)]
pub struct TagShort;

/// Tag marker for the Int tag (3).
#[derive(Clone, Copy)]
pub struct TagInt;

/// Tag marker for the Long tag (4).
#[derive(Clone, Copy)]
pub struct TagLong;

/// Tag marker for the Float tag (5).
#[derive(Clone, Copy)]
pub struct TagFloat;

/// Tag marker for the Double tag (6).
#[derive(Clone, Copy)]
pub struct TagDouble;

/// Tag marker for the ByteArray tag (7).
#[derive(Clone, Copy)]
pub struct TagByteArray;

/// Tag marker for the String tag (8).
#[derive(Clone, Copy)]
pub struct TagString;

/// Tag marker for the List tag (9).
#[derive(Clone, Copy)]
pub struct TagList;

/// Tag marker for the Compound tag (10).
#[derive(Clone, Copy)]
pub struct TagCompound;

/// Tag marker for the IntArray tag (11).
#[derive(Clone, Copy)]
pub struct TagIntArray;

/// Tag marker for the LongArray tag (12).
#[derive(Clone, Copy)]
pub struct TagLongArray;

impl NBT for TagEnd {
    open spec fn spec_tag_id() -> TagID {
        TagID::End
    }

    fn tag_id() -> (t: TagID) {
        TagID::End
    }
}

impl NBT for TagByte {
    open spec fn spec_tag_id() -> TagID {
        TagID::Byte
    }

    fn tag_id() -> (t: TagID) {
        TagID::Byte
    }
}

impl NBT for TagShort {
    open spec fn spec_tag_id() -> TagID {
        TagID::Short
    }

    fn tag_id() -> (t: TagID) {
        TagID::Short
    }
}

impl NBT for TagInt {
    open spec fn spec_tag_id() -> TagID {
        TagID::Int
    }

    fn tag_id() -> (t: TagID) {
        TagID::Int
    }
}

impl NBT for TagLong {
    open spec fn spec_tag_id() -> TagID {
        TagID::Long
    }

    fn tag_id() -> (t: TagID) {
        TagID::Long
    }
}

impl NBT for TagFloat {
    open spec fn spec_tag_id() -> TagID {
        TagID::Float
    }

    fn tag_id() -> (t: TagID) {
        TagID::Float
    }
}

impl NBT for TagDouble {
    open spec fn spec_tag_id() -> TagID {
        TagID::Double
    }

    fn tag_id() -> (t: TagID) {
        TagID::Double
    }
}

impl NBT for TagByteArray {
    open spec fn spec_tag_id() -> TagID {
        TagID::ByteArray
    }

    fn tag_id() -> (t: TagID) {
        TagID::ByteArray
    }
}

impl NBT for TagString {
    open spec fn spec_tag_id() -> TagID {
        TagID::String
    }

    fn tag_id() -> (t: TagID) {
        TagID::String
    }
}

impl NBT for TagList {
    open spec fn spec_tag_id() -> TagID {
        TagID::List
    }

    fn tag_id() -> (t: TagID) {
        TagID::List
    }
}

impl NBT for TagCompound {
    open spec fn spec_tag_id() -> TagID {
        TagID::Compound
    }

    fn tag_id() -> (t: TagID) {
        TagID::Compound
    }
}

impl NBT for TagIntArray {
    open spec fn spec_tag_id() -> TagID {
        TagID::IntArray
    }

    fn tag_id() -> (t: TagID) {
        TagID::IntArray
    }
}

impl NBT for TagLongArray {
    open spec fn spec_tag_id() -> TagID {
        TagID::LongArray
    }

    fn tag_id() -> (t: TagID) {
        TagID::LongArray
    }
}

/// Marker for a list whose elements have the tag type of `T`; its own tag is List (9).
pub struct TypedList<T: NBT> {
    pub marker: PhantomData<T>,
}

impl<T: NBT> NBT for TypedList<T> {
    open spec fn spec_tag_id() -> TagID {
        TagID::List
    }

    fn tag_id() -> (t: TagID) {
        TagID::List
    }
}

impl<T: NBT> Sealed for TypedList<T> {}

/// Tag marker for a list whose elements have the tag type of `T`; its own tag is List (9).
pub struct TagTypedList<T: NBT> {
    pub marker: PhantomData<T>,
}

impl<T: NBT> NBT for TagTypedList<T> {
    open spec fn spec_tag_id() -> TagID {
        TagID::List
    }

    fn tag_id() -> (t: TagID) {
        TagID::List
    }
}

} // verus!
