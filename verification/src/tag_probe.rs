//! Which NBT tag each kind of serde value is written as.
//!
//! | serde kind | tag |
//! |---|---|
//! | bool, i8, u8 | Byte |
//! | i16, u16 | Short |
//! | i32, u32, char, unit variant | Int |
//! | i64, u64 | Long |
//! | i128, u128 | Int Array (four words, as a UUID) |
//! | f32 | Float |
//! | f64 | Double |
//! | str | String |
//! | bytes | Byte Array |
//! | none, some, unit, unit struct | Compound |
//! | newtype variant, tuple variant, map, struct, struct variant | Compound |
//! | seq, tuple, tuple struct | List |
//!
//! A newtype struct is written as its inner value, unless its name is one
//! of the array and list markers, which name their tag themselves.
use vstd::prelude::*;

use crate::tag::TagID;

verus! {

/// The kinds of values of serde's data model (a newtype struct that is no
/// marker is probed through its inner value, and so has no kind of its own).
pub enum SerdeKind {
    Bool,
    I8,
    I16,
    I32,
    I64,
    I128,
    U8,
    U16,
    U32,
    U64,
    U128,
    F32,
    F64,
    Char,
    Str,
    Bytes,
    OptionNone,
    OptionSome,
    Unit,
    UnitStruct,
    UnitVariant,
    NewtypeVariant,
    Sequence,
    Tuple,
    TupleStruct,
    TupleVariant,
    Mapping,
    Struct,
    StructVariant,
}

/// The tag of a value of each kind (the table of the module documentation).
pub open spec fn kind_tag(k: SerdeKind) -> TagID {
    match k {
        SerdeKind::Bool | SerdeKind::I8 | SerdeKind::U8 => TagID::Byte,
        SerdeKind::I16 | SerdeKind::U16 => TagID::Short,
        SerdeKind::I32 | SerdeKind::U32 | SerdeKind::Char | SerdeKind::UnitVariant => TagID::Int,
        SerdeKind::I64 | SerdeKind::U64 => TagID::Long,
        SerdeKind::I128 | SerdeKind::U128 => TagID::IntArray,
        SerdeKind::F32 => TagID::Float,
        SerdeKind::F64 => TagID::Double,
        SerdeKind::Str => TagID::String,
        SerdeKind::Bytes => TagID::ByteArray,
        SerdeKind::Sequence | SerdeKind::Tuple | SerdeKind::TupleStruct => TagID::List,
        _ => TagID::Compound,
    }
}

/// The tag that a value of kind `k` is written as.
pub fn tag_of_kind(k: SerdeKind) -> (t: TagID)
    ensures
        t == kind_tag(k),
{
    match k {
        SerdeKind::Bool | SerdeKind::I8 | SerdeKind::U8 => TagID::Byte,
        SerdeKind::I16 | SerdeKind::U16 => TagID::Short,
        SerdeKind::I32 | SerdeKind::U32 | SerdeKind::Char | SerdeKind::UnitVariant => TagID::Int,
        SerdeKind::I64 | SerdeKind::U64 => TagID::Long,
        SerdeKind::I128 | SerdeKind::U128 => TagID::IntArray,
        SerdeKind::F32 => TagID::Float,
        SerdeKind::F64 => TagID::Double,
        SerdeKind::Str => TagID::String,
        SerdeKind::Bytes => TagID::ByteArray,
        SerdeKind::Sequence | SerdeKind::Tuple | SerdeKind::TupleStruct => TagID::List,
        _ => TagID::Compound,
    }
}

} // verus!
