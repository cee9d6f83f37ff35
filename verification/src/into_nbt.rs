//! Turning Rust values into owned NBT values.
use vstd::prelude::*;

use crate::model::Nbt;
use crate::mutf8::{fits_codec, mutf8_encoding};
use crate::value::{OwnCompound, OwnList, OwnString, OwnValue};

verus! {

/// Values that stand for one NBT value.
pub trait IntoNBT {
    /// The NBT value this value stands for.
    spec fn spec_nbt(&self) -> Nbt;

    /// Whether the value can be turned into an NBT value: always, but for a
    /// string too long for its encoding to be held.
    spec fn spec_admits(&self) -> bool;

    /// The owned NBT value.
    fn into_nbt(self) -> (r: OwnValue)
        requires
            self.spec_admits(),
        ensures
            r@ == self.spec_nbt(),
    ;
}

impl IntoNBT for i8 {
    open spec fn spec_admits(&self) -> bool {
        true
    }

    open spec fn spec_nbt(&self) -> Nbt {
        Nbt::Byte(*self)
    }

    fn into_nbt(self) -> (r: OwnValue) {
        OwnValue::Byte(self)
    }
}

impl IntoNBT for i16 {
    open spec fn spec_admits(&self) -> bool {
        true
    }

    open spec fn spec_nbt(&self) -> Nbt {
        Nbt::Short(*self)
    }

    fn into_nbt(self) -> (r: OwnValue) {
        OwnValue::Short(self)
    }
}

impl IntoNBT for i32 {
    open spec fn spec_admits(&self) -> bool {
        true
    }

    open spec fn spec_nbt(&self) -> Nbt {
        Nbt::Int(*self)
    }

    fn into_nbt(self) -> (r: OwnValue) {
        OwnValue::Int(self)
    }
}

impl IntoNBT for i64 {
    open spec fn spec_admits(&self) -> bool {
        true
    }

    open spec fn spec_nbt(&self) -> Nbt {
        Nbt::Long(*self)
    }

    fn into_nbt(self) -> (r: OwnValue) {
        OwnValue::Long(self)
    }
}

impl IntoNBT for Vec<i8> {
    open spec fn spec_admits(&self) -> bool {
        true
    }

    open spec fn spec_nbt(&self) -> Nbt {
        Nbt::ByteArray(self@)
    }

    fn into_nbt(self) -> (r: OwnValue) {
        OwnValue::ByteArray(self)
    }
}

impl IntoNBT for Vec<i32> {
    open spec fn spec_admits(&self) -> bool {
        true
    }

    open spec fn spec_nbt(&self) -> Nbt {
        Nbt::IntArray(self@)
    }

    fn into_nbt(self) -> (r: OwnValue) {
        OwnValue::IntArray(self)
    }
}

impl IntoNBT for Vec<i64> {
    open spec fn spec_admits(&self) -> bool {
        true
    }

    open spec fn spec_nbt(&self) -> Nbt {
        Nbt::LongArray(self@)
    }

    fn into_nbt(self) -> (r: OwnValue) {
        OwnValue::LongArray(self)
    }
}

impl IntoNBT for OwnString {
    open spec fn spec_admits(&self) -> bool {
        true
    }

    open spec fn spec_nbt(&self) -> Nbt {
        Nbt::String(self@)
    }

    fn into_nbt(self) -> (r: OwnValue) {
        OwnValue::String(self)
    }
}

impl IntoNBT for OwnList {
    open spec fn spec_admits(&self) -> bool {
        true
    }

    open spec fn spec_nbt(&self) -> Nbt {
        Nbt::List(self.tag, self@)
    }

    fn into_nbt(self) -> (r: OwnValue) {
        OwnValue::List(self)
    }
}

impl IntoNBT for OwnCompound {
    open spec fn spec_admits(&self) -> bool {
        true
    }

    open spec fn spec_nbt(&self) -> Nbt {
        Nbt::Compound(self@)
    }

    fn into_nbt(self) -> (r: OwnValue) {
        OwnValue::Compound(self)
    }
}

impl IntoNBT for std::string::String {
    open spec fn spec_admits(&self) -> bool {
        fits_codec(self@.len())
    }

    open spec fn spec_nbt(&self) -> Nbt {
        Nbt::String(mutf8_encoding(self@))
    }

    fn into_nbt(self) -> (r: OwnValue) {
        OwnValue::String(OwnString::from_str(self.as_str()))
    }
}

impl<'a> IntoNBT for &'a str {
    open spec fn spec_admits(&self) -> bool {
        fits_codec(self@.len())
    }

    open spec fn spec_nbt(&self) -> Nbt {
        Nbt::String(mutf8_encoding(self@))
    }

    fn into_nbt(self) -> (r: OwnValue) {
        OwnValue::String(OwnString::from_str(self))
    }
}

} // verus!
