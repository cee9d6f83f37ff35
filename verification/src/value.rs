//! Owned NBT values: the tree that the reader builds and the writer walks.
use vstd::prelude::*;

use crate::model::{Nbt, wf};

verus! {

/// An owned NBT value.
///
/// Floating point payloads are held as their IEEE 754 bits (`Float`, `Double`),
/// strings as their Modified UTF-8 bytes.
pub enum OwnValue {
    End,
    Byte(i8),
    Short(i16),
    Int(i32),
    Long(i64),
    Float(u32),
    Double(u64),
    ByteArray(Vec<i8>),
    String(OwnString),
    List(OwnList),
    Compound(OwnCompound),
    IntArray(Vec<i32>),
    LongArray(Vec<i64>),
}

/// Another name of [`OwnValue`].
pub type ValueOwn = OwnValue;

/// An owned string payload: Modified UTF-8 bytes.
pub struct OwnString {
    pub data: Vec<u8>,
}

/// An owned list: the tag byte of its elements and the elements.
///
/// A list of End elements holds only their number (`end_len`), as End has
/// no payload.
pub struct OwnList {
    pub tag: u8,
    pub end_len: usize,
    pub items: Vec<OwnValue>,
}

/// An owned compound: its entries in order, each a name (Modified UTF-8
/// bytes) and a value.
pub struct OwnCompound {
    pub entries: Vec<(Vec<u8>, OwnValue)>,
}

/// The model of an owned value.
pub open spec fn value_view(v: OwnValue) -> Nbt
    decreases v,
{
    match v {
        OwnValue::End => Nbt::End,
        OwnValue::Byte(x) => Nbt::Byte(x),
        OwnValue::Short(x) => Nbt::Short(x),
        OwnValue::Int(x) => Nbt::Int(x),
        OwnValue::Long(x) => Nbt::Long(x),
        OwnValue::Float(x) => Nbt::Float(x),
        OwnValue::Double(x) => Nbt::Double(x),
        OwnValue::ByteArray(s) => Nbt::ByteArray(s@),
        OwnValue::String(s) => Nbt::String(s.data@),
        OwnValue::List(l) => Nbt::List(l.tag, list_items_view(l)),
        OwnValue::Compound(c) => Nbt::Compound(compound_entries_view(c)),
        OwnValue::IntArray(s) => Nbt::IntArray(s@),
        OwnValue::LongArray(s) => Nbt::LongArray(s@),
    }
}

/// The models of the elements of a list.
pub open spec fn list_items_view(l: OwnList) -> Seq<Nbt>
    decreases l,
{
    if l.tag == 0 {
        Seq::new(l.end_len as nat, |i: int| Nbt::End)
    } else {
        Seq::new(
            l.items@.len(),
            |i: int|
                if 0 <= i < l.items@.len() {
                    value_view(l.items@[i])
                } else {
                    Nbt::End
                },
        )
    }
}

/// The models of the entries of a compound.
pub open spec fn compound_entries_view(c: OwnCompound) -> Seq<(Seq<u8>, Nbt)>
    decreases c,
{
    Seq::new(
        c.entries@.len(),
        |i: int|
            if 0 <= i < c.entries@.len() {
                (c.entries@[i].0@, value_view(c.entries@[i].1))
            } else {
                (Seq::empty(), Nbt::End)
            },
    )
}

/// The models of a run of values.
pub open spec fn views(s: Seq<OwnValue>) -> Seq<Nbt> {
    Seq::new(s.len(), |i: int| value_view(s[i]))
}

/// The models of a run of compound entries.
pub open spec fn entry_views(s: Seq<(Vec<u8>, OwnValue)>) -> Seq<(Seq<u8>, Nbt)> {
    Seq::new(s.len(), |i: int| (s[i].0@, value_view(s[i].1)))
}

impl View for OwnValue {
    type V = Nbt;

    open spec fn view(&self) -> Nbt {
        value_view(*self)
    }
}

impl View for OwnString {
    type V = Seq<u8>;

    open spec fn view(&self) -> Seq<u8> {
        self.data@
    }
}

impl View for OwnList {
    type V = Seq<Nbt>;

    open spec fn view(&self) -> Seq<Nbt> {
        list_items_view(*self)
    }
}

impl View for OwnCompound {
    type V = Seq<(Seq<u8>, Nbt)>;

    open spec fn view(&self) -> Seq<(Seq<u8>, Nbt)> {
        compound_entries_view(*self)
    }
}

impl OwnList {
    /// The tag byte of the elements, as the model holds it.
    pub open spec fn spec_tag(&self) -> u8 {
        self.tag
    }

    /// The list is one the format can hold: a tag type, elements all of that
    /// tag and themselves well formed, a length that fits its field.
    pub open spec fn wf(&self) -> bool {
        wf(Nbt::List(self.tag, self@))
    }
}

impl OwnCompound {
    /// The compound is one the format can hold: names that fit their length
    /// field, no End entry, every value well formed.
    pub open spec fn wf(&self) -> bool {
        wf(Nbt::Compound(self@))
    }
}

/// The entries of a compound model are those of its run of entries.
pub proof fn lemma_entries_view(c: OwnCompound)
    ensures
        compound_entries_view(c) == entry_views(c.entries@),
{
    assert(compound_entries_view(c) =~= entry_views(c.entries@));
}

/// The elements of a non-End list model are those of its run of values.
pub proof fn lemma_items_view(l: OwnList)
    requires
        l.tag != 0,
    ensures
        list_items_view(l) == views(l.items@),
{
    assert(list_items_view(l) =~= views(l.items@));
}

} // verus!
