//! Mutable views of owned values.
//!
//! A `MutValue` borrows the payload of a value mutably, one variant per tag
//! type: the payload can be changed, its tag type cannot. That is what
//! keeps a list homogeneous while one of its elements is edited in place.
use vstd::prelude::*;

use crate::config::MutableConfig;
use crate::model::{
    Nbt, key_pos, lemma_key_pos, lemma_wf_list_element, lemma_wf_lookup, lookup, nbt_tag, wf,
};
use crate::tag::{NBT, TagID, tag_byte};
use crate::mutf8::{fits_codec, mutf8_encode, mutf8_encoding};
use crate::refs::{Index, RefCompound, RefList, RefString, RefValue, found_by};
use crate::value::{
    OwnCompound, OwnList, OwnString, OwnValue, lemma_entries_view, lemma_items_view,
    compound_entries_view, entry_views, list_items_view, views,
};

verus! {

/// A value borrowed mutably from an owned document.
pub enum MutValue<'a> {
    End,
    Byte(&'a mut i8),
    Short(&'a mut i16),
    Int(&'a mut i32),
    Long(&'a mut i64),
    /// The IEEE 754 bits.
    Float(&'a mut u32),
    /// The IEEE 754 bits.
    Double(&'a mut u64),
    ByteArray(&'a mut Vec<i8>),
    String(&'a mut OwnString),
    List(&'a mut OwnList),
    Compound(&'a mut OwnCompound),
    IntArray(&'a mut Vec<i32>),
    LongArray(&'a mut Vec<i64>),
}

/// The model of what a mutable view borrows, as it stands now.
pub open spec fn mut_view(m: MutValue) -> Nbt {
    match m {
        MutValue::End => Nbt::End,
        MutValue::Byte(x) => Nbt::Byte(*x),
        MutValue::Short(x) => Nbt::Short(*x),
        MutValue::Int(x) => Nbt::Int(*x),
        MutValue::Long(x) => Nbt::Long(*x),
        MutValue::Float(x) => Nbt::Float(*x),
        MutValue::Double(x) => Nbt::Double(*x),
        MutValue::ByteArray(s) => Nbt::ByteArray(s@),
        MutValue::String(s) => Nbt::String(s.data@),
        MutValue::List(l) => Nbt::List(l.tag, l@),
        MutValue::Compound(c) => Nbt::Compound(c@),
        MutValue::IntArray(s) => Nbt::IntArray(s@),
        MutValue::LongArray(s) => Nbt::LongArray(s@),
    }
}

/// Whether `index` finds, in `v`, a value of tag `t`: an element of a
/// list by position, or the value of the first entry of a compound with
/// the name.
pub open spec fn hit_at(v: Nbt, index: Index, t: u8) -> bool {
    match (v, index) {
        (Nbt::List(_, s), Index::Pos(i)) => i < s.len() && nbt_tag(s[i as int]) == t,
        (Nbt::Compound(es), Index::Key(key)) => lookup(es, mutf8_encoding(key@)) matches Some(w)
            && nbt_tag(w) == t,
        _ => false,
    }
}

impl<'a> MutValue<'a> {
    /// The tag type of the borrowed value.
    pub fn tag_id(&self) -> (t: TagID)
        ensures
            tag_byte(t) == nbt_tag(mut_view(*self)),
    {
        match self {
            MutValue::End => TagID::End,
            MutValue::Byte(_) => TagID::Byte,
            MutValue::Short(_) => TagID::Short,
            MutValue::Int(_) => TagID::Int,
            MutValue::Long(_) => TagID::Long,
            MutValue::Float(_) => TagID::Float,
            MutValue::Double(_) => TagID::Double,
            MutValue::ByteArray(_) => TagID::ByteArray,
            MutValue::String(_) => TagID::String,
            MutValue::List(_) => TagID::List,
            MutValue::Compound(_) => TagID::Compound,
            MutValue::IntArray(_) => TagID::IntArray,
            MutValue::LongArray(_) => TagID::LongArray,
        }
    }

    /// Whether the borrowed value has the tag type of `T`.
    pub fn is_<T: NBT>(&self) -> (b: bool)
        ensures
            b == (nbt_tag(mut_view(*self)) == tag_byte(T::spec_tag_id())),
    {
        self.tag_id().to_u8() == T::tag_id().to_u8()
    }

    /// Reads the borrowed value through a shared borrow of the view.
    fn shared<'b>(&'b self) -> (r: RefValue<'b>)
        ensures
            r@ == mut_view(*self),
    {
        match self {
            MutValue::End => RefValue::End,
            MutValue::Byte(x) => RefValue::Byte(**x),
            MutValue::Short(x) => RefValue::Short(**x),
            MutValue::Int(x) => RefValue::Int(**x),
            MutValue::Long(x) => RefValue::Long(**x),
            MutValue::Float(x) => RefValue::Float(**x),
            MutValue::Double(x) => RefValue::Double(**x),
            MutValue::ByteArray(s) => RefValue::ByteArray(s.as_slice()),
            MutValue::String(s) => RefValue::String(RefString { bytes: s.data.as_slice() }),
            MutValue::List(l) => RefValue::List(RefList { list: &**l }),
            MutValue::Compound(c) => RefValue::Compound(RefCompound { compound: &**c }),
            MutValue::IntArray(s) => RefValue::IntArray(s.as_slice()),
            MutValue::LongArray(s) => RefValue::LongArray(s.as_slice()),
        }
    }

    /// The element at a position of a borrowed list, or the value of the
    /// first entry of a borrowed compound with a name (see `RefValue::get`).
    pub fn get<'b>(&'b self, index: Index) -> (r: Option<RefValue<'b>>)
        requires
            index matches Index::Key(k) ==> fits_codec(k@.len()),
        ensures
            found_by(r, mut_view(*self), index),
    {
        self.shared().get(index)
    }

    /// As `get`, when what is found has the tag type of `T`.
    pub fn get_<'b, T: NBT>(&'b self, index: Index) -> (r: Option<RefValue<'b>>)
        requires
            index matches Index::Key(k) ==> fits_codec(k@.len()),
        ensures
            match r {
                Some(v) => found_by(r, mut_view(*self), index) && nbt_tag(v@) == tag_byte(
                    T::spec_tag_id(),
                ),
                None => forall|w: RefValue| #[trigger] found_by(Some(w), mut_view(*self), index)
                    ==> nbt_tag(w@) != tag_byte(T::spec_tag_id()),
            },
    {
        self.shared().get_::<T>(index)
    }

    /// Borrows mutably, through the view, the element at a position of a
    /// borrowed list or the value of the first entry of a borrowed compound
    /// with a name (see `OwnValue::get_mut`).
    pub fn get_mut<'b>(&'b mut self, index: Index) -> (r: Option<MutValue<'b>>)
        requires
            index matches Index::Key(k) ==> fits_codec(k@.len()),
        ensures
            match (*old(self), *final(self)) {
                (MutValue::List(a), MutValue::List(b)) => *final(a) == *final(b),
                (MutValue::Compound(a), MutValue::Compound(b)) => *final(a) == *final(b),
                _ => *final(self) == *old(self),
            },
            match (mut_view(*old(self)), index) {
                (Nbt::List(t, s), Index::Pos(i)) => {
                    &&& i >= s.len() ==> r is None && mut_view(*final(self)) == mut_view(*old(self))
                    &&& i < s.len() ==> (r matches Some(m) && mut_view(m) == s[i as int] && match m {
                        MutValue::End => mut_view(*final(self)) == mut_view(*old(self)),
                        MutValue::Byte(x) => mut_view(*final(self)) == Nbt::List(t, s.update(i as int, Nbt::Byte(*final(x)))),
                        MutValue::Short(x) => mut_view(*final(self)) == Nbt::List(t, s.update(i as int, Nbt::Short(*final(x)))),
                        MutValue::Int(x) => mut_view(*final(self)) == Nbt::List(t, s.update(i as int, Nbt::Int(*final(x)))),
                        MutValue::Long(x) => mut_view(*final(self)) == Nbt::List(t, s.update(i as int, Nbt::Long(*final(x)))),
                        MutValue::Float(x) => mut_view(*final(self)) == Nbt::List(t, s.update(i as int, Nbt::Float(*final(x)))),
                        MutValue::Double(x) => mut_view(*final(self)) == Nbt::List(t, s.update(i as int, Nbt::Double(*final(x)))),
                        MutValue::ByteArray(x) => mut_view(*final(self)) == Nbt::List(t, s.update(i as int, Nbt::ByteArray(final(x)@))),
                        MutValue::String(x) => mut_view(*final(self)) == Nbt::List(t, s.update(i as int, Nbt::String(final(x).data@))),
                        MutValue::List(x) => mut_view(*final(self)) == Nbt::List(t, s.update(i as int, Nbt::List(final(x).tag, final(x)@))),
                        MutValue::Compound(x) => mut_view(*final(self)) == Nbt::List(t, s.update(i as int, Nbt::Compound(final(x)@))),
                        MutValue::IntArray(x) => mut_view(*final(self)) == Nbt::List(t, s.update(i as int, Nbt::IntArray(final(x)@))),
                        MutValue::LongArray(x) => mut_view(*final(self)) == Nbt::List(t, s.update(i as int, Nbt::LongArray(final(x)@))),
                    })
                },
                (Nbt::Compound(es), Index::Key(key)) => {
                    let k = mutf8_encoding(key@);
                    let j = key_pos(es, k);
                    &&& lookup(es, k) is None ==> r is None && mut_view(*final(self)) == mut_view(*old(self))
                    &&& lookup(es, k) is Some ==> (r matches Some(m) && Some(mut_view(m)) == lookup(
                        es,
                        k,
                    ) && match m {
                        MutValue::End => mut_view(*final(self)) == mut_view(*old(self)),
                        MutValue::Byte(x) => mut_view(*final(self)) == Nbt::Compound(es.update(j, (k, Nbt::Byte(*final(x))))),
                        MutValue::Short(x) => mut_view(*final(self)) == Nbt::Compound(es.update(j, (k, Nbt::Short(*final(x))))),
                        MutValue::Int(x) => mut_view(*final(self)) == Nbt::Compound(es.update(j, (k, Nbt::Int(*final(x))))),
                        MutValue::Long(x) => mut_view(*final(self)) == Nbt::Compound(es.update(j, (k, Nbt::Long(*final(x))))),
                        MutValue::Float(x) => mut_view(*final(self)) == Nbt::Compound(es.update(j, (k, Nbt::Float(*final(x))))),
                        MutValue::Double(x) => mut_view(*final(self)) == Nbt::Compound(es.update(j, (k, Nbt::Double(*final(x))))),
                        MutValue::ByteArray(x) => mut_view(*final(self)) == Nbt::Compound(es.update(j, (k, Nbt::ByteArray(final(x)@)))),
                        MutValue::String(x) => mut_view(*final(self)) == Nbt::Compound(es.update(j, (k, Nbt::String(final(x).data@)))),
                        MutValue::List(x) => mut_view(*final(self)) == Nbt::Compound(es.update(j, (k, Nbt::List(final(x).tag, final(x)@)))),
                        MutValue::Compound(x) => mut_view(*final(self)) == Nbt::Compound(es.update(j, (k, Nbt::Compound(final(x)@)))),
                        MutValue::IntArray(x) => mut_view(*final(self)) == Nbt::Compound(es.update(j, (k, Nbt::IntArray(final(x)@)))),
                        MutValue::LongArray(x) => mut_view(*final(self)) == Nbt::Compound(es.update(j, (k, Nbt::LongArray(final(x)@)))),
                    })
                },
                _ => r is None && mut_view(*final(self)) == mut_view(*old(self)),
            },
    {
        match self {
            MutValue::List(l) => match index {
                Index::Pos(i) => l.get_mut(i),
                Index::Key(_) => None,
            },
            MutValue::Compound(c) => match index {
                Index::Key(k) => c.get_mut(k),
                Index::Pos(_) => None,
            },
            _ => None,
        }
    }

    /// As `get_mut`, when what is found has the tag type of `T`.
    pub fn get_mut_<'b, T: NBT>(&'b mut self, index: Index) -> (r: Option<MutValue<'b>>)
        requires
            index matches Index::Key(k) ==> fits_codec(k@.len()),
        ensures
            r matches Some(m) ==> nbt_tag(mut_view(m)) == tag_byte(T::spec_tag_id()),
            match (mut_view(*old(self)), index) {
                (Nbt::List(_, s), Index::Pos(i)) => i < s.len() && nbt_tag(s[i as int]) == tag_byte(
                    T::spec_tag_id(),
                ) ==> (r matches Some(m) && mut_view(m) == s[i as int]),
                (Nbt::Compound(es), Index::Key(k)) => (lookup(es, mutf8_encoding(k@)) matches Some(w)
                    && nbt_tag(w) == tag_byte(T::spec_tag_id())) ==> (r matches Some(m) && Some(
                    mut_view(m),
                ) == lookup(es, mutf8_encoding(k@))),
                _ => r is None,
            },
            !hit_at(mut_view(*old(self)), index, tag_byte(T::spec_tag_id())) ==> r is None && *final(self)
                == *old(self),
            hit_at(mut_view(*old(self)), index, tag_byte(T::spec_tag_id())) ==> {
                &&& match (*old(self), *final(self)) {
                    (MutValue::List(a), MutValue::List(b)) => *final(a) == *final(b),
                    (MutValue::Compound(a), MutValue::Compound(b)) => *final(a) == *final(b),
                    _ => *final(self) == *old(self),
                }
                &&& match (mut_view(*old(self)), index) {
                    (Nbt::List(t, s), Index::Pos(i)) => {
                        &&& i >= s.len() ==> r is None && mut_view(*final(self)) == mut_view(*old(self))
                        &&& i < s.len() ==> (r matches Some(m) && mut_view(m) == s[i as int] && match m {
                            MutValue::End => mut_view(*final(self)) == mut_view(*old(self)),
                            MutValue::Byte(x) => mut_view(*final(self)) == Nbt::List(t, s.update(i as int, Nbt::Byte(*final(x)))),
                            MutValue::Short(x) => mut_view(*final(self)) == Nbt::List(t, s.update(i as int, Nbt::Short(*final(x)))),
                            MutValue::Int(x) => mut_view(*final(self)) == Nbt::List(t, s.update(i as int, Nbt::Int(*final(x)))),
                            MutValue::Long(x) => mut_view(*final(self)) == Nbt::List(t, s.update(i as int, Nbt::Long(*final(x)))),
                            MutValue::Float(x) => mut_view(*final(self)) == Nbt::List(t, s.update(i as int, Nbt::Float(*final(x)))),
                            MutValue::Double(x) => mut_view(*final(self)) == Nbt::List(t, s.update(i as int, Nbt::Double(*final(x)))),
                            MutValue::ByteArray(x) => mut_view(*final(self)) == Nbt::List(t, s.update(i as int, Nbt::ByteArray(final(x)@))),
                            MutValue::String(x) => mut_view(*final(self)) == Nbt::List(t, s.update(i as int, Nbt::String(final(x).data@))),
                            MutValue::List(x) => mut_view(*final(self)) == Nbt::List(t, s.update(i as int, Nbt::List(final(x).tag, final(x)@))),
                            MutValue::Compound(x) => mut_view(*final(self)) == Nbt::List(t, s.update(i as int, Nbt::Compound(final(x)@))),
                            MutValue::IntArray(x) => mut_view(*final(self)) == Nbt::List(t, s.update(i as int, Nbt::IntArray(final(x)@))),
                            MutValue::LongArray(x) => mut_view(*final(self)) == Nbt::List(t, s.update(i as int, Nbt::LongArray(final(x)@))),
                        })
                    },
                    (Nbt::Compound(es), Index::Key(key)) => {
                        let k = mutf8_encoding(key@);
                        let j = key_pos(es, k);
                        &&& lookup(es, k) is None ==> r is None && mut_view(*final(self)) == mut_view(*old(self))
                        &&& lookup(es, k) is Some ==> (r matches Some(m) && Some(mut_view(m)) == lookup(
                            es,
                            k,
                        ) && match m {
                            MutValue::End => mut_view(*final(self)) == mut_view(*old(self)),
                            MutValue::Byte(x) => mut_view(*final(self)) == Nbt::Compound(es.update(j, (k, Nbt::Byte(*final(x))))),
                            MutValue::Short(x) => mut_view(*final(self)) == Nbt::Compound(es.update(j, (k, Nbt::Short(*final(x))))),
                            MutValue::Int(x) => mut_view(*final(self)) == Nbt::Compound(es.update(j, (k, Nbt::Int(*final(x))))),
                            MutValue::Long(x) => mut_view(*final(self)) == Nbt::Compound(es.update(j, (k, Nbt::Long(*final(x))))),
                            MutValue::Float(x) => mut_view(*final(self)) == Nbt::Compound(es.update(j, (k, Nbt::Float(*final(x))))),
                            MutValue::Double(x) => mut_view(*final(self)) == Nbt::Compound(es.update(j, (k, Nbt::Double(*final(x))))),
                            MutValue::ByteArray(x) => mut_view(*final(self)) == Nbt::Compound(es.update(j, (k, Nbt::ByteArray(final(x)@)))),
                            MutValue::String(x) => mut_view(*final(self)) == Nbt::Compound(es.update(j, (k, Nbt::String(final(x).data@)))),
                            MutValue::List(x) => mut_view(*final(self)) == Nbt::Compound(es.update(j, (k, Nbt::List(final(x).tag, final(x)@)))),
                            MutValue::Compound(x) => mut_view(*final(self)) == Nbt::Compound(es.update(j, (k, Nbt::Compound(final(x)@)))),
                            MutValue::IntArray(x) => mut_view(*final(self)) == Nbt::Compound(es.update(j, (k, Nbt::IntArray(final(x)@)))),
                            MutValue::LongArray(x) => mut_view(*final(self)) == Nbt::Compound(es.update(j, (k, Nbt::LongArray(final(x)@)))),
                        })
                    },
                    _ => r is None && mut_view(*final(self)) == mut_view(*old(self)),
                }
            },
    {
        let (probe, index) = match index {
            Index::Pos(i) => (Index::Pos(i), Index::Pos(i)),
            Index::Key(k) => (Index::Key(k), Index::Key(k)),
        };
        let hit = match self.get(probe) {
            Some(v) => v.is_::<T>(),
            None => false,
        };
        if !hit {
            return None;
        }
        self.get_mut(index)
    }
}

/// Borrows an owned value mutably: when the borrow ends, the value is what
/// was written through the view, under the same tag type.
pub fn to_mut<'a>(v: &'a mut OwnValue) -> (r: MutValue<'a>)
    ensures
        mut_view(r) == old(v)@,
        match r {
            MutValue::End => *final(v) == OwnValue::End,
            MutValue::Byte(x) => *final(v) == OwnValue::Byte(*final(x)),
            MutValue::Short(x) => *final(v) == OwnValue::Short(*final(x)),
            MutValue::Int(x) => *final(v) == OwnValue::Int(*final(x)),
            MutValue::Long(x) => *final(v) == OwnValue::Long(*final(x)),
            MutValue::Float(x) => *final(v) == OwnValue::Float(*final(x)),
            MutValue::Double(x) => *final(v) == OwnValue::Double(*final(x)),
            MutValue::ByteArray(s) => *final(v) == OwnValue::ByteArray(*final(s)),
            MutValue::String(s) => *final(v) == OwnValue::String(*final(s)),
            MutValue::List(l) => *final(v) == OwnValue::List(*final(l)),
            MutValue::Compound(c) => *final(v) == OwnValue::Compound(*final(c)),
            MutValue::IntArray(s) => *final(v) == OwnValue::IntArray(*final(s)),
            MutValue::LongArray(s) => *final(v) == OwnValue::LongArray(*final(s)),
        },
{
    match v {
        OwnValue::End => MutValue::End,
        OwnValue::Byte(x) => MutValue::Byte(x),
        OwnValue::Short(x) => MutValue::Short(x),
        OwnValue::Int(x) => MutValue::Int(x),
        OwnValue::Long(x) => MutValue::Long(x),
        OwnValue::Float(x) => MutValue::Float(x),
        OwnValue::Double(x) => MutValue::Double(x),
        OwnValue::ByteArray(s) => MutValue::ByteArray(s),
        OwnValue::String(s) => MutValue::String(s),
        OwnValue::List(l) => MutValue::List(l),
        OwnValue::Compound(c) => MutValue::Compound(c),
        OwnValue::IntArray(s) => MutValue::IntArray(s),
        OwnValue::LongArray(s) => MutValue::LongArray(s),
    }
}

/// The elements of every non-End list model are those of its run of values.
proof fn lemma_items_views()
    ensures
        forall|l: OwnList| l.tag != 0 ==> #[trigger] list_items_view(l) == views(l.items@),
{
    assert forall|l: OwnList| l.tag != 0 implies #[trigger] list_items_view(l) == views(l.items@) by {
        lemma_items_view(l);
    }
}

impl OwnList {
    /// Borrows element `index` mutably, if there is one. When the borrow
    /// ends, the list holds what was written through the view at `index`,
    /// and its element tag is unchanged.
    pub fn get_mut<'a>(&'a mut self, index: usize) -> (r: Option<MutValue<'a>>)
        ensures
            old(self).wf() ==> (r matches Some(m) ==> nbt_tag(mut_view(m)) == old(self).tag && wf(
                mut_view(m),
            )),
            index >= old(self)@.len() ==> r is None && *final(self) == *old(self),
            index < old(self)@.len() ==> (r matches Some(m) && mut_view(m) == old(self)@[index as int]
                && final(self).tag == old(self).tag && match m {
                MutValue::End => final(self)@ == old(self)@,
                MutValue::Byte(x) => final(self)@ == old(self)@.update(index as int, Nbt::Byte(*final(x))),
                MutValue::Short(x) => final(self)@ == old(self)@.update(index as int, Nbt::Short(*final(x))),
                MutValue::Int(x) => final(self)@ == old(self)@.update(index as int, Nbt::Int(*final(x))),
                MutValue::Long(x) => final(self)@ == old(self)@.update(index as int, Nbt::Long(*final(x))),
                MutValue::Float(x) => final(self)@ == old(self)@.update(index as int, Nbt::Float(*final(x))),
                MutValue::Double(x) => final(self)@ == old(self)@.update(index as int, Nbt::Double(*final(x))),
                MutValue::ByteArray(x) => final(self)@ == old(self)@.update(index as int, Nbt::ByteArray(final(x)@)),
                MutValue::String(x) => final(self)@ == old(self)@.update(index as int, Nbt::String(final(x).data@)),
                MutValue::List(x) => final(self)@ == old(self)@.update(index as int, Nbt::List(final(x).tag, final(x)@)),
                MutValue::Compound(x) => final(self)@ == old(self)@.update(index as int, Nbt::Compound(final(x)@)),
                MutValue::IntArray(x) => final(self)@ == old(self)@.update(index as int, Nbt::IntArray(final(x)@)),
                MutValue::LongArray(x) => final(self)@ == old(self)@.update(index as int, Nbt::LongArray(final(x)@)),
            }),
    {
        proof {
            if self.wf() && index < self@.len() {
                lemma_wf_list_element(self.tag, self@, index as int);
            }
        }
        if self.tag == 0 {
            if index < self.end_len {
                Some(MutValue::End)
            } else {
                None
            }
        } else {
            proof {
                lemma_items_view(*self);
            }
            if index < self.items.len() {
                proof {
                    lemma_items_views();
                }
                Some(to_mut(&mut self.items[index]))
            } else {
                None
            }
        }
    }

    /// Borrows element `index` mutably, if there is one and the elements
    /// have the tag type of `T` (an empty End list takes any); see `get_mut`.
    pub fn get_mut_<'a, T: NBT>(&'a mut self, index: usize) -> (r: Option<MutValue<'a>>)
        ensures
            old(self).wf() ==> (r matches Some(m) ==> nbt_tag(mut_view(m)) == tag_byte(
                T::spec_tag_id(),
            )),
            old(self).wf() ==> (r matches Some(m) ==> nbt_tag(mut_view(m)) == old(self).tag && wf(
                mut_view(m),
            )),
            !(old(self).tag == tag_byte(T::spec_tag_id()) || (old(self).tag == 0 && old(self)@.len()
                == 0)) || index >= old(self)@.len() ==> r is None && *final(self) == *old(self),
            (old(self).tag == tag_byte(T::spec_tag_id()) || (old(self).tag == 0 && old(self)@.len()
                == 0)) && index < old(self)@.len() ==> (r matches Some(m) && mut_view(m) == old(self)@[index as int] && final(self).tag == old(self).tag && match m {
                MutValue::End => final(self)@ == old(self)@,
                MutValue::Byte(x) => final(self)@ == old(self)@.update(index as int, Nbt::Byte(*final(x))),
                MutValue::Short(x) => final(self)@ == old(self)@.update(index as int, Nbt::Short(*final(x))),
                MutValue::Int(x) => final(self)@ == old(self)@.update(index as int, Nbt::Int(*final(x))),
                MutValue::Long(x) => final(self)@ == old(self)@.update(index as int, Nbt::Long(*final(x))),
                MutValue::Float(x) => final(self)@ == old(self)@.update(index as int, Nbt::Float(*final(x))),
                MutValue::Double(x) => final(self)@ == old(self)@.update(index as int, Nbt::Double(*final(x))),
                MutValue::ByteArray(x) => final(self)@ == old(self)@.update(index as int, Nbt::ByteArray(final(x)@)),
                MutValue::String(x) => final(self)@ == old(self)@.update(index as int, Nbt::String(final(x).data@)),
                MutValue::List(x) => final(self)@ == old(self)@.update(index as int, Nbt::List(final(x).tag, final(x)@)),
                MutValue::Compound(x) => final(self)@ == old(self)@.update(index as int, Nbt::Compound(final(x)@)),
                MutValue::IntArray(x) => final(self)@ == old(self)@.update(index as int, Nbt::IntArray(final(x)@)),
                MutValue::LongArray(x) => final(self)@ == old(self)@.update(index as int, Nbt::LongArray(final(x)@)),
            }),
    {
        proof {
            if self.wf() && index < self@.len() {
                lemma_wf_list_element(self.tag, self@, index as int);
            }
        }
        if !self.element_is_::<T>() {
            return None;
        }
        self.get_mut(index)
    }
}

/// The entries of every compound model are those of its run of entries.
proof fn lemma_entries_views()
    ensures
        forall|c: OwnCompound| #[trigger] compound_entries_view(c) == entry_views(c.entries@),
{
    assert forall|c: OwnCompound| #[trigger] compound_entries_view(c) == entry_views(c.entries@) by {
        lemma_entries_view(c);
    }
}

impl OwnCompound {
    /// Borrows the value of the first entry named `key` (as Modified UTF-8)
    /// mutably, if there is one. When the borrow ends, that entry holds what
    /// was written through the view; its name and place are unchanged.
    pub fn get_mut<'a>(&'a mut self, key: &str) -> (r: Option<MutValue<'a>>)
        requires
            fits_codec(key@.len()),
        ensures
            old(self).wf() ==> (r matches Some(m) ==> nbt_tag(mut_view(m)) != 0 && wf(mut_view(m))),
            ({
                let k = mutf8_encoding(key@);
                let i = key_pos(old(self)@, k);
                &&& lookup(old(self)@, k) is None ==> r is None && *final(self) == *old(self)
                &&& lookup(old(self)@, k) is Some ==> (r matches Some(m) && Some(mut_view(m))
                    == lookup(old(self)@, k) && match m {
                    MutValue::End => final(self)@ == old(self)@,
                    MutValue::Byte(x) => final(self)@ == old(self)@.update(i, (k, Nbt::Byte(*final(x)))),
                    MutValue::Short(x) => final(self)@ == old(self)@.update(i, (k, Nbt::Short(*final(x)))),
                    MutValue::Int(x) => final(self)@ == old(self)@.update(i, (k, Nbt::Int(*final(x)))),
                    MutValue::Long(x) => final(self)@ == old(self)@.update(i, (k, Nbt::Long(*final(x)))),
                    MutValue::Float(x) => final(self)@ == old(self)@.update(i, (k, Nbt::Float(*final(x)))),
                    MutValue::Double(x) => final(self)@ == old(self)@.update(i, (k, Nbt::Double(*final(x)))),
                    MutValue::ByteArray(x) => final(self)@ == old(self)@.update(i, (k, Nbt::ByteArray(final(x)@))),
                    MutValue::String(x) => final(self)@ == old(self)@.update(i, (k, Nbt::String(final(x).data@))),
                    MutValue::List(x) => final(self)@ == old(self)@.update(i, (k, Nbt::List(final(x).tag, final(x)@))),
                    MutValue::Compound(x) => final(self)@ == old(self)@.update(i, (k, Nbt::Compound(final(x)@))),
                    MutValue::IntArray(x) => final(self)@ == old(self)@.update(i, (k, Nbt::IntArray(final(x)@))),
                    MutValue::LongArray(x) => final(self)@ == old(self)@.update(i, (k, Nbt::LongArray(final(x)@))),
                })
            }),
    {
        proof {
            if self.wf() {
                lemma_wf_lookup(self@, mutf8_encoding(key@));
            }
        }
        let name = mutf8_encode(key);
        proof {
            lemma_entries_view(*self);
            lemma_key_pos(self@, name@);
            lemma_entries_views();
        }
        let _n = self.entries.len();
        let found = MutableConfig::compound_get(&*self, name.as_slice());
        match found {
            None => None,
            Some(i) => {
                assert(self@[i as int].1 == self.entries@[i as int].1@);
                Some(to_mut(&mut self.entries[i].1))
            },
        }
    }

    /// Borrows the value of the first entry named `key` mutably, if there is
    /// one and it has the tag type of `T`; see `get_mut`.
    pub fn get_mut_<'a, T: NBT>(&'a mut self, key: &str) -> (r: Option<MutValue<'a>>)
        requires
            fits_codec(key@.len()),
        ensures
            r matches Some(m) ==> nbt_tag(mut_view(m)) == tag_byte(T::spec_tag_id()),
            old(self).wf() ==> (r matches Some(m) ==> nbt_tag(mut_view(m)) != 0 && wf(mut_view(m))),
            ({
                let k = mutf8_encoding(key@);
                let i = key_pos(old(self)@, k);
                let hit = lookup(old(self)@, k) matches Some(v) && nbt_tag(v) == tag_byte(T::spec_tag_id());
                &&& !hit ==> r is None && *final(self) == *old(self)
                &&& hit ==> (r matches Some(m) && Some(mut_view(m)) == lookup(old(self)@, k) && match m {
                    MutValue::End => final(self)@ == old(self)@,
                    MutValue::Byte(x) => final(self)@ == old(self)@.update(i, (k, Nbt::Byte(*final(x)))),
                    MutValue::Short(x) => final(self)@ == old(self)@.update(i, (k, Nbt::Short(*final(x)))),
                    MutValue::Int(x) => final(self)@ == old(self)@.update(i, (k, Nbt::Int(*final(x)))),
                    MutValue::Long(x) => final(self)@ == old(self)@.update(i, (k, Nbt::Long(*final(x)))),
                    MutValue::Float(x) => final(self)@ == old(self)@.update(i, (k, Nbt::Float(*final(x)))),
                    MutValue::Double(x) => final(self)@ == old(self)@.update(i, (k, Nbt::Double(*final(x)))),
                    MutValue::ByteArray(x) => final(self)@ == old(self)@.update(i, (k, Nbt::ByteArray(final(x)@))),
                    MutValue::String(x) => final(self)@ == old(self)@.update(i, (k, Nbt::String(final(x).data@))),
                    MutValue::List(x) => final(self)@ == old(self)@.update(i, (k, Nbt::List(final(x).tag, final(x)@))),
                    MutValue::Compound(x) => final(self)@ == old(self)@.update(i, (k, Nbt::Compound(final(x)@))),
                    MutValue::IntArray(x) => final(self)@ == old(self)@.update(i, (k, Nbt::IntArray(final(x)@))),
                    MutValue::LongArray(x) => final(self)@ == old(self)@.update(i, (k, Nbt::LongArray(final(x)@))),
                })
            }),
    {
        proof {
            if self.wf() {
                lemma_wf_lookup(self@, mutf8_encoding(key@));
            }
        }
        let is_t = match self.get(key) {
            Some(v) => v.is_::<T>(),
            None => false,
        };
        if !is_t {
            return None;
        }
        self.get_mut(key)
    }
}

impl OwnValue {
    /// Borrows the value mutably (see `to_mut`).
    pub fn to_mut<'a>(&'a mut self) -> (r: MutValue<'a>)
        ensures
            mut_view(r) == old(self)@,
            match r {
                MutValue::End => *final(self) == OwnValue::End,
                MutValue::Byte(x) => *final(self) == OwnValue::Byte(*final(x)),
                MutValue::Short(x) => *final(self) == OwnValue::Short(*final(x)),
                MutValue::Int(x) => *final(self) == OwnValue::Int(*final(x)),
                MutValue::Long(x) => *final(self) == OwnValue::Long(*final(x)),
                MutValue::Float(x) => *final(self) == OwnValue::Float(*final(x)),
                MutValue::Double(x) => *final(self) == OwnValue::Double(*final(x)),
                MutValue::ByteArray(s) => *final(self) == OwnValue::ByteArray(*final(s)),
                MutValue::String(s) => *final(self) == OwnValue::String(*final(s)),
                MutValue::List(l) => *final(self) == OwnValue::List(*final(l)),
                MutValue::Compound(c) => *final(self) == OwnValue::Compound(*final(c)),
                MutValue::IntArray(s) => *final(self) == OwnValue::IntArray(*final(s)),
                MutValue::LongArray(s) => *final(self) == OwnValue::LongArray(*final(s)),
            },
    {
        to_mut(self)
    }

    /// Borrows mutably the element at a position of a list, or the value of
    /// the first entry of a compound with a name; `None` when there is none,
    /// or when the value is not of the kind the index asks for (see
    /// `OwnList::get_mut` and `OwnCompound::get_mut`).
    pub fn get_mut<'a>(&'a mut self, index: Index) -> (r: Option<MutValue<'a>>)
        requires
            index matches Index::Key(k) ==> fits_codec(k@.len()),
        ensures
            match (old(self)@, index) {
                (Nbt::List(t, s), Index::Pos(i)) => {
                    &&& i >= s.len() ==> r is None && *final(self) == *old(self)
                    &&& i < s.len() ==> (r matches Some(m) && mut_view(m) == s[i as int] && match m {
                        MutValue::End => final(self)@ == old(self)@,
                        MutValue::Byte(x) => final(self)@ == Nbt::List(t, s.update(i as int, Nbt::Byte(*final(x)))),
                        MutValue::Short(x) => final(self)@ == Nbt::List(t, s.update(i as int, Nbt::Short(*final(x)))),
                        MutValue::Int(x) => final(self)@ == Nbt::List(t, s.update(i as int, Nbt::Int(*final(x)))),
                        MutValue::Long(x) => final(self)@ == Nbt::List(t, s.update(i as int, Nbt::Long(*final(x)))),
                        MutValue::Float(x) => final(self)@ == Nbt::List(t, s.update(i as int, Nbt::Float(*final(x)))),
                        MutValue::Double(x) => final(self)@ == Nbt::List(t, s.update(i as int, Nbt::Double(*final(x)))),
                        MutValue::ByteArray(x) => final(self)@ == Nbt::List(t, s.update(i as int, Nbt::ByteArray(final(x)@))),
                        MutValue::String(x) => final(self)@ == Nbt::List(t, s.update(i as int, Nbt::String(final(x).data@))),
                        MutValue::List(x) => final(self)@ == Nbt::List(t, s.update(i as int, Nbt::List(final(x).tag, final(x)@))),
                        MutValue::Compound(x) => final(self)@ == Nbt::List(t, s.update(i as int, Nbt::Compound(final(x)@))),
                        MutValue::IntArray(x) => final(self)@ == Nbt::List(t, s.update(i as int, Nbt::IntArray(final(x)@))),
                        MutValue::LongArray(x) => final(self)@ == Nbt::List(t, s.update(i as int, Nbt::LongArray(final(x)@))),
                    })
                },
                (Nbt::Compound(es), Index::Key(key)) => {
                    let k = mutf8_encoding(key@);
                    let j = key_pos(es, k);
                    &&& lookup(es, k) is None ==> r is None && *final(self) == *old(self)
                    &&& lookup(es, k) is Some ==> (r matches Some(m) && Some(mut_view(m)) == lookup(
                        es,
                        k,
                    ) && match m {
                        MutValue::End => final(self)@ == old(self)@,
                        MutValue::Byte(x) => final(self)@ == Nbt::Compound(es.update(j, (k, Nbt::Byte(*final(x))))),
                        MutValue::Short(x) => final(self)@ == Nbt::Compound(es.update(j, (k, Nbt::Short(*final(x))))),
                        MutValue::Int(x) => final(self)@ == Nbt::Compound(es.update(j, (k, Nbt::Int(*final(x))))),
                        MutValue::Long(x) => final(self)@ == Nbt::Compound(es.update(j, (k, Nbt::Long(*final(x))))),
                        MutValue::Float(x) => final(self)@ == Nbt::Compound(es.update(j, (k, Nbt::Float(*final(x))))),
                        MutValue::Double(x) => final(self)@ == Nbt::Compound(es.update(j, (k, Nbt::Double(*final(x))))),
                        MutValue::ByteArray(x) => final(self)@ == Nbt::Compound(es.update(j, (k, Nbt::ByteArray(final(x)@)))),
                        MutValue::String(x) => final(self)@ == Nbt::Compound(es.update(j, (k, Nbt::String(final(x).data@)))),
                        MutValue::List(x) => final(self)@ == Nbt::Compound(es.update(j, (k, Nbt::List(final(x).tag, final(x)@)))),
                        MutValue::Compound(x) => final(self)@ == Nbt::Compound(es.update(j, (k, Nbt::Compound(final(x)@)))),
                        MutValue::IntArray(x) => final(self)@ == Nbt::Compound(es.update(j, (k, Nbt::IntArray(final(x)@)))),
                        MutValue::LongArray(x) => final(self)@ == Nbt::Compound(es.update(j, (k, Nbt::LongArray(final(x)@)))),
                    })
                },
                _ => r is None && *final(self) == *old(self),
            },
    {
        match self {
            OwnValue::List(l) => match index {
                Index::Pos(i) => l.get_mut(i),
                Index::Key(_) => None,
            },
            OwnValue::Compound(c) => match index {
                Index::Key(k) => c.get_mut(k),
                Index::Pos(_) => None,
            },
            _ => None,
        }
    }
}

/// A cursor over the elements of a list, lending each one mutably in turn.
pub struct MutListIter {
    pub pos: usize,
}

impl OwnList {
    /// A cursor at the first element, lending each element mutably in turn.
    pub fn iter_mut(&self) -> (it: MutListIter)
        ensures
            it.pos == 0,
    {
        MutListIter { pos: 0 }
    }
}

impl MutListIter {
    /// Borrows the element at the cursor mutably and moves past it; `None`
    /// after the last (see `OwnList::get_mut`).
    pub fn next<'a>(&mut self, list: &'a mut OwnList) -> (r: Option<MutValue<'a>>)
        ensures
            ({
                let i = old(self).pos as int;
                &&& i >= old(list)@.len() ==> r is None && *final(list) == *old(list) && final(self).pos == old(self).pos
                &&& i < old(list)@.len() ==> final(self).pos == i + 1 && (r matches Some(m)
                    && mut_view(m) == old(list)@[i] && final(list).tag == old(list).tag && match m {
                    MutValue::End => final(list)@ == old(list)@,
                    MutValue::Byte(x) => final(list)@ == old(list)@.update(i, Nbt::Byte(*final(x))),
                    MutValue::Short(x) => final(list)@ == old(list)@.update(i, Nbt::Short(*final(x))),
                    MutValue::Int(x) => final(list)@ == old(list)@.update(i, Nbt::Int(*final(x))),
                    MutValue::Long(x) => final(list)@ == old(list)@.update(i, Nbt::Long(*final(x))),
                    MutValue::Float(x) => final(list)@ == old(list)@.update(i, Nbt::Float(*final(x))),
                    MutValue::Double(x) => final(list)@ == old(list)@.update(i, Nbt::Double(*final(x))),
                    MutValue::ByteArray(x) => final(list)@ == old(list)@.update(i, Nbt::ByteArray(final(x)@)),
                    MutValue::String(x) => final(list)@ == old(list)@.update(i, Nbt::String(final(x).data@)),
                    MutValue::List(x) => final(list)@ == old(list)@.update(i, Nbt::List(final(x).tag, final(x)@)),
                    MutValue::Compound(x) => final(list)@ == old(list)@.update(i, Nbt::Compound(final(x)@)),
                    MutValue::IntArray(x) => final(list)@ == old(list)@.update(i, Nbt::IntArray(final(x)@)),
                    MutValue::LongArray(x) => final(list)@ == old(list)@.update(i, Nbt::LongArray(final(x)@)),
                })
            }),
    {
        if self.pos >= list.len() {
            return None;
        }
        let i = self.pos;
        self.pos = i + 1;
        list.get_mut(i)
    }
}

/// A cursor over the entries of a compound, lending each value mutably in
/// turn, with its name.
pub struct MutCompoundIter {
    pub pos: usize,
}

impl OwnCompound {
    /// A cursor at the first entry, lending each value mutably in turn.
    pub fn iter_mut(&self) -> (it: MutCompoundIter)
        ensures
            it.pos == 0,
    {
        MutCompoundIter { pos: 0 }
    }
}

impl MutCompoundIter {
    /// The name of the entry at the cursor and its value borrowed mutably;
    /// moves past it. `None` after the last entry. When the borrow ends,
    /// the entry holds what was written through the view, under its name.
    pub fn next<'a>(&mut self, compound: &'a mut OwnCompound) -> (r: Option<(RefString<'a>, MutValue<'a>)>)
        ensures
            ({
                let i = old(self).pos as int;
                let c = old(compound)@;
                &&& i >= c.len() ==> r is None && *final(compound) == *old(compound) && final(self).pos
                    == old(self).pos
                &&& i < c.len() ==> final(self).pos == i + 1 && (r matches Some((name, m))
                    && name.bytes@ == c[i].0 && mut_view(m) == c[i].1 && match m {
                    MutValue::End => final(compound)@ == c,
                    MutValue::Byte(x) => final(compound)@ == c.update(i, (c[i].0, Nbt::Byte(*final(x)))),
                    MutValue::Short(x) => final(compound)@ == c.update(i, (c[i].0, Nbt::Short(*final(x)))),
                    MutValue::Int(x) => final(compound)@ == c.update(i, (c[i].0, Nbt::Int(*final(x)))),
                    MutValue::Long(x) => final(compound)@ == c.update(i, (c[i].0, Nbt::Long(*final(x)))),
                    MutValue::Float(x) => final(compound)@ == c.update(i, (c[i].0, Nbt::Float(*final(x)))),
                    MutValue::Double(x) => final(compound)@ == c.update(i, (c[i].0, Nbt::Double(*final(x)))),
                    MutValue::ByteArray(x) => final(compound)@ == c.update(i, (c[i].0, Nbt::ByteArray(final(x)@))),
                    MutValue::String(x) => final(compound)@ == c.update(i, (c[i].0, Nbt::String(final(x).data@))),
                    MutValue::List(x) => final(compound)@ == c.update(i, (c[i].0, Nbt::List(final(x).tag, final(x)@))),
                    MutValue::Compound(x) => final(compound)@ == c.update(i, (c[i].0, Nbt::Compound(final(x)@))),
                    MutValue::IntArray(x) => final(compound)@ == c.update(i, (c[i].0, Nbt::IntArray(final(x)@))),
                    MutValue::LongArray(x) => final(compound)@ == c.update(i, (c[i].0, Nbt::LongArray(final(x)@))),
                })
            }),
    {
        proof {
            lemma_entries_view(*compound);
            lemma_entries_views();
        }
        if self.pos >= compound.entries.len() {
            return None;
        }
        let i = self.pos;
        self.pos = i + 1;
        let (name, value) = &mut compound.entries[i];
        let name: &'a Vec<u8> = name;
        Some((RefString { bytes: name.as_slice() }, to_mut(value)))
    }
}

} // verus!
