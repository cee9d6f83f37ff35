//! Lists whose element tag type is fixed by a type parameter.
use core::marker::PhantomData;
use vstd::prelude::*;

use crate::config::MutableConfig;
use crate::list::{RefListIter, found_at, taken_at};
use crate::model::{Nbt, nbt_tag};
use crate::mutref::{MutListIter, MutValue, mut_view};
use crate::refs::{RefList, RefValue};
use crate::tag::{NBT, tag_byte};
use crate::value::{OwnList, OwnValue};

verus! {

/// An owned list whose elements all have the tag type of `T`.
pub struct OwnTypedList<T: NBT> {
    pub list: OwnList,
    pub marker: PhantomData<T>,
}

impl<T: NBT> View for OwnTypedList<T> {
    type V = Seq<Nbt>;

    open spec fn view(&self) -> Seq<Nbt> {
        self.list@
    }
}

/// Lists whose element tag type is `T`.
pub trait TypedListBase<T: NBT> {
    /// The number of elements, as the model holds it.
    spec fn spec_len(&self) -> nat;

    /// The number of elements.
    fn len(&self) -> (n: usize)
        ensures
            n == self.spec_len(),
    ;

    /// Whether there are no elements.
    fn is_empty(&self) -> (b: bool)
        ensures
            b == (self.spec_len() == 0),
    ;
}

impl<T: NBT> OwnTypedList<T> {
    /// The list holds elements of tag `T` under the tag byte of `T`.
    pub open spec fn wf(&self) -> bool {
        &&& self.list.tag == tag_byte(T::spec_tag_id())
        &&& forall|i: int| 0 <= i < self@.len() ==> nbt_tag(#[trigger] self@[i]) == self.list.tag
    }

    /// An empty list.
    pub fn new() -> (l: Self)
        ensures
            l.wf(),
            l@ == Seq::<Nbt>::empty(),
    {
        let l = OwnList { tag: T::tag_id().to_u8(), end_len: 0, items: Vec::new() };
        assert(l@ =~= Seq::<Nbt>::empty());
        OwnTypedList { list: l, marker: PhantomData }
    }

    /// Element `index`, if there is one.
    pub fn get<'a>(&'a self, index: usize) -> (r: Option<RefValue<'a>>)
        ensures
            found_at(r, self@, index as int),
    {
        self.list.get(index)
    }

    /// The elements, in order.
    pub fn iter<'a>(&'a self) -> (it: RefListIter<'a>)
        ensures
            it.list == &self.list,
            it.pos == 0,
    {
        self.list.iter()
    }

    /// Borrows element `index` mutably, if there is one (see
    /// `OwnList::get_mut`).
    pub fn get_mut<'a>(&'a mut self, index: usize) -> (r: Option<MutValue<'a>>)
        ensures
            old(self).wf() ==> final(self).wf(),
            index >= old(self)@.len() ==> r is None && *final(self) == *old(self),
            index < old(self)@.len() ==> (r matches Some(m) && mut_view(m) == old(self)@[index as int]
                && final(self).list.tag == old(self).list.tag && match m {
                MutValue::End => final(self)@ == old(self)@,
                MutValue::Byte(x) => final(self)@ == old(self)@.update(index as int, Nbt::Byte(*final(x))),
                MutValue::Short(x) => final(self)@ == old(self)@.update(index as int, Nbt::Short(*final(x))),
                MutValue::Int(x) => final(self)@ == old(self)@.update(index as int, Nbt::Int(*final(x))),
                MutValue::Long(x) => final(self)@ == old(self)@.update(index as int, Nbt::Long(*final(x))),
                MutValue::Float(x) => final(self)@ == old(self)@.update(index as int, Nbt::Float(*final(x))),
                MutValue::Double(x) => final(self)@ == old(self)@.update(index as int, Nbt::Double(*final(x))),
                MutValue::ByteArray(x) => final(self)@ == old(self)@.update(index as int, Nbt::ByteArray(final(x)@)),
                MutValue::String(x) => final(self)@ == old(self)@.update(index as int, Nbt::String(final(x).data@)),
                MutValue::List(x) => final(self)@ == old(self)@.update(index as int, Nbt::List(final(x).tag, final(x)@)),
                MutValue::Compound(x) => final(self)@ == old(self)@.update(index as int, Nbt::Compound(final(x)@)),
                MutValue::IntArray(x) => final(self)@ == old(self)@.update(index as int, Nbt::IntArray(final(x)@)),
                MutValue::LongArray(x) => final(self)@ == old(self)@.update(index as int, Nbt::LongArray(final(x)@)),
            }),
    {
        self.list.get_mut(index)
    }

    /// Appends an element of tag `T`.
    pub fn push(&mut self, value: OwnValue)
        requires
            old(self).wf(),
            nbt_tag(value@) == tag_byte(T::spec_tag_id()),
            old(self)@.len() < u32::MAX,
        ensures
            final(self).wf(),
            final(self)@ == old(self)@.push(value@),
    {
        self.list.push(value);
    }

    /// Removes and returns the last element.
    pub fn pop(&mut self) -> (r: Option<OwnValue>)
        requires
            old(self).wf(),
        ensures
            final(self).wf(),
            old(self)@.len() == 0 ==> r is None && final(self)@ == old(self)@,
            old(self)@.len() > 0 ==> (r matches Some(v) && v@ == old(self)@.last()) && final(self)@
                == old(self)@.drop_last(),
    {
        self.list.pop()
    }

    /// Inserts an element of tag `T` at `index`, when `index` is at most the
    /// length (at the length it is appended); otherwise nothing changes.
    pub fn insert(&mut self, index: usize, value: OwnValue)
        requires
            old(self).wf(),
            nbt_tag(value@) == tag_byte(T::spec_tag_id()),
            index <= old(self)@.len() ==> old(self)@.len() < u32::MAX,
        ensures
            final(self).wf(),
            index <= old(self)@.len() ==> final(self)@ == old(self)@.insert(index as int, value@),
            index > old(self)@.len() ==> final(self)@ == old(self)@,
    {
        if index > self.list.len() {
            return;
        }
        if index == self.list.len() {
            self.list.push(value);
            assert(old(self)@.push(value@) =~= old(self)@.insert(index as int, value@));
        } else {
            self.list.insert(index, value);
        }
        assert forall|i: int| 0 <= i < self@.len() implies nbt_tag(#[trigger] self@[i])
            == self.list.tag by {
            if i < index {
                assert(self@[i] == old(self)@[i]);
            } else if i > index {
                assert(self@[i] == old(self)@[i - 1]);
            }
        }
    }

    /// Removes and returns element `index`, if there is one.
    pub fn remove(&mut self, index: usize) -> (r: Option<OwnValue>)
        requires
            old(self).wf(),
        ensures
            final(self).wf(),
            taken_at(r, old(self)@, index as int),
            index < old(self)@.len() ==> final(self)@ == old(self)@.remove(index as int),
            index >= old(self)@.len() ==> final(self)@ == old(self)@,
    {
        let r = self.list.remove(index);
        assert forall|i: int| 0 <= i < self@.len() implies nbt_tag(#[trigger] self@[i])
            == self.list.tag by {
            if index < old(self)@.len() {
                if i < index {
                    assert(self@[i] == old(self)@[i]);
                } else {
                    assert(self@[i] == old(self)@[i + 1]);
                }
            }
        }
        r
    }
}

impl OwnList {
    /// This list as a typed list, when its elements have the tag type of
    /// `T` (an empty End list takes any); otherwise `None`.
    pub fn typed_<T: NBT>(self) -> (r: Option<OwnTypedList<T>>)
        requires
            forall|i: int| 0 <= i < self@.len() ==> nbt_tag(#[trigger] self@[i]) == self.tag,
        ensures
            (self.tag == tag_byte(T::spec_tag_id()) || (self.tag == 0 && self@.len() == 0)) ==> (
            r matches Some(l) && l.wf() && l@ == self@),
            !(self.tag == tag_byte(T::spec_tag_id()) || (self.tag == 0 && self@.len() == 0))
                ==> r is None,
    {
        if self.element_is_::<T>() {
            if self.tag != T::tag_id().to_u8() {
                return Some(OwnTypedList::new());
            }
            Some(OwnTypedList { list: self, marker: PhantomData })
        } else {
            None
        }
    }
}

impl<T: NBT> TypedListBase<T> for OwnTypedList<T> {
    open spec fn spec_len(&self) -> nat {
        self@.len()
    }

    fn len(&self) -> (n: usize) {
        self.list.len()
    }

    fn is_empty(&self) -> (b: bool) {
        self.list.is_empty()
    }
}

/// A borrowed list whose elements all have the tag type of `T` (an empty
/// End list counts as one).
pub struct RefTypedList<'a, T: NBT> {
    pub list: &'a OwnList,
    pub marker: PhantomData<T>,
}

impl<'a, T: NBT> View for RefTypedList<'a, T> {
    type V = Seq<Nbt>;

    open spec fn view(&self) -> Seq<Nbt> {
        self.list@
    }
}

impl<'a, T: NBT> RefTypedList<'a, T> {
    /// The borrowed list holds elements of tag `T`, or none at all under End.
    pub open spec fn wf(&self) -> bool {
        &&& (self.list.tag == tag_byte(T::spec_tag_id()) || (self.list.tag == 0 && self@.len() == 0))
        &&& forall|i: int| 0 <= i < self@.len() ==> nbt_tag(#[trigger] self@[i]) == tag_byte(
            T::spec_tag_id(),
        )
    }

    /// The number of elements.
    pub fn len(&self) -> (n: usize)
        ensures
            n == self@.len(),
    {
        self.list.len()
    }

    /// Whether there are no elements.
    pub fn is_empty(&self) -> (b: bool)
        ensures
            b == (self@.len() == 0),
    {
        self.list.is_empty()
    }

    /// Element `index`, if there is one.
    pub fn get(&self, index: usize) -> (r: Option<RefValue<'a>>)
        ensures
            found_at(r, self@, index as int),
    {
        MutableConfig::list_get(self.list, index)
    }

    /// The elements, in order.
    pub fn iter(&self) -> (it: RefListIter<'a>)
        ensures
            it.list == self.list,
            it.pos == 0,
    {
        RefListIter { list: self.list, pos: 0 }
    }
}

impl<'a, T: NBT> TypedListBase<T> for RefTypedList<'a, T> {
    open spec fn spec_len(&self) -> nat {
        self@.len()
    }

    fn len(&self) -> (n: usize) {
        self.list.len()
    }

    fn is_empty(&self) -> (b: bool) {
        self.list.is_empty()
    }
}

impl<'a> RefList<'a> {
    /// This list as a typed list, when its elements have the tag type of
    /// `T` (an empty End list takes any); otherwise `None`.
    pub fn typed_<T: NBT>(self) -> (r: Option<RefTypedList<'a, T>>)
        requires
            forall|i: int| 0 <= i < self.list@.len() ==> nbt_tag(#[trigger] self.list@[i])
                == self.list.tag,
        ensures
            (self.list.tag == tag_byte(T::spec_tag_id()) || (self.list.tag == 0
                && self.list@.len() == 0)) ==> (r matches Some(l) && l.wf() && l.list == self.list),
            !(self.list.tag == tag_byte(T::spec_tag_id()) || (self.list.tag == 0
                && self.list@.len() == 0)) ==> r is None,
    {
        if self.list.element_is_::<T>() {
            Some(RefTypedList { list: self.list, marker: PhantomData })
        } else {
            None
        }
    }
}

/// A mutably borrowed list whose elements all have the tag type of `T`.
pub struct MutTypedList<'a, T: NBT> {
    pub list: &'a mut OwnList,
    pub marker: PhantomData<T>,
}

impl<'a, T: NBT> View for MutTypedList<'a, T> {
    type V = Seq<Nbt>;

    /// The elements of the borrowed list, as they stand now.
    open spec fn view(&self) -> Seq<Nbt> {
        self.list@
    }
}

impl<'a, T: NBT> MutTypedList<'a, T> {
    /// The tag byte of the borrowed list, as it stands now.
    pub open spec fn spec_tag(&self) -> u8 {
        self.list.tag
    }

    /// The borrowed list holds elements of tag `T` under the tag byte of `T`.
    pub open spec fn wf(&self) -> bool {
        &&& self.list.tag == tag_byte(T::spec_tag_id())
        &&& forall|i: int| 0 <= i < self.list@.len() ==> nbt_tag(#[trigger] self.list@[i])
            == self.list.tag
    }

    /// The number of elements.
    pub fn len(&self) -> (n: usize)
        ensures
            n == self@.len(),
    {
        self.list.len()
    }

    /// Whether there are no elements.
    pub fn is_empty(&self) -> (b: bool)
        ensures
            b == (self@.len() == 0),
    {
        self.list.is_empty()
    }

    /// Element `index`, if there is one.
    pub fn get<'b>(&'b self, index: usize) -> (r: Option<RefValue<'b>>)
        ensures
            found_at(r, self@, index as int),
    {
        MutableConfig::list_get(&*self.list, index)
    }

    /// The elements, in order.
    pub fn iter<'b>(&'b self) -> (it: RefListIter<'b>)
        ensures
            it.list@ == self@ && it.list.tag == self.spec_tag(),
            it.pos == 0,
    {
        RefListIter { list: &*self.list, pos: 0 }
    }

    /// Borrows element `index` mutably, if there is one. When the borrow
    /// ends, the list holds what was written through the view at `index`
    /// (see `OwnList::get_mut`).
    pub fn get_mut<'b>(&'b mut self, index: usize) -> (r: Option<MutValue<'b>>)
        ensures
            *final(final(self).list) == *final(old(self).list),
            old(self).wf() ==> (r matches Some(m) ==> nbt_tag(mut_view(m)) == tag_byte(
                T::spec_tag_id(),
            )),
            index >= old(self)@.len() ==> r is None && final(self)@ == old(self)@
                && final(self).spec_tag() == old(self).spec_tag(),
            index < old(self)@.len() ==> (r matches Some(m) && mut_view(m) == old(self)@[index as int]
                && final(self).spec_tag() == old(self).spec_tag() && match m {
                MutValue::End => final(self)@ == old(self)@,
                MutValue::Byte(x) => final(self)@ == old(self)@.update(index as int, Nbt::Byte(*final(x))),
                MutValue::Short(x) => final(self)@ == old(self)@.update(index as int, Nbt::Short(*final(x))),
                MutValue::Int(x) => final(self)@ == old(self)@.update(index as int, Nbt::Int(*final(x))),
                MutValue::Long(x) => final(self)@ == old(self)@.update(index as int, Nbt::Long(*final(x))),
                MutValue::Float(x) => final(self)@ == old(self)@.update(index as int, Nbt::Float(*final(x))),
                MutValue::Double(x) => final(self)@ == old(self)@.update(index as int, Nbt::Double(*final(x))),
                MutValue::ByteArray(x) => final(self)@ == old(self)@.update(index as int, Nbt::ByteArray(final(x)@)),
                MutValue::String(x) => final(self)@ == old(self)@.update(index as int, Nbt::String(final(x).data@)),
                MutValue::List(x) => final(self)@ == old(self)@.update(index as int, Nbt::List(final(x).tag, final(x)@)),
                MutValue::Compound(x) => final(self)@ == old(self)@.update(index as int, Nbt::Compound(final(x)@)),
                MutValue::IntArray(x) => final(self)@ == old(self)@.update(index as int, Nbt::IntArray(final(x)@)),
                MutValue::LongArray(x) => final(self)@ == old(self)@.update(index as int, Nbt::LongArray(final(x)@)),
            }),
    {
        self.list.get_mut(index)
    }

    /// A cursor at the first element, lending each element mutably in turn
    /// (see `MutListIter::next`, which takes `self.list`).
    pub fn iter_mut(&self) -> (it: MutListIter)
        ensures
            it.pos == 0,
    {
        MutListIter { pos: 0 }
    }
}

impl<'a, T: NBT> TypedListBase<T> for MutTypedList<'a, T> {
    open spec fn spec_len(&self) -> nat {
        self@.len()
    }

    fn len(&self) -> (n: usize) {
        self.list.len()
    }

    fn is_empty(&self) -> (b: bool) {
        self.list.is_empty()
    }
}

impl OwnList {
    /// Borrows this list mutably as a typed list, when its elements have the
    /// tag type of `T`; an empty End list takes the tag of `T`. Otherwise
    /// `None`, and the list is left as it was. When the borrow ends, the list
    /// is what was done to it through the view.
    pub fn typed_mut_<'a, T: NBT>(&'a mut self) -> (r: Option<MutTypedList<'a, T>>)
        requires
            forall|i: int| 0 <= i < old(self)@.len() ==> nbt_tag(#[trigger] old(self)@[i])
                == old(self).tag,
        ensures
            !(old(self).tag == tag_byte(T::spec_tag_id()) || (old(self).tag == 0 && old(self)@.len()
                == 0)) ==> r is None && *final(self) == *old(self),
            (old(self).tag == tag_byte(T::spec_tag_id()) || (old(self).tag == 0 && old(self)@.len()
                == 0)) ==> (r matches Some(m) && m.wf() && m.list@ == old(self)@ && *final(m.list)
                == *final(self)),
    {
        if self.element_is_::<T>() {
            let t = T::tag_id().to_u8();
            if self.tag != t {
                self.tag = t;
                self.end_len = 0;
                self.items = Vec::new();
                assert(self@ =~= Seq::<Nbt>::empty());
            }
            Some(MutTypedList { list: self, marker: PhantomData })
        } else {
            None
        }
    }
}

} // verus!
