//! Reading and editing the elements of an owned list.
use vstd::prelude::*;

use crate::config::MutableConfig;
use crate::model::{
    Nbt, lemma_wf_list_element, lemma_wf_list_insert, lemma_wf_list_push, lemma_wf_list_remove,
    list_insert, list_push, nbt_tag, wf,
};
use crate::refs::{RefList, RefValue, ref_tag_byte};
use crate::tag::{NBT, TagID, tag_byte, tag_of_byte};
use crate::value::{OwnList, OwnValue, lemma_items_view};
use crate::write::value_tag_byte;

verus! {

/// What a removal by index returns, against the model.
pub open spec fn taken_at(r: Option<OwnValue>, s: Seq<Nbt>, i: int) -> bool {
    if 0 <= i < s.len() {
        r matches Some(v) && v@ == s[i]
    } else {
        r is None
    }
}

/// What a lookup by index returns, against the model.
pub open spec fn found_at(r: Option<RefValue>, s: Seq<Nbt>, i: int) -> bool {
    if 0 <= i < s.len() {
        r matches Some(v) && v@ == s[i]
    } else {
        r is None
    }
}

impl OwnList {
    /// An empty list of element tag End.
    pub fn new() -> (l: OwnList)
        ensures
            l.tag == 0,
            l.end_len == 0,
            l.items@ == Seq::<OwnValue>::empty(),
            l@ == Seq::<Nbt>::empty(),
            l.wf(),
    {
        let l = OwnList { tag: 0, end_len: 0, items: Vec::new() };
        assert(l@ =~= Seq::<Nbt>::empty());
        l
    }

    /// The tag type of the elements.
    pub fn element_tag_id(&self) -> (t: TagID)
        requires
            self.tag <= 12,
        ensures
            tag_byte(t) == self.tag,
    {
        match TagID::from_u8(self.tag) {
            Ok(t) => t,
            Err(_) => TagID::End,
        }
    }

    /// Whether the elements have the tag type of `T`; an empty list of
    /// element tag End takes any.
    pub fn element_is_<T: NBT>(&self) -> (b: bool)
        ensures
            b == (self.tag == tag_byte(T::spec_tag_id()) || (self.tag == 0 && self@.len() == 0)),
    {
        let t = T::tag_id().to_u8();
        self.tag == t || (self.tag == 0 && self.is_empty())
    }

    /// The number of elements.
    pub fn len(&self) -> (n: usize)
        ensures
            n == self@.len(),
    {
        if self.tag == 0 {
            self.end_len
        } else {
            proof {
                lemma_items_view(*self);
            }
            self.items.len()
        }
    }

    /// Whether there are no elements.
    pub fn is_empty(&self) -> (b: bool)
        ensures
            b == (self@.len() == 0),
    {
        self.len() == 0
    }

    /// Element `index`, if there is one.
    pub fn get<'a>(&'a self, index: usize) -> (r: Option<RefValue<'a>>)
        ensures
            found_at(r, self@, index as int),
            self.wf() ==> (r matches Some(v) ==> nbt_tag(v@) == self.tag && wf(v@)),
    {
        proof {
            if self.wf() && index < self@.len() {
                lemma_wf_list_element(self.tag, self@, index as int);
            }
        }
        MutableConfig::list_get(self, index)
    }

    /// Element `index`, if there is one and the elements have the tag type of `T`.
    pub fn get_<'a, T: NBT>(&'a self, index: usize) -> (r: Option<RefValue<'a>>)
        ensures
            (self.tag == tag_byte(T::spec_tag_id())) ==> found_at(r, self@, index as int),
            (self.tag != tag_byte(T::spec_tag_id())) ==> r is None,
            self.wf() ==> (r matches Some(v) ==> nbt_tag(v@) == self.tag && wf(v@)),
            self.wf() ==> (r matches Some(v) ==> nbt_tag(v@) == tag_byte(T::spec_tag_id())),
    {
        proof {
            if self.wf() && index < self@.len() {
                lemma_wf_list_element(self.tag, self@, index as int);
            }
        }
        if !self.element_is_::<T>() {
            return None;
        }
        MutableConfig::list_get(self, index)
    }

    /// Appends `value` when its tag type is the elements' (an empty End list
    /// takes the tag type of its first element); otherwise nothing changes.
    pub fn push(&mut self, value: OwnValue)
        requires
            old(self)@.len() < u32::MAX,
        ensures
            (final(self).tag, final(self)@) == list_push(old(self).tag, old(self)@, value@),
            nbt_tag(value@) == old(self).tag ==> final(self).tag == old(self).tag && final(self)@
                == old(self)@.push(value@),
            old(self).tag == 0 && old(self)@.len() == 0 ==> final(self).tag == nbt_tag(value@)
                && final(self)@ == seq![value@],
            nbt_tag(value@) != old(self).tag && !(old(self).tag == 0 && old(self)@.len() == 0)
                ==> final(self).tag == old(self).tag && final(self)@ == old(self)@,
            old(self).wf() && wf(value@) ==> final(self).wf(),
    {
        proof {
            if old(self).wf() && wf(value@) {
                lemma_wf_list_push(old(self).tag, old(self)@, value@);
            }
        }
        let t = value_tag_byte(&value);
        if self.tag != t {
            if self.tag == 0 && self.is_empty() {
                self.tag = t;
                self.end_len = 0;
                self.items = Vec::new();
                assert(self@ =~= Seq::<Nbt>::empty());
            } else {
                return;
            }
        }
        MutableConfig::list_push(self, value);
    }

    /// Removes and returns the last element.
    pub fn pop(&mut self) -> (r: Option<OwnValue>)
        ensures
            final(self).tag == old(self).tag,
            old(self)@.len() == 0 ==> r is None && final(self)@ == old(self)@,
            old(self)@.len() > 0 ==> (r matches Some(v) && v@ == old(self)@.last()) && final(self)@ == old(self)@.drop_last(),
            old(self).wf() ==> final(self).wf() && (r matches Some(v) ==> nbt_tag(v@) == old(self).tag
                && wf(v@)),
    {
        proof {
            if old(self).wf() && old(self)@.len() > 0 {
                let n = old(self)@.len() - 1;
                lemma_wf_list_remove(old(self).tag, old(self)@, n);
                assert(old(self)@.remove(n) =~= old(self)@.drop_last());
            }
        }
        if self.is_empty() {
            return None;
        }
        Some(MutableConfig::list_pop(self))
    }

    /// Removes and returns the last element, if the elements have the tag
    /// type of `T`.
    pub fn pop_<T: NBT>(&mut self) -> (r: Option<OwnValue>)
        ensures
            final(self).tag == old(self).tag,
            (old(self)@.len() > 0 && old(self).tag == tag_byte(T::spec_tag_id())) ==> (r matches Some(
                v,
            ) && v@ == old(self)@.last()) && final(self)@ == old(self)@.drop_last(),
            !(old(self)@.len() > 0 && old(self).tag == tag_byte(T::spec_tag_id())) ==> r is None
                && final(self)@ == old(self)@,
            old(self).wf() ==> final(self).wf() && (r matches Some(v) ==> nbt_tag(v@) == old(self).tag
                && wf(v@)),
    {
        proof {
            if old(self).wf() && old(self)@.len() > 0 {
                let n = old(self)@.len() - 1;
                lemma_wf_list_remove(old(self).tag, old(self)@, n);
                assert(old(self)@.remove(n) =~= old(self)@.drop_last());
            }
        }
        if self.is_empty() {
            return None;
        }
        let t = T::tag_id().to_u8();
        if self.tag != t {
            return None;
        }
        Some(MutableConfig::list_pop(self))
    }

    /// Inserts `value` at `index` when `index` is below the length and the
    /// tag type of `value` is the elements'; otherwise nothing changes.
    pub fn insert(&mut self, index: usize, value: OwnValue)
        requires
            index < old(self)@.len() && nbt_tag(value@) == old(self).tag ==> old(self)@.len()
                < u32::MAX,
        ensures
            (final(self).tag, final(self)@) == list_insert(
                old(self).tag,
                old(self)@,
                index as int,
                value@,
            ),
            final(self).tag == old(self).tag,
            nbt_tag(value@) != old(self).tag ==> final(self)@ == old(self)@,
            index >= old(self)@.len() ==> final(self)@ == old(self)@,
            index < old(self)@.len() && nbt_tag(value@) == old(self).tag ==> final(self)@ == old(
                self,
            )@.insert(index as int, value@),
            old(self).wf() && wf(value@) ==> final(self).wf(),
    {
        proof {
            if old(self).wf() && wf(value@) {
                lemma_wf_list_insert(old(self).tag, old(self)@, index as int, value@);
            }
        }
        if index >= self.len() {
            return;
        }
        let t = value_tag_byte(&value);
        if self.tag != t {
            return;
        }
        MutableConfig::list_insert(self, index, value);
    }

    /// Removes and returns element `index`, if there is one.
    pub fn remove(&mut self, index: usize) -> (r: Option<OwnValue>)
        ensures
            final(self).tag == old(self).tag,
            taken_at(r, old(self)@, index as int),
            index < old(self)@.len() ==> final(self)@ == old(self)@.remove(index as int),
            index >= old(self)@.len() ==> final(self)@ == old(self)@,
            old(self).wf() ==> final(self).wf() && (r matches Some(v) ==> nbt_tag(v@) == old(self).tag
                && wf(v@)),
    {
        proof {
            if old(self).wf() && index < old(self)@.len() {
                lemma_wf_list_remove(old(self).tag, old(self)@, index as int);
            }
        }
        if index >= self.len() {
            return None;
        }
        Some(MutableConfig::list_remove(self, index))
    }

    /// Removes and returns element `index`, if there is one and the elements
    /// have the tag type of `T`.
    pub fn remove_<T: NBT>(&mut self, index: usize) -> (r: Option<OwnValue>)
        ensures
            final(self).tag == old(self).tag,
            old(self).tag == tag_byte(T::spec_tag_id()) ==> taken_at(r, old(self)@, index as int),
            (old(self).tag == tag_byte(T::spec_tag_id()) && index < old(self)@.len()) ==> final(self)@ == old(self)@.remove(index as int),
            !(old(self).tag == tag_byte(T::spec_tag_id()) && index < old(self)@.len()) ==> final(self)@ == old(self)@,
            old(self).tag != tag_byte(T::spec_tag_id()) ==> r is None,
            old(self).wf() ==> final(self).wf() && (r matches Some(v) ==> nbt_tag(v@) == old(self).tag
                && wf(v@)),
    {
        proof {
            if old(self).wf() && index < old(self)@.len() {
                lemma_wf_list_remove(old(self).tag, old(self)@, index as int);
            }
        }
        if index >= self.len() {
            return None;
        }
        let t = T::tag_id().to_u8();
        if self.tag != t {
            return None;
        }
        Some(MutableConfig::list_remove(self, index))
    }

    /// Borrows the list.
    pub fn as_ref<'a>(&'a self) -> (r: RefList<'a>)
        ensures
            r.list == self,
    {
        RefList { list: self }
    }

    /// The elements, in order.
    pub fn iter<'a>(&'a self) -> (it: RefListIter<'a>)
        ensures
            it.list == self,
            it.pos == 0,
    {
        RefListIter { list: self, pos: 0 }
    }
}

impl Default for OwnList {
    fn default() -> (l: OwnList)
        ensures
            l.tag == 0,
            l@ == Seq::<Nbt>::empty(),
            l.wf(),
    {
        OwnList::new()
    }
}

/// The elements of a list, one after the other.
pub struct RefListIter<'a> {
    pub list: &'a OwnList,
    pub pos: usize,
}

impl<'a> RefListIter<'a> {
    /// The next element; `None` after the last.
    pub fn next(&mut self) -> (r: Option<RefValue<'a>>)
        ensures
            final(self).list == old(self).list,
            found_at(r, old(self).list@, old(self).pos as int),
            old(self).pos < old(self).list@.len() ==> final(self).pos == old(self).pos + 1,
            old(self).pos >= old(self).list@.len() ==> final(self).pos == old(self).pos,
    {
        let n = self.list.len();
        let r = MutableConfig::list_get(self.list, self.pos);
        if self.pos < n {
            self.pos = self.pos + 1;
        }
        r
    }
}

impl<'a> RefList<'a> {
    /// The tag type of the elements.
    pub fn tag_id(&self) -> (t: TagID)
        requires
            self.list.tag <= 12,
        ensures
            tag_byte(t) == self.list.tag,
    {
        self.list.element_tag_id()
    }

    /// The number of elements.
    pub fn len(&self) -> (n: usize)
        ensures
            n == self.list@.len(),
    {
        self.list.len()
    }

    /// Whether there are no elements.
    pub fn is_empty(&self) -> (b: bool)
        ensures
            b == (self.list@.len() == 0),
    {
        self.list.is_empty()
    }

    /// Element `index`, if there is one.
    pub fn get(&self, index: usize) -> (r: Option<RefValue<'a>>)
        ensures
            found_at(r, self.list@, index as int),
    {
        MutableConfig::list_get(self.list, index)
    }

    /// The elements, in order.
    pub fn iter(&self) -> (it: RefListIter<'a>)
        ensures
            it.list == self.list,
            it.pos == 0,
    {
        RefListIter { list: self.list, pos: 0 }
    }
}

} // verus!
