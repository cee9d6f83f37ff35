//! Reading and editing the entries of an owned compound by name.
use vstd::prelude::*;

use crate::config::MutableConfig;
use crate::model::{
    Nbt, insert_key, lemma_key_pos, lemma_wf_insert_key, lemma_wf_lookup, lemma_wf_remove_key, lookup,
    nbt_tag, remove_key, wf,
};
use crate::mutf8::{fits_codec, mutf8_encode, mutf8_encoding};
use crate::refs::{RefCompound, RefString, RefValue, ref_value};
use crate::tag::{NBT, tag_byte};
use crate::value::{OwnCompound, OwnValue, lemma_entries_view};

verus! {

/// What a lookup by name returns, against the model.
pub open spec fn found(r: Option<RefValue>, es: Seq<(Seq<u8>, Nbt)>, k: Seq<u8>) -> bool {
    match r {
        Some(v) => lookup(es, k) == Some(v@),
        None => lookup(es, k) is None,
    }
}

/// What a removal by name returns, against the model.
pub open spec fn taken(r: Option<OwnValue>, es: Seq<(Seq<u8>, Nbt)>, k: Seq<u8>) -> bool {
    match r {
        Some(v) => lookup(es, k) == Some(v@),
        None => lookup(es, k) is None,
    }
}

impl OwnCompound {
    /// An empty compound.
    pub fn new() -> (c: OwnCompound)
        ensures
            c@ == Seq::<(Seq<u8>, Nbt)>::empty(),
            c.wf(),
    {
        let c = OwnCompound { entries: Vec::new() };
        assert(c@ =~= Seq::<(Seq<u8>, Nbt)>::empty());
        c
    }

    /// The value of the first entry named `key` (as Modified UTF-8).
    pub fn get<'a>(&'a self, key: &str) -> (r: Option<RefValue<'a>>)
        requires
            fits_codec(key@.len()),
        ensures
            found(r, self@, mutf8_encoding(key@)),
            self.wf() ==> (r matches Some(v) ==> nbt_tag(v@) != 0 && wf(v@)),
    {
        proof {
            if self.wf() {
                lemma_wf_lookup(self@, mutf8_encoding(key@));
            }
        }
        let name = mutf8_encode(key);
        let _n = self.entries.len();
        proof {
            lemma_entries_view(*self);
            lemma_key_pos(self@, name@);
        }
        match MutableConfig::compound_get(self, name.as_slice()) {
            None => None,
            Some(i) => {
                proof {
                    lemma_entries_view(*self);
                    lemma_key_pos(self@, name@);
                }
                let r = ref_value(&self.entries[i].1);
                assert(self@[i as int].1 == self.entries@[i as int].1@);
                assert(lookup(self@, name@) == Some(self@[i as int].1));
                Some(r)
            },
        }
    }

    /// The value of the first entry named `key`, if it has the tag type of `T`.
    pub fn get_<'a, T: NBT>(&'a self, key: &str) -> (r: Option<RefValue<'a>>)
        requires
            fits_codec(key@.len()),
        ensures
            match r {
                Some(v) => lookup(self@, mutf8_encoding(key@)) == Some(v@) && nbt_tag(v@)
                    == tag_byte(T::spec_tag_id()),
                None => !(lookup(self@, mutf8_encoding(key@)) matches Some(v) && nbt_tag(v)
                    == tag_byte(T::spec_tag_id())),
            },
            self.wf() ==> (r matches Some(v) ==> wf(v@)),
    {
        match self.get(key) {
            None => None,
            Some(v) => {
                let t = T::tag_id().to_u8();
                if crate::refs::ref_tag_byte(&v) == t {
                    Some(v)
                } else {
                    None
                }
            },
        }
    }

    /// Sets `key` to `value`: the first entry named `key` is removed and its
    /// value returned, and the new entry is added at the end.
    pub fn insert(&mut self, key: &str, value: OwnValue) -> (r: Option<OwnValue>)
        requires
            fits_codec(key@.len()),
            nbt_tag(value@) != 0,
        ensures
            final(self)@ == insert_key(old(self)@, mutf8_encoding(key@), value@),
            taken(r, old(self)@, mutf8_encoding(key@)),
            old(self).wf() && wf(value@) && mutf8_encoding(key@).len() <= u16::MAX
                ==> final(self).wf(),
            old(self).wf() ==> (r matches Some(v) ==> nbt_tag(v@) != 0 && wf(v@)),
    {
        proof {
            if old(self).wf() {
                lemma_wf_remove_key(old(self)@, mutf8_encoding(key@));
                if wf(value@) && mutf8_encoding(key@).len() <= u16::MAX {
                    lemma_wf_insert_key(old(self)@, mutf8_encoding(key@), value@);
                }
            }
        }
        let name = mutf8_encode(key);
        let old_value = MutableConfig::compound_remove(self, name.as_slice());
        MutableConfig::compound_insert(self, name, value);
        old_value
    }

    /// Removes the first entry named `key` and returns its value.
    pub fn remove(&mut self, key: &str) -> (r: Option<OwnValue>)
        requires
            fits_codec(key@.len()),
        ensures
            final(self)@ == remove_key(old(self)@, mutf8_encoding(key@)),
            taken(r, old(self)@, mutf8_encoding(key@)),
            old(self).wf() ==> final(self).wf() && (r matches Some(v) ==> nbt_tag(v@) != 0 && wf(
                v@,
            )),
    {
        proof {
            if old(self).wf() {
                lemma_wf_remove_key(old(self)@, mutf8_encoding(key@));
            }
        }
        let name = mutf8_encode(key);
        MutableConfig::compound_remove(self, name.as_slice())
    }

    /// The number of entries.
    pub fn len(&self) -> (n: usize)
        ensures
            n == self@.len(),
    {
        proof {
            lemma_entries_view(*self);
        }
        self.entries.len()
    }

    /// Whether there are no entries.
    pub fn is_empty(&self) -> (b: bool)
        ensures
            b == (self@.len() == 0),
    {
        self.len() == 0
    }

    /// Borrows the compound.
    pub fn as_ref<'a>(&'a self) -> (r: RefCompound<'a>)
        ensures
            r.compound == self,
    {
        RefCompound { compound: self }
    }

    /// The entries, in order.
    pub fn iter<'a>(&'a self) -> (it: RefCompoundIter<'a>)
        ensures
            it.compound == self,
            it.pos == 0,
    {
        RefCompoundIter { compound: self, pos: 0 }
    }
}

impl Default for OwnCompound {
    fn default() -> (c: OwnCompound)
        ensures
            c@ == Seq::<(Seq<u8>, Nbt)>::empty(),
            c.wf(),
    {
        OwnCompound::new()
    }
}

/// The entries of a compound, one after the other.
pub struct RefCompoundIter<'a> {
    pub compound: &'a OwnCompound,
    pub pos: usize,
}

impl<'a> RefCompoundIter<'a> {
    /// The next entry: its name and its value; `None` after the last.
    pub fn next(&mut self) -> (r: Option<(RefString<'a>, RefValue<'a>)>)
        ensures
            final(self).compound == old(self).compound,
            old(self).pos < old(self).compound@.len() ==> (r matches Some((name, v)) && name.bytes@
                == old(self).compound@[old(self).pos as int].0 && v@ == old(self).compound@[old(self).pos as int].1 && final(self).pos == old(self).pos + 1),
            old(self).pos >= old(self).compound@.len() ==> r is None && final(self).pos == old(self).pos,
    {
        proof {
            lemma_entries_view(*self.compound);
        }
        if self.pos < self.compound.entries.len() {
            let e = &self.compound.entries[self.pos];
            self.pos = self.pos + 1;
            Some((RefString { bytes: e.0.as_slice() }, ref_value(&e.1)))
        } else {
            None
        }
    }
}

impl<'a> RefCompound<'a> {
    /// The value of the first entry named `key`.
    pub fn get(&self, key: &str) -> (r: Option<RefValue<'a>>)
        requires
            fits_codec(key@.len()),
        ensures
            found(r, self.compound@, mutf8_encoding(key@)),
    {
        self.compound.get(key)
    }

    /// The entries, in order.
    pub fn iter(&self) -> (it: RefCompoundIter<'a>)
        ensures
            it.compound == self.compound,
            it.pos == 0,
    {
        RefCompoundIter { compound: self.compound, pos: 0 }
    }
}

} // verus!
