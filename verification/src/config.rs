//! The primitive edits of owned lists and compounds, on which the methods of
//! `OwnList` and `OwnCompound` are built.
use vstd::prelude::*;

use crate::model::{Nbt, key_pos, lemma_key_pos, lemma_key_pos_at, lookup, nbt_tag, remove_key};
use crate::mutref::{MutValue, mut_view, to_mut};
use crate::refs::{RefValue, ref_value};
use crate::value::{
    OwnCompound, OwnList, OwnValue, entry_views, lemma_entries_view, lemma_items_view, views,
};
use crate::write::value_tag_byte;

verus! {

/// Whether two byte runs are equal.
pub fn bytes_eq(a: &[u8], b: &[u8]) -> (r: bool)
    ensures
        r == (a@ == b@),
{
    let n = a.len();
    if n != b.len() {
        return false;
    }
    let mut i: usize = 0;
    while i < n
        invariant
            n == a@.len() == b@.len(),
            i <= n,
            forall|j: int| 0 <= j < i ==> a@[j] == b@[j],
        decreases n - i,
    {
        if a[i] != b[i] {
            return false;
        }
        i = i + 1;
    }
    assert(a@ =~= b@);
    true
}

/// The operations on owned lists and compounds, with numbers kept as
/// native integers of any source byte order.
pub struct MutableConfig;

impl MutableConfig {
    /// Borrows a value.
    pub fn read<'a>(v: &'a OwnValue) -> (r: RefValue<'a>)
        ensures
            r@ == v@,
    {
        ref_value(v)
    }

    /// Borrows a value mutably (see `mutref::to_mut`).
    pub fn read_mut<'a>(v: &'a mut OwnValue) -> (r: MutValue<'a>)
        ensures
            mut_view(r) == old(v)@,
            match r {
                MutValue::End => *final(v) == OwnValue::End,
                MutValue::Byte(x) => *final(v) == OwnValue::Byte(*final(x)),
                MutValue::Short(x) => *final(v) == OwnValue::Short(*final(x)),
                MutValue::Int(x) => *final(v) == OwnValue::Int(*final(x)),
                MutValue::Long(x) => *final(v) == OwnValue::Long(*final(x)),
                MutValue::Float(x) => *final(v) == OwnValue::Float(*final(x)),
                MutValue::Double(x) => *final(v) == OwnValue::Double(*final(x)),
                MutValue::ByteArray(s) => *final(v) == OwnValue::ByteArray(*final(s)),
                MutValue::String(s) => *final(v) == OwnValue::String(*final(s)),
                MutValue::List(l) => *final(v) == OwnValue::List(*final(l)),
                MutValue::Compound(c) => *final(v) == OwnValue::Compound(*final(c)),
                MutValue::IntArray(s) => *final(v) == OwnValue::IntArray(*final(s)),
                MutValue::LongArray(s) => *final(v) == OwnValue::LongArray(*final(s)),
            },
    {
        to_mut(v)
    }

    /// Element `index` of a list, if there is one.
    pub fn list_get<'a>(l: &'a OwnList, index: usize) -> (r: Option<RefValue<'a>>)
        ensures
            index < l@.len() ==> (r matches Some(v) && v@ == l@[index as int]),
            index >= l@.len() ==> r is None,
    {
        if l.tag == 0 {
            if index < l.end_len {
                Some(RefValue::End)
            } else {
                None
            }
        } else {
            proof {
                lemma_items_view(*l);
            }
            if index < l.items.len() {
                Some(ref_value(&l.items[index]))
            } else {
                None
            }
        }
    }

    /// Appends an element of the list's tag.
    pub fn list_push(l: &mut OwnList, v: OwnValue)
        requires
            nbt_tag(v@) == old(l).tag,
            old(l)@.len() < u32::MAX,
        ensures
            final(l).tag == old(l).tag,
            final(l)@ == old(l)@.push(v@),
    {
        if l.tag == 0 {
            l.end_len = l.end_len + 1;
            assert(l@ =~= old(l)@.push(v@));
        } else {
            proof {
                lemma_items_view(*l);
            }
            let ghost before = l.items@;
            l.items.push(v);
            proof {
                lemma_items_view(*l);
                assert(views(l.items@) =~= views(before).push(v@));
            }
        }
    }

    /// Removes and returns the last element.
    pub fn list_pop(l: &mut OwnList) -> (r: OwnValue)
        requires
            old(l)@.len() > 0,
        ensures
            final(l).tag == old(l).tag,
            final(l)@ == old(l)@.drop_last(),
            r@ == old(l)@.last(),
    {
        if l.tag == 0 {
            l.end_len = l.end_len - 1;
            assert(l@ =~= old(l)@.drop_last());
            OwnValue::End
        } else {
            proof {
                lemma_items_view(*l);
            }
            let ghost before = l.items@;
            let v = l.items.pop().unwrap();
            proof {
                lemma_items_view(*l);
                assert(views(l.items@) =~= views(before).drop_last());
            }
            v
        }
    }

    /// Inserts an element of the list's tag at `index`.
    pub fn list_insert(l: &mut OwnList, index: usize, v: OwnValue)
        requires
            nbt_tag(v@) == old(l).tag,
            index <= old(l)@.len(),
            old(l)@.len() < u32::MAX,
        ensures
            final(l).tag == old(l).tag,
            final(l)@ == old(l)@.insert(index as int, v@),
    {
        if l.tag == 0 {
            l.end_len = l.end_len + 1;
            assert(l@ =~= old(l)@.insert(index as int, v@));
        } else {
            proof {
                lemma_items_view(*l);
            }
            let ghost before = l.items@;
            l.items.insert(index, v);
            proof {
                lemma_items_view(*l);
                assert(views(l.items@) =~= views(before).insert(index as int, v@));
            }
        }
    }

    /// Removes and returns element `index`.
    pub fn list_remove(l: &mut OwnList, index: usize) -> (r: OwnValue)
        requires
            index < old(l)@.len(),
        ensures
            final(l).tag == old(l).tag,
            final(l)@ == old(l)@.remove(index as int),
            r@ == old(l)@[index as int],
    {
        if l.tag == 0 {
            l.end_len = l.end_len - 1;
            assert(l@ =~= old(l)@.remove(index as int));
            OwnValue::End
        } else {
            proof {
                lemma_items_view(*l);
            }
            let ghost before = l.items@;
            let v = l.items.remove(index);
            proof {
                lemma_items_view(*l);
                assert(views(l.items@) =~= views(before).remove(index as int));
            }
            v
        }
    }

    /// The index of the first entry named `name`.
    pub fn compound_get(c: &OwnCompound, name: &[u8]) -> (r: Option<usize>)
        ensures
            key_pos(c@, name@) >= 0 ==> r == Some(key_pos(c@, name@) as usize),
            key_pos(c@, name@) < 0 ==> r is None,
    {
        proof {
            lemma_entries_view(*c);
            lemma_key_pos(c@, name@);
        }
        let n = c.entries.len();
        let mut i: usize = 0;
        while i < n
            invariant
                n == c.entries@.len(),
                c@ == entry_views(c.entries@),
                i <= n,
                forall|j: int| 0 <= j < i ==> c@[j].0 != name@,
            decreases n - i,
        {
            if bytes_eq(c.entries[i].0.as_slice(), name) {
                proof {
                    lemma_key_pos_at(c@, name@, i as int);
                }
                return Some(i);
            }
            i = i + 1;
        }
        None
    }

    /// Appends an entry.
    pub fn compound_insert(c: &mut OwnCompound, name: Vec<u8>, v: OwnValue)
        requires
            nbt_tag(v@) != 0,
        ensures
            final(c)@ == old(c)@.push((name@, v@)),
    {
        proof {
            lemma_entries_view(*c);
        }
        let ghost before = c.entries@;
        let ghost e = (name@, v@);
        c.entries.push((name, v));
        proof {
            lemma_entries_view(*c);
            assert(entry_views(c.entries@) =~= entry_views(before).push(e));
        }
    }

    /// Removes the first entry named `name`, and returns its value.
    pub fn compound_remove(c: &mut OwnCompound, name: &[u8]) -> (r: Option<OwnValue>)
        ensures
            final(c)@ == remove_key(old(c)@, name@),
            match r {
                Some(v) => lookup(old(c)@, name@) == Some(v@),
                None => lookup(old(c)@, name@) is None,
            },
    {
        let found = Self::compound_get(c, name);
        proof {
            lemma_entries_view(*c);
            lemma_key_pos(c@, name@);
        }
        if found.is_none() {
            assert(remove_key(c@, name@) == c@);
            return None;
        }
        let i = found.unwrap();
        let ghost before = c.entries@;
        let ghost old_view = c@;
        let pair = c.entries.remove(i);
        proof {
            lemma_entries_view(*c);
            assert(entry_views(c.entries@) =~= entry_views(before).remove(i as int));
            assert(c@ == old_view.remove(i as int));
        }
        Some(pair.1)
    }
}

} // verus!
