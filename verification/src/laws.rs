//! Laws of editing compounds and lists.
use vstd::prelude::*;

use crate::compound::{found, taken};
use crate::list::{found_at, taken_at};
use crate::refs::RefValue;
use crate::tag::{TagID, tag_of_byte};
use crate::value::OwnValue;
use crate::model::{
    Nbt, insert_key, key_pos, lemma_key_pos, lemma_key_pos_at, list_insert, list_push, lookup,
    nbt_tag, remove_key, unique_names, wf,
};

verus! {

/// At most one entry of `es` is named `k`.
pub open spec fn at_most_one(es: Seq<(Seq<u8>, Nbt)>, k: Seq<u8>) -> bool {
    forall|i: int, j: int| 0 <= i < j < es.len() ==> !(es[i].0 == k && es[j].0 == k)
}

proof fn lemma_removed_has_no_key(es: Seq<(Seq<u8>, Nbt)>, k: Seq<u8>)
    requires
        at_most_one(es, k),
    ensures
        forall|j: int| 0 <= j < remove_key(es, k).len() ==> remove_key(es, k)[j].0 != k,
{
    lemma_key_pos(es, k);
    let i = key_pos(es, k);
    if i >= 0 {
        let r = es.remove(i);
        assert forall|j: int| 0 <= j < r.len() implies r[j].0 != k by {
            if j < i {
                assert(r[j] == es[j]);
            } else {
                assert(r[j] == es[j + 1]);
                assert(!(es[i].0 == k && es[j + 1].0 == k));
            }
        }
    }
}

/// After `insert(k, v)`, looking up `k` gives `v`, when `k` named at most one
/// entry before.
pub proof fn lemma_insert_then_get(es: Seq<(Seq<u8>, Nbt)>, k: Seq<u8>, v: Nbt)
    requires
        at_most_one(es, k),
    ensures
        lookup(insert_key(es, k, v), k) == Some(v),
{
    lemma_removed_has_no_key(es, k);
    let r = remove_key(es, k);
    let e = r.push((k, v));
    assert forall|j: int| 0 <= j < r.len() implies e[j].0 != k by {
        assert(e[j] == r[j]);
    }
    lemma_key_pos_at(e, k, r.len() as int);
}

/// After `remove(k)`, looking up `k` gives nothing, when `k` named at most
/// one entry before.
pub proof fn lemma_remove_then_get(es: Seq<(Seq<u8>, Nbt)>, k: Seq<u8>)
    requires
        at_most_one(es, k),
    ensures
        lookup(remove_key(es, k), k) is None,
{
    lemma_removed_has_no_key(es, k);
    lemma_key_pos(remove_key(es, k), k);
}

/// Removing the first entry named `k` leaves the lookup of every other name
/// as it was.
pub proof fn lemma_remove_keeps_others(es: Seq<(Seq<u8>, Nbt)>, k: Seq<u8>, k2: Seq<u8>)
    requires
        k != k2,
    ensures
        lookup(remove_key(es, k), k2) == lookup(es, k2),
{
    lemma_key_pos(es, k);
    lemma_key_pos(es, k2);
    let i = key_pos(es, k);
    if i >= 0 {
        let r = es.remove(i);
        lemma_key_pos(r, k2);
        let j = key_pos(es, k2);
        if j < 0 {
            assert forall|m: int| 0 <= m < r.len() implies r[m].0 != k2 by {
                if m < i {
                    assert(r[m] == es[m]);
                } else {
                    assert(r[m] == es[m + 1]);
                }
            }
        } else {
            assert(j != i);
            let j2 = if j < i {
                j
            } else {
                j - 1
            };
            assert(r[j2] == es[j]);
            assert forall|m: int| 0 <= m < j2 implies r[m].0 != k2 by {
                if m < i {
                    assert(r[m] == es[m]);
                } else {
                    assert(r[m] == es[m + 1]);
                }
            }
            lemma_key_pos_at(r, k2, j2);
        }
    }
}

/// Setting `k` leaves the lookup of every other name as it was.
pub proof fn lemma_insert_keeps_others(es: Seq<(Seq<u8>, Nbt)>, k: Seq<u8>, k2: Seq<u8>, v: Nbt)
    requires
        k != k2,
    ensures
        lookup(insert_key(es, k, v), k2) == lookup(es, k2),
{
    lemma_remove_keeps_others(es, k, k2);
    let r = remove_key(es, k);
    let e = r.push((k, v));
    lemma_key_pos(r, k2);
    lemma_key_pos(e, k2);
    let j = key_pos(r, k2);
    if j >= 0 {
        assert(e[j] == r[j]);
        assert forall|m: int| 0 <= m < j implies e[m].0 != k2 by {
            assert(e[m] == r[m]);
        }
        lemma_key_pos_at(e, k2, j);
    } else {
        assert forall|m: int| 0 <= m < e.len() implies e[m].0 != k2 by {
            if m < r.len() {
                assert(e[m] == r[m]);
            }
        }
    }
}

/// A push that the list takes (an element of its tag, or any element on an
/// empty End list) adds it at the end; a pop then gives that element back
/// and leaves the elements as they were before the push, and the list keeps
/// the tag the push left it with.
pub proof fn lemma_push_then_pop(t: u8, s: Seq<Nbt>, v: Nbt)
    requires
        t == nbt_tag(v) || (t == 0 && s.len() == 0),
    ensures
        list_push(t, s, v) == (nbt_tag(v), s.push(v)),
        list_push(t, s, v).1.len() > 0,
        list_push(t, s, v).1.last() == v,
        list_push(t, s, v).1.drop_last() == s,
{
    assert(s.push(v).drop_last() =~= s);
}

/// An edit in place at `i` (what a write through `get_mut` does) puts the
/// new element at `i`, keeps the length and every other element, and keeps
/// a well-formed list well formed when the element has the list's tag (a
/// mutable view cannot change the tag of what it borrows).
pub proof fn lemma_edit_in_place(t: u8, s: Seq<Nbt>, i: int, w: Nbt)
    requires
        0 <= i < s.len(),
    ensures
        s.update(i, w).len() == s.len(),
        s.update(i, w)[i] == w,
        forall|j: int| 0 <= j < s.len() && j != i ==> #[trigger] s.update(i, w)[j] == s[j],
        wf(Nbt::List(t, s)) && wf(w) && nbt_tag(w) == t ==> wf(Nbt::List(t, s.update(i, w))),
{
    if wf(Nbt::List(t, s)) && wf(w) && nbt_tag(w) == t {
        let s2 = s.update(i, w);
        assert forall|j: int| 0 <= j < s2.len() implies nbt_tag(#[trigger] s2[j]) == t && wf(s2[j]) by {
            if j != i {
                assert(s2[j] == s[j]);
            }
        }
    }
}

/// An empty list of element tag End takes the tag of the first element
/// pushed.
pub proof fn lemma_push_onto_empty(v: Nbt)
    ensures
        list_push(0, Seq::empty(), v) == (nbt_tag(v), seq![v]),
{
    assert(Seq::<Nbt>::empty().push(v) =~= seq![v]);
}

/// An element inserted at an index below the length is found there, and
/// removing it there gives the list back.
pub proof fn lemma_insert_then_remove(t: u8, s: Seq<Nbt>, i: int, v: Nbt)
    requires
        0 <= i < s.len(),
        t == nbt_tag(v),
    ensures
        list_insert(t, s, i, v).1[i] == v,
        list_insert(t, s, i, v).1.remove(i) == s,
{
    assert(s.insert(i, v).remove(i) =~= s);
}

/// Setting a name keeps the names of a compound unique: entries built by
/// `insert` alone never share a name.
pub proof fn lemma_insert_keeps_names_unique(es: Seq<(Seq<u8>, Nbt)>, k: Seq<u8>, v: Nbt)
    requires
        unique_names(es),
    ensures
        unique_names(insert_key(es, k, v)),
{
    assert(at_most_one(es, k));
    lemma_removed_has_no_key(es, k);
    lemma_key_pos(es, k);
    let r = remove_key(es, k);
    let e = r.push((k, v));
    let i = key_pos(es, k);
    assert forall|a: int, b: int| 0 <= a < b < e.len() implies e[a].0 != e[b].0 by {
        if b == r.len() {
            assert(e[a] == r[a]);
        } else {
            assert(e[a] == r[a] && e[b] == r[b]);
            if i >= 0 {
                let a0 = if a < i { a } else { a + 1 };
                let b0 = if b < i { b } else { b + 1 };
                assert(r[a] == es[a0]);
                assert(r[b] == es[b0]);
            }
        }
    }
}

/// Removing a name keeps the names of a compound unique.
pub proof fn lemma_remove_keeps_names_unique(es: Seq<(Seq<u8>, Nbt)>, k: Seq<u8>)
    requires
        unique_names(es),
    ensures
        unique_names(remove_key(es, k)),
{
    lemma_key_pos(es, k);
    let i = key_pos(es, k);
    let r = remove_key(es, k);
    if i >= 0 {
        assert forall|a: int, b: int| 0 <= a < b < r.len() implies r[a].0 != r[b].0 by {
            let a0 = if a < i { a } else { a + 1 };
            let b0 = if b < i { b } else { b + 1 };
            assert(r[a] == es[a0]);
            assert(r[b] == es[b0]);
        }
    }
}

/// An insert of an element of another tag than the list's leaves the list
/// as it was, at any position.
pub proof fn lemma_insert_other_tag(t: u8, s: Seq<Nbt>, i: int, v: Nbt)
    requires
        t != nbt_tag(v),
    ensures
        list_insert(t, s, i, v) == (t, s),
{
}

/// An insert at a position below the length, of an element of the list's
/// tag, adds exactly that element there: one more element, the tag kept,
/// the elements before it kept, the ones from it on shifted by one.
pub proof fn lemma_insert_adds_one(t: u8, s: Seq<Nbt>, i: int, v: Nbt)
    requires
        0 <= i < s.len(),
        t == nbt_tag(v),
    ensures
        list_insert(t, s, i, v).0 == t,
        list_insert(t, s, i, v).1.len() == s.len() + 1,
        list_insert(t, s, i, v).1[i] == v,
        forall|j: int| 0 <= j < i ==> #[trigger] list_insert(t, s, i, v).1[j] == s[j],
        forall|j: int| i <= j < s.len() ==> #[trigger] list_insert(t, s, i, v).1[j + 1] == s[j],
{
}

/// A push of an element of another tag onto a list that is not an empty
/// End list leaves the list as it was.
pub proof fn lemma_push_other_tag(t: u8, s: Seq<Nbt>, v: Nbt)
    requires
        t != nbt_tag(v),
        !(t == 0 && s.len() == 0),
    ensures
        list_push(t, s, v) == (t, s),
{
}

/// What a read by position gives, against edits: after a push, the last
/// position holds the pushed element; past the end there is nothing; and
/// a removal by position gives the element that stood there.
pub proof fn lemma_get_after_push(s: Seq<Nbt>, v: Nbt, r: Option<RefValue>, w: Option<OwnValue>)
    ensures
        found_at(r, s.push(v), s.len() as int) ==> (r matches Some(x) && x@ == v),
        found_at(r, s, s.len() as int) ==> r is None,
        taken_at(w, s.push(v), s.len() as int) ==> (w matches Some(x) && x@ == v),
{
}

/// What a read by name gives after setting that name (when it named at
/// most one entry before): the value that was set.
pub proof fn lemma_get_after_insert(
    es: Seq<(Seq<u8>, Nbt)>,
    k: Seq<u8>,
    v: Nbt,
    r: Option<RefValue>,
    w: Option<OwnValue>,
)
    requires
        at_most_one(es, k),
    ensures
        found(r, insert_key(es, k, v), k) ==> (r matches Some(x) && x@ == v),
        taken(w, insert_key(es, k, v), k) ==> (w matches Some(x) && x@ == v),
{
    lemma_insert_then_get(es, k, v);
}

/// The tag byte of every value is the byte of its tag type: the model's
/// tag bytes and the tag type table agree, variant by variant.
pub proof fn lemma_tag_numbers(v: Nbt)
    ensures
        tag_of_byte(nbt_tag(v)) == Some(
            match v {
                Nbt::End => TagID::End,
                Nbt::Byte(_) => TagID::Byte,
                Nbt::Short(_) => TagID::Short,
                Nbt::Int(_) => TagID::Int,
                Nbt::Long(_) => TagID::Long,
                Nbt::Float(_) => TagID::Float,
                Nbt::Double(_) => TagID::Double,
                Nbt::ByteArray(_) => TagID::ByteArray,
                Nbt::String(_) => TagID::String,
                Nbt::List(_, _) => TagID::List,
                Nbt::Compound(_) => TagID::Compound,
                Nbt::IntArray(_) => TagID::IntArray,
                Nbt::LongArray(_) => TagID::LongArray,
            },
        ),
{
}

} // verus!
