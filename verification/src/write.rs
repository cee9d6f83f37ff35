//! The writer: from an owned value to the bytes of a document.
//!
//! Every function here appends exactly `model::encode` of its value.
use vstd::prelude::*;

use crate::byte_order::{push_u16, push_u32, push_u64, u16_from_i16, u32_from_i32, u64_from_i64, u8_from_i8};
use crate::model::{
    Nbt, enc_i32s, enc_i64s, enc_i8s, encode, encode_entries, encode_items, nbt_tag,
};
use crate::value::{
    OwnCompound, OwnList, OwnValue, entry_views, lemma_entries_view, lemma_items_view, views,
};

verus! {

/// The tag byte of a value.
pub fn value_tag_byte(v: &OwnValue) -> (t: u8)
    ensures
        t == nbt_tag(v@),
        t <= 12,
{
    match v {
        OwnValue::End => 0,
        OwnValue::Byte(_) => 1,
        OwnValue::Short(_) => 2,
        OwnValue::Int(_) => 3,
        OwnValue::Long(_) => 4,
        OwnValue::Float(_) => 5,
        OwnValue::Double(_) => 6,
        OwnValue::ByteArray(_) => 7,
        OwnValue::String(_) => 8,
        OwnValue::List(_) => 9,
        OwnValue::Compound(_) => 10,
        OwnValue::IntArray(_) => 11,
        OwnValue::LongArray(_) => 12,
    }
}

/// Appends `bytes` to `out`.
pub fn push_bytes(out: &mut Vec<u8>, bytes: &[u8])
    ensures
        final(out)@ == old(out)@ + bytes@,
{
    let ghost start = out@;
    let n = bytes.len();
    let mut i: usize = 0;
    while i < n
        invariant
            n == bytes@.len(),
            i <= n,
            out@ == start + bytes@.subrange(0, i as int),
        decreases n - i,
    {
        out.push(bytes[i]);
        i = i + 1;
        assert(out@ =~= start + bytes@.subrange(0, i as int));
    }
    assert(bytes@.subrange(0, n as int) =~= bytes@);
}

pub(crate) fn push_i8s(out: &mut Vec<u8>, s: &[i8])
    ensures
        final(out)@ == old(out)@ + enc_i8s(s@),
{
    let ghost start = out@;
    let n = s.len();
    let mut i: usize = 0;
    while i < n
        invariant
            n == s@.len(),
            i <= n,
            out@ == start + enc_i8s(s@).subrange(0, i as int),
        decreases n - i,
    {
        out.push(u8_from_i8(s[i]));
        i = i + 1;
        assert(out@ =~= start + enc_i8s(s@).subrange(0, i as int));
    }
    assert(enc_i8s(s@).subrange(0, n as int) =~= enc_i8s(s@));
}

pub(crate) fn push_i32s(out: &mut Vec<u8>, s: &[i32], big: bool)
    ensures
        final(out)@ == old(out)@ + enc_i32s(s@, big),
{
    let ghost start = out@;
    let n = s.len();
    let mut i: usize = 0;
    while i < n
        invariant
            n == s@.len(),
            i <= n,
            out@ == start + enc_i32s(s@, big).subrange(0, 4 * i),
        decreases n - i,
    {
        let ghost before = out@;
        push_u32(out, u32_from_i32(s[i]), big);
        i = i + 1;
        assert(out@ =~= start + enc_i32s(s@, big).subrange(0, 4 * i));
    }
    assert(enc_i32s(s@, big).subrange(0, 4 * n) =~= enc_i32s(s@, big));
}

pub(crate) fn push_i64s(out: &mut Vec<u8>, s: &[i64], big: bool)
    ensures
        final(out)@ == old(out)@ + enc_i64s(s@, big),
{
    let ghost start = out@;
    let n = s.len();
    let mut i: usize = 0;
    while i < n
        invariant
            n == s@.len(),
            i <= n,
            out@ == start + enc_i64s(s@, big).subrange(0, 8 * i),
        decreases n - i,
    {
        push_u64(out, u64_from_i64(s[i]), big);
        i = i + 1;
        assert(out@ =~= start + enc_i64s(s@, big).subrange(0, 8 * i));
    }
    assert(enc_i64s(s@, big).subrange(0, 8 * n) =~= enc_i64s(s@, big));
}

/// The payloads of the first `i + 1` elements are those of the first `i`
/// followed by that of element `i`.
pub proof fn lemma_encode_items_snoc(s: Seq<Nbt>, i: int, big: bool)
    requires
        0 <= i < s.len(),
    ensures
        encode_items(s.subrange(0, i + 1), big) == encode_items(s.subrange(0, i), big) + encode(
            s[i],
            big,
        ),
{
    assert(s.subrange(0, i + 1).subrange(0, i) =~= s.subrange(0, i));
}

/// The entries of the first `i + 1` are those of the first `i` followed by
/// entry `i`.
pub proof fn lemma_encode_entries_snoc(s: Seq<(Seq<u8>, Nbt)>, i: int, big: bool)
    requires
        0 <= i < s.len(),
    ensures
        encode_entries(s.subrange(0, i + 1), big) == encode_entries(s.subrange(0, i), big) + (
        seq![nbt_tag(s[i].1)] + crate::byte_order::u16_bytes(s[i].0.len() as u16, big) + s[i].0
            + encode(s[i].1, big)),
{
    assert(s.subrange(0, i + 1).subrange(0, i) =~= s.subrange(0, i));
}

/// A run of End elements has no payload bytes.
pub proof fn lemma_encode_items_ends(n: nat, big: bool)
    ensures
        encode_items(Seq::new(n, |i: int| Nbt::End), big) == Seq::<u8>::empty(),
    decreases n,
{
    let s = Seq::new(n, |i: int| Nbt::End);
    if n > 0 {
        lemma_encode_items_ends((n - 1) as nat, big);
        assert(s.subrange(0, n - 1) =~= Seq::new((n - 1) as nat, |i: int| Nbt::End));
        assert(encode(s[n - 1], big) =~= Seq::<u8>::empty());
        assert(encode_items(s, big) =~= Seq::<u8>::empty());
    }
}

/// Appends the payload of `v`.
pub fn write_payload(v: &OwnValue, big: bool, out: &mut Vec<u8>)
    ensures
        final(out)@ == old(out)@ + encode(v@, big),
    decreases v, 1int,
{
    match v {
        OwnValue::End => {
            assert(out@ =~= out@ + Seq::<u8>::empty());
        },
        OwnValue::Byte(x) => {
            out.push(u8_from_i8(*x));
        },
        OwnValue::Short(x) => {
            push_u16(out, u16_from_i16(*x), big);
        },
        OwnValue::Int(x) => {
            push_u32(out, u32_from_i32(*x), big);
        },
        OwnValue::Long(x) => {
            push_u64(out, u64_from_i64(*x), big);
        },
        OwnValue::Float(x) => {
            push_u32(out, *x, big);
        },
        OwnValue::Double(x) => {
            push_u64(out, *x, big);
        },
        OwnValue::ByteArray(s) => {
            push_u32(out, s.len() as u32, big);
            push_i8s(out, s.as_slice());
        },
        OwnValue::String(s) => {
            push_u16(out, s.data.len() as u16, big);
            push_bytes(out, s.data.as_slice());
        },
        OwnValue::List(l) => {
            write_list_payload(l, big, out);
        },
        OwnValue::Compound(c) => {
            write_compound_payload(c, big, out);
        },
        OwnValue::IntArray(s) => {
            push_u32(out, s.len() as u32, big);
            push_i32s(out, s.as_slice(), big);
        },
        OwnValue::LongArray(s) => {
            push_u32(out, s.len() as u32, big);
            push_i64s(out, s.as_slice(), big);
        },
    }
}

/// Appends the payload of a list: element tag, length, elements.
pub fn write_list_payload(l: &OwnList, big: bool, out: &mut Vec<u8>)
    ensures
        final(out)@ == old(out)@ + encode(Nbt::List(l.tag, l@), big),
    decreases l, 0int,
{
    let ghost start = out@;
    out.push(l.tag);
    if l.tag == 0 {
        push_u32(out, l.end_len as u32, big);
        proof {
            lemma_encode_items_ends(l.end_len as nat, big);
        }
        assert(out@ =~= start + encode(Nbt::List(l.tag, l@), big));
        return;
    }
    let n = l.items.len();
    push_u32(out, n as u32, big);
    let ghost mid = out@;
    proof {
        lemma_items_view(*l);
    }
    let ghost s = views(l.items@);
    let mut i: usize = 0;
    assert(s.subrange(0, 0) =~= Seq::<Nbt>::empty());
    assert(out@ =~= mid + encode_items(s.subrange(0, 0), big));
    while i < n
        invariant
            n == l.items@.len(),
            s == views(l.items@),
            i <= n,
            out@ == mid + encode_items(s.subrange(0, i as int), big),
        decreases n - i,
    {
        write_payload(&l.items[i], big, out);
        proof {
            lemma_encode_items_snoc(s, i as int, big);
        }
        i = i + 1;
    }
    assert(s.subrange(0, n as int) =~= s);
    assert(out@ =~= start + encode(Nbt::List(l.tag, l@), big));
}

/// Appends the payload of a compound: its entries and the closing End.
pub fn write_compound_payload(c: &OwnCompound, big: bool, out: &mut Vec<u8>)
    ensures
        final(out)@ == old(out)@ + encode(Nbt::Compound(c@), big),
    decreases c, 0int,
{
    let ghost start = out@;
    proof {
        lemma_entries_view(*c);
    }
    let ghost s = entry_views(c.entries@);
    let n = c.entries.len();
    let mut i: usize = 0;
    assert(s.subrange(0, 0) =~= Seq::<(Seq<u8>, Nbt)>::empty());
    assert(out@ =~= start + encode_entries(s.subrange(0, 0), big));
    while i < n
        invariant
            n == c.entries@.len(),
            s == entry_views(c.entries@),
            i <= n,
            out@ == start + encode_entries(s.subrange(0, i as int), big),
        decreases n - i,
    {
        let entry = &c.entries[i];
        let t = value_tag_byte(&entry.1);
        out.push(t);
        push_u16(out, entry.0.len() as u16, big);
        push_bytes(out, entry.0.as_slice());
        write_payload(&entry.1, big, out);
        proof {
            lemma_encode_entries_snoc(s, i as int, big);
        }
        i = i + 1;
        assert(out@ =~= start + encode_entries(s.subrange(0, i as int), big));
    }
    out.push(0);
    assert(s.subrange(0, n as int) =~= s);
    assert(out@ =~= start + encode(Nbt::Compound(c@), big));
}

} // verus!
