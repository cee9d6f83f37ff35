//! The mathematical model of an NBT value, its binary encoding and the
//! reader's decision on every input.
//!
//! A payload is the part of a value after its tag byte (and, in a compound,
//! after its name). `encode` says which bytes the writer produces for a
//! value; `parse_payload` says what the reader returns for any bytes.
use vstd::prelude::*;

use crate::byte_order::{
    i16_of, i32_of, i64_of, i8_of, u16_at, u16_bytes, u16_of_i16, u32_at, u32_bytes, u32_of_i32,
    u64_at, u64_bytes, u64_of_i64, u8_of_i8,
};
use crate::error::Error;
use crate::tag::fixed_width;

verus! {

/// An NBT value as a mathematical object.
///
/// Floating point payloads are kept as their IEEE 754 bits, strings as their
/// Modified UTF-8 bytes.
pub enum Nbt {
    End,
    Byte(i8),
    Short(i16),
    Int(i32),
    Long(i64),
    Float(u32),
    Double(u64),
    ByteArray(Seq<i8>),
    String(Seq<u8>),
    /// The tag byte of the elements, and the elements.
    List(u8, Seq<Nbt>),
    /// Entries in order: the name (Modified UTF-8 bytes) and the value.
    Compound(Seq<(Seq<u8>, Nbt)>),
    IntArray(Seq<i32>),
    LongArray(Seq<i64>),
}

/// The tag byte of a value.
pub open spec fn nbt_tag(v: Nbt) -> u8 {
    match v {
        Nbt::End => 0,
        Nbt::Byte(_) => 1,
        Nbt::Short(_) => 2,
        Nbt::Int(_) => 3,
        Nbt::Long(_) => 4,
        Nbt::Float(_) => 5,
        Nbt::Double(_) => 6,
        Nbt::ByteArray(_) => 7,
        Nbt::String(_) => 8,
        Nbt::List(_, _) => 9,
        Nbt::Compound(_) => 10,
        Nbt::IntArray(_) => 11,
        Nbt::LongArray(_) => 12,
    }
}

/// A value that the format can hold: every length fits its length field,
/// the elements of a list all have the list's element tag, and no compound
/// entry holds an End.
pub open spec fn wf(v: Nbt) -> bool
    decreases v,
{
    match v {
        Nbt::ByteArray(s) => s.len() <= u32::MAX,
        Nbt::String(s) => s.len() <= u16::MAX,
        Nbt::List(t, items) => {
            &&& t <= 12
            &&& items.len() <= u32::MAX
            &&& forall|i: int|
                0 <= i < items.len() ==> nbt_tag(#[trigger] items[i]) == t && wf(items[i])
        },
        Nbt::Compound(es) => forall|i: int|
            0 <= i < es.len() ==> {
                &&& (#[trigger] es[i]).0.len() <= u16::MAX
                &&& nbt_tag(es[i].1) != 0
                &&& wf(es[i].1)
            },
        Nbt::IntArray(s) => s.len() <= u32::MAX,
        Nbt::LongArray(s) => s.len() <= u32::MAX,
        _ => true,
    }
}

// ---------------------------------------------------------------------------
// Encoding.
// ---------------------------------------------------------------------------

/// The bytes of a run of signed bytes.
pub open spec fn enc_i8s(s: Seq<i8>) -> Seq<u8> {
    Seq::new(s.len(), |i: int| u8_of_i8(s[i]))
}

/// The bytes of a run of 32-bit integers.
pub open spec fn enc_i32s(s: Seq<i32>, big: bool) -> Seq<u8> {
    Seq::new(4 * s.len(), |k: int| u32_bytes(u32_of_i32(s[k / 4]), big)[k % 4])
}

/// The bytes of a run of 64-bit integers.
pub open spec fn enc_i64s(s: Seq<i64>, big: bool) -> Seq<u8> {
    Seq::new(8 * s.len(), |k: int| u64_bytes(u64_of_i64(s[k / 8]), big)[k % 8])
}

/// The payload bytes of a value.
pub open spec fn encode(v: Nbt, big: bool) -> Seq<u8>
    decreases v,
{
    match v {
        Nbt::End => Seq::empty(),
        Nbt::Byte(x) => seq![u8_of_i8(x)],
        Nbt::Short(x) => u16_bytes(u16_of_i16(x), big),
        Nbt::Int(x) => u32_bytes(u32_of_i32(x), big),
        Nbt::Long(x) => u64_bytes(u64_of_i64(x), big),
        Nbt::Float(x) => u32_bytes(x, big),
        Nbt::Double(x) => u64_bytes(x, big),
        Nbt::ByteArray(s) => u32_bytes(s.len() as u32, big) + enc_i8s(s),
        Nbt::String(s) => u16_bytes(s.len() as u16, big) + s,
        Nbt::List(t, items) => seq![t] + u32_bytes(items.len() as u32, big) + encode_items(
            items,
            big,
        ),
        Nbt::Compound(es) => encode_entries(es, big) + seq![0u8],
        Nbt::IntArray(s) => u32_bytes(s.len() as u32, big) + enc_i32s(s, big),
        Nbt::LongArray(s) => u32_bytes(s.len() as u32, big) + enc_i64s(s, big),
    }
}

/// The payloads of list elements, one after the other.
pub open spec fn encode_items(items: Seq<Nbt>, big: bool) -> Seq<u8>
    decreases items,
{
    if items.len() == 0 {
        Seq::empty()
    } else {
        encode_items(items.subrange(0, items.len() - 1), big) + encode(
            items[items.len() - 1],
            big,
        )
    }
}

/// The bytes of one compound entry: tag, name length, name, payload.
pub open spec fn encode_entry(name: Seq<u8>, v: Nbt, big: bool) -> Seq<u8> {
    seq![nbt_tag(v)] + u16_bytes(name.len() as u16, big) + name + encode(v, big)
}

/// The compound entries, one after the other (without the closing End).
pub open spec fn encode_entries(es: Seq<(Seq<u8>, Nbt)>, big: bool) -> Seq<u8>
    decreases es,
{
    if es.len() == 0 {
        Seq::empty()
    } else {
        encode_entries(es.subrange(0, es.len() - 1), big) + (seq![nbt_tag(es[es.len() - 1].1)]
            + u16_bytes(es[es.len() - 1].0.len() as u16, big) + es[es.len() - 1].0 + encode(
            es[es.len() - 1].1,
            big,
        ))
    }
}

/// A named root: tag byte, name length, name, payload.
pub open spec fn encode_named(name: Seq<u8>, v: Nbt, big: bool) -> Seq<u8> {
    encode_entry(name, v, big)
}

// ---------------------------------------------------------------------------
// Decoding.
// ---------------------------------------------------------------------------

/// Bytes taken by `n` primitive payloads of tag `t`.
pub open spec fn prim_block(t: u8, n: int) -> int {
    if t == 1 {
        n
    } else if t == 2 {
        2 * n
    } else if t == 3 || t == 5 {
        4 * n
    } else if t == 4 || t == 6 {
        8 * n
    } else {
        0
    }
}

/// The fewest bytes that `n` elements of a non-primitive tag `t` can take.
pub open spec fn min_block(t: u8, n: int) -> int {
    if t == 7 || t == 11 || t == 12 {
        4 * n
    } else if t == 8 {
        2 * n
    } else if t == 9 {
        5 * n
    } else {
        n
    }
}

/// The primitive value of tag `t` (0..=6) whose payload starts at `p`.
pub open spec fn parse_prim(t: u8, b: Seq<u8>, p: int, big: bool) -> Nbt {
    if t == 1 {
        Nbt::Byte(i8_of(b[p]))
    } else if t == 2 {
        Nbt::Short(i16_of(u16_at(b, p, big)))
    } else if t == 3 {
        Nbt::Int(i32_of(u32_at(b, p, big)))
    } else if t == 4 {
        Nbt::Long(i64_of(u64_at(b, p, big)))
    } else if t == 5 {
        Nbt::Float(u32_at(b, p, big))
    } else if t == 6 {
        Nbt::Double(u64_at(b, p, big))
    } else {
        Nbt::End
    }
}

/// What the reader returns for a primitive payload of tag `t` (1..=6) at `p`.
pub open spec fn parse_fixed(t: u8, b: Seq<u8>, p: int, big: bool) -> Result<(Nbt, int), Error> {
    if p + fixed_width(t) > b.len() {
        Err(Error::EOF)
    } else {
        Ok((parse_prim(t, b, p, big), p + fixed_width(t)))
    }
}

/// What the reader returns for an array or string payload of tag `t` (7, 8,
/// 11 or 12) at `p`.
pub open spec fn parse_array(t: u8, b: Seq<u8>, p: int, big: bool) -> Result<(Nbt, int), Error> {
    if t == 8 {
        if p + 2 > b.len() {
            Err(Error::EOF)
        } else {
            let n = u16_at(b, p, big) as int;
            if p + 2 + n > b.len() {
                Err(Error::EOF)
            } else {
                Ok((Nbt::String(b.subrange(p + 2, p + 2 + n)), p + 2 + n))
            }
        }
    } else if p + 4 > b.len() {
        Err(Error::EOF)
    } else {
        let n = u32_at(b, p, big) as int;
        if t == 7 {
            if p + 4 + n > b.len() {
                Err(Error::EOF)
            } else {
                Ok((Nbt::ByteArray(Seq::new(n as nat, |i: int| i8_of(b[p + 4 + i]))), p + 4 + n))
            }
        } else if t == 11 {
            if p + 4 + 4 * n > b.len() {
                Err(Error::EOF)
            } else {
                Ok(
                    (
                        Nbt::IntArray(
                            Seq::new(n as nat, |i: int| i32_of(u32_at(b, p + 4 + 4 * i, big))),
                        ),
                        p + 4 + 4 * n,
                    ),
                )
            }
        } else {
            if p + 4 + 8 * n > b.len() {
                Err(Error::EOF)
            } else {
                Ok(
                    (
                        Nbt::LongArray(
                            Seq::new(n as nat, |i: int| i64_of(u64_at(b, p + 4 + 8 * i, big))),
                        ),
                        p + 4 + 8 * n,
                    ),
                )
            }
        }
    }
}

/// What the reader returns for a payload of tag `t` starting at `p` of `b`:
/// the value and the position after it, or the error it reports.
///
/// `eager` selects the bound checks of list headers (see `parse_list`).
pub open spec fn parse_payload(t: u8, b: Seq<u8>, p: int, big: bool, eager: bool) -> Result<
    (Nbt, int),
    Error,
>
    decreases b.len() - p, 1int, 0int,
{
    if p < 0 || p > b.len() {
        Err(Error::EOF)
    } else if 1 <= t <= 6 {
        parse_fixed(t, b, p, big)
    } else if t == 7 || t == 8 || t == 11 || t == 12 {
        parse_array(t, b, p, big)
    } else if t == 9 {
        parse_list(b, p, big, eager)
    } else if t == 10 {
        match parse_entries(b, p, big, eager) {
            Ok((es, r)) => Ok((Nbt::Compound(es), r)),
            Err(e) => Err(e),
        }
    } else if t == 0 {
        Ok((Nbt::End, p))
    } else {
        Err(Error::INVALID(t))
    }
}

/// What the reader returns for a list payload at `p`.
///
/// `eager` selects the bound checks of the header: when set, a list of `n`
/// non-primitive elements is refused at once unless the fewest bytes such
/// elements can take are left, and an unknown element tag is refused before
/// any bound check; when clear, only `n` bytes are asked for first.
pub open spec fn parse_list(b: Seq<u8>, p: int, big: bool, eager: bool) -> Result<(Nbt, int), Error>
    decreases b.len() - p, 0int, 0int,
{
    if p < 0 || p + 5 > b.len() {
        Err(Error::EOF)
    } else {
        let et = b[p];
        let n = u32_at(b, p + 1, big) as int;
        let q = p + 5;
        if et <= 6 {
            if q + prim_block(et, n) > b.len() {
                Err(Error::EOF)
            } else {
                Ok(
                    (
                        Nbt::List(
                            et,
                            Seq::new(n as nat, |i: int| parse_prim(et, b, q + prim_block(et, i), big)),
                        ),
                        q + prim_block(et, n),
                    ),
                )
            }
        } else if eager && et > 12 {
            Err(Error::INVALID(et))
        } else if eager && q + min_block(et, n) > b.len() {
            Err(Error::EOF)
        } else if !eager && q + n > b.len() {
            Err(Error::EOF)
        } else if et > 12 {
            Err(Error::INVALID(et))
        } else {
            match parse_items(et, n as nat, b, q, big, eager) {
                Ok((vs, r)) => Ok((Nbt::List(et, vs), r)),
                Err(e) => Err(e),
            }
        }
    }
}

/// What the reader returns for `n` list elements of tag `t` from `q` on.
pub open spec fn parse_items(t: u8, n: nat, b: Seq<u8>, q: int, big: bool, eager: bool) -> Result<
    (Seq<Nbt>, int),
    Error,
>
    decreases b.len() - q, 2int, n,
{
    if q < 0 || q > b.len() {
        Err(Error::EOF)
    } else if n == 0 {
        Ok((Seq::empty(), q))
    } else {
        match parse_payload(t, b, q, big, eager) {
            Err(e) => Err(e),
            Ok((v, q2)) => if q2 < q || q2 > b.len() {
                Err(Error::EOF)
            } else {
                match parse_items(t, (n - 1) as nat, b, q2, big, eager) {
                    Ok((vs, r)) => Ok((seq![v] + vs, r)),
                    Err(e) => Err(e),
                }
            },
        }
    }
}

/// What the reader returns for the entries of a compound from `q` on, up to
/// and including the closing End.
pub open spec fn parse_entries(b: Seq<u8>, q: int, big: bool, eager: bool) -> Result<
    (Seq<(Seq<u8>, Nbt)>, int),
    Error,
>
    decreases b.len() - q, 0int, 0int,
{
    if q < 0 || q + 1 > b.len() {
        Err(Error::EOF)
    } else if b[q] == 0 {
        Ok((Seq::empty(), q + 1))
    } else if q + 3 > b.len() {
        Err(Error::EOF)
    } else {
        let t = b[q];
        let r = q + 3 + u16_at(b, q + 1, big);
        if r > b.len() {
            Err(Error::EOF)
        } else if t > 12 {
            Err(Error::INVALID(t))
        } else {
            match parse_payload(t, b, r, big, eager) {
                Err(e) => Err(e),
                Ok((v, q2)) => if q2 < r || q2 > b.len() {
                    Err(Error::EOF)
                } else {
                    match parse_entries(b, q2, big, eager) {
                        Ok((es, z)) => Ok((seq![(b.subrange(q + 3, r), v)] + es, z)),
                        Err(e) => Err(e),
                    }
                },
            }
        }
    }
}

// ---------------------------------------------------------------------------
// Compound entries by name.
// ---------------------------------------------------------------------------

/// The index of the first entry named `k`, or -1.
pub open spec fn key_pos(es: Seq<(Seq<u8>, Nbt)>, k: Seq<u8>) -> int
    decreases es.len(),
{
    if es.len() == 0 {
        -1
    } else if es[0].0 == k {
        0
    } else {
        let r = key_pos(es.subrange(1, es.len() as int), k);
        if r < 0 {
            -1
        } else {
            r + 1
        }
    }
}

/// The value of the first entry named `k`.
pub open spec fn lookup(es: Seq<(Seq<u8>, Nbt)>, k: Seq<u8>) -> Option<Nbt> {
    if key_pos(es, k) >= 0 {
        Some(es[key_pos(es, k)].1)
    } else {
        None
    }
}

/// The entries without the first one named `k`.
pub open spec fn remove_key(es: Seq<(Seq<u8>, Nbt)>, k: Seq<u8>) -> Seq<(Seq<u8>, Nbt)> {
    if key_pos(es, k) >= 0 {
        es.remove(key_pos(es, k))
    } else {
        es
    }
}

/// The entries after setting `k` to `v`: the first entry named `k` leaves,
/// and `(k, v)` is added at the end.
pub open spec fn insert_key(es: Seq<(Seq<u8>, Nbt)>, k: Seq<u8>, v: Nbt) -> Seq<(Seq<u8>, Nbt)> {
    remove_key(es, k).push((k, v))
}

/// No two entries share a name.
pub open spec fn unique_names(es: Seq<(Seq<u8>, Nbt)>) -> bool {
    forall|i: int, j: int| 0 <= i < j < es.len() ==> es[i].0 != es[j].0
}

/// `key_pos` is the first index whose name is `k`, and -1 when there is none.
pub proof fn lemma_key_pos(es: Seq<(Seq<u8>, Nbt)>, k: Seq<u8>)
    ensures
        -1 <= key_pos(es, k) < es.len(),
        key_pos(es, k) == -1 <==> forall|i: int| 0 <= i < es.len() ==> es[i].0 != k,
        key_pos(es, k) >= 0 ==> es[key_pos(es, k)].0 == k,
        forall|j: int| 0 <= j < key_pos(es, k) ==> es[j].0 != k,
    decreases es.len(),
{
    if es.len() > 0 && es[0].0 != k {
        let rest = es.subrange(1, es.len() as int);
        lemma_key_pos(rest, k);
        assert forall|i: int| 0 <= i < rest.len() implies rest[i] == es[i + 1] by {}
        if key_pos(rest, k) == -1 {
            assert forall|i: int| 0 <= i < es.len() implies es[i].0 != k by {
                if i > 0 {
                    assert(rest[i - 1] == es[i]);
                }
            }
        }
        assert forall|j: int| 0 <= j < key_pos(es, k) implies es[j].0 != k by {
            if j > 0 {
                assert(rest[j - 1] == es[j]);
            }
        }
    }
}

/// The first index whose name is `k` is `key_pos`.
pub proof fn lemma_key_pos_at(es: Seq<(Seq<u8>, Nbt)>, k: Seq<u8>, i: int)
    requires
        0 <= i < es.len(),
        es[i].0 == k,
        forall|j: int| 0 <= j < i ==> es[j].0 != k,
    ensures
        key_pos(es, k) == i,
{
    lemma_key_pos(es, k);
}

// ---------------------------------------------------------------------------
// List edits.
// ---------------------------------------------------------------------------

/// The list after a push: the element is added when its tag is the list's,
/// or when the list is empty with element tag End (the list then takes the
/// element's tag); otherwise the list is left as it was.
pub open spec fn list_push(t: u8, s: Seq<Nbt>, v: Nbt) -> (u8, Seq<Nbt>) {
    if t == nbt_tag(v) {
        (t, s.push(v))
    } else if t == 0 && s.len() == 0 {
        (nbt_tag(v), s.push(v))
    } else {
        (t, s)
    }
}

/// The list after inserting at `i`: only an index below the length and an
/// element of the list's tag are taken.
pub open spec fn list_insert(t: u8, s: Seq<Nbt>, i: int, v: Nbt) -> (u8, Seq<Nbt>) {
    if 0 <= i < s.len() && t == nbt_tag(v) {
        (t, s.insert(i, v))
    } else {
        (t, s)
    }
}

// ---------------------------------------------------------------------------
// Edits keep values well formed.
// ---------------------------------------------------------------------------

/// Pushing a well-formed value onto a well-formed list keeps it well formed.
pub proof fn lemma_wf_list_push(t: u8, s: Seq<Nbt>, v: Nbt)
    requires
        wf(Nbt::List(t, s)),
        wf(v),
        s.len() < u32::MAX,
    ensures
        wf(Nbt::List(list_push(t, s, v).0, list_push(t, s, v).1)),
{
    let (t2, s2) = list_push(t, s, v);
    assert forall|i: int| 0 <= i < s2.len() implies nbt_tag(#[trigger] s2[i]) == t2 && wf(s2[i]) by {
        if i < s.len() && s2 != s.push(v) {
            assert(s2[i] == s[i]);
        } else if i < s.len() {
            assert(s2[i] == s[i]);
        }
    }
}

/// Inserting a well-formed value into a well-formed list keeps it well formed.
pub proof fn lemma_wf_list_insert(t: u8, s: Seq<Nbt>, i: int, v: Nbt)
    requires
        wf(Nbt::List(t, s)),
        wf(v),
        0 <= i < s.len() && t == nbt_tag(v) ==> s.len() < u32::MAX,
    ensures
        wf(Nbt::List(list_insert(t, s, i, v).0, list_insert(t, s, i, v).1)),
{
    let (t2, s2) = list_insert(t, s, i, v);
    if 0 <= i < s.len() && t == nbt_tag(v) {
        assert forall|j: int| 0 <= j < s2.len() implies nbt_tag(#[trigger] s2[j]) == t2 && wf(s2[j]) by {
            if j < i {
                assert(s2[j] == s[j]);
            } else if j > i {
                assert(s2[j] == s[j - 1]);
            }
        }
    }
}

/// Removing element `i` of a well-formed list keeps it well formed, and the
/// element is well formed and of the list's tag.
pub proof fn lemma_wf_list_remove(t: u8, s: Seq<Nbt>, i: int)
    requires
        wf(Nbt::List(t, s)),
        0 <= i < s.len(),
    ensures
        wf(Nbt::List(t, s.remove(i))),
        wf(s[i]),
        nbt_tag(s[i]) == t,
{
    let s2 = s.remove(i);
    assert forall|j: int| 0 <= j < s2.len() implies nbt_tag(#[trigger] s2[j]) == t && wf(s2[j]) by {
        if j < i {
            assert(s2[j] == s[j]);
        } else {
            assert(s2[j] == s[j + 1]);
        }
    }
}

/// Every element of a well-formed list is well formed and of the list's tag.
pub proof fn lemma_wf_list_element(t: u8, s: Seq<Nbt>, i: int)
    requires
        wf(Nbt::List(t, s)),
        0 <= i < s.len(),
    ensures
        wf(s[i]),
        nbt_tag(s[i]) == t,
{
}

/// What a well-formed compound holds: each entry has a name that fits its
/// length field and a well-formed value other than End.
pub proof fn lemma_wf_compound_entries(es: Seq<(Seq<u8>, Nbt)>)
    requires
        wf(Nbt::Compound(es)),
    ensures
        forall|i: int|
            0 <= i < es.len() ==> {
                &&& (#[trigger] es[i]).0.len() <= u16::MAX
                &&& nbt_tag(es[i].1) != 0
                &&& wf(es[i].1)
            },
{
    let v = Nbt::Compound(es);
    assert(v matches Nbt::Compound(es2) && es2 == es);
}

/// Removing the first entry named `k` keeps a compound well formed.
pub proof fn lemma_wf_remove_key(es: Seq<(Seq<u8>, Nbt)>, k: Seq<u8>)
    requires
        wf(Nbt::Compound(es)),
    ensures
        wf(Nbt::Compound(remove_key(es, k))),
        lookup(es, k) matches Some(v) ==> wf(v) && nbt_tag(v) != 0,
{
    lemma_wf_compound_entries(es);
    lemma_key_pos(es, k);
    let p = key_pos(es, k);
    if p >= 0 {
        let e2 = es.remove(p);
        assert forall|j: int| 0 <= j < e2.len() implies {
            &&& (#[trigger] e2[j]).0.len() <= u16::MAX
            &&& nbt_tag(e2[j].1) != 0
            &&& wf(e2[j].1)
        } by {
            if j < p {
                let b = es[j];
                assert(e2[j] == b);
            } else {
                let b = es[j + 1];
                assert(e2[j] == b);
            }
        }
        assert(wf(Nbt::Compound(e2)));
        let e = es[p];
        assert(e.0.len() <= u16::MAX);
    }
}

/// Setting a name that fits its length field to a well-formed value other
/// than End keeps a compound well formed.
pub proof fn lemma_wf_insert_key(es: Seq<(Seq<u8>, Nbt)>, k: Seq<u8>, v: Nbt)
    requires
        wf(Nbt::Compound(es)),
        wf(v),
        nbt_tag(v) != 0,
        k.len() <= u16::MAX,
    ensures
        wf(Nbt::Compound(insert_key(es, k, v))),
{
    lemma_wf_remove_key(es, k);
    let r = remove_key(es, k);
    lemma_wf_compound_entries(r);
    let e2 = r.push((k, v));
    assert forall|j: int| 0 <= j < e2.len() implies {
        &&& (#[trigger] e2[j]).0.len() <= u16::MAX
        &&& nbt_tag(e2[j].1) != 0
        &&& wf(e2[j].1)
    } by {
        if j < r.len() {
            let b = r[j];
            assert(e2[j] == b);
        }
    }
}

/// The value of an entry of a well-formed compound is well formed and not End.
pub proof fn lemma_wf_lookup(es: Seq<(Seq<u8>, Nbt)>, k: Seq<u8>)
    requires
        wf(Nbt::Compound(es)),
    ensures
        lookup(es, k) matches Some(v) ==> wf(v) && nbt_tag(v) != 0,
{
    lemma_wf_remove_key(es, k);
}

} // verus!
