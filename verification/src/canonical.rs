//! What the reader accepts, the writer gives back byte for byte.
use vstd::prelude::*;

use crate::byte_order::{
    i16_of, i32_of, i64_of, i8_of, lemma_twos_complement_inverse, lemma_u16_bytes_of,
    lemma_u32_bytes_of, lemma_u64_bytes_of, u16_at, u16_bytes, u32_at, u32_bytes, u64_at,
    u64_bytes,
};
use crate::error::Error;
use crate::model::{
    Nbt, enc_i32s, enc_i64s, enc_i8s, encode, encode_entries, encode_items, nbt_tag,
    parse_array, parse_entries, parse_items, parse_list, parse_payload, parse_prim, prim_block, wf,
};
use crate::roundtrip::{holds_at, lemma_encode_items_cons, lemma_parse_encode};
use crate::tag::fixed_width;
use crate::write::{lemma_encode_entries_snoc, lemma_encode_items_snoc};

verus! {

proof fn lemma_u16_bytes_at(b: Seq<u8>, p: int, big: bool)
    requires
        0 <= p,
        p + 2 <= b.len(),
    ensures
        u16_bytes(u16_at(b, p, big), big) == b.subrange(p, p + 2),
{
    lemma_u16_bytes_of(b[p], b[p + 1], big);
    assert(b.subrange(p, p + 2) =~= seq![b[p], b[p + 1]]);
}

proof fn lemma_u32_bytes_at(b: Seq<u8>, p: int, big: bool)
    requires
        0 <= p,
        p + 4 <= b.len(),
    ensures
        u32_bytes(u32_at(b, p, big), big) == b.subrange(p, p + 4),
{
    lemma_u32_bytes_of(b[p], b[p + 1], b[p + 2], b[p + 3], big);
    assert(b.subrange(p, p + 4) =~= seq![b[p], b[p + 1], b[p + 2], b[p + 3]]);
}

/// The payload written for a primitive value read at `p` is the bytes it was
/// read from.
proof fn lemma_prim_canonical(t: u8, b: Seq<u8>, p: int, big: bool)
    requires
        t <= 6,
        0 <= p,
        p + fixed_width(t) <= b.len(),
    ensures
        nbt_tag(parse_prim(t, b, p, big)) == t,
        encode(parse_prim(t, b, p, big), big) == b.subrange(p, p + fixed_width(t)),
{
    if t == 0 {
        assert(b.subrange(p, p) =~= Seq::<u8>::empty());
    } else if t == 1 {
        lemma_twos_complement_inverse(b[p], 0, 0, 0);
        assert(b.subrange(p, p + 1) =~= seq![b[p]]);
    } else if t == 2 {
        lemma_twos_complement_inverse(0, u16_at(b, p, big), 0, 0);
        lemma_u16_bytes_at(b, p, big);
    } else if t == 3 {
        lemma_twos_complement_inverse(0, 0, u32_at(b, p, big), 0);
        lemma_u32_bytes_at(b, p, big);
    } else if t == 4 {
        lemma_twos_complement_inverse(0, 0, 0, u64_at(b, p, big));
        lemma_u64_bytes_of(b.subrange(p, p + 8), big);
    } else if t == 5 {
        lemma_u32_bytes_at(b, p, big);
    } else {
        lemma_u64_bytes_of(b.subrange(p, p + 8), big);
    }
}

/// The payloads written for a block of `n` primitive elements read at `q`
/// are the bytes they were read from.
proof fn lemma_prim_block_canonical(t: u8, n: nat, b: Seq<u8>, q: int, big: bool)
    requires
        t <= 6,
        0 <= q,
        q + prim_block(t, n as int) <= b.len(),
    ensures
        encode_items(Seq::new(n, |i: int| parse_prim(t, b, q + prim_block(t, i), big)), big)
            == b.subrange(q, q + prim_block(t, n as int)),
    decreases n,
{
    let s = Seq::new(n, |i: int| parse_prim(t, b, q + prim_block(t, i), big));
    if n == 0 {
        assert(b.subrange(q, q) =~= Seq::<u8>::empty());
    } else {
        let m = (n - 1) as nat;
        lemma_prim_block_canonical(t, m, b, q, big);
        assert(s.subrange(0, m as int) =~= Seq::new(
            m,
            |i: int| parse_prim(t, b, q + prim_block(t, i), big),
        ));
        lemma_prim_canonical(t, b, q + prim_block(t, m as int), big);
        assert(prim_block(t, m as int) + fixed_width(t) == prim_block(t, n as int));
        assert(b.subrange(q, q + prim_block(t, n as int)) =~= b.subrange(
            q,
            q + prim_block(t, m as int),
        ) + b.subrange(q + prim_block(t, m as int), q + prim_block(t, n as int)));
    }
}

/// A String payload that the reader accepts is written back as the bytes
/// it was read from.
proof fn lemma_string_canonical(b: Seq<u8>, p: int, big: bool)
    requires
        0 <= p <= b.len(),
    ensures
        parse_array(8, b, p, big) matches Ok((v, q)) ==> wf(v) && nbt_tag(v) == 8 && p <= q
            <= b.len() && encode(v, big) == b.subrange(p, q),
{
    if let Ok((v, q)) = parse_array(8, b, p, big) {
        let n = u16_at(b, p, big) as int;
        lemma_u16_bytes_at(b, p, big);
        assert(b.subrange(p, q) =~= b.subrange(p, p + 2) + b.subrange(p + 2, p + 2 + n));
    }
}

/// A ByteArray payload that the reader accepts is written back as the bytes
/// it was read from.
proof fn lemma_byte_array_canonical(b: Seq<u8>, p: int, big: bool)
    requires
        0 <= p <= b.len(),
    ensures
        parse_array(7, b, p, big) matches Ok((v, q)) ==> wf(v) && nbt_tag(v) == 7 && p <= q
            <= b.len() && encode(v, big) == b.subrange(p, q),
{
    if let Ok((v, q)) = parse_array(7, b, p, big) {
        let n = u32_at(b, p, big) as int;
        lemma_u32_bytes_at(b, p, big);
        assert(b.subrange(p, q) =~= b.subrange(p, p + 4) + b.subrange(p + 4, q));
        let s = Seq::new(n as nat, |i: int| i8_of(b[p + 4 + i]));
        assert forall|i: int| 0 <= i < n implies enc_i8s(s)[i] == b[p + 4 + i] by {
            lemma_twos_complement_inverse(b[p + 4 + i], 0, 0, 0);
        }
        assert(enc_i8s(s) =~= b.subrange(p + 4, q));
    }
}

/// An IntArray payload that the reader accepts is written back as the bytes
/// it was read from.
proof fn lemma_int_array_canonical(b: Seq<u8>, p: int, big: bool)
    requires
        0 <= p <= b.len(),
    ensures
        parse_array(11, b, p, big) matches Ok((v, q)) ==> wf(v) && nbt_tag(v) == 11 && p <= q
            <= b.len() && encode(v, big) == b.subrange(p, q),
{
    if let Ok((v, q)) = parse_array(11, b, p, big) {
        let n = u32_at(b, p, big) as int;
        lemma_u32_bytes_at(b, p, big);
        assert(b.subrange(p, q) =~= b.subrange(p, p + 4) + b.subrange(p + 4, q));
        let s = Seq::new(n as nat, |i: int| i32_of(u32_at(b, p + 4 + 4 * i, big)));
        assert forall|k: int| 0 <= k < 4 * n implies enc_i32s(s, big)[k] == b[p + 4 + k] by {
            let i = k / 4;
            let j = k % 4;
            assert(k == 4 * i + j);
            lemma_twos_complement_inverse(0, 0, u32_at(b, p + 4 + 4 * i, big), 0);
            lemma_u32_bytes_at(b, p + 4 + 4 * i, big);
            assert(b.subrange(p + 4 + 4 * i, p + 4 + 4 * i + 4)[j] == b[p + 4 + 4 * i + j]);
        }
        assert(enc_i32s(s, big) =~= b.subrange(p + 4, q));
    }
}

/// A LongArray payload that the reader accepts is written back as the bytes
/// it was read from.
proof fn lemma_long_array_canonical(b: Seq<u8>, p: int, big: bool)
    requires
        0 <= p <= b.len(),
    ensures
        parse_array(12, b, p, big) matches Ok((v, q)) ==> wf(v) && nbt_tag(v) == 12 && p <= q
            <= b.len() && encode(v, big) == b.subrange(p, q),
{
    if let Ok((v, q)) = parse_array(12, b, p, big) {
        let n = u32_at(b, p, big) as int;
        lemma_u32_bytes_at(b, p, big);
        assert(b.subrange(p, q) =~= b.subrange(p, p + 4) + b.subrange(p + 4, q));
        let s = Seq::new(n as nat, |i: int| i64_of(u64_at(b, p + 4 + 8 * i, big)));
        assert forall|k: int| 0 <= k < 8 * n implies enc_i64s(s, big)[k] == b[p + 4 + k] by {
            let i = k / 8;
            let j = k % 8;
            assert(k == 8 * i + j);
            lemma_twos_complement_inverse(0, 0, 0, u64_at(b, p + 4 + 8 * i, big));
            lemma_u64_bytes_of(b.subrange(p + 4 + 8 * i, p + 4 + 8 * i + 8), big);
            assert(b.subrange(p + 4 + 8 * i, p + 4 + 8 * i + 8)[j] == b[p + 4 + 8 * i + j]);
        }
        assert(enc_i64s(s, big) =~= b.subrange(p + 4, q));
    }
}

/// Every value that the reader accepts is one that the format can hold, of
/// the tag it was read as, and writing it back in the same byte order gives
/// exactly the bytes it was read from.
#[verifier::spinoff_prover]
#[verifier::rlimit(60)]
pub proof fn lemma_encode_parse(t: u8, b: Seq<u8>, p: int, big: bool, eager: bool)
    requires
        0 <= p <= b.len(),
    ensures
        parse_payload(t, b, p, big, eager) matches Ok((v, q)) ==> wf(v) && nbt_tag(v) == t && p
            <= q <= b.len() && encode(v, big) == b.subrange(p, q),
    decreases b.len() - p, 1int, 0int,
{
    if 1 <= t <= 6 {
        if p + fixed_width(t) <= b.len() {
            lemma_prim_canonical(t, b, p, big);
        }
    } else if t == 7 {
        lemma_byte_array_canonical(b, p, big);
    } else if t == 8 {
        lemma_string_canonical(b, p, big);
    } else if t == 11 {
        lemma_int_array_canonical(b, p, big);
    } else if t == 12 {
        lemma_long_array_canonical(b, p, big);
    } else if t == 9 {
        lemma_list_canonical(b, p, big, eager);
    } else if t == 10 {
        lemma_entries_canonical(b, p, big, eager);
    } else if t == 0 {
        assert(b.subrange(p, p) =~= Seq::<u8>::empty());
    }
}

/// A list of primitive elements that the reader accepts is written back as
/// the bytes it was read from.
proof fn lemma_prim_list_canonical(et: u8, n: nat, b: Seq<u8>, p: int, big: bool)
    requires
        et <= 6,
        0 <= p,
        p + 5 + prim_block(et, n as int) <= b.len(),
        b[p] == et,
        u32_at(b, p + 1, big) == n,
    ensures
        wf(Nbt::List(et, Seq::new(n, |i: int| parse_prim(et, b, p + 5 + prim_block(et, i), big)))),
        encode(
            Nbt::List(et, Seq::new(n, |i: int| parse_prim(et, b, p + 5 + prim_block(et, i), big))),
            big,
        ) == b.subrange(p, p + 5 + prim_block(et, n as int)),
{
    let r = p + 5;
    let s = Seq::new(n, |i: int| parse_prim(et, b, r + prim_block(et, i), big));
    lemma_u32_bytes_at(b, p + 1, big);
    lemma_prim_block_canonical(et, n, b, r, big);
    assert forall|i: int| 0 <= i < s.len() implies nbt_tag(#[trigger] s[i]) == et && wf(s[i]) by {
        assert(prim_block(et, i) + fixed_width(et) <= prim_block(et, n as int)) by {
            assert(i + 1 <= n);
        }
        lemma_prim_canonical(et, b, r + prim_block(et, i), big);
    }
    let q = r + prim_block(et, n as int);
    assert(b.subrange(p, q) =~= seq![et] + b.subrange(p + 1, p + 5) + b.subrange(r, q));
}

/// A list of non-primitive elements that the reader accepts is written back
/// as the bytes it was read from.
proof fn lemma_other_list_canonical(et: u8, n: nat, b: Seq<u8>, p: int, big: bool, eager: bool)
    requires
        7 <= et <= 12,
        0 <= p,
        p + 5 <= b.len(),
        b[p] == et,
        u32_at(b, p + 1, big) == n,
    ensures
        parse_items(et, n, b, p + 5, big, eager) matches Ok((vs, r)) ==> wf(Nbt::List(et, vs))
            && p + 5 <= r <= b.len() && encode(Nbt::List(et, vs), big) == b.subrange(p, r),
    decreases b.len() - p, 0int, 0int,
{
    lemma_u32_bytes_at(b, p + 1, big);
    lemma_items_canonical(et, n, b, p + 5, big, eager);
    if let Ok((vs, r)) = parse_items(et, n, b, p + 5, big, eager) {
        assert(b.subrange(p, r) =~= seq![et] + b.subrange(p + 1, p + 5) + b.subrange(p + 5, r));
    }
}

/// A list payload that the reader accepts is written back as the bytes it
/// was read from.
proof fn lemma_list_canonical(b: Seq<u8>, p: int, big: bool, eager: bool)
    requires
        0 <= p <= b.len(),
    ensures
        parse_list(b, p, big, eager) matches Ok((v, q)) ==> wf(v) && nbt_tag(v) == 9 && p <= q
            <= b.len() && encode(v, big) == b.subrange(p, q),
    decreases b.len() - p, 0int, 1int,
{
    if p + 5 <= b.len() {
        let et = b[p];
        let n = u32_at(b, p + 1, big) as nat;
        if et <= 6 {
            if p + 5 + prim_block(et, n as int) <= b.len() {
                lemma_prim_list_canonical(et, n, b, p, big);
            }
        } else if et <= 12 {
            lemma_other_list_canonical(et, n, b, p, big, eager);
        }
    }
}

/// The elements that the reader accepts are written back as the bytes they
/// were read from.
#[verifier::rlimit(40)]
proof fn lemma_items_canonical(t: u8, n: nat, b: Seq<u8>, q: int, big: bool, eager: bool)
    requires
        0 <= q <= b.len(),
    ensures
        parse_items(t, n, b, q, big, eager) matches Ok((vs, r)) ==> vs.len() == n && q <= r
            <= b.len() && encode_items(vs, big) == b.subrange(q, r) && forall|i: int|
            0 <= i < vs.len() ==> nbt_tag(#[trigger] vs[i]) == t && wf(vs[i]),
    decreases b.len() - q, 2int, n,
{
    if n > 0 {
        lemma_encode_parse(t, b, q, big, eager);
        if let Ok((v, q2)) = parse_payload(t, b, q, big, eager) {
            if q <= q2 <= b.len() {
                lemma_items_canonical(t, (n - 1) as nat, b, q2, big, eager);
                if let Ok((vs, r)) = parse_items(t, (n - 1) as nat, b, q2, big, eager) {
                    let all = seq![v] + vs;
                    lemma_encode_items_cons(all, big);
                    assert(all.subrange(1, all.len() as int) =~= vs);
                    assert(b.subrange(q, r) =~= b.subrange(q, q2) + b.subrange(q2, r));
                    assert forall|i: int| 0 <= i < all.len() implies nbt_tag(#[trigger] all[i])
                        == t && wf(all[i]) by {
                        if i > 0 {
                            assert(all[i] == vs[i - 1]);
                        }
                    }
                }
            }
        }
    } else {
        assert(b.subrange(q, q) =~= Seq::<u8>::empty());
    }
}

/// The entries of a compound that the reader accepts, and its closing End,
/// are written back as the bytes they were read from.
proof fn lemma_entries_canonical(b: Seq<u8>, q: int, big: bool, eager: bool)
    requires
        0 <= q <= b.len(),
    ensures
        parse_payload(10, b, q, big, eager) matches Ok((v, z)) ==> wf(v) && nbt_tag(v) == 10 && q
            <= z <= b.len() && encode(v, big) == b.subrange(q, z),
    decreases b.len() - q, 0int, 1int,
{
    lemma_entries_run_canonical(b, q, big, eager);
}

/// A run of entries (with its closing End) that the reader accepts is
/// written back as the bytes it was read from.
#[verifier::rlimit(60)]
proof fn lemma_entries_run_canonical(b: Seq<u8>, q: int, big: bool, eager: bool)
    requires
        0 <= q <= b.len(),
    ensures
        parse_entries(b, q, big, eager) matches Ok((es, z)) ==> q < z <= b.len()
            && encode_entries(es, big) + seq![0u8] == b.subrange(q, z) && forall|i: int|
            0 <= i < es.len() ==> {
                &&& (#[trigger] es[i]).0.len() <= u16::MAX
                &&& nbt_tag(es[i].1) != 0
                &&& wf(es[i].1)
            },
    decreases b.len() - q, 0int, 0int,
{
    if let Ok((es, z)) = parse_entries(b, q, big, eager) {
        if b[q] == 0 {
            assert(b.subrange(q, z) =~= seq![0u8]);
            assert(encode_entries(es, big) + seq![0u8] =~= seq![0u8]);
        } else {
            let t = b[q];
            let r = q + 3 + u16_at(b, q + 1, big);
            lemma_encode_parse(t, b, r, big, eager);
            let (v, q2) = parse_payload(t, b, r, big, eager)->Ok_0;
            lemma_entries_run_canonical(b, q2, big, eager);
            let (rest, z2) = parse_entries(b, q2, big, eager)->Ok_0;
            let name = b.subrange(q + 3, r);
            lemma_u16_bytes_at(b, q + 1, big);
            assert(es == seq![(name, v)] + rest);
            lemma_encode_entries_cons_local(es, big);
            assert(es.subrange(1, es.len() as int) =~= rest);
            lemma_entry_bytes(b, q, r, q2, z, t, encode(v, big), encode_entries(rest, big) + seq![0u8], big);
            assert forall|i: int|
                0 <= i < es.len() implies {
                    &&& (#[trigger] es[i]).0.len() <= u16::MAX
                    &&& nbt_tag(es[i].1) != 0
                    &&& wf(es[i].1)
                } by {
                if i > 0 {
                    assert(es[i] == rest[i - 1]);
                }
            }
        }
    }
}

proof fn lemma_entry_bytes(
    b: Seq<u8>,
    q: int,
    r: int,
    q2: int,
    z: int,
    t: u8,
    ev: Seq<u8>,
    rest: Seq<u8>,
    big: bool,
)
    requires
        0 <= q,
        q + 3 <= r <= q2 <= z <= b.len(),
        b[q] == t,
        u16_bytes((r - q - 3) as u16, big) == b.subrange(q + 1, q + 3),
        ev == b.subrange(r, q2),
        rest == b.subrange(q2, z),
    ensures
        (seq![t] + u16_bytes((r - q - 3) as u16, big) + b.subrange(q + 3, r) + ev) + rest
            == b.subrange(q, z),
{
    assert((seq![t] + u16_bytes((r - q - 3) as u16, big) + b.subrange(q + 3, r) + ev) + rest
        =~= b.subrange(q, z));
}

proof fn lemma_encode_entries_cons_local(s: Seq<(Seq<u8>, Nbt)>, big: bool)
    requires
        s.len() > 0,
    ensures
        encode_entries(s, big) == (seq![nbt_tag(s[0].1)] + u16_bytes(s[0].0.len() as u16, big)
            + s[0].0 + encode(s[0].1, big)) + encode_entries(s.subrange(1, s.len() as int), big),
{
    crate::roundtrip::lemma_encode_entries_cons(s, big);
}

/// The lazy and the eager reader accept the same payloads and read the
/// same values from them; they differ only in which error they report for
/// a payload they refuse.
pub proof fn lemma_readers_agree(t: u8, b: Seq<u8>, p: int, big: bool, eager: bool)
    requires
        0 <= p <= b.len(),
        parse_payload(t, b, p, big, eager) is Ok,
    ensures
        parse_payload(t, b, p, big, !eager) == parse_payload(t, b, p, big, eager),
{
    lemma_encode_parse(t, b, p, big, eager);
    let (v, q) = parse_payload(t, b, p, big, eager)->Ok_0;
    assert(holds_at(b, p, encode(v, big)));
    lemma_parse_encode(v, b, p, big, !eager);
}

} // verus!
