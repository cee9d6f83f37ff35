//! The reader gives back what the writer wrote.
use vstd::prelude::*;

use crate::byte_order::{
    lemma_twos_complement_roundtrip, lemma_u16_roundtrip, lemma_u32_roundtrip,
    lemma_u64_roundtrip, u16_at, u16_bytes, u32_at, u32_bytes, u32_of_i32, u64_at, u64_bytes,
    u64_of_i64,
};
use crate::model::{
    Nbt, enc_i32s, enc_i64s, enc_i8s, encode, encode_entries, encode_items, min_block, nbt_tag,
    parse_entries, parse_items, parse_payload, parse_prim, prim_block, wf,
};
use crate::tag::fixed_width;

verus! {

/// `b` holds `e` from `p` on.
pub open spec fn holds_at(b: Seq<u8>, p: int, e: Seq<u8>) -> bool {
    0 <= p && p + e.len() <= b.len() && b.subrange(p, p + e.len()) == e
}

pub(crate) proof fn lemma_holds_split(b: Seq<u8>, p: int, x: Seq<u8>, y: Seq<u8>)
    requires
        holds_at(b, p, x + y),
    ensures
        holds_at(b, p, x),
        holds_at(b, p + x.len(), y),
{
    assert(b.subrange(p, p + x.len()) =~= (x + y).subrange(0, x.len() as int));
    assert((x + y).subrange(0, x.len() as int) =~= x);
    assert(b.subrange(p + x.len(), p + x.len() + y.len()) =~= (x + y).subrange(
        x.len() as int,
        (x.len() + y.len()) as int,
    ));
    assert((x + y).subrange(x.len() as int, (x.len() + y.len()) as int) =~= y);
}

pub(crate) proof fn lemma_holds_index(b: Seq<u8>, p: int, e: Seq<u8>, k: int)
    requires
        holds_at(b, p, e),
        0 <= k < e.len(),
    ensures
        b[p + k] == e[k],
{
    assert(b.subrange(p, p + e.len())[k] == b[p + k]);
}

/// A primitive value's payload has the fixed width of its tag.
pub proof fn lemma_prim_len(v: Nbt, big: bool)
    requires
        nbt_tag(v) <= 6,
    ensures
        encode(v, big).len() == fixed_width(nbt_tag(v)),
{
}

/// The primitive value whose payload stands at `p` is read back.
proof fn lemma_prim_roundtrip(v: Nbt, b: Seq<u8>, p: int, big: bool)
    requires
        1 <= nbt_tag(v) <= 6,
        holds_at(b, p, encode(v, big)),
    ensures
        parse_prim(nbt_tag(v), b, p, big) == v,
{
    let e = encode(v, big);
    match v {
        Nbt::Byte(x) => {
            lemma_holds_index(b, p, e, 0);
            lemma_twos_complement_roundtrip(x, 0, 0, 0);
        },
        Nbt::Short(x) => {
            lemma_holds_index(b, p, e, 0);
            lemma_holds_index(b, p, e, 1);
            lemma_u16_roundtrip(crate::byte_order::u16_of_i16(x), big);
            lemma_twos_complement_roundtrip(0, x, 0, 0);
        },
        Nbt::Int(x) => {
            lemma_holds_index(b, p, e, 0);
            lemma_holds_index(b, p, e, 1);
            lemma_holds_index(b, p, e, 2);
            lemma_holds_index(b, p, e, 3);
            lemma_u32_roundtrip(u32_of_i32(x), big);
            lemma_twos_complement_roundtrip(0, 0, x, 0);
        },
        Nbt::Long(x) => {
            lemma_u64_roundtrip(u64_of_i64(x), big);
            lemma_twos_complement_roundtrip(0, 0, 0, x);
        },
        Nbt::Float(x) => {
            lemma_holds_index(b, p, e, 0);
            lemma_holds_index(b, p, e, 1);
            lemma_holds_index(b, p, e, 2);
            lemma_holds_index(b, p, e, 3);
            lemma_u32_roundtrip(x, big);
        },
        Nbt::Double(x) => {
            lemma_u64_roundtrip(x, big);
        },
        _ => {},
    }
}

pub(crate) proof fn lemma_u32_read_back(x: u32, b: Seq<u8>, p: int, big: bool)
    requires
        holds_at(b, p, u32_bytes(x, big)),
    ensures
        u32_at(b, p, big) == x,
{
    let e = u32_bytes(x, big);
    lemma_holds_index(b, p, e, 0);
    lemma_holds_index(b, p, e, 1);
    lemma_holds_index(b, p, e, 2);
    lemma_holds_index(b, p, e, 3);
    lemma_u32_roundtrip(x, big);
}

pub(crate) proof fn lemma_u16_read_back(x: u16, b: Seq<u8>, p: int, big: bool)
    requires
        holds_at(b, p, u16_bytes(x, big)),
    ensures
        u16_at(b, p, big) == x,
{
    let e = u16_bytes(x, big);
    lemma_holds_index(b, p, e, 0);
    lemma_holds_index(b, p, e, 1);
    lemma_u16_roundtrip(x, big);
}

proof fn lemma_byte_array_roundtrip(v: Nbt, b: Seq<u8>, p: int, big: bool, eager: bool)
    requires
        nbt_tag(v) == 7,
        wf(v),
        holds_at(b, p, encode(v, big)),
    ensures
        parse_payload(7, b, p, big, eager) == Ok::<(Nbt, int), crate::error::Error>(
            (v, p + encode(v, big).len()),
        ),
{
    match v {
        Nbt::ByteArray(s) => {
            let h = u32_bytes(s.len() as u32, big);
            lemma_holds_split(b, p, h, enc_i8s(s));
            lemma_u32_read_back(s.len() as u32, b, p, big);
            let n = s.len();
            assert forall|i: int| 0 <= i < n implies crate::byte_order::i8_of(b[p + 4 + i])
                == s[i] by {
                lemma_holds_index(b, p + 4, enc_i8s(s), i);
                lemma_twos_complement_roundtrip(s[i], 0, 0, 0);
            }
            assert(Seq::new(n, |i: int| crate::byte_order::i8_of(b[p + 4 + i])) =~= s);
        },
        _ => {},
    }
}

proof fn lemma_string_roundtrip(v: Nbt, b: Seq<u8>, p: int, big: bool, eager: bool)
    requires
        nbt_tag(v) == 8,
        wf(v),
        holds_at(b, p, encode(v, big)),
    ensures
        parse_payload(8, b, p, big, eager) == Ok::<(Nbt, int), crate::error::Error>(
            (v, p + encode(v, big).len()),
        ),
{
    match v {
        Nbt::String(s) => {
            let h = u16_bytes(s.len() as u16, big);
            lemma_holds_split(b, p, h, s);
            lemma_u16_read_back(s.len() as u16, b, p, big);
        },
        _ => {},
    }
}

proof fn lemma_int_array_roundtrip(v: Nbt, b: Seq<u8>, p: int, big: bool, eager: bool)
    requires
        nbt_tag(v) == 11,
        wf(v),
        holds_at(b, p, encode(v, big)),
    ensures
        parse_payload(11, b, p, big, eager) == Ok::<(Nbt, int), crate::error::Error>(
            (v, p + encode(v, big).len()),
        ),
{
    match v {
        Nbt::IntArray(s) => {
            let h = u32_bytes(s.len() as u32, big);
            let e = enc_i32s(s, big);
            lemma_holds_split(b, p, h, e);
            lemma_u32_read_back(s.len() as u32, b, p, big);
            let n = s.len();
            assert forall|i: int| 0 <= i < n implies crate::byte_order::i32_of(
                u32_at(b, p + 4 + 4 * i, big),
            ) == s[i] by {
                let x = u32_of_i32(s[i]);
                let xb = u32_bytes(x, big);
                assert forall|j: int| 0 <= j < 4 implies b[p + 4 + 4 * i + j] == xb[j] by {
                    lemma_holds_index(b, p + 4, e, 4 * i + j);
                    assert((4 * i + j) / 4 == i);
                    assert((4 * i + j) % 4 == j);
                }
                assert(b[p + 4 + 4 * i + 0] == xb[0]);
                assert(b[p + 4 + 4 * i + 1] == xb[1]);
                assert(b[p + 4 + 4 * i + 2] == xb[2]);
                assert(b[p + 4 + 4 * i + 3] == xb[3]);
                lemma_u32_roundtrip(x, big);
                lemma_twos_complement_roundtrip(0, 0, s[i], 0);
            }
            assert(Seq::new(n, |i: int| crate::byte_order::i32_of(u32_at(b, p + 4 + 4 * i, big)))
                =~= s);
        },
        _ => {},
    }
}

proof fn lemma_long_array_roundtrip(v: Nbt, b: Seq<u8>, p: int, big: bool, eager: bool)
    requires
        nbt_tag(v) == 12,
        wf(v),
        holds_at(b, p, encode(v, big)),
    ensures
        parse_payload(12, b, p, big, eager) == Ok::<(Nbt, int), crate::error::Error>(
            (v, p + encode(v, big).len()),
        ),
{
    match v {
        Nbt::LongArray(s) => {
            let h = u32_bytes(s.len() as u32, big);
            let e = enc_i64s(s, big);
            lemma_holds_split(b, p, h, e);
            lemma_u32_read_back(s.len() as u32, b, p, big);
            let n = s.len();
            assert forall|i: int| 0 <= i < n implies crate::byte_order::i64_of(
                u64_at(b, p + 4 + 8 * i, big),
            ) == s[i] by {
                let x = u64_of_i64(s[i]);
                let xb = u64_bytes(x, big);
                assert forall|j: int| 0 <= j < 8 implies b[p + 4 + 8 * i + j] == xb[j] by {
                    lemma_holds_index(b, p + 4, e, 8 * i + j);
                    assert((8 * i + j) / 8 == i);
                    assert((8 * i + j) % 8 == j);
                }
                lemma_u64_roundtrip(x, big);
                assert(b.subrange(p + 4 + 8 * i, p + 4 + 8 * i + 8) =~= xb);
                lemma_twos_complement_roundtrip(0, 0, 0, s[i]);
            }
            assert(Seq::new(n, |i: int| crate::byte_order::i64_of(u64_at(b, p + 4 + 8 * i, big)))
                =~= s);
        },
        _ => {},
    }
}

// ---------------------------------------------------------------------------
// Runs of list elements and of compound entries.
// ---------------------------------------------------------------------------

/// The payloads of a run are those of its first element followed by those
/// of the rest.
pub proof fn lemma_encode_items_cons(s: Seq<Nbt>, big: bool)
    requires
        s.len() > 0,
    ensures
        encode_items(s, big) == encode(s[0], big) + encode_items(s.subrange(1, s.len() as int), big),
    decreases s.len(),
{
    let n = s.len() as int;
    if n == 1 {
        assert(s.subrange(0, 0) =~= Seq::<Nbt>::empty());
        assert(s.subrange(1, 1) =~= Seq::<Nbt>::empty());
        assert(encode_items(s, big) =~= encode(s[0], big) + encode_items(s.subrange(1, n), big));
    } else {
        let init = s.subrange(0, n - 1);
        lemma_encode_items_cons(init, big);
        assert(init[0] == s[0]);
        assert(init.subrange(1, n - 1) =~= s.subrange(1, n - 1));
        let rest = s.subrange(1, n);
        assert(rest.subrange(0, n - 2) =~= s.subrange(1, n - 1));
        assert(rest[n - 2] == s[n - 1]);
        assert(encode_items(rest, big) == encode_items(s.subrange(1, n - 1), big) + encode(
            s[n - 1],
            big,
        ));
        assert(encode_items(s, big) =~= encode(s[0], big) + encode_items(rest, big));
    }
}

/// The bytes of a run of entries are those of its first entry followed by
/// those of the rest.
pub proof fn lemma_encode_entries_cons(s: Seq<(Seq<u8>, Nbt)>, big: bool)
    requires
        s.len() > 0,
    ensures
        encode_entries(s, big) == (seq![nbt_tag(s[0].1)] + u16_bytes(s[0].0.len() as u16, big)
            + s[0].0 + encode(s[0].1, big)) + encode_entries(s.subrange(1, s.len() as int), big),
    decreases s.len(),
{
    let n = s.len() as int;
    if n == 1 {
        assert(s.subrange(0, 0) =~= Seq::<(Seq<u8>, Nbt)>::empty());
        assert(s.subrange(1, 1) =~= Seq::<(Seq<u8>, Nbt)>::empty());
        assert(encode_entries(s, big) =~= (seq![nbt_tag(s[0].1)] + u16_bytes(
            s[0].0.len() as u16,
            big,
        ) + s[0].0 + encode(s[0].1, big)) + encode_entries(s.subrange(1, n), big));
    } else {
        let init = s.subrange(0, n - 1);
        lemma_encode_entries_cons(init, big);
        assert(init[0] == s[0]);
        assert(init.subrange(1, n - 1) =~= s.subrange(1, n - 1));
        let rest = s.subrange(1, n);
        assert(rest.subrange(0, n - 2) =~= s.subrange(1, n - 1));
        assert(rest[n - 2] == s[n - 1]);
        assert(encode_entries(s, big) =~= (seq![nbt_tag(s[0].1)] + u16_bytes(
            s[0].0.len() as u16,
            big,
        ) + s[0].0 + encode(s[0].1, big)) + encode_entries(rest, big));
    }
}

/// The payloads of a run of primitive elements of tag `t` take
/// `prim_block(t, n)` bytes, element `i` at offset `prim_block(t, i)`.
pub(crate) proof fn lemma_prim_items_layout(t: u8, s: Seq<Nbt>, big: bool)
    requires
        t <= 6,
        forall|i: int| 0 <= i < s.len() ==> nbt_tag(#[trigger] s[i]) == t,
    ensures
        encode_items(s, big).len() == prim_block(t, s.len() as int),
        forall|i: int|
            0 <= i < s.len() ==> encode_items(s, big).subrange(
                prim_block(t, i),
                prim_block(t, i) + fixed_width(t),
            ) == encode(#[trigger] s[i], big),
    decreases s.len(),
{
    let n = s.len() as int;
    if n > 0 {
        let init = s.subrange(0, n - 1);
        assert forall|i: int| 0 <= i < init.len() implies nbt_tag(#[trigger] init[i]) == t by {
            assert(init[i] == s[i]);
        }
        lemma_prim_items_layout(t, init, big);
        lemma_prim_len(s[n - 1], big);
        let e = encode_items(s, big);
        let ei = encode_items(init, big);
        assert(e == ei + encode(s[n - 1], big));
        assert forall|i: int| 0 <= i < s.len() implies e.subrange(
            prim_block(t, i),
            prim_block(t, i) + fixed_width(t),
        ) == encode(#[trigger] s[i], big) by {
            lemma_prim_len(s[i], big);
            if i < n - 1 {
                assert(init[i] == s[i]);
                assert(e.subrange(prim_block(t, i), prim_block(t, i) + fixed_width(t)) =~= ei.subrange(
                    prim_block(t, i),
                    prim_block(t, i) + fixed_width(t),
                ));
            } else {
                assert(e.subrange(prim_block(t, i), prim_block(t, i) + fixed_width(t)) =~= encode(
                    s[n - 1],
                    big,
                ));
            }
        }
    }
}

/// A non-primitive payload of tag `t` takes at least `min_block(t, 1)` bytes.
proof fn lemma_encode_min_len(v: Nbt, big: bool)
    requires
        7 <= nbt_tag(v) <= 12,
    ensures
        encode(v, big).len() >= min_block(nbt_tag(v), 1),
{
}

/// A run of `n` non-primitive elements of tag `t` takes at least
/// `min_block(t, n)` bytes.
proof fn lemma_items_min_len(t: u8, s: Seq<Nbt>, big: bool)
    requires
        7 <= t <= 12,
        forall|i: int| 0 <= i < s.len() ==> nbt_tag(#[trigger] s[i]) == t,
    ensures
        encode_items(s, big).len() >= min_block(t, s.len() as int),
        encode_items(s, big).len() >= s.len(),
    decreases s.len(),
{
    let n = s.len() as int;
    if n > 0 {
        let init = s.subrange(0, n - 1);
        assert forall|i: int| 0 <= i < init.len() implies nbt_tag(#[trigger] init[i]) == t by {
            assert(init[i] == s[i]);
        }
        lemma_items_min_len(t, init, big);
        lemma_encode_min_len(s[n - 1], big);
    }
}

// ---------------------------------------------------------------------------
// The round trip.
// ---------------------------------------------------------------------------

/// The elements of a list of non-primitive tag `t` are read back.
proof fn lemma_parse_items_encode(t: u8, s: Seq<Nbt>, b: Seq<u8>, q: int, big: bool, eager: bool)
    requires
        7 <= t <= 12,
        forall|i: int| 0 <= i < s.len() ==> nbt_tag(#[trigger] s[i]) == t && wf(s[i]),
        holds_at(b, q, encode_items(s, big)),
    ensures
        parse_items(t, s.len(), b, q, big, eager) == Ok::<(Seq<Nbt>, int), crate::error::Error>(
            (s, q + encode_items(s, big).len()),
        ),
    decreases s, 0int,
{
    if s.len() > 0 {
        let rest = s.subrange(1, s.len() as int);
        lemma_encode_items_cons(s, big);
        lemma_holds_split(b, q, encode(s[0], big), encode_items(rest, big));
        assert(nbt_tag(s[0]) == t && wf(s[0]));
        lemma_parse_encode(s[0], b, q, big, eager);
        let q2 = q + encode(s[0], big).len();
        assert forall|i: int| 0 <= i < rest.len() implies nbt_tag(#[trigger] rest[i]) == t && wf(
            rest[i],
        ) by {
            assert(rest[i] == s[i + 1]);
        }
        lemma_parse_items_encode(t, rest, b, q2, big, eager);
        assert(seq![s[0]] + rest =~= s);
    } else {
        assert(s =~= Seq::<Nbt>::empty());
    }
}

/// The entries of a compound (and its closing End) are read back.
#[verifier::rlimit(40)]
proof fn lemma_parse_entries_encode(es: Seq<(Seq<u8>, Nbt)>, b: Seq<u8>, q: int, big: bool, eager: bool)
    requires
        forall|i: int|
            0 <= i < es.len() ==> {
                &&& (#[trigger] es[i]).0.len() <= u16::MAX
                &&& nbt_tag(es[i].1) != 0
                &&& wf(es[i].1)
            },
        holds_at(b, q, encode_entries(es, big) + seq![0u8]),
    ensures
        parse_entries(b, q, big, eager) == Ok::<(Seq<(Seq<u8>, Nbt)>, int), crate::error::Error>(
            (es, q + encode_entries(es, big).len() + 1),
        ),
    decreases es, 0int,
{
    if es.len() == 0 {
        assert(encode_entries(es, big) + seq![0u8] =~= seq![0u8]);
        lemma_holds_index(b, q, seq![0u8], 0);
        assert(es =~= Seq::<(Seq<u8>, Nbt)>::empty());
    } else {
        let rest = es.subrange(1, es.len() as int);
        let name = es[0].0;
        let v = es[0].1;
        lemma_encode_entries_cons(es, big);
        let hd = seq![nbt_tag(v)] + u16_bytes(name.len() as u16, big);
        let tail = encode_entries(rest, big) + seq![0u8];
        assert(encode_entries(es, big) + seq![0u8] =~= hd + name + encode(v, big) + tail);
        lemma_holds_split(b, q, hd + name + encode(v, big), tail);
        lemma_holds_split(b, q, hd + name, encode(v, big));
        lemma_holds_split(b, q, hd, name);
        lemma_holds_split(b, q, seq![nbt_tag(v)], u16_bytes(name.len() as u16, big));
        lemma_holds_index(b, q, seq![nbt_tag(v)], 0);
        lemma_u16_read_back(name.len() as u16, b, q + 1, big);
        let r = q + 3 + name.len();
        lemma_parse_encode(v, b, r, big, eager);
        let q2 = r + encode(v, big).len();
        assert forall|i: int|
            0 <= i < rest.len() implies {
                &&& (#[trigger] rest[i]).0.len() <= u16::MAX
                &&& nbt_tag(rest[i].1) != 0
                &&& wf(rest[i].1)
            } by {
            assert(rest[i] == es[i + 1]);
        }
        lemma_parse_entries_encode(rest, b, q2, big, eager);
        assert(b.subrange(q + 3, r) == name);
        assert(seq![(name, v)] + rest =~= es);
    }
}

/// Reading the payload that the writer produced for a value that the format
/// can hold gives back that value, and stops right after the payload;
/// whatever follows it in `b` plays no part.
#[verifier::spinoff_prover]
#[verifier::rlimit(60)]
pub proof fn lemma_parse_encode(v: Nbt, b: Seq<u8>, p: int, big: bool, eager: bool)
    requires
        wf(v),
        holds_at(b, p, encode(v, big)),
    ensures
        parse_payload(nbt_tag(v), b, p, big, eager) == Ok::<(Nbt, int), crate::error::Error>(
            (v, p + encode(v, big).len()),
        ),
    decreases v, 1int,
{
    match v {
        Nbt::End => {},
        Nbt::Byte(_) => {
            lemma_prim_roundtrip(v, b, p, big);
        },
        Nbt::Short(_) => {
            lemma_prim_roundtrip(v, b, p, big);
        },
        Nbt::Int(_) => {
            lemma_prim_roundtrip(v, b, p, big);
        },
        Nbt::Long(_) => {
            lemma_prim_roundtrip(v, b, p, big);
        },
        Nbt::Float(_) => {
            lemma_prim_roundtrip(v, b, p, big);
        },
        Nbt::Double(_) => {
            lemma_prim_roundtrip(v, b, p, big);
        },
        Nbt::ByteArray(_) => {
            lemma_byte_array_roundtrip(v, b, p, big, eager);
        },
        Nbt::String(_) => {
            lemma_string_roundtrip(v, b, p, big, eager);
        },
        Nbt::IntArray(_) => {
            lemma_int_array_roundtrip(v, b, p, big, eager);
        },
        Nbt::LongArray(_) => {
            lemma_long_array_roundtrip(v, b, p, big, eager);
        },
        Nbt::List(t, s) => {
            lemma_parse_list_encode(t, s, b, p, big, eager);
        },
        Nbt::Compound(es) => {
            lemma_parse_compound_encode(es, b, p, big, eager);
        },
    }
}

/// A compound payload is read back.
proof fn lemma_parse_compound_encode(
    es: Seq<(Seq<u8>, Nbt)>,
    b: Seq<u8>,
    p: int,
    big: bool,
    eager: bool,
)
    requires
        wf(Nbt::Compound(es)),
        holds_at(b, p, encode(Nbt::Compound(es), big)),
    ensures
        parse_payload(10, b, p, big, eager) == Ok::<(Nbt, int), crate::error::Error>(
            (Nbt::Compound(es), p + encode(Nbt::Compound(es), big).len()),
        ),
    decreases es, 1int,
{
    assert(encode(Nbt::Compound(es), big) == encode_entries(es, big) + seq![0u8]);
    lemma_parse_entries_encode(es, b, p, big, eager);
}

/// A list payload is read back.
proof fn lemma_parse_list_encode(t: u8, s: Seq<Nbt>, b: Seq<u8>, p: int, big: bool, eager: bool)
    requires
        wf(Nbt::List(t, s)),
        holds_at(b, p, encode(Nbt::List(t, s), big)),
    ensures
        parse_payload(9, b, p, big, eager) == Ok::<(Nbt, int), crate::error::Error>(
            (Nbt::List(t, s), p + encode(Nbt::List(t, s), big).len()),
        ),
    decreases s, 1int,
{
    let n = s.len() as int;
    let h = seq![t] + u32_bytes(n as u32, big);
    let items = encode_items(s, big);
    assert(encode(Nbt::List(t, s), big) == h + items);
    lemma_holds_split(b, p, h, items);
    lemma_holds_split(b, p, seq![t], u32_bytes(n as u32, big));
    lemma_holds_index(b, p, seq![t], 0);
    lemma_u32_read_back(n as u32, b, p + 1, big);
    let q = p + 5;
    assert(b[p] == t);
    assert(u32_at(b, p + 1, big) as int == n);
    if t <= 6 {
        lemma_prim_items_layout(t, s, big);
        assert forall|i: int| 0 <= i < n implies parse_prim(t, b, q + prim_block(t, i), big)
            == s[i] by {
            let e = encode(s[i], big);
            lemma_prim_len(s[i], big);
            assert(items.subrange(prim_block(t, i), prim_block(t, i) + fixed_width(t)) == e);
            assert(prim_block(t, i) + fixed_width(t) <= prim_block(t, n)) by {
                assert(i + 1 <= n);
            }
            assert(b.subrange(q + prim_block(t, i), q + prim_block(t, i) + e.len()) =~= items.subrange(
                prim_block(t, i),
                prim_block(t, i) + fixed_width(t),
            ));
            if t == 0 {
                assert(nbt_tag(s[i]) == 0);
            } else {
                lemma_prim_roundtrip(s[i], b, q + prim_block(t, i), big);
            }
        }
        assert(Seq::new(n as nat, |i: int| parse_prim(t, b, q + prim_block(t, i), big)) =~= s);
    } else {
        assert forall|i: int| 0 <= i < s.len() implies nbt_tag(#[trigger] s[i]) == t by {}
        lemma_items_min_len(t, s, big);
        lemma_parse_items_encode(t, s, b, q, big, eager);
    }
}

} // verus!
