//! Reading a payload from a stream, as far as the library decides it.
//!
//! A stream reader gathers bytes until `skip_payload` finds where the
//! payload ends, then reads the value out of the bytes it has. The laws of
//! this module show that this gives what reading the whole stream as one
//! slice gives: while too few bytes have arrived the skipper only asks for
//! more (EOF), never refuses; once they have, it stops where the slice
//! reader stops and the value read is the same.
use vstd::prelude::*;

use crate::byte_order::{u16_bytes, u32_bytes};
use crate::canonical::lemma_encode_parse;
use crate::error::Error;
use crate::model::{Nbt, encode, encode_entries, encode_items, nbt_tag, parse_payload, wf};
use crate::roundtrip::{
    holds_at, lemma_encode_entries_cons, lemma_encode_items_cons, lemma_parse_encode,
    lemma_prim_items_layout, lemma_prim_len, lemma_u16_read_back, lemma_u32_read_back,
};
use crate::skip::{
    lemma_end_items_empty, lemma_skip_encode, skip_end, skip_entries_end, skip_items_end,
    skip_list_end,
};

verus! {

/// `d` holds, from `p` to its end, a proper beginning of `x`: a payload cut
/// off before its last byte.
pub open spec fn cut_at(d: Seq<u8>, p: int, x: Seq<u8>) -> bool {
    &&& 0 <= p <= d.len() < p + x.len()
    &&& forall|i: int| p <= i < d.len() ==> d[i] == x[i - p]
}

/// A cut-off `x + y` is a cut-off `x`, or holds all of `x` and a cut-off `y`.
proof fn lemma_cut_split(d: Seq<u8>, p: int, x: Seq<u8>, y: Seq<u8>)
    requires
        cut_at(d, p, x + y),
    ensures
        d.len() < p + x.len() ==> cut_at(d, p, x),
        d.len() >= p + x.len() ==> holds_at(d, p, x) && cut_at(d, p + x.len(), y),
{
    if d.len() < p + x.len() {
        assert forall|i: int| p <= i < d.len() implies d[i] == x[i - p] by {
            assert((x + y)[i - p] == x[i - p]);
        }
    } else {
        assert forall|i: int| 0 <= i < x.len() implies d.subrange(p, p + x.len())[i] == x[i] by {
            assert(d[p + i] == (x + y)[i]);
        }
        assert(d.subrange(p, p + x.len()) =~= x);
        assert forall|i: int| p + x.len() <= i < d.len() implies d[i] == y[i - (p + x.len())] by {
            assert(d[i] == (x + y)[i - p]);
        }
    }
}

/// A cut-off `x` whose first `k` bytes are all there holds those bytes.
proof fn lemma_cut_holds(d: Seq<u8>, p: int, x: Seq<u8>, k: int)
    requires
        cut_at(d, p, x),
        0 <= k <= x.len(),
        p + k <= d.len(),
    ensures
        holds_at(d, p, x.subrange(0, k)),
{
    assert(d.subrange(p, p + k) =~= x.subrange(0, k));
}

/// Skipping a payload that the stream has cut off before its end reports
/// only that bytes are missing (EOF), whatever the value.
pub proof fn lemma_skip_cut(v: Nbt, d: Seq<u8>, p: int, big: bool)
    requires
        wf(v),
        cut_at(d, p, encode(v, big)),
    ensures
        skip_end(nbt_tag(v), d, p, big) == Err::<int, Error>(Error::EOF),
    decreases v, 1int,
{
    match v {
        Nbt::ByteArray(s) => {
            lemma_cut_split(d, p, u32_bytes(s.len() as u32, big), crate::model::enc_i8s(s));
            if d.len() >= p + 4 {
                lemma_u32_read_back(s.len() as u32, d, p, big);
            }
        },
        Nbt::String(s) => {
            lemma_cut_split(d, p, u16_bytes(s.len() as u16, big), s);
            if d.len() >= p + 2 {
                lemma_u16_read_back(s.len() as u16, d, p, big);
            }
        },
        Nbt::IntArray(s) => {
            lemma_cut_split(d, p, u32_bytes(s.len() as u32, big), crate::model::enc_i32s(s, big));
            if d.len() >= p + 4 {
                lemma_u32_read_back(s.len() as u32, d, p, big);
            }
        },
        Nbt::LongArray(s) => {
            lemma_cut_split(d, p, u32_bytes(s.len() as u32, big), crate::model::enc_i64s(s, big));
            if d.len() >= p + 4 {
                lemma_u32_read_back(s.len() as u32, d, p, big);
            }
        },
        Nbt::List(t, s) => {
            lemma_skip_list_cut(t, s, d, p, big);
        },
        Nbt::Compound(es) => {
            crate::model::lemma_wf_compound_entries(es);
            lemma_skip_entries_cut(es, d, p, big);
        },
        _ => {
            if nbt_tag(v) <= 6 {
                lemma_prim_len(v, big);
            }
        },
    }
}

/// A cut-off list payload.
proof fn lemma_skip_list_cut(t: u8, s: Seq<Nbt>, d: Seq<u8>, p: int, big: bool)
    requires
        wf(Nbt::List(t, s)),
        cut_at(d, p, encode(Nbt::List(t, s), big)),
    ensures
        skip_end(9, d, p, big) == Err::<int, Error>(Error::EOF),
    decreases s, 1int,
{
    let n = s.len() as int;
    let h = seq![t] + u32_bytes(n as u32, big);
    let items = encode_items(s, big);
    assert(encode(Nbt::List(t, s), big) == h + items);
    lemma_cut_split(d, p, h, items);
    if d.len() >= p + 5 {
        crate::roundtrip::lemma_holds_split(d, p, seq![t], u32_bytes(n as u32, big));
        crate::roundtrip::lemma_holds_index(d, p, seq![t], 0);
        lemma_u32_read_back(n as u32, d, p + 1, big);
        if t == 0 {
            lemma_end_items_empty(s, big);
        } else if t <= 6 {
            lemma_prim_items_layout(t, s, big);
        } else {
            lemma_skip_items_cut(t, s, d, p + 5, big);
        }
    }
}

/// A cut-off run of elements of a list of non-primitive tag `t`.
proof fn lemma_skip_items_cut(t: u8, s: Seq<Nbt>, d: Seq<u8>, q: int, big: bool)
    requires
        7 <= t <= 12,
        forall|i: int| 0 <= i < s.len() ==> nbt_tag(#[trigger] s[i]) == t && wf(s[i]),
        cut_at(d, q, encode_items(s, big)),
    ensures
        skip_items_end(t, s.len(), d, q, big) == Err::<int, Error>(Error::EOF),
    decreases s, 0int,
{
    if s.len() == 0 {
        assert(encode_items(s, big).len() == 0);
    } else {
        let rest = s.subrange(1, s.len() as int);
        lemma_encode_items_cons(s, big);
        assert(nbt_tag(s[0]) == t && wf(s[0]));
        lemma_cut_split(d, q, encode(s[0], big), encode_items(rest, big));
        if d.len() < q + encode(s[0], big).len() {
            lemma_skip_cut(s[0], d, q, big);
        } else {
            lemma_skip_encode(s[0], d, q, big);
            let q2 = q + encode(s[0], big).len();
            assert forall|i: int| 0 <= i < rest.len() implies nbt_tag(#[trigger] rest[i]) == t
                && wf(rest[i]) by {
                assert(rest[i] == s[i + 1]);
            }
            lemma_skip_items_cut(t, rest, d, q2, big);
            assert((s.len() - 1) as nat == rest.len());
        }
    }
}

/// A cut-off run of compound entries (with its closing End).
#[verifier::rlimit(40)]
proof fn lemma_skip_entries_cut(es: Seq<(Seq<u8>, Nbt)>, d: Seq<u8>, q: int, big: bool)
    requires
        forall|i: int|
            0 <= i < es.len() ==> {
                &&& (#[trigger] es[i]).0.len() <= u16::MAX
                &&& nbt_tag(es[i].1) != 0
                &&& wf(es[i].1)
            },
        cut_at(d, q, encode_entries(es, big) + seq![0u8]),
    ensures
        skip_entries_end(d, q, big) == Err::<int, Error>(Error::EOF),
    decreases es, 0int,
{
    if es.len() == 0 {
        assert(encode_entries(es, big) + seq![0u8] =~= seq![0u8]);
    } else {
        let rest = es.subrange(1, es.len() as int);
        let name = es[0].0;
        let v = es[0].1;
        lemma_encode_entries_cons(es, big);
        let hd = seq![nbt_tag(v)] + u16_bytes(name.len() as u16, big);
        let tail = encode_entries(rest, big) + seq![0u8];
        let x = hd + name + encode(v, big) + tail;
        assert(encode_entries(es, big) + seq![0u8] =~= x);
        if d.len() >= q + 1 {
            assert(d[q] == x[0]);
            assert(x[0] == nbt_tag(v));
        }
        if d.len() >= q + 3 {
            lemma_cut_holds(d, q, x, 3);
            assert(x.subrange(0, 3) =~= hd);
            crate::roundtrip::lemma_holds_split(d, q, seq![nbt_tag(v)], u16_bytes(
                name.len() as u16,
                big,
            ));
            lemma_u16_read_back(name.len() as u16, d, q + 1, big);
            let r = q + 3 + name.len();
            if d.len() >= r {
                lemma_cut_split(d, q, hd + name, encode(v, big) + tail);
                lemma_cut_split(d, r, encode(v, big), tail);
                assert(encode(v, big) + tail =~= encode(v, big) + tail);
                if d.len() < r + encode(v, big).len() {
                    lemma_skip_cut(v, d, r, big);
                } else {
                    lemma_skip_encode(v, d, r, big);
                    let q2 = r + encode(v, big).len();
                    assert forall|i: int|
                        0 <= i < rest.len() implies {
                            &&& (#[trigger] rest[i]).0.len() <= u16::MAX
                            &&& nbt_tag(rest[i].1) != 0
                            &&& wf(rest[i].1)
                        } by {
                        assert(rest[i] == es[i + 1]);
                    }
                    lemma_skip_entries_cut(rest, d, q2, big);
                }
            }
        }
    }
}

/// The first `n` bytes of a stream that holds the payload the slice reader
/// accepts: while `n` is short of the payload's end the skipper reports only
/// EOF (more bytes are needed); from there on it stops at that end, and
/// reading the `n` bytes gives the slice reader's value and end.
pub proof fn lemma_stream_prefix(t: u8, b: Seq<u8>, n: int, big: bool, eager: bool)
    requires
        0 <= n <= b.len(),
        parse_payload(t, b, 0, big, eager) is Ok,
    ensures
        ({
            let (v, q) = parse_payload(t, b, 0, big, eager)->Ok_0;
            let d = b.subrange(0, n);
            &&& n < q ==> skip_end(t, d, 0, big) == Err::<int, Error>(Error::EOF)
            &&& q <= n ==> skip_end(t, d, 0, big) == Ok::<int, Error>(q)
                && parse_payload(t, d, 0, big, false) == parse_payload(t, b, 0, big, eager)
        }),
{
    lemma_encode_parse(t, b, 0, big, eager);
    let (v, q) = parse_payload(t, b, 0, big, eager)->Ok_0;
    let x = encode(v, big);
    let d = b.subrange(0, n);
    assert(x == b.subrange(0, q));
    if n < q {
        assert forall|i: int| 0 <= i < d.len() implies d[i] == x[i - 0] by {
            assert(b.subrange(0, q)[i] == b[i]);
        }
        lemma_skip_cut(v, d, 0, big);
    } else {
        assert(d.subrange(0, q) =~= x);
        lemma_skip_encode(v, d, 0, big);
        lemma_parse_encode(v, d, 0, big, false);
    }
}

/// What a stream reader reads out of the first `n` bytes of a stream, when
/// it reads a value, is what the slice reader (lazy or eager) reads out of
/// the whole stream, with the same end.
pub proof fn lemma_stream_success(t: u8, b: Seq<u8>, n: int, big: bool, eager: bool)
    requires
        0 <= n <= b.len(),
        parse_payload(t, b.subrange(0, n), 0, big, false) is Ok,
    ensures
        parse_payload(t, b, 0, big, eager) == parse_payload(t, b.subrange(0, n), 0, big, false),
{
    let d = b.subrange(0, n);
    lemma_encode_parse(t, d, 0, big, false);
    let (v, q) = parse_payload(t, d, 0, big, false)->Ok_0;
    assert(b.subrange(0, q) =~= d.subrange(0, q));
    lemma_parse_encode(v, b, 0, big, eager);
}

} // verus!
