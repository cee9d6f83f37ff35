//! Skipping a payload without building its value.
//!
//! When a deserialized type ignores a field, its payload is passed over: the
//! skipper checks only what it must to find where the payload ends (lengths
//! and tag bytes), in its own order, and builds nothing.
use vstd::prelude::*;

use crate::byte_order::{read_u16, read_u32, u16_at, u32_at, u32_bytes};
use crate::error::Error;
use crate::byte_order::u16_bytes;
use crate::canonical::lemma_encode_parse;
use crate::model::{
    Nbt, encode, encode_entries, encode_items, nbt_tag, parse_payload, prim_block, wf,
};
use crate::roundtrip::{
    holds_at, lemma_encode_entries_cons, lemma_encode_items_cons, lemma_holds_index,
    lemma_holds_split, lemma_prim_items_layout, lemma_prim_len, lemma_u16_read_back,
    lemma_u32_read_back,
};
use crate::tag::fixed_width;

verus! {

/// Where the payload of tag `t` that starts at `p` ends, as the skipper
/// finds it, or the error it reports.
pub open spec fn skip_end(t: u8, b: Seq<u8>, p: int, big: bool) -> Result<int, Error>
    decreases b.len() - p, 1int, 0int,
{
    if p < 0 || p > b.len() {
        Err(Error::EOF)
    } else if t == 0 {
        Ok(p)
    } else if t <= 6 {
        if p + fixed_width(t) > b.len() {
            Err(Error::EOF)
        } else {
            Ok(p + fixed_width(t))
        }
    } else if t == 8 {
        if p + 2 > b.len() {
            Err(Error::EOF)
        } else if p + 2 + u16_at(b, p, big) > b.len() {
            Err(Error::EOF)
        } else {
            Ok(p + 2 + u16_at(b, p, big))
        }
    } else if t == 7 || t == 11 || t == 12 {
        let w = if t == 7 {
            1int
        } else if t == 11 {
            4int
        } else {
            8int
        };
        if p + 4 > b.len() {
            Err(Error::EOF)
        } else if p + 4 + w * u32_at(b, p, big) > b.len() {
            Err(Error::EOF)
        } else {
            Ok(p + 4 + w * u32_at(b, p, big))
        }
    } else if t == 9 {
        skip_list_end(b, p, big)
    } else if t == 10 {
        skip_entries_end(b, p, big)
    } else {
        Err(Error::INVALID(t))
    }
}

/// Where a list payload that starts at `p` ends: an unknown element tag is
/// refused after the 5 header bytes are found; End elements take no bytes
/// whatever the length says.
pub open spec fn skip_list_end(b: Seq<u8>, p: int, big: bool) -> Result<int, Error>
    decreases b.len() - p, 0int, 0int,
{
    if p < 0 || p + 5 > b.len() {
        Err(Error::EOF)
    } else if b[p] > 12 {
        Err(Error::INVALID(b[p]))
    } else {
        let et = b[p];
        let n = u32_at(b, p + 1, big) as int;
        if et == 0 {
            Ok(p + 5)
        } else if et <= 6 {
            if p + 5 + prim_block(et, n) > b.len() {
                Err(Error::EOF)
            } else {
                Ok(p + 5 + prim_block(et, n))
            }
        } else {
            skip_items_end(et, n as nat, b, p + 5, big)
        }
    }
}

/// Where `n` payloads of tag `t` from `q` on end.
pub open spec fn skip_items_end(t: u8, n: nat, b: Seq<u8>, q: int, big: bool) -> Result<int, Error>
    decreases b.len() - q, 2int, n,
{
    if q < 0 || q > b.len() {
        Err(Error::EOF)
    } else if n == 0 {
        Ok(q)
    } else {
        match skip_end(t, b, q, big) {
            Err(e) => Err(e),
            Ok(q2) => if q2 < q || q2 > b.len() {
                Err(Error::EOF)
            } else {
                skip_items_end(t, (n - 1) as nat, b, q2, big)
            },
        }
    }
}

/// Where the entries of a compound from `q` on end, its End included: an
/// entry's tag byte is checked before its name is found.
pub open spec fn skip_entries_end(b: Seq<u8>, q: int, big: bool) -> Result<int, Error>
    decreases b.len() - q, 0int, 0int,
{
    if q < 0 || q + 1 > b.len() {
        Err(Error::EOF)
    } else if b[q] == 0 {
        Ok(q + 1)
    } else if b[q] > 12 {
        Err(Error::INVALID(b[q]))
    } else if q + 3 > b.len() {
        Err(Error::EOF)
    } else if q + 3 + u16_at(b, q + 1, big) > b.len() {
        Err(Error::EOF)
    } else {
        let r = q + 3 + u16_at(b, q + 1, big);
        match skip_end(b[q], b, r, big) {
            Err(e) => Err(e),
            Ok(q2) => if q2 < r || q2 > b.len() {
                Err(Error::EOF)
            } else {
                skip_entries_end(b, q2, big)
            },
        }
    }
}

/// Finds where the payload of tag `t` that starts at `p` ends.
pub fn skip_payload(t: u8, b: &[u8], p: usize, big: bool) -> (r: Result<usize, Error>)
    requires
        p <= b@.len(),
    ensures
        match r {
            Ok(q) => skip_end(t, b@, p as int, big) == Ok::<int, Error>(q as int),
            Err(e) => skip_end(t, b@, p as int, big) == Err::<int, Error>(e),
        },
        r matches Ok(z) ==> p <= z <= b@.len(),
    decreases b@.len() - p, 1int, 0int,
{
    let len = b.len();
    if t == 0 {
        Ok(p)
    } else if t <= 6 {
        let w: usize = if t == 1 {
            1
        } else if t == 2 {
            2
        } else if t == 3 || t == 5 {
            4
        } else {
            8
        };
        if w > len - p {
            Err(Error::EOF)
        } else {
            Ok(p + w)
        }
    } else if t == 8 {
        if 2 > len - p {
            return Err(Error::EOF);
        }
        let n = read_u16(b, p, big) as usize;
        if n > len - p - 2 {
            Err(Error::EOF)
        } else {
            Ok(p + 2 + n)
        }
    } else if t == 7 || t == 11 || t == 12 {
        if 4 > len - p {
            return Err(Error::EOF);
        }
        let n = read_u32(b, p, big) as u64;
        let w: u64 = if t == 7 {
            1
        } else if t == 11 {
            4
        } else {
            8
        };
        let size = n * w;
        if size > (len - p - 4) as u64 {
            Err(Error::EOF)
        } else {
            Ok(p + 4 + size as usize)
        }
    } else if t == 9 {
        skip_list(b, p, big)
    } else if t == 10 {
        skip_entries(b, p, big)
    } else {
        Err(Error::INVALID(t))
    }
}

/// Finds where the list payload that starts at `p` ends.
fn skip_list(b: &[u8], p: usize, big: bool) -> (r: Result<usize, Error>)
    requires
        p <= b@.len(),
    ensures
        match r {
            Ok(q) => skip_list_end(b@, p as int, big) == Ok::<int, Error>(q as int),
            Err(e) => skip_list_end(b@, p as int, big) == Err::<int, Error>(e),
        },
        r matches Ok(z) ==> p <= z <= b@.len(),
    decreases b@.len() - p, 0int, 0int,
{
    let len = b.len();
    if 5 > len - p {
        return Err(Error::EOF);
    }
    let et = b[p];
    if et > 12 {
        return Err(Error::INVALID(et));
    }
    let n = read_u32(b, p + 1, big);
    let q = p + 5;
    if et == 0 {
        return Ok(q);
    }
    if et <= 6 {
        let w: u64 = if et == 1 {
            1
        } else if et == 2 {
            2
        } else if et == 3 || et == 5 {
            4
        } else {
            8
        };
        let size = (n as u64) * w;
        if size > (len - q) as u64 {
            return Err(Error::EOF);
        }
        return Ok(q + size as usize);
    }
    let mut i: u32 = 0;
    let mut cur = q;
    while i < n
        invariant
            len == b@.len(),
            7 <= et <= 12,
            et == b@[p as int],
            n == u32_at(b@, p + 1, big),
            q == p + 5,
            q <= cur <= len,
            i <= n,
            skip_items_end(et, n as nat, b@, q as int, big) == skip_items_end(
                et,
                (n - i) as nat,
                b@,
                cur as int,
                big,
            ),
        decreases n - i,
    {
        match skip_payload(et, b, cur, big) {
            Err(e) => {
                return Err(e);
            },
            Ok(q2) => {
                if q2 < cur || q2 > len {
                    return Err(Error::EOF);
                }
                cur = q2;
            },
        }
        i = i + 1;
    }
    Ok(cur)
}

/// Finds where the entries of the compound from `q` on end.
fn skip_entries(b: &[u8], q: usize, big: bool) -> (r: Result<usize, Error>)
    requires
        q <= b@.len(),
    ensures
        match r {
            Ok(z) => skip_entries_end(b@, q as int, big) == Ok::<int, Error>(z as int),
            Err(e) => skip_entries_end(b@, q as int, big) == Err::<int, Error>(e),
        },
        r matches Ok(z) ==> q <= z <= b@.len(),
    decreases b@.len() - q, 0int, 0int,
{
    let len = b.len();
    let mut cur = q;
    loop
        invariant
            len == b@.len(),
            q <= cur <= len,
            skip_entries_end(b@, q as int, big) == skip_entries_end(b@, cur as int, big),
        decreases len - cur,
    {
        if cur >= len {
            return Err(Error::EOF);
        }
        let t = b[cur];
        if t == 0 {
            return Ok(cur + 1);
        }
        if t > 12 {
            return Err(Error::INVALID(t));
        }
        if 3 > len - cur {
            return Err(Error::EOF);
        }
        let nl = read_u16(b, cur + 1, big) as usize;
        if nl > len - cur - 3 {
            return Err(Error::EOF);
        }
        let r = cur + 3 + nl;
        match skip_payload(t, b, r, big) {
            Err(e) => {
                return Err(e);
            },
            Ok(q2) => {
                if q2 < r || q2 > len {
                    return Err(Error::EOF);
                }
                cur = q2;
            },
        }
    }
}

// ---------------------------------------------------------------------------
// Skipping what the writer wrote.
// ---------------------------------------------------------------------------

/// Skipping the payload that the writer produced for a value that the
/// format can hold succeeds and stops right after that payload, whatever
/// follows it.
#[verifier::spinoff_prover]
#[verifier::rlimit(40)]
pub proof fn lemma_skip_encode(v: Nbt, b: Seq<u8>, p: int, big: bool)
    requires
        wf(v),
        holds_at(b, p, encode(v, big)),
    ensures
        skip_end(nbt_tag(v), b, p, big) == Ok::<int, Error>(p + encode(v, big).len()),
    decreases v, 1int,
{
    match v {
        Nbt::ByteArray(s) => {
            lemma_holds_split(b, p, u32_bytes(s.len() as u32, big), crate::model::enc_i8s(s));
            lemma_u32_read_back(s.len() as u32, b, p, big);
        },
        Nbt::String(s) => {
            lemma_holds_split(b, p, u16_bytes(s.len() as u16, big), s);
            lemma_u16_read_back(s.len() as u16, b, p, big);
        },
        Nbt::IntArray(s) => {
            lemma_holds_split(b, p, u32_bytes(s.len() as u32, big), crate::model::enc_i32s(s, big));
            lemma_u32_read_back(s.len() as u32, b, p, big);
        },
        Nbt::LongArray(s) => {
            lemma_holds_split(b, p, u32_bytes(s.len() as u32, big), crate::model::enc_i64s(s, big));
            lemma_u32_read_back(s.len() as u32, b, p, big);
        },
        Nbt::List(t, s) => {
            lemma_skip_list_encode(t, s, b, p, big);
        },
        Nbt::Compound(es) => {
            assert(encode(Nbt::Compound(es), big) == encode_entries(es, big) + seq![0u8]);
            lemma_skip_entries_encode(es, b, p, big);
        },
        _ => {
            lemma_prim_len(v, big);
        },
    }
}

/// Skipping a list payload that the writer produced.
proof fn lemma_skip_list_encode(t: u8, s: Seq<Nbt>, b: Seq<u8>, p: int, big: bool)
    requires
        wf(Nbt::List(t, s)),
        holds_at(b, p, encode(Nbt::List(t, s), big)),
    ensures
        skip_end(9, b, p, big) == Ok::<int, Error>(p + encode(Nbt::List(t, s), big).len()),
    decreases s, 1int,
{
    let n = s.len() as int;
    let h = seq![t] + u32_bytes(n as u32, big);
    let items = encode_items(s, big);
    assert(encode(Nbt::List(t, s), big) == h + items);
    lemma_holds_split(b, p, h, items);
    lemma_holds_split(b, p, seq![t], u32_bytes(n as u32, big));
    lemma_holds_index(b, p, seq![t], 0);
    lemma_u32_read_back(n as u32, b, p + 1, big);
    assert(b[p] == t);
    if t == 0 {
        lemma_end_items_empty(s, big);
    } else if t <= 6 {
        lemma_prim_items_layout(t, s, big);
    } else {
        lemma_skip_items_encode(t, s, b, p + 5, big);
    }
}

/// A run of End elements has no bytes.
pub(crate) proof fn lemma_end_items_empty(s: Seq<Nbt>, big: bool)
    requires
        forall|i: int| 0 <= i < s.len() ==> nbt_tag(#[trigger] s[i]) == 0,
    ensures
        encode_items(s, big).len() == 0,
    decreases s.len(),
{
    if s.len() > 0 {
        let init = s.subrange(0, s.len() - 1);
        assert forall|i: int| 0 <= i < init.len() implies nbt_tag(#[trigger] init[i]) == 0 by {
            assert(init[i] == s[i]);
        }
        lemma_end_items_empty(init, big);
        lemma_prim_len(s[s.len() - 1], big);
    }
}

/// Skipping the elements of a list of non-primitive tag `t`.
proof fn lemma_skip_items_encode(t: u8, s: Seq<Nbt>, b: Seq<u8>, q: int, big: bool)
    requires
        7 <= t <= 12,
        forall|i: int| 0 <= i < s.len() ==> nbt_tag(#[trigger] s[i]) == t && wf(s[i]),
        holds_at(b, q, encode_items(s, big)),
    ensures
        skip_items_end(t, s.len(), b, q, big) == Ok::<int, Error>(q + encode_items(s, big).len()),
    decreases s, 0int,
{
    if s.len() > 0 {
        let rest = s.subrange(1, s.len() as int);
        lemma_encode_items_cons(s, big);
        lemma_holds_split(b, q, encode(s[0], big), encode_items(rest, big));
        assert(nbt_tag(s[0]) == t && wf(s[0]));
        lemma_skip_encode(s[0], b, q, big);
        let q2 = q + encode(s[0], big).len();
        assert forall|i: int| 0 <= i < rest.len() implies nbt_tag(#[trigger] rest[i]) == t && wf(
            rest[i],
        ) by {
            assert(rest[i] == s[i + 1]);
        }
        lemma_skip_items_encode(t, rest, b, q2, big);
        assert((s.len() - 1) as nat == rest.len());
    }
}

/// Skipping the entries of a compound (and its End).
#[verifier::rlimit(40)]
proof fn lemma_skip_entries_encode(es: Seq<(Seq<u8>, Nbt)>, b: Seq<u8>, q: int, big: bool)
    requires
        forall|i: int|
            0 <= i < es.len() ==> {
                &&& (#[trigger] es[i]).0.len() <= u16::MAX
                &&& nbt_tag(es[i].1) != 0
                &&& wf(es[i].1)
            },
        holds_at(b, q, encode_entries(es, big) + seq![0u8]),
    ensures
        skip_entries_end(b, q, big) == Ok::<int, Error>(q + encode_entries(es, big).len() + 1),
    decreases es, 0int,
{
    if es.len() == 0 {
        assert(encode_entries(es, big) + seq![0u8] =~= seq![0u8]);
        lemma_holds_index(b, q, seq![0u8], 0);
    } else {
        let rest = es.subrange(1, es.len() as int);
        let name = es[0].0;
        let v = es[0].1;
        lemma_encode_entries_cons(es, big);
        let hd = seq![nbt_tag(v)] + u16_bytes(name.len() as u16, big);
        let tail = encode_entries(rest, big) + seq![0u8];
        assert(encode_entries(es, big) + seq![0u8] =~= hd + name + encode(v, big) + tail);
        lemma_holds_split(b, q, hd + name + encode(v, big), tail);
        lemma_holds_split(b, q, hd + name, encode(v, big));
        lemma_holds_split(b, q, hd, name);
        lemma_holds_split(b, q, seq![nbt_tag(v)], u16_bytes(name.len() as u16, big));
        lemma_holds_index(b, q, seq![nbt_tag(v)], 0);
        lemma_u16_read_back(name.len() as u16, b, q + 1, big);
        let r = q + 3 + name.len();
        lemma_skip_encode(v, b, r, big);
        let q2 = r + encode(v, big).len();
        assert forall|i: int|
            0 <= i < rest.len() implies {
                &&& (#[trigger] rest[i]).0.len() <= u16::MAX
                &&& nbt_tag(rest[i].1) != 0
                &&& wf(rest[i].1)
            } by {
            assert(rest[i] == es[i + 1]);
        }
        lemma_skip_entries_encode(rest, b, q2, big);
    }
}

/// Skipping a payload that the reader accepts stops exactly where the
/// reader stops.
pub proof fn lemma_skip_matches_parse(t: u8, b: Seq<u8>, p: int, big: bool, eager: bool)
    requires
        0 <= p <= b.len(),
        parse_payload(t, b, p, big, eager) is Ok,
    ensures
        skip_end(t, b, p, big) == Ok::<int, Error>(parse_payload(t, b, p, big, eager)->Ok_0.1),
{
    lemma_encode_parse(t, b, p, big, eager);
    let (v, q) = parse_payload(t, b, p, big, eager)->Ok_0;
    assert(holds_at(b, p, encode(v, big)));
    lemma_skip_encode(v, b, p, big);
}

} // verus!
