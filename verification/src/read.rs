//! The reader: from the bytes of a document to an owned value.
//!
//! Every function here returns exactly what `model::parse_payload` says for
//! its input, the value or the error.
use vstd::prelude::*;

use crate::byte_order::{
    i16_from_u16, i32_from_u32, i32_of, i64_from_u64, i64_of, i8_from_u8, i8_of, read_u16, read_u32,
    read_u64, u32_at, u64_at,
};
use crate::error::Error;
use crate::model::{Nbt, min_block, parse_entries, parse_items, parse_payload, parse_prim, prim_block};
use crate::tag::fixed_width;
use crate::value::{
    OwnCompound, OwnList, OwnString, OwnValue, entry_views, lemma_entries_view, lemma_items_view,
    views,
};

verus! {

/// The model of a reader's result.
pub open spec fn value_result(r: Result<(OwnValue, usize), Error>) -> Result<(Nbt, int), Error> {
    match r {
        Ok((v, q)) => Ok((v@, q as int)),
        Err(e) => Err(e),
    }
}

/// Puts `pre` in front of the elements of an items result.
pub open spec fn prepend_items(pre: Seq<Nbt>, r: Result<(Seq<Nbt>, int), Error>) -> Result<
    (Seq<Nbt>, int),
    Error,
> {
    match r {
        Ok((vs, z)) => Ok((pre + vs, z)),
        Err(e) => Err(e),
    }
}

/// Puts `pre` in front of the entries of an entries result.
pub open spec fn prepend_entries(
    pre: Seq<(Seq<u8>, Nbt)>,
    r: Result<(Seq<(Seq<u8>, Nbt)>, int), Error>,
) -> Result<(Seq<(Seq<u8>, Nbt)>, int), Error> {
    match r {
        Ok((es, z)) => Ok((pre + es, z)),
        Err(e) => Err(e),
    }
}

proof fn lemma_prepend_items_step(
    pre: Seq<Nbt>,
    v: Nbt,
    r: Result<(Seq<Nbt>, int), Error>,
)
    ensures
        prepend_items(pre, match r {
            Ok((vs, z)) => Ok((seq![v] + vs, z)),
            Err(e) => Err(e),
        }) == prepend_items(pre.push(v), r),
{
    match r {
        Ok((vs, z)) => {
            assert(pre + (seq![v] + vs) =~= pre.push(v) + vs);
        },
        Err(e) => {},
    }
}

proof fn lemma_prepend_entries_step(
    pre: Seq<(Seq<u8>, Nbt)>,
    e0: (Seq<u8>, Nbt),
    r: Result<(Seq<(Seq<u8>, Nbt)>, int), Error>,
)
    ensures
        prepend_entries(pre, match r {
            Ok((es, z)) => Ok((seq![e0] + es, z)),
            Err(e) => Err(e),
        }) == prepend_entries(pre.push(e0), r),
{
    match r {
        Ok((es, z)) => {
            assert(pre + (seq![e0] + es) =~= pre.push(e0) + es);
        },
        Err(e) => {},
    }
}

/// Reads the primitive value of tag `t` (1..=6) whose payload is at `p`.
fn read_prim(t: u8, b: &[u8], p: usize, big: bool) -> (v: OwnValue)
    requires
        1 <= t <= 6,
        p + fixed_width(t) <= b@.len(),
    ensures
        v@ == parse_prim(t, b@, p as int, big),
{
    if t == 1 {
        OwnValue::Byte(i8_from_u8(b[p]))
    } else if t == 2 {
        OwnValue::Short(i16_from_u16(read_u16(b, p, big)))
    } else if t == 3 {
        OwnValue::Int(i32_from_u32(read_u32(b, p, big)))
    } else if t == 4 {
        OwnValue::Long(i64_from_u64(read_u64(b, p, big)))
    } else if t == 5 {
        OwnValue::Float(read_u32(b, p, big))
    } else {
        OwnValue::Double(read_u64(b, p, big))
    }
}

/// The bytes `from..to` of `b`.
pub fn copy_bytes(b: &[u8], from: usize, to: usize) -> (r: Vec<u8>)
    requires
        from <= to <= b@.len(),
    ensures
        r@ == b@.subrange(from as int, to as int),
{
    let mut r: Vec<u8> = Vec::new();
    let mut i = from;
    while i < to
        invariant
            from <= i <= to <= b@.len(),
            r@ == b@.subrange(from as int, i as int),
        decreases to - i,
    {
        r.push(b[i]);
        i = i + 1;
        assert(r@ =~= b@.subrange(from as int, i as int));
    }
    r
}

/// The `n` signed bytes from `from` on.
fn read_i8s(b: &[u8], from: usize, n: usize) -> (r: Vec<i8>)
    requires
        from + n <= b@.len(),
    ensures
        r@ == Seq::new(n as nat, |i: int| i8_of(b@[from + i])),
{
    let _len = b.len();
    let mut r: Vec<i8> = Vec::new();
    let mut i: usize = 0;
    while i < n
        invariant
            i <= n,
            from + n <= b@.len(),
            b@.len() <= usize::MAX,
            r@ == Seq::new(i as nat, |k: int| i8_of(b@[from + k])),
        decreases n - i,
    {
        r.push(i8_from_u8(b[from + i]));
        i = i + 1;
        assert(r@ =~= Seq::new(i as nat, |k: int| i8_of(b@[from + k])));
    }
    r
}

/// The `n` 32-bit integers from `from` on.
fn read_i32s(b: &[u8], from: usize, n: usize, big: bool) -> (r: Vec<i32>)
    requires
        from + 4 * n <= b@.len(),
    ensures
        r@ == Seq::new(n as nat, |i: int| i32_of(u32_at(b@, from + 4 * i, big))),
{
    let _len = b.len();
    let mut r: Vec<i32> = Vec::new();
    let mut i: usize = 0;
    while i < n
        invariant
            i <= n,
            from + 4 * n <= b@.len(),
            b@.len() <= usize::MAX,
            r@ == Seq::new(i as nat, |k: int| i32_of(u32_at(b@, from + 4 * k, big))),
        decreases n - i,
    {
        r.push(i32_from_u32(read_u32(b, from + 4 * i, big)));
        i = i + 1;
        assert(r@ =~= Seq::new(i as nat, |k: int| i32_of(u32_at(b@, from + 4 * k, big))));
    }
    r
}

/// The `n` 64-bit integers from `from` on.
fn read_i64s(b: &[u8], from: usize, n: usize, big: bool) -> (r: Vec<i64>)
    requires
        from + 8 * n <= b@.len(),
    ensures
        r@ == Seq::new(n as nat, |i: int| i64_of(u64_at(b@, from + 8 * i, big))),
{
    let _len = b.len();
    let mut r: Vec<i64> = Vec::new();
    let mut i: usize = 0;
    while i < n
        invariant
            i <= n,
            from + 8 * n <= b@.len(),
            b@.len() <= usize::MAX,
            r@ == Seq::new(i as nat, |k: int| i64_of(u64_at(b@, from + 8 * k, big))),
        decreases n - i,
    {
        r.push(i64_from_u64(read_u64(b, from + 8 * i, big)));
        i = i + 1;
        assert(r@ =~= Seq::new(i as nat, |k: int| i64_of(u64_at(b@, from + 8 * k, big))));
    }
    r
}

/// The width of `n` primitive payloads of tag `t`.
fn prim_block_exec(t: u8, n: u64) -> (r: u64)
    requires
        n <= u32::MAX,
    ensures
        r == prim_block(t, n as int),
{
    if t == 1 {
        n
    } else if t == 2 {
        2 * n
    } else if t == 3 || t == 5 {
        4 * n
    } else if t == 4 || t == 6 {
        8 * n
    } else {
        0
    }
}

/// The fewest bytes that `n` elements of non-primitive tag `t` take.
fn min_block_exec(t: u8, n: u64) -> (r: u64)
    requires
        n <= u32::MAX,
    ensures
        r == min_block(t, n as int),
{
    if t == 7 || t == 11 || t == 12 {
        4 * n
    } else if t == 8 {
        2 * n
    } else if t == 9 {
        5 * n
    } else {
        n
    }
}

/// Reads `n` primitive payloads of tag `et` (0..=6) from `q` on.
fn read_prim_list(et: u8, b: &[u8], q: usize, n: usize, big: bool) -> (l: OwnList)
    requires
        et <= 6,
        n <= u32::MAX,
        q + prim_block(et, n as int) <= b@.len(),
    ensures
        l.tag == et,
        l@ == Seq::new(n as nat, |i: int| parse_prim(et, b@, q + prim_block(et, i), big)),
{
    if et == 0 {
        let l = OwnList { tag: 0, end_len: n, items: Vec::new() };
        assert(l@ =~= Seq::new(n as nat, |i: int| parse_prim(et, b@, q + prim_block(et, i), big)));
        return l;
    }
    let _len = b.len();
    let w = prim_block_exec(et, 1) as usize;
    let mut items: Vec<OwnValue> = Vec::new();
    let mut i: usize = 0;
    let mut pos: usize = q;
    while i < n
        invariant
            1 <= et <= 6,
            w == fixed_width(et),
            i <= n <= u32::MAX,
            q + prim_block(et, n as int) <= b@.len(),
            b@.len() <= usize::MAX,
            pos == q + prim_block(et, i as int),
            views(items@) == Seq::new(i as nat, |k: int| parse_prim(et, b@, q + prim_block(et, k), big)),
        decreases n - i,
    {
        assert(pos + w <= q + prim_block(et, n as int));
        let v = read_prim(et, b, pos, big);
        let ghost old_items = items@;
        items.push(v);
        assert(views(items@) =~= views(old_items).push(v@));
        pos = pos + w;
        i = i + 1;
        assert(views(items@) =~= Seq::new(
            i as nat,
            |k: int| parse_prim(et, b@, q + prim_block(et, k), big),
        ));
    }
    let l = OwnList { tag: et, end_len: 0, items };
    proof {
        lemma_items_view(l);
    }
    l
}

/// Reads a primitive payload of tag `t` (1..=6) at `p`.
fn read_fixed_payload(t: u8, b: &[u8], p: usize, big: bool, eager: bool) -> (r: Result<
    (OwnValue, usize),
    Error,
>)
    requires
        p <= b@.len(),
        1 <= t <= 6,
    ensures
        value_result(r) == parse_payload(t, b@, p as int, big, eager),
        r matches Ok((_, q)) ==> p <= q <= b@.len(),
{
    let rem = b.len() - p;
    let w = prim_block_exec(t, 1) as usize;
    if w > rem {
        return Err(Error::EOF);
    }
    let v = read_prim(t, b, p, big);
    Ok((v, p + w))
}

/// Reads a ByteArray payload at `p`.
fn read_byte_array_payload(b: &[u8], p: usize, big: bool, eager: bool) -> (r: Result<
    (OwnValue, usize),
    Error,
>)
    requires
        p <= b@.len(),
    ensures
        value_result(r) == parse_payload(7, b@, p as int, big, eager),
        r matches Ok((_, q)) ==> p <= q <= b@.len(),
{
    let rem = b.len() - p;
    if 4 > rem {
        return Err(Error::EOF);
    }
    let n = read_u32(b, p, big) as usize;
    if n > rem - 4 {
        return Err(Error::EOF);
    }
    let s = read_i8s(b, p + 4, n);
    Ok((OwnValue::ByteArray(s), p + 4 + n))
}

/// Reads a String payload at `p`.
fn read_string_payload(b: &[u8], p: usize, big: bool, eager: bool) -> (r: Result<
    (OwnValue, usize),
    Error,
>)
    requires
        p <= b@.len(),
    ensures
        value_result(r) == parse_payload(8, b@, p as int, big, eager),
        r matches Ok((_, q)) ==> p <= q <= b@.len(),
{
    let rem = b.len() - p;
    if 2 > rem {
        return Err(Error::EOF);
    }
    let n = read_u16(b, p, big) as usize;
    if n > rem - 2 {
        return Err(Error::EOF);
    }
    let s = copy_bytes(b, p + 2, p + 2 + n);
    Ok((OwnValue::String(OwnString { data: s }), p + 2 + n))
}

/// Reads an IntArray payload at `p`.
fn read_int_array_payload(b: &[u8], p: usize, big: bool, eager: bool) -> (r: Result<
    (OwnValue, usize),
    Error,
>)
    requires
        p <= b@.len(),
    ensures
        value_result(r) == parse_payload(11, b@, p as int, big, eager),
        r matches Ok((_, q)) ==> p <= q <= b@.len(),
{
    let rem = b.len() - p;
    if 4 > rem {
        return Err(Error::EOF);
    }
    let n = read_u32(b, p, big) as u64;
    if 4 * n > (rem - 4) as u64 {
        return Err(Error::EOF);
    }
    let s = read_i32s(b, p + 4, n as usize, big);
    Ok((OwnValue::IntArray(s), p + 4 + 4 * (n as usize)))
}

/// Reads a LongArray payload at `p`.
fn read_long_array_payload(b: &[u8], p: usize, big: bool, eager: bool) -> (r: Result<
    (OwnValue, usize),
    Error,
>)
    requires
        p <= b@.len(),
    ensures
        value_result(r) == parse_payload(12, b@, p as int, big, eager),
        r matches Ok((_, q)) ==> p <= q <= b@.len(),
{
    let rem = b.len() - p;
    if 4 > rem {
        return Err(Error::EOF);
    }
    let n = read_u32(b, p, big) as u64;
    if 8 * n > (rem - 4) as u64 {
        return Err(Error::EOF);
    }
    let s = read_i64s(b, p + 4, n as usize, big);
    Ok((OwnValue::LongArray(s), p + 4 + 8 * (n as usize)))
}

/// Reads the payload of tag `t` at `p` of `b`, with numbers in the byte
/// order `big`, and returns the value and the position after it, or the
/// error that `parse_payload` names for these bytes.
pub fn read_payload(t: u8, b: &[u8], p: usize, big: bool, eager: bool) -> (r: Result<
    (OwnValue, usize),
    Error,
>)
    requires
        p <= b@.len(),
    ensures
        value_result(r) == parse_payload(t, b@, p as int, big, eager),
        r matches Ok((_, q)) ==> p <= q <= b@.len(),
    decreases b@.len() - p, 1int,
{
    if 1 <= t && t <= 6 {
        read_fixed_payload(t, b, p, big, eager)
    } else if t == 7 {
        read_byte_array_payload(b, p, big, eager)
    } else if t == 8 {
        read_string_payload(b, p, big, eager)
    } else if t == 9 {
        match read_list_payload(b, p, big, eager) {
            Ok((l, q)) => Ok((OwnValue::List(l), q)),
            Err(e) => Err(e),
        }
    } else if t == 10 {
        match read_compound_payload(b, p, big, eager) {
            Ok((c, q)) => Ok((OwnValue::Compound(c), q)),
            Err(e) => Err(e),
        }
    } else if t == 11 {
        read_int_array_payload(b, p, big, eager)
    } else if t == 12 {
        read_long_array_payload(b, p, big, eager)
    } else if t == 0 {
        Ok((OwnValue::End, p))
    } else {
        Err(Error::INVALID(t))
    }
}

/// Reads a list payload (element tag, length, elements) at `p`.
fn read_list_payload(b: &[u8], p: usize, big: bool, eager: bool) -> (r: Result<
    (OwnList, usize),
    Error,
>)
    requires
        p <= b@.len(),
    ensures
        match r {
            Ok((l, q)) => parse_payload(9, b@, p as int, big, eager) == Ok::<(Nbt, int), Error>(
                (Nbt::List(l.tag, l@), q as int),
            ) && p <= q <= b@.len(),
            Err(e) => parse_payload(9, b@, p as int, big, eager) == Err::<(Nbt, int), Error>(e),
        },
    decreases b@.len() - p, 0int,
{
    let len = b.len();
    let rem = len - p;
    if 5 > rem {
        return Err(Error::EOF);
    }
    let et = b[p];
    let n32 = read_u32(b, p + 1, big);
    let n = n32 as u64;
    let q = p + 5;
    let rem2 = (rem - 5) as u64;
    if et <= 6 {
        let blk = prim_block_exec(et, n);
        if blk > rem2 {
            return Err(Error::EOF);
        }
        let l = read_prim_list(et, b, q, n as usize, big);
        return Ok((l, q + blk as usize));
    }
    if eager && et > 12 {
        return Err(Error::INVALID(et));
    }
    if eager && min_block_exec(et, n) > rem2 {
        return Err(Error::EOF);
    }
    if !eager && n > rem2 {
        return Err(Error::EOF);
    }
    if et > 12 {
        return Err(Error::INVALID(et));
    }
    let ghost total = parse_items(et, n as nat, b@, q as int, big, eager);
    assert(parse_payload(9, b@, p as int, big, eager) == match total {
        Ok((vs, z)) => Ok((Nbt::List(et, vs), z)),
        Err(e) => Err::<(Nbt, int), Error>(e),
    });
    let mut items: Vec<OwnValue> = Vec::new();
    let mut pos: usize = q;
    let mut i: u64 = 0;
    assert(views(items@) =~= Seq::<Nbt>::empty());
    assert(prepend_items(Seq::empty(), total) == total) by {
        match total {
            Ok((vs, z)) => {
                assert(Seq::<Nbt>::empty() + vs =~= vs);
            },
            Err(e) => {},
        }
    }
    while i < n
        invariant
            p + 5 == q,
            q <= pos <= b@.len(),
            i <= n,
            7 <= et <= 12,
            total == parse_items(et, n as nat, b@, q as int, big, eager),
            parse_payload(9, b@, p as int, big, eager) == match total {
                Ok((vs, z)) => Ok((Nbt::List(et, vs), z)),
                Err(e) => Err::<(Nbt, int), Error>(e),
            },
            total == prepend_items(
                views(items@),
                parse_items(et, (n - i) as nat, b@, pos as int, big, eager),
            ),
        decreases n - i,
    {
        let res = read_payload(et, b, pos, big, eager);
        match res {
            Err(e) => {
                assert(parse_items(et, (n - i) as nat, b@, pos as int, big, eager) == Err::<
                    (Seq<Nbt>, int),
                    Error,
                >(e));
                return Err(e);
            },
            Ok((v, pos2)) => {
                proof {
                    lemma_prepend_items_step(
                        views(items@),
                        v@,
                        parse_items(et, (n - i - 1) as nat, b@, pos2 as int, big, eager),
                    );
                }
                let ghost old_items = items@;
                items.push(v);
                assert(views(items@) =~= views(old_items).push(v@));
                pos = pos2;
                i = i + 1;
            },
        }
    }
    assert(views(items@) + Seq::<Nbt>::empty() =~= views(items@));
    let l = OwnList { tag: et, end_len: 0, items };
    proof {
        lemma_items_view(l);
    }
    Ok((l, pos))
}

/// Reads the entries of a compound payload at `p`, up to and including the
/// closing End.
fn read_compound_payload(b: &[u8], p: usize, big: bool, eager: bool) -> (r: Result<
    (OwnCompound, usize),
    Error,
>)
    requires
        p <= b@.len(),
    ensures
        match r {
            Ok((c, q)) => parse_payload(10, b@, p as int, big, eager) == Ok::<(Nbt, int), Error>(
                (Nbt::Compound(c@), q as int),
            ) && p <= q <= b@.len(),
            Err(e) => parse_payload(10, b@, p as int, big, eager) == Err::<(Nbt, int), Error>(e),
        },
    decreases b@.len() - p, 0int,
{
    let len = b.len();
    let ghost total = parse_entries(b@, p as int, big, eager);
    let mut entries: Vec<(Vec<u8>, OwnValue)> = Vec::new();
    let mut pos: usize = p;
    assert(entry_views(entries@) =~= Seq::<(Seq<u8>, Nbt)>::empty());
    assert(prepend_entries(Seq::empty(), total) == total) by {
        match total {
            Ok((es, z)) => {
                assert(Seq::<(Seq<u8>, Nbt)>::empty() + es =~= es);
            },
            Err(e) => {},
        }
    }
    loop
        invariant
            len == b@.len(),
            p <= pos <= b@.len(),
            total == parse_entries(b@, p as int, big, eager),
            total == prepend_entries(entry_views(entries@), parse_entries(b@, pos as int, big, eager)),
        decreases b@.len() - pos,
    {
        if pos >= len {
            return Err(Error::EOF);
        }
        let t = b[pos];
        if t == 0 {
            assert(entry_views(entries@) + Seq::<(Seq<u8>, Nbt)>::empty() =~= entry_views(entries@));
            let c = OwnCompound { entries };
            proof {
                lemma_entries_view(c);
            }
            return Ok((c, pos + 1));
        }
        if len - pos < 3 {
            return Err(Error::EOF);
        }
        let nl = read_u16(b, pos + 1, big) as usize;
        if nl > len - pos - 3 {
            return Err(Error::EOF);
        }
        let r = pos + 3 + nl;
        if t > 12 {
            return Err(Error::INVALID(t));
        }
        match read_payload(t, b, r, big, eager) {
            Err(e) => {
                return Err(e);
            },
            Ok((v, pos2)) => {
                let name = copy_bytes(b, pos + 3, r);
                proof {
                    lemma_prepend_entries_step(
                        entry_views(entries@),
                        (name@, v@),
                        parse_entries(b@, pos2 as int, big, eager),
                    );
                }
                let ghost old_entries = entries@;
                entries.push((name, v));
                assert(entry_views(entries@) =~= entry_views(old_entries).push((name@, v@)));
                pos = pos2;
            },
        }
    }
}

} // verus!
