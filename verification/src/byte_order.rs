//! Byte orders and the fixed-width integer encodings of the NBT format.
//!
//! Every multi-byte number in an NBT document is stored in one byte order,
//! big endian for Java Edition and little endian for Bedrock Edition. The
//! functions here turn 2, 4 and 8 bytes into an unsigned integer and back,
//! and the signed integers of the format into their two's complement bits.
use vstd::prelude::*;

verus! {

/// A byte order in which the numbers of a document are stored.
pub trait ByteOrder {
    /// Whether this byte order puts the most significant byte first.
    spec fn spec_big_endian() -> bool;

    /// Returns `true` for big endian, `false` for little endian.
    fn is_big_endian() -> (b: bool)
        ensures
            b == Self::spec_big_endian(),
    ;
}

/// Most significant byte first (the Java Edition byte order).
pub struct BigEndian;

/// Least significant byte first (the Bedrock Edition byte order).
pub struct LittleEndian;

impl ByteOrder for BigEndian {
    open spec fn spec_big_endian() -> bool {
        true
    }

    fn is_big_endian() -> (b: bool) {
        true
    }
}

impl ByteOrder for LittleEndian {
    open spec fn spec_big_endian() -> bool {
        false
    }

    fn is_big_endian() -> (b: bool) {
        false
    }
}

// ---------------------------------------------------------------------------
// Unsigned integers from bytes and back.
// ---------------------------------------------------------------------------

/// The number that 2 bytes stand for, `b[0]` first in memory.
pub open spec fn u16_of(b0: u8, b1: u8, big: bool) -> u16 {
    if big {
        (b0 * 256 + b1) as u16
    } else {
        (b1 * 256 + b0) as u16
    }
}

/// The number that 4 bytes stand for.
pub open spec fn u32_of(b0: u8, b1: u8, b2: u8, b3: u8, big: bool) -> u32 {
    if big {
        (b0 * 0x100_0000 + b1 * 0x1_0000 + b2 * 0x100 + b3) as u32
    } else {
        (b3 * 0x100_0000 + b2 * 0x1_0000 + b1 * 0x100 + b0) as u32
    }
}

/// The number that the 4 bytes from the most significant down stand for.
pub open spec fn u32_be(b0: u8, b1: u8, b2: u8, b3: u8) -> int {
    b0 * 0x100_0000 + b1 * 0x1_0000 + b2 * 0x100 + b3
}

/// The number that 8 bytes stand for.
pub open spec fn u64_of(b: Seq<u8>, big: bool) -> u64 {
    if big {
        (u32_be(b[0], b[1], b[2], b[3]) * 0x1_0000_0000 + u32_be(b[4], b[5], b[6], b[7])) as u64
    } else {
        (u32_be(b[7], b[6], b[5], b[4]) * 0x1_0000_0000 + u32_be(b[3], b[2], b[1], b[0])) as u64
    }
}

/// The 2 bytes of `x` in the given byte order.
pub open spec fn u16_bytes(x: u16, big: bool) -> Seq<u8> {
    let hi = (x / 0x100) as u8;
    let lo = (x % 0x100) as u8;
    if big { seq![hi, lo] } else { seq![lo, hi] }
}

/// The 4 bytes of `x` in the given byte order.
pub open spec fn u32_bytes(x: u32, big: bool) -> Seq<u8> {
    let c0 = (x % 0x100) as u8;
    let c1 = ((x / 0x100) % 0x100) as u8;
    let c2 = ((x / 0x1_0000) % 0x100) as u8;
    let c3 = (x / 0x100_0000) as u8;
    if big { seq![c3, c2, c1, c0] } else { seq![c0, c1, c2, c3] }
}

/// The 8 bytes of `x` in the given byte order.
pub open spec fn u64_bytes(x: u64, big: bool) -> Seq<u8> {
    let hi = (x / 0x1_0000_0000) as u32;
    let lo = (x % 0x1_0000_0000) as u32;
    if big {
        u32_bytes(hi, true) + u32_bytes(lo, true)
    } else {
        u32_bytes(lo, false) + u32_bytes(hi, false)
    }
}

/// The number that the 2 bytes at `p` of `b` stand for.
pub open spec fn u16_at(b: Seq<u8>, p: int, big: bool) -> u16 {
    u16_of(b[p], b[p + 1], big)
}

/// The number that the 4 bytes at `p` of `b` stand for.
pub open spec fn u32_at(b: Seq<u8>, p: int, big: bool) -> u32 {
    u32_of(b[p], b[p + 1], b[p + 2], b[p + 3], big)
}

/// The number that the 8 bytes at `p` of `b` stand for.
pub open spec fn u64_at(b: Seq<u8>, p: int, big: bool) -> u64 {
    u64_of(b.subrange(p, p + 8), big)
}

// ---------------------------------------------------------------------------
// Two's complement.
// ---------------------------------------------------------------------------

pub open spec fn i8_of(x: u8) -> i8 {
    if x < 0x80 { x as i8 } else { (x - 0x100) as i8 }
}

pub open spec fn u8_of_i8(x: i8) -> u8 {
    if x >= 0 { x as u8 } else { (x + 0x100) as u8 }
}

pub open spec fn i16_of(x: u16) -> i16 {
    if x < 0x8000 { x as i16 } else { (x - 0x1_0000) as i16 }
}

pub open spec fn u16_of_i16(x: i16) -> u16 {
    if x >= 0 { x as u16 } else { (x + 0x1_0000) as u16 }
}

pub open spec fn i32_of(x: u32) -> i32 {
    if x < 0x8000_0000 { x as i32 } else { (x - 0x1_0000_0000) as i32 }
}

pub open spec fn u32_of_i32(x: i32) -> u32 {
    if x >= 0 { x as u32 } else { (x + 0x1_0000_0000) as u32 }
}

pub open spec fn i64_of(x: u64) -> i64 {
    if x < 0x8000_0000_0000_0000 { x as i64 } else { (x - 0x1_0000_0000_0000_0000) as i64 }
}

pub open spec fn u64_of_i64(x: i64) -> u64 {
    if x >= 0 { x as u64 } else { (x + 0x1_0000_0000_0000_0000) as u64 }
}

pub fn i8_from_u8(x: u8) -> (r: i8)
    ensures
        r == i8_of(x),
{
    if x < 0x80 { x as i8 } else { (x as i16 - 0x100) as i8 }
}

pub fn u8_from_i8(x: i8) -> (r: u8)
    ensures
        r == u8_of_i8(x),
{
    if x >= 0 { x as u8 } else { (x as i16 + 0x100) as u8 }
}

pub fn i16_from_u16(x: u16) -> (r: i16)
    ensures
        r == i16_of(x),
{
    if x < 0x8000 { x as i16 } else { (x as i32 - 0x1_0000) as i16 }
}

pub fn u16_from_i16(x: i16) -> (r: u16)
    ensures
        r == u16_of_i16(x),
{
    if x >= 0 { x as u16 } else { (x as i32 + 0x1_0000) as u16 }
}

pub fn i32_from_u32(x: u32) -> (r: i32)
    ensures
        r == i32_of(x),
{
    if x < 0x8000_0000 { x as i32 } else { (x as i64 - 0x1_0000_0000) as i32 }
}

pub fn u32_from_i32(x: i32) -> (r: u32)
    ensures
        r == u32_of_i32(x),
{
    if x >= 0 { x as u32 } else { (x as i64 + 0x1_0000_0000) as u32 }
}

pub fn i64_from_u64(x: u64) -> (r: i64)
    ensures
        r == i64_of(x),
{
    if x < 0x8000_0000_0000_0000 { x as i64 } else { (x as i128 - 0x1_0000_0000_0000_0000) as i64 }
}

pub fn u64_from_i64(x: i64) -> (r: u64)
    ensures
        r == u64_of_i64(x),
{
    if x >= 0 { x as u64 } else { (x as i128 + 0x1_0000_0000_0000_0000) as u64 }
}

/// Two's complement conversions undo each other.
pub proof fn lemma_twos_complement_roundtrip(a: i8, b: i16, c: i32, d: i64)
    ensures
        i8_of(u8_of_i8(a)) == a,
        i16_of(u16_of_i16(b)) == b,
        i32_of(u32_of_i32(c)) == c,
        i64_of(u64_of_i64(d)) == d,
{
}

// ---------------------------------------------------------------------------
// Reading numbers out of a byte slice.
// ---------------------------------------------------------------------------

/// Reads the 2-byte number at `p`.
pub fn read_u16(b: &[u8], p: usize, big: bool) -> (r: u16)
    requires
        p + 2 <= b@.len(),
    ensures
        r == u16_at(b@, p as int, big),
{
    let b0 = b[p] as u16;
    let b1 = b[p + 1] as u16;
    if big {
        b0 * 256 + b1
    } else {
        b1 * 256 + b0
    }
}

/// Reads the 4-byte number at `p`.
pub fn read_u32(b: &[u8], p: usize, big: bool) -> (r: u32)
    requires
        p + 4 <= b@.len(),
    ensures
        r == u32_at(b@, p as int, big),
{
    let b0 = b[p] as u32;
    let b1 = b[p + 1] as u32;
    let b2 = b[p + 2] as u32;
    let b3 = b[p + 3] as u32;
    if big {
        b0 * 0x100_0000 + b1 * 0x1_0000 + b2 * 0x100 + b3
    } else {
        b3 * 0x100_0000 + b2 * 0x1_0000 + b1 * 0x100 + b0
    }
}

/// Reads the 8-byte number at `p`.
pub fn read_u64(b: &[u8], p: usize, big: bool) -> (r: u64)
    requires
        p + 8 <= b@.len(),
    ensures
        r == u64_at(b@, p as int, big),
{
    let ghost s = b@.subrange(p as int, p + 8);
    let n = b.len();
    let q: usize = p + 4;
    let (hi, lo) = if big {
        (read_u32(b, p, true) as u64, read_u32(b, q, true) as u64)
    } else {
        (read_u32(b, q, false) as u64, read_u32(b, p, false) as u64)
    };
    assert(hi < 0x1_0000_0000 && lo < 0x1_0000_0000);
    proof {
        assert(s[0] == b@[p as int] && s[1] == b@[p + 1] && s[2] == b@[p + 2] && s[3] == b@[p + 3]);
        assert(s[4] == b@[p + 4] && s[5] == b@[p + 5] && s[6] == b@[p + 6] && s[7] == b@[p + 7]);
        assert(hi * 0x1_0000_0000 + lo <= 0xffff_ffff_ffff_ffff) by (nonlinear_arith)
            requires
                hi < 0x1_0000_0000,
                lo < 0x1_0000_0000,
        ;
    }
    hi * 0x1_0000_0000 + lo
}

// ---------------------------------------------------------------------------
// Writing numbers into a byte vector.
// ---------------------------------------------------------------------------

/// Appends the 2 bytes of `x` to `out`.
pub fn push_u16(out: &mut Vec<u8>, x: u16, big: bool)
    ensures
        final(out)@ == old(out)@ + u16_bytes(x, big),
{
    let lo = (x % 0x100) as u8;
    let hi = (x / 0x100) as u8;
    if big {
        out.push(hi);
        out.push(lo);
    } else {
        out.push(lo);
        out.push(hi);
    }
    assert(final(out)@ =~= old(out)@ + u16_bytes(x, big));
}

/// Appends the 4 bytes of `x` to `out`.
pub fn push_u32(out: &mut Vec<u8>, x: u32, big: bool)
    ensures
        final(out)@ == old(out)@ + u32_bytes(x, big),
{
    let c0 = (x % 0x100) as u8;
    let c1 = ((x / 0x100) % 0x100) as u8;
    let c2 = ((x / 0x1_0000) % 0x100) as u8;
    let c3 = (x / 0x100_0000) as u8;
    if big {
        out.push(c3);
        out.push(c2);
        out.push(c1);
        out.push(c0);
    } else {
        out.push(c0);
        out.push(c1);
        out.push(c2);
        out.push(c3);
    }
    assert(final(out)@ =~= old(out)@ + u32_bytes(x, big));
}

/// Appends the 8 bytes of `x` to `out`.
pub fn push_u64(out: &mut Vec<u8>, x: u64, big: bool)
    ensures
        final(out)@ == old(out)@ + u64_bytes(x, big),
{
    let hi = (x / 0x1_0000_0000) as u32;
    let lo = (x % 0x1_0000_0000) as u32;
    if big {
        push_u32(out, hi, true);
        push_u32(out, lo, true);
    } else {
        push_u32(out, lo, false);
        push_u32(out, hi, false);
    }
    assert(final(out)@ =~= old(out)@ + u64_bytes(x, big));
}

// ---------------------------------------------------------------------------
// The encodings undo each other.
// ---------------------------------------------------------------------------

/// Reading back the 2 bytes written for `x` gives `x`.
pub proof fn lemma_u16_roundtrip(x: u16, big: bool)
    ensures
        u16_bytes(x, big).len() == 2,
        u16_of(u16_bytes(x, big)[0], u16_bytes(x, big)[1], big) == x,
{
}

/// Reading back the 4 bytes written for `x` gives `x`.
pub proof fn lemma_u32_roundtrip(x: u32, big: bool)
    ensures
        u32_bytes(x, big).len() == 4,
        u32_of(
            u32_bytes(x, big)[0],
            u32_bytes(x, big)[1],
            u32_bytes(x, big)[2],
            u32_bytes(x, big)[3],
            big,
        ) == x,
{
    let c0 = (x % 0x100) as int;
    let c1 = ((x / 0x100) % 0x100) as int;
    let c2 = ((x / 0x1_0000) % 0x100) as int;
    let c3 = (x / 0x100_0000) as int;
    assert(c3 * 0x100_0000 + c2 * 0x1_0000 + c1 * 0x100 + c0 == x) by (nonlinear_arith)
        requires
            c0 == x % 0x100,
            c1 == (x / 0x100) % 0x100,
            c2 == (x / 0x1_0000) % 0x100,
            c3 == x / 0x100_0000,
            0 <= x < 0x1_0000_0000,
    ;
    assert(c3 < 0x100) by (nonlinear_arith)
        requires
            c3 == x / 0x100_0000,
            0 <= x < 0x1_0000_0000,
    ;
}

/// Reading back the 8 bytes written for `x` gives `x`.
pub proof fn lemma_u64_roundtrip(x: u64, big: bool)
    ensures
        u64_bytes(x, big).len() == 8,
        u64_of(u64_bytes(x, big), big) == x,
{
    let hi = (x / 0x1_0000_0000) as u32;
    let lo = (x % 0x1_0000_0000) as u32;
    lemma_u32_roundtrip(hi, big);
    lemma_u32_roundtrip(lo, big);
    let s = u64_bytes(x, big);
    let h = u32_bytes(hi, big);
    let l = u32_bytes(lo, big);
    if big {
        assert(s[0] == h[0] && s[1] == h[1] && s[2] == h[2] && s[3] == h[3]);
        assert(s[4] == l[0] && s[5] == l[1] && s[6] == l[2] && s[7] == l[3]);
    } else {
        assert(s[0] == l[0] && s[1] == l[1] && s[2] == l[2] && s[3] == l[3]);
        assert(s[4] == h[0] && s[5] == h[1] && s[6] == h[2] && s[7] == h[3]);
    }
}

/// Writing back the number that 2 bytes stand for gives those bytes.
pub proof fn lemma_u16_bytes_of(b0: u8, b1: u8, big: bool)
    ensures
        u16_bytes(u16_of(b0, b1, big), big) == seq![b0, b1],
{
    assert(u16_bytes(u16_of(b0, b1, big), big) =~= seq![b0, b1]);
}

/// Writing back the number that 4 bytes stand for gives those bytes.
pub proof fn lemma_u32_bytes_of(b0: u8, b1: u8, b2: u8, b3: u8, big: bool)
    ensures
        u32_bytes(u32_of(b0, b1, b2, b3, big), big) == seq![b0, b1, b2, b3],
{
    let x = u32_of(b0, b1, b2, b3, big);
    let (d3, d2, d1, d0) = if big { (b0, b1, b2, b3) } else { (b3, b2, b1, b0) };
    assert(x == d3 * 0x100_0000 + d2 * 0x1_0000 + d1 * 0x100 + d0);
    assert(x % 0x100 == d0 && (x / 0x100) % 0x100 == d1 && (x / 0x1_0000) % 0x100 == d2 && x
        / 0x100_0000 == d3) by (nonlinear_arith)
        requires
            x == d3 * 0x100_0000 + d2 * 0x1_0000 + d1 * 0x100 + d0,
            0 <= d0 < 0x100,
            0 <= d1 < 0x100,
            0 <= d2 < 0x100,
            0 <= d3 < 0x100,
    ;
    assert(u32_bytes(x, big) =~= seq![b0, b1, b2, b3]);
}

/// Two's complement conversions undo each other, the other way round.
pub proof fn lemma_twos_complement_inverse(a: u8, b: u16, c: u32, d: u64)
    ensures
        u8_of_i8(i8_of(a)) == a,
        u16_of_i16(i16_of(b)) == b,
        u32_of_i32(i32_of(c)) == c,
        u64_of_i64(i64_of(d)) == d,
{
}

/// Writing back the number that 8 bytes stand for gives those bytes.
pub proof fn lemma_u64_bytes_of(s: Seq<u8>, big: bool)
    requires
        s.len() == 8,
    ensures
        u64_bytes(u64_of(s, big), big) == s,
{
    let x = u64_of(s, big);
    let (hi, lo) = if big {
        (u32_be(s[0], s[1], s[2], s[3]), u32_be(s[4], s[5], s[6], s[7]))
    } else {
        (u32_be(s[7], s[6], s[5], s[4]), u32_be(s[3], s[2], s[1], s[0]))
    };
    assert(0 <= hi < 0x1_0000_0000 && 0 <= lo < 0x1_0000_0000);
    assert(x == hi * 0x1_0000_0000 + lo);
    assert(x / 0x1_0000_0000 == hi && x % 0x1_0000_0000 == lo) by (nonlinear_arith)
        requires
            x == hi * 0x1_0000_0000 + lo,
            0 <= lo < 0x1_0000_0000,
            0 <= hi,
    ;
    if big {
        lemma_u32_bytes_of(s[0], s[1], s[2], s[3], true);
        lemma_u32_bytes_of(s[4], s[5], s[6], s[7], true);
    } else {
        lemma_u32_bytes_of(s[4], s[5], s[6], s[7], false);
        lemma_u32_bytes_of(s[0], s[1], s[2], s[3], false);
    }
    assert(u64_bytes(x, big) =~= s);
}

/// What the byte orders mean: in big endian the bytes of a number are its
/// base-256 digits, most significant first; in little endian, least
/// significant first.
pub proof fn lemma_byte_order_meaning(a: u16, b: u32, c: u64)
    ensures
        u16_bytes(a, true)[0] * 0x100 + u16_bytes(a, true)[1] == a,
        u16_bytes(a, false)[0] + u16_bytes(a, false)[1] * 0x100 == a,
        u32_bytes(b, true)[0] * 0x100_0000 + u32_bytes(b, true)[1] * 0x1_0000 + u32_bytes(b, true)[2]
            * 0x100 + u32_bytes(b, true)[3] == b,
        u32_bytes(b, false)[0] + u32_bytes(b, false)[1] * 0x100 + u32_bytes(b, false)[2] * 0x1_0000
            + u32_bytes(b, false)[3] * 0x100_0000 == b,
        u64_bytes(c, true).subrange(0, 4) == u32_bytes((c / 0x1_0000_0000) as u32, true),
        u64_bytes(c, true).subrange(4, 8) == u32_bytes((c % 0x1_0000_0000) as u32, true),
        u64_bytes(c, false).subrange(0, 4) == u32_bytes((c % 0x1_0000_0000) as u32, false),
        u64_bytes(c, false).subrange(4, 8) == u32_bytes((c / 0x1_0000_0000) as u32, false),
{
    let x = b as int;
    let q1 = x / 0x100;
    let q2 = q1 / 0x100;
    assert(x == q1 * 0x100 + x % 0x100);
    assert(q1 == q2 * 0x100 + q1 % 0x100);
    assert(q2 == (q2 / 0x100) * 0x100 + q2 % 0x100);
    assert(x / 0x1_0000 == q2) by (nonlinear_arith)
        requires
            q1 == x / 0x100,
            q2 == q1 / 0x100,
            x >= 0,
    ;
    assert(x / 0x100_0000 == q2 / 0x100) by (nonlinear_arith)
        requires
            q1 == x / 0x100,
            q2 == q1 / 0x100,
            x >= 0,
    ;
    assert(q2 / 0x100 < 0x100);
    let hi = (c / 0x1_0000_0000) as u32;
    let lo = (c % 0x1_0000_0000) as u32;
    assert(u64_bytes(c, true).subrange(0, 4) =~= u32_bytes(hi, true));
    assert(u64_bytes(c, true).subrange(4, 8) =~= u32_bytes(lo, true));
    assert(u64_bytes(c, false).subrange(0, 4) =~= u32_bytes(lo, false));
    assert(u64_bytes(c, false).subrange(4, 8) =~= u32_bytes(hi, false));
}

} // verus!
