//! Whole documents: a root tag, its name and its payload.
use vstd::prelude::*;

use crate::byte_order::{ByteOrder, push_u16, push_u32, read_u16, u16_at, u16_bytes};
use crate::error::Error;
use crate::model::{Nbt, encode, encode_named, nbt_tag, parse_payload, wf};
use crate::read::{read_payload, value_result};
use crate::refs::RefValue;
use crate::roundtrip::{holds_at, lemma_parse_encode};
use crate::value::{OwnCompound, OwnList, OwnValue};
use crate::mutf8::MUTF8Str;
use crate::write::{
    push_bytes, push_i32s, push_i64s, push_i8s, value_tag_byte, write_compound_payload,
    write_list_payload, write_payload,
};

verus! {

/// The bytes written for a value standing alone: an End is its tag byte
/// only; any other value has its tag byte, an empty name and its payload.
pub open spec fn encode_root(v: Nbt, big: bool) -> Seq<u8> {
    if nbt_tag(v) == 0 {
        seq![0u8]
    } else {
        encode_named(Seq::empty(), v, big)
    }
}

/// What `read_owned` returns for a document: the root tag must name a tag
/// type other than End, the name is skipped, the payload is read, and no
/// byte may be left after it.
pub open spec fn parse_root(b: Seq<u8>, big: bool) -> Result<Nbt, Error> {
    if b.len() < 1 {
        Err(Error::EOF)
    } else if b[0] > 12 || b[0] == 0 {
        Err(Error::INVALID(b[0]))
    } else if b.len() < 3 {
        Err(Error::EOF)
    } else if 3 + u16_at(b, 1, big) > b.len() {
        Err(Error::EOF)
    } else {
        match parse_payload(b[0], b, 3 + u16_at(b, 1, big), big, false) {
            Ok((v, q)) => if q == b.len() {
                Ok(v)
            } else {
                Err(Error::REMAIN((b.len() - q) as usize))
            },
            Err(e) => Err(e),
        }
    }
}

/// Reads the payload of tag `tag_id` at `pos` of `data`, numbers in the
/// byte order `O`; returns the value and the position after it.
pub fn read_unsafe<O: ByteOrder>(tag_id: u8, data: &[u8], pos: usize) -> (r: Result<
    (OwnValue, usize),
    Error,
>)
    requires
        tag_id != 0,
        pos <= data@.len(),
    ensures
        value_result(r) == parse_payload(tag_id, data@, pos as int, O::spec_big_endian(), false),
        r matches Ok((v, _)) ==> wf(v@) && nbt_tag(v@) == tag_id,
{
    proof {
        crate::canonical::lemma_encode_parse(tag_id, data@, pos as int, O::spec_big_endian(), false);
    }
    read_payload(tag_id, data, pos, O::is_big_endian(), false)
}

/// Reads the payload of tag `tag_id` at `pos` of `data`, numbers in the
/// byte order `O`, to be kept and written in the byte order `R`. The list
/// headers are checked eagerly (see `parse_payload`).
pub fn read_unsafe_fallback<O: ByteOrder, R: ByteOrder>(tag_id: u8, data: &[u8], pos: usize) -> (r:
    Result<(OwnValue, usize), Error>)
    requires
        tag_id != 0,
        pos <= data@.len(),
    ensures
        value_result(r) == parse_payload(tag_id, data@, pos as int, O::spec_big_endian(), true),
        r matches Ok((v, _)) ==> wf(v@) && nbt_tag(v@) == tag_id,
{
    proof {
        crate::canonical::lemma_encode_parse(tag_id, data@, pos as int, O::spec_big_endian(), true);
    }
    read_payload(tag_id, data, pos, O::is_big_endian(), true)
}

/// Reads a whole document, numbers in the byte order `O`.
pub fn read_owned<O: ByteOrder>(data: &[u8]) -> (r: Result<OwnValue, Error>)
    ensures
        match r {
            Ok(v) => parse_root(data@, O::spec_big_endian()) == Ok::<Nbt, Error>(v@),
            Err(e) => parse_root(data@, O::spec_big_endian()) == Err::<Nbt, Error>(e),
        },
        r matches Ok(v) ==> wf(v@) && nbt_tag(v@) != 0,
{
    let big = O::is_big_endian();
    let len = data.len();
    if len < 1 {
        return Err(Error::EOF);
    }
    let t = data[0];
    if t > 12 || t == 0 {
        return Err(Error::INVALID(t));
    }
    if len < 3 {
        return Err(Error::EOF);
    }
    let nl = read_u16(data, 1, big) as usize;
    if nl > len - 3 {
        return Err(Error::EOF);
    }
    proof {
        crate::canonical::lemma_encode_parse(t, data@, 3 + nl, big, false);
    }
    match read_payload(t, data, 3 + nl, big, false) {
        Ok((v, q)) => {
            if q == len {
                Ok(v)
            } else {
                Err(Error::REMAIN(len - q))
            }
        },
        Err(e) => Err(e),
    }
}

/// Appends the payload of a compound (its entries and the closing End),
/// numbers in the byte order `O`.
pub fn write_compound<O: ByteOrder>(c: &OwnCompound, out: &mut Vec<u8>)
    ensures
        final(out)@ == old(out)@ + encode(Nbt::Compound(c@), O::spec_big_endian()),
{
    write_compound_payload(c, O::is_big_endian(), out)
}

/// Appends the payload of a list (element tag, length, elements), numbers
/// in the byte order `O`.
pub fn write_list<O: ByteOrder>(l: &OwnList, out: &mut Vec<u8>)
    ensures
        final(out)@ == old(out)@ + encode(Nbt::List(l.tag, l@), O::spec_big_endian()),
{
    write_list_payload(l, O::is_big_endian(), out)
}

/// Appends the payload of a compound read in the byte order `O`, with its
/// numbers in the byte order `R`.
pub fn write_compound_fallback<O: ByteOrder, R: ByteOrder>(c: &OwnCompound, out: &mut Vec<u8>)
    ensures
        final(out)@ == old(out)@ + encode(Nbt::Compound(c@), R::spec_big_endian()),
{
    write_compound_payload(c, R::is_big_endian(), out)
}

/// Appends the payload of a list read in the byte order `O`, with its
/// numbers in the byte order `R`.
pub fn write_list_fallback<O: ByteOrder, R: ByteOrder>(l: &OwnList, out: &mut Vec<u8>)
    ensures
        final(out)@ == old(out)@ + encode(Nbt::List(l.tag, l@), R::spec_big_endian()),
{
    write_list_payload(l, R::is_big_endian(), out)
}

/// Writes a value standing alone (see `encode_root`), numbers in the byte
/// order `TARGET`.
pub fn write_value_to_vec<TARGET: ByteOrder>(v: &OwnValue) -> (r: Vec<u8>)
    ensures
        r@ == encode_root(v@, TARGET::spec_big_endian()),
{
    let mut out: Vec<u8> = Vec::new();
    let t = value_tag_byte(v);
    out.push(t);
    if t == 0 {
        assert(out@ =~= encode_root(v@, TARGET::spec_big_endian()));
        return out;
    }
    push_u16(&mut out, 0, TARGET::is_big_endian());
    write_payload(v, TARGET::is_big_endian(), &mut out);
    assert(out@ =~= encode_root(v@, TARGET::spec_big_endian()));
    out
}

/// Values that can be written as a document of their own.
pub trait Writable {
    /// The value that is written.
    spec fn spec_value(&self) -> Nbt;

    /// The bytes of the value standing alone (see `encode_root`), numbers in
    /// the byte order `TARGET`.
    fn write_to_vec<TARGET: ByteOrder>(&self) -> (r: Vec<u8>)
        ensures
            r@ == encode_root(self.spec_value(), TARGET::spec_big_endian()),
    ;
}

impl Writable for OwnValue {
    open spec fn spec_value(&self) -> Nbt {
        self@
    }

    fn write_to_vec<TARGET: ByteOrder>(&self) -> (r: Vec<u8>) {
        write_value_to_vec::<TARGET>(self)
    }
}

impl Writable for OwnList {
    open spec fn spec_value(&self) -> Nbt {
        Nbt::List(self.tag, self@)
    }

    fn write_to_vec<TARGET: ByteOrder>(&self) -> (r: Vec<u8>) {
        let mut out: Vec<u8> = Vec::new();
        out.push(9);
        push_u16(&mut out, 0, TARGET::is_big_endian());
        write_list_payload(self, TARGET::is_big_endian(), &mut out);
        assert(out@ =~= encode_root(self.spec_value(), TARGET::spec_big_endian()));
        out
    }
}

impl Writable for OwnCompound {
    open spec fn spec_value(&self) -> Nbt {
        Nbt::Compound(self@)
    }

    fn write_to_vec<TARGET: ByteOrder>(&self) -> (r: Vec<u8>) {
        let mut out: Vec<u8> = Vec::new();
        out.push(10);
        push_u16(&mut out, 0, TARGET::is_big_endian());
        write_compound_payload(self, TARGET::is_big_endian(), &mut out);
        assert(out@ =~= encode_root(self.spec_value(), TARGET::spec_big_endian()));
        out
    }
}

impl Writable for () {
    open spec fn spec_value(&self) -> Nbt {
        Nbt::End
    }

    fn write_to_vec<TARGET: ByteOrder>(&self) -> (r: Vec<u8>) {
        let mut out: Vec<u8> = Vec::new();
        out.push(0);
        assert(out@ =~= encode_root(self.spec_value(), TARGET::spec_big_endian()));
        out
    }
}

impl Writable for i8 {
    open spec fn spec_value(&self) -> Nbt {
        Nbt::Byte(*self)
    }

    fn write_to_vec<TARGET: ByteOrder>(&self) -> (r: Vec<u8>) {
        write_value_to_vec::<TARGET>(&OwnValue::Byte(*self))
    }
}

impl Writable for i16 {
    open spec fn spec_value(&self) -> Nbt {
        Nbt::Short(*self)
    }

    fn write_to_vec<TARGET: ByteOrder>(&self) -> (r: Vec<u8>) {
        write_value_to_vec::<TARGET>(&OwnValue::Short(*self))
    }
}

impl Writable for i32 {
    open spec fn spec_value(&self) -> Nbt {
        Nbt::Int(*self)
    }

    fn write_to_vec<TARGET: ByteOrder>(&self) -> (r: Vec<u8>) {
        write_value_to_vec::<TARGET>(&OwnValue::Int(*self))
    }
}

impl Writable for i64 {
    open spec fn spec_value(&self) -> Nbt {
        Nbt::Long(*self)
    }

    fn write_to_vec<TARGET: ByteOrder>(&self) -> (r: Vec<u8>) {
        write_value_to_vec::<TARGET>(&OwnValue::Long(*self))
    }
}

impl Writable for [i8] {
    open spec fn spec_value(&self) -> Nbt {
        Nbt::ByteArray(self@)
    }

    fn write_to_vec<TARGET: ByteOrder>(&self) -> (r: Vec<u8>) {
        let mut out: Vec<u8> = Vec::new();
        out.push(7);
        push_u16(&mut out, 0, TARGET::is_big_endian());
        push_u32(&mut out, self.len() as u32, TARGET::is_big_endian());
        push_i8s(&mut out, self);
        assert(out@ =~= encode_root(self.spec_value(), TARGET::spec_big_endian()));
        out
    }
}

impl Writable for [i32] {
    open spec fn spec_value(&self) -> Nbt {
        Nbt::IntArray(self@)
    }

    fn write_to_vec<TARGET: ByteOrder>(&self) -> (r: Vec<u8>) {
        let mut out: Vec<u8> = Vec::new();
        out.push(11);
        push_u16(&mut out, 0, TARGET::is_big_endian());
        push_u32(&mut out, self.len() as u32, TARGET::is_big_endian());
        push_i32s(&mut out, self, TARGET::is_big_endian());
        assert(out@ =~= encode_root(self.spec_value(), TARGET::spec_big_endian()));
        out
    }
}

impl Writable for [i64] {
    open spec fn spec_value(&self) -> Nbt {
        Nbt::LongArray(self@)
    }

    fn write_to_vec<TARGET: ByteOrder>(&self) -> (r: Vec<u8>) {
        let mut out: Vec<u8> = Vec::new();
        out.push(12);
        push_u16(&mut out, 0, TARGET::is_big_endian());
        push_u32(&mut out, self.len() as u32, TARGET::is_big_endian());
        push_i64s(&mut out, self, TARGET::is_big_endian());
        assert(out@ =~= encode_root(self.spec_value(), TARGET::spec_big_endian()));
        out
    }
}

impl<'a> Writable for MUTF8Str<'a> {
    open spec fn spec_value(&self) -> Nbt {
        Nbt::String(self.spec_bytes())
    }

    fn write_to_vec<TARGET: ByteOrder>(&self) -> (r: Vec<u8>) {
        let bytes = self.as_bytes();
        let mut out: Vec<u8> = Vec::new();
        out.push(8);
        push_u16(&mut out, 0, TARGET::is_big_endian());
        push_u16(&mut out, bytes.len() as u16, TARGET::is_big_endian());
        push_bytes(&mut out, bytes);
        assert(out@ =~= encode_root(self.spec_value(), TARGET::spec_big_endian()));
        out
    }
}

/// Lists that can be written as a document of their own.
pub trait WritableList: Writable {}

/// Compounds that can be written as a document of their own.
pub trait WritableCompound: Writable {}

/// Compounds that can be written as a document of their own.
pub trait CompoundBase: Writable {}

impl CompoundBase for OwnCompound {}

impl WritableList for OwnList {}

impl WritableCompound for OwnCompound {}

// ---------------------------------------------------------------------------
// The round trip of a whole document.
// ---------------------------------------------------------------------------

/// A document written for a value that the format can hold (not an End) is
/// read back as that value, in either byte order.
pub proof fn lemma_root_roundtrip(v: Nbt, big: bool)
    requires
        wf(v),
        nbt_tag(v) != 0,
    ensures
        parse_root(encode_root(v, big), big) == Ok::<Nbt, Error>(v),
{
    let b = encode_root(v, big);
    let e = encode(v, big);
    assert(b =~= seq![nbt_tag(v)] + u16_bytes(0, big) + e);
    assert(b.subrange(3, 3 + e.len() as int) =~= e);
    assert(u16_at(b, 1, big) == 0);
    lemma_parse_encode(v, b, 3, big, false);
}

/// A document read in one byte order and written in another (or the same)
/// is read back, in the order it was written in, as the value that was read.
pub proof fn lemma_byte_order_conversion(b: Seq<u8>, from_big: bool, to_big: bool)
    requires
        parse_root(b, from_big) is Ok,
    ensures
        parse_root(encode_root(parse_root(b, from_big)->Ok_0, to_big), to_big) == parse_root(
            b,
            from_big,
        ),
{
    let p = 3 + u16_at(b, 1, from_big);
    crate::canonical::lemma_encode_parse(b[0], b, p, from_big, false);
    let v = parse_root(b, from_big)->Ok_0;
    lemma_root_roundtrip(v, to_big);
}

/// A document whose root has a name of any length is read as the payload
/// that follows the name, in either byte order.
pub proof fn lemma_named_root_roundtrip(v: Nbt, name: Seq<u8>, big: bool)
    requires
        wf(v),
        nbt_tag(v) != 0,
        name.len() <= u16::MAX,
    ensures
        parse_root(
            seq![nbt_tag(v)] + u16_bytes(name.len() as u16, big) + name + encode(v, big),
            big,
        ) == Ok::<Nbt, Error>(v),
{
    let h = u16_bytes(name.len() as u16, big);
    let e = encode(v, big);
    let b = seq![nbt_tag(v)] + h + name + e;
    assert(b.subrange(1, 3) =~= h);
    crate::roundtrip::lemma_u16_read_back(name.len() as u16, b, 1, big);
    assert(b[0] == nbt_tag(v));
    let p: int = 3 + name.len() as int;
    assert(b.subrange(p, p + e.len() as int) =~= e);
    lemma_parse_encode(v, b, p, big, false);
}

} // verus!
