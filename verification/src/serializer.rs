//! The byte-level half of the serde serializer.
//!
//! A Rust value is written as one NBT payload: numbers in the byte order
//! `O`, strings as length-prefixed Modified UTF-8, options, tuples and
//! heterogeneous sequences as "wrapped" lists of compounds whose single
//! entry has an empty name, maps and structs as compounds. The walk over a
//! value is serde's; every byte that walk writes is written by a function
//! of this module.
use core::marker::PhantomData;
use vstd::prelude::*;

use crate::byte_order::{
    u16_at, push_u16, push_u32, push_u64, u16_bytes, u16_of_i16, u32_bytes, u32_of_i32, u64_bytes,
    u64_of_i64, u8_of_i8, ByteOrder,
};
use crate::error::Error;
use crate::mutf8::{fits_codec, mutf8_encode, mutf8_encoding};
use crate::tag::{tag_byte, TagID};
use crate::write::push_bytes;

verus! {

/// 2^32.
pub open spec fn pow32() -> int {
    0x1_0000_0000
}

/// 2^64.
pub open spec fn pow64() -> int {
    0x1_0000_0000_0000_0000
}

/// 2^96.
pub open spec fn pow96() -> int {
    0x1_0000_0000_0000_0000_0000_0000
}

/// The 128 bits of an `i128` as an unsigned number.
pub open spec fn i128_bits(v: i128) -> int {
    if v < 0 {
        v + 0x1_0000_0000_0000_0000_0000_0000_0000_0000
    } else {
        v as int
    }
}

/// The payload written for 128 bits `u`: an Int Array of length 4 holding
/// the four 32-bit words of `u`, the most significant first.
pub open spec fn words_payload(u: int, big: bool) -> Seq<u8> {
    u32_bytes(4, big) + u32_bytes((u / pow96()) as u32, big) + u32_bytes(
        ((u / pow64()) % pow32()) as u32,
        big,
    ) + u32_bytes(((u / pow32()) % pow32()) as u32, big) + u32_bytes((u % pow32()) as u32, big)
}

/// A string payload: the length as 2 bytes, then the bytes.
pub open spec fn string_payload(encoded: Seq<u8>, big: bool) -> Seq<u8> {
    u16_bytes(encoded.len() as u16, big) + encoded
}

/// The head of a compound entry: tag byte, name length, name bytes.
pub open spec fn entry_head(tag: u8, encoded: Seq<u8>, big: bool) -> Seq<u8> {
    seq![tag] + string_payload(encoded, big)
}

/// The head of a wrapped list of `n` elements: the element tag Compound and
/// the length.
pub open spec fn wrapped_list_head(n: u32, big: bool) -> Seq<u8> {
    seq![10u8] + u32_bytes(n, big)
}

/// `s` with the 4 bytes at `p` replaced by `w`.
pub open spec fn patch4(s: Seq<u8>, p: int, w: Seq<u8>) -> Seq<u8> {
    s.subrange(0, p) + w + s.subrange(p + 4, s.len() as int)
}

/// A known sequence length that does not fit the 4-byte length field.
pub open spec fn seq_len_too_long(len: Option<usize>) -> bool {
    match len {
        Some(n) => n > u32::MAX,
        None => false,
    }
}

/// Writes values as NBT payloads into a byte vector, numbers in the byte
/// order `O`.
pub struct Serializer<O: ByteOrder> {
    pub vec: Vec<u8>,
    pub marker: PhantomData<O>,
}

/// The state of a heterogeneous sequence being written: where its length
/// field stands, and the count of its elements when that count was not
/// known at the start.
pub struct SeqSerializer {
    pub len_pos: usize,
    pub len: Option<u32>,
}

/// The state of a map being written: where the tag byte of the entry whose
/// key was written last stands.
pub struct MapSerializer {
    pub tag_pos: Option<usize>,
}

/// The state of a native array or homogeneous list being written.
pub struct ArraySerializer {
    /// Where the list's element tag byte stands.
    pub start_pos: usize,
    /// The element tag, End until the first element is written.
    pub element_tag: TagID,
    /// The count of elements, when the length was not known at the start.
    pub len: Option<u32>,
}

impl<O: ByteOrder> Serializer<O> {
    /// A serializer whose output starts with the root header of a document:
    /// the tag byte and an empty name.
    pub fn with_root(tag: TagID) -> (s: Self)
        ensures
            s.vec@ == seq![tag_byte(tag), 0u8, 0u8],
    {
        let mut vec: Vec<u8> = Vec::new();
        vec.push(tag.to_u8());
        vec.push(0);
        vec.push(0);
        Serializer { vec, marker: PhantomData }
    }

    /// The bytes written so far.
    pub fn into_vec(self) -> (v: Vec<u8>)
        ensures
            v@ == self.vec@,
    {
        self.vec
    }

    /// Byte: `1` for `true`, `0` for `false`.
    pub fn serialize_bool(&mut self, v: bool)
        ensures
            final(self).vec@ == old(self).vec@.push(if v { 1u8 } else { 0u8 }),
    {
        self.vec.push(if v { 1u8 } else { 0u8 });
    }

    /// Byte.
    pub fn serialize_i8(&mut self, v: i8)
        ensures
            final(self).vec@ == old(self).vec@.push(u8_of_i8(v)),
    {
        self.vec.push(crate::byte_order::u8_from_i8(v));
    }

    /// Byte, the bits of `v` read as signed.
    pub fn serialize_u8(&mut self, v: u8)
        ensures
            final(self).vec@ == old(self).vec@.push(v),
    {
        self.vec.push(v);
    }

    /// Short.
    pub fn serialize_i16(&mut self, v: i16)
        ensures
            final(self).vec@ == old(self).vec@ + u16_bytes(u16_of_i16(v), O::spec_big_endian()),
    {
        push_u16(&mut self.vec, crate::byte_order::u16_from_i16(v), O::is_big_endian());
    }

    /// Short, the bits of `v` read as signed.
    pub fn serialize_u16(&mut self, v: u16)
        ensures
            final(self).vec@ == old(self).vec@ + u16_bytes(v, O::spec_big_endian()),
    {
        push_u16(&mut self.vec, v, O::is_big_endian());
    }

    /// Int.
    pub fn serialize_i32(&mut self, v: i32)
        ensures
            final(self).vec@ == old(self).vec@ + u32_bytes(u32_of_i32(v), O::spec_big_endian()),
    {
        push_u32(&mut self.vec, crate::byte_order::u32_from_i32(v), O::is_big_endian());
    }

    /// Int, the bits of `v` read as signed.
    pub fn serialize_u32(&mut self, v: u32)
        ensures
            final(self).vec@ == old(self).vec@ + u32_bytes(v, O::spec_big_endian()),
    {
        push_u32(&mut self.vec, v, O::is_big_endian());
    }

    /// Long.
    pub fn serialize_i64(&mut self, v: i64)
        ensures
            final(self).vec@ == old(self).vec@ + u64_bytes(u64_of_i64(v), O::spec_big_endian()),
    {
        push_u64(&mut self.vec, crate::byte_order::u64_from_i64(v), O::is_big_endian());
    }

    /// Long, the bits of `v` read as signed.
    pub fn serialize_u64(&mut self, v: u64)
        ensures
            final(self).vec@ == old(self).vec@ + u64_bytes(v, O::spec_big_endian()),
    {
        push_u64(&mut self.vec, v, O::is_big_endian());
    }

    /// Float, given by its IEEE 754 bits.
    pub fn serialize_f32(&mut self, bits: u32)
        ensures
            final(self).vec@ == old(self).vec@ + u32_bytes(bits, O::spec_big_endian()),
    {
        push_u32(&mut self.vec, bits, O::is_big_endian());
    }

    /// Double, given by its IEEE 754 bits.
    pub fn serialize_f64(&mut self, bits: u64)
        ensures
            final(self).vec@ == old(self).vec@ + u64_bytes(bits, O::spec_big_endian()),
    {
        push_u64(&mut self.vec, bits, O::is_big_endian());
    }

    /// Int Array of length 4: the four 32-bit words of `u`, most significant
    /// first (the layout of a UUID).
    fn push_words(&mut self, u: u128)
        ensures
            final(self).vec@ == old(self).vec@ + words_payload(u as int, O::spec_big_endian()),
    {
        let big = O::is_big_endian();
        let x1 = (u / 0x1_0000_0000_0000_0000_0000_0000) as u32;
        let x2 = ((u / 0x1_0000_0000_0000_0000) % 0x1_0000_0000) as u32;
        let x3 = ((u / 0x1_0000_0000) % 0x1_0000_0000) as u32;
        let x4 = (u % 0x1_0000_0000) as u32;
        let ghost start = self.vec@;
        push_u32(&mut self.vec, 4, big);
        push_u32(&mut self.vec, x1, big);
        push_u32(&mut self.vec, x2, big);
        push_u32(&mut self.vec, x3, big);
        push_u32(&mut self.vec, x4, big);
        assert(self.vec@ =~= start + words_payload(u as int, big));
    }

    /// Int Array of length 4 holding the bits of `v`.
    pub fn serialize_i128(&mut self, v: i128)
        ensures
            final(self).vec@ == old(self).vec@ + words_payload(i128_bits(v), O::spec_big_endian()),
    {
        let u: u128 = if v >= 0 {
            v as u128
        } else {
            ((v - i128::MIN) as u128) + 0x8000_0000_0000_0000_0000_0000_0000_0000
        };
        self.push_words(u);
    }

    /// Int Array of length 4 holding `v`.
    pub fn serialize_u128(&mut self, v: u128)
        ensures
            final(self).vec@ == old(self).vec@ + words_payload(v as int, O::spec_big_endian()),
    {
        self.push_words(v);
    }

    /// Int: the code point of `c`.
    pub fn serialize_char(&mut self, c: char)
        ensures
            final(self).vec@ == old(self).vec@ + u32_bytes(c as u32, O::spec_big_endian()),
    {
        push_u32(&mut self.vec, c as u32, O::is_big_endian());
    }

    /// Appends a string payload of already encoded bytes; a string of 65535
    /// bytes or more is refused and nothing is written.
    pub fn write_string(&mut self, encoded: &[u8]) -> (r: Result<(), Error>)
        ensures
            encoded@.len() >= u16::MAX ==> r == Err::<(), Error>(Error::LEN(encoded@.len() as usize))
                && final(self).vec@ == old(self).vec@,
            encoded@.len() < u16::MAX ==> r is Ok && final(self).vec@ == old(self).vec@
                + string_payload(encoded@, O::spec_big_endian()),
    {
        let len = encoded.len();
        if len >= 65535 {
            return Err(Error::LEN(len));
        }
        push_u16(&mut self.vec, len as u16, O::is_big_endian());
        push_bytes(&mut self.vec, encoded);
        Ok(())
    }

    /// String: the Modified UTF-8 bytes of `v` with their length.
    pub fn serialize_str(&mut self, v: &str) -> (r: Result<(), Error>)
        requires
            fits_codec(v@.len()),
        ensures
            mutf8_encoding(v@).len() >= u16::MAX ==> r == Err::<(), Error>(
                Error::LEN(mutf8_encoding(v@).len() as usize),
            ) && final(self).vec@ == old(self).vec@,
            mutf8_encoding(v@).len() < u16::MAX ==> r is Ok && final(self).vec@ == old(self).vec@
                + string_payload(mutf8_encoding(v@), O::spec_big_endian()),
    {
        let encoded = mutf8_encode(v);
        self.write_string(encoded.as_slice())
    }

    /// Byte Array: the length as 4 bytes, then the bytes; a length of
    /// `u32::MAX` or more is refused and nothing is written.
    pub fn serialize_bytes(&mut self, v: &[u8]) -> (r: Result<(), Error>)
        ensures
            v@.len() >= u32::MAX ==> r == Err::<(), Error>(Error::LEN(v@.len() as usize))
                && final(self).vec@ == old(self).vec@,
            v@.len() < u32::MAX ==> r is Ok && final(self).vec@ == old(self).vec@ + u32_bytes(
                v@.len() as u32,
                O::spec_big_endian(),
            ) + v@,
    {
        let len = v.len();
        if len >= 0xFFFF_FFFF {
            return Err(Error::LEN(len));
        }
        push_u32(&mut self.vec, len as u32, O::is_big_endian());
        push_bytes(&mut self.vec, v);
        Ok(())
    }

    /// An empty compound (unit, unit struct and `None`): its End byte; also
    /// the End that closes a compound.
    pub fn serialize_unit(&mut self)
        ensures
            final(self).vec@ == old(self).vec@.push(0u8),
    {
        self.vec.push(0);
    }

    /// A unit variant: its index as an Int.
    pub fn serialize_unit_variant(&mut self, variant_index: u32)
        ensures
            final(self).vec@ == old(self).vec@ + u32_bytes(variant_index, O::spec_big_endian()),
    {
        self.serialize_u32(variant_index);
    }

    /// Opens a wrapped item `Compound { "" : <value> }` whose value has tag
    /// `tag`: the entry's tag byte and an empty name. `end_wrapped_item`
    /// closes it after the value.
    pub fn begin_wrapped_item(&mut self, tag: TagID)
        ensures
            final(self).vec@ == old(self).vec@ + seq![tag_byte(tag), 0u8, 0u8],
    {
        let ghost start = self.vec@;
        self.vec.push(tag.to_u8());
        self.vec.push(0);
        self.vec.push(0);
        assert(self.vec@ =~= start + seq![tag_byte(tag), 0u8, 0u8]);
    }

    /// Closes a wrapped item: the End of its compound.
    pub fn end_wrapped_item(&mut self)
        ensures
            final(self).vec@ == old(self).vec@.push(0u8),
    {
        self.vec.push(0);
    }

    /// The head of a compound entry named `name` whose value has tag `tag`.
    /// The name's length is written in 2 bytes as it is, cut to its low 16
    /// bits.
    pub fn begin_compound_item(&mut self, name: &str, tag: TagID)
        requires
            fits_codec(name@.len()),
        ensures
            final(self).vec@ == old(self).vec@ + seq![tag_byte(tag)] + u16_bytes(
                (mutf8_encoding(name@).len() % 0x1_0000) as u16,
                O::spec_big_endian(),
            ) + mutf8_encoding(name@),
    {
        let encoded = mutf8_encode(name);
        let n = encoded.len();
        let ghost start = self.vec@;
        self.vec.push(tag.to_u8());
        push_u16(&mut self.vec, (n % 0x1_0000) as u16, O::is_big_endian());
        push_bytes(&mut self.vec, encoded.as_slice());
        assert(self.vec@ =~= start + seq![tag_byte(tag)] + u16_bytes(
            (mutf8_encoding(name@).len() % 0x1_0000) as u16,
            O::spec_big_endian(),
        ) + mutf8_encoding(name@));
    }

    /// The head of a compound entry with an already encoded name; a name of
    /// 65535 bytes or more is refused and nothing is written.
    pub fn write_compound_header(&mut self, tag: TagID, encoded: &[u8]) -> (r: Result<(), Error>)
        ensures
            encoded@.len() >= u16::MAX ==> r == Err::<(), Error>(Error::LEN(encoded@.len() as usize))
                && final(self).vec@ == old(self).vec@,
            encoded@.len() < u16::MAX ==> r is Ok && final(self).vec@ == old(self).vec@
                + entry_head(tag_byte(tag), encoded@, O::spec_big_endian()),
    {
        let len = encoded.len();
        if len >= 65535 {
            return Err(Error::LEN(len));
        }
        let ghost start = self.vec@;
        self.vec.push(tag.to_u8());
        push_u16(&mut self.vec, len as u16, O::is_big_endian());
        push_bytes(&mut self.vec, encoded);
        assert(self.vec@ =~= start + entry_head(tag_byte(tag), encoded@, O::spec_big_endian()));
        Ok(())
    }

    /// The head of a wrapped list of `len` elements; a length above
    /// `u32::MAX` is refused and nothing is written.
    pub fn write_wrapped_list_header(&mut self, len: usize) -> (r: Result<(), Error>)
        ensures
            len > u32::MAX ==> r == Err::<(), Error>(Error::LEN(len)) && final(self).vec@ == old(self).vec@,
            len <= u32::MAX ==> r is Ok && final(self).vec@ == old(self).vec@ + wrapped_list_head(
                len as u32,
                O::spec_big_endian(),
            ),
    {
        if len > 0xFFFF_FFFF {
            return Err(Error::LEN(len));
        }
        let ghost start = self.vec@;
        self.vec.push(10);
        push_u32(&mut self.vec, len as u32, O::is_big_endian());
        assert(self.vec@ =~= start + wrapped_list_head(len as u32, O::spec_big_endian()));
        Ok(())
    }

    /// Starts a heterogeneous sequence: a wrapped list whose length is `len`
    /// when it is known, else 0 until `SeqSerializer::end` writes the count.
    /// A length above `u32::MAX` is refused and nothing is written.
    pub fn serialize_seq(&mut self, len: Option<usize>) -> (r: Result<SeqSerializer, Error>)
        ensures
            seq_len_too_long(len) ==> r == Err::<SeqSerializer, Error>(
                Error::LEN(len.unwrap_or(0)),
            ) && final(self).vec@ == old(self).vec@,
            !seq_len_too_long(len) ==> r is Ok && final(self).vec@ == old(self).vec@
                + wrapped_list_head(len.unwrap_or(0) as u32, O::spec_big_endian())
                && r->Ok_0.len_pos == old(self).vec@.len() + 1 && r->Ok_0.len == (if len is Some {
                None::<u32>
            } else {
                Some(0u32)
            }),
    {
        let n = match len {
            Some(n) => n,
            None => 0,
        };
        match self.write_wrapped_list_header(n) {
            Err(e) => Err(e),
            Ok(()) => Ok(
                SeqSerializer {
                    len_pos: self.vec.len() - 4,
                    len: match len {
                        Some(_) => None,
                        None => Some(0),
                    },
                },
            ),
        }
    }

    /// Starts a tuple (or tuple struct): a wrapped list of `len` elements.
    pub fn serialize_tuple(&mut self, len: usize) -> (r: Result<(), Error>)
        ensures
            len > u32::MAX ==> r == Err::<(), Error>(Error::LEN(len)) && final(self).vec@ == old(self).vec@,
            len <= u32::MAX ==> r is Ok && final(self).vec@ == old(self).vec@ + wrapped_list_head(
                len as u32,
                O::spec_big_endian(),
            ),
    {
        self.write_wrapped_list_header(len)
    }

    /// Starts a tuple variant: `Compound { "<variant>" : List [...] }`, the
    /// entry head of a List named `variant` and a wrapped list of `len`
    /// elements. A name of 65535 bytes or more, or a length above
    /// `u32::MAX`, is refused and nothing is written.
    pub fn serialize_tuple_variant(&mut self, variant: &str, len: usize) -> (r: Result<(), Error>)
        requires
            fits_codec(variant@.len()),
        ensures
            ({
                let enc = mutf8_encoding(variant@);
                let big = O::spec_big_endian();
                &&& enc.len() >= u16::MAX ==> r == Err::<(), Error>(Error::LEN(enc.len() as usize))
                    && final(self).vec@ == old(self).vec@
                &&& enc.len() < u16::MAX && len > u32::MAX ==> r == Err::<(), Error>(
                    Error::LEN(len),
                ) && final(self).vec@ == old(self).vec@
                &&& enc.len() < u16::MAX && len <= u32::MAX ==> r is Ok && final(self).vec@ == old(self).vec@ + entry_head(9u8, enc, big) + wrapped_list_head(len as u32, big)
            }),
    {
        let encoded = mutf8_encode(variant);
        let n = encoded.len();
        if n >= 65535 {
            return Err(Error::LEN(n));
        }
        if len > 0xFFFF_FFFF {
            return Err(Error::LEN(len));
        }
        let _ = self.write_compound_header(TagID::List, encoded.as_slice());
        let _ = self.write_wrapped_list_header(len);
        Ok(())
    }

    /// Starts a map: a compound whose entries come from `MapSerializer`.
    pub fn serialize_map(&self) -> (m: MapSerializer)
        ensures
            m.tag_pos is None,
    {
        MapSerializer { tag_pos: None }
    }

    /// Starts a struct variant: `Compound { "<variant>" : Compound }`, the
    /// entry head of a Compound named `variant`.
    pub fn serialize_struct_variant(&mut self, variant: &str) -> (r: Result<(), Error>)
        requires
            fits_codec(variant@.len()),
        ensures
            mutf8_encoding(variant@).len() >= u16::MAX ==> r == Err::<(), Error>(
                Error::LEN(mutf8_encoding(variant@).len() as usize),
            ) && final(self).vec@ == old(self).vec@,
            mutf8_encoding(variant@).len() < u16::MAX ==> r is Ok && final(self).vec@ == old(self).vec@ + entry_head(10u8, mutf8_encoding(variant@), O::spec_big_endian()),
    {
        let encoded = mutf8_encode(variant);
        self.write_compound_header(TagID::Compound, encoded.as_slice())
    }
}


/// Overwrites the 4 bytes at `p` with the bytes of `x`.
fn patch_u32(v: &mut Vec<u8>, p: usize, x: u32, big: bool)
    requires
        p + 4 <= old(v)@.len(),
    ensures
        final(v)@ == patch4(old(v)@, p as int, u32_bytes(x, big)),
{
    let _len = v.len();
    let mut w: Vec<u8> = Vec::new();
    push_u32(&mut w, x, big);
    assert(w@ =~= u32_bytes(x, big));
    v[p] = w[0];
    v[p + 1] = w[1];
    v[p + 2] = w[2];
    v[p + 3] = w[3];
    assert(v@ =~= patch4(old(v)@, p as int, u32_bytes(x, big)));
}

impl SeqSerializer {
    /// Counts an element (when the length was not known at the start) and
    /// opens its wrapped item for a value of tag `tag`. A sequence of
    /// `u32::MAX` counted elements takes no more, and nothing is written.
    pub fn serialize_element<O: ByteOrder>(&mut self, ser: &mut Serializer<O>, tag: TagID) -> (r:
        Result<(), Error>)
        ensures
            old(self).len == Some(u32::MAX) ==> r == Err::<(), Error>(
                Error::LEN(u32::MAX as usize),
            ) && final(ser).vec@ == old(ser).vec@ && *final(self) == *old(self),
            old(self).len != Some(u32::MAX) ==> r is Ok && final(self).len_pos == old(self).len_pos
                && final(self).len == (match old(self).len {
                Some(n) => Some((n + 1) as u32),
                None => None::<u32>,
            }) && final(ser).vec@ == old(ser).vec@ + seq![tag_byte(tag), 0u8, 0u8],
    {
        match self.len {
            Some(n) => {
                if n == 0xFFFF_FFFF {
                    return Err(Error::LEN(n as usize));
                }
                self.len = Some(n + 1);
            },
            None => {},
        }
        ser.begin_wrapped_item(tag);
        Ok(())
    }

    /// Ends the sequence: when its length was not known at the start, the
    /// count of its elements is written into its length field.
    pub fn end<O: ByteOrder>(self, ser: &mut Serializer<O>)
        requires
            self.len_pos + 4 <= old(ser).vec@.len(),
        ensures
            match self.len {
                Some(n) => final(ser).vec@ == patch4(
                    old(ser).vec@,
                    self.len_pos as int,
                    u32_bytes(n, O::spec_big_endian()),
                ),
                None => final(ser).vec@ == old(ser).vec@,
            },
    {
        match self.len {
            Some(n) => patch_u32(&mut ser.vec, self.len_pos, n, O::is_big_endian()),
            None => {},
        }
    }
}

impl MapSerializer {
    /// Notes where the entry whose key comes next starts: its tag byte, which
    /// `serialize_value` fills in.
    pub fn serialize_key<O: ByteOrder>(&mut self, ser: &Serializer<O>)
        ensures
            final(self).tag_pos == Some(ser.vec@.len() as usize),
    {
        self.tag_pos = Some(ser.vec.len());
    }

    /// Fills in the tag byte of the entry whose key was written last with
    /// the tag `tag` of its value.
    pub fn serialize_value<O: ByteOrder>(&mut self, ser: &mut Serializer<O>, tag: TagID)
        requires
            old(self).tag_pos matches Some(p) && p < old(ser).vec@.len(),
        ensures
            final(ser).vec@ == old(ser).vec@.update(old(self).tag_pos->Some_0 as int, tag_byte(tag)),
            final(self).tag_pos is None,
    {
        match self.tag_pos {
            Some(p) => {
                ser.vec[p] = tag.to_u8();
            },
            None => {},
        }
        self.tag_pos = None;
    }

    /// Ends the map: the End of its compound.
    pub fn end<O: ByteOrder>(self, ser: &mut Serializer<O>)
        ensures
            final(ser).vec@ == old(ser).vec@.push(0u8),
    {
        ser.vec.push(0);
    }
}

impl ArraySerializer {
    /// The state for a homogeneous list whose header starts at the end of
    /// the output written so far.
    pub fn list<O: ByteOrder>(ser: &Serializer<O>) -> (a: ArraySerializer)
        ensures
            a.start_pos == ser.vec@.len(),
            a.element_tag == TagID::End,
            a.len == Some(0u32),
    {
        ArraySerializer { start_pos: ser.vec.len(), element_tag: TagID::End, len: Some(0) }
    }

    /// The state for an Int Array or a Long Array.
    pub fn array() -> (a: ArraySerializer)
        ensures
            a.element_tag == TagID::End,
            a.len is None,
    {
        ArraySerializer { start_pos: 0, element_tag: TagID::End, len: None }
    }

    /// Starts the elements of an array: its length as 4 bytes. A length
    /// above `u32::MAX` is refused and nothing is written.
    pub fn serialize_tuple<O: ByteOrder>(&self, ser: &mut Serializer<O>, len: usize) -> (r: Result<
        (),
        Error,
    >)
        ensures
            len > u32::MAX ==> r == Err::<(), Error>(Error::LEN(len)) && final(ser).vec@ == old(ser).vec@,
            len <= u32::MAX ==> r is Ok && final(ser).vec@ == old(ser).vec@ + u32_bytes(
                len as u32,
                O::spec_big_endian(),
            ),
    {
        if len > 0xFFFF_FFFF {
            return Err(Error::LEN(len));
        }
        push_u32(&mut ser.vec, len as u32, O::is_big_endian());
        Ok(())
    }

    /// Starts the elements of a list: its header, with the element tag and
    /// the length filled in by `end` (the length only when it is not known
    /// now). A length above `u32::MAX` is refused and nothing is written.
    pub fn serialize_seq<O: ByteOrder>(&mut self, ser: &mut Serializer<O>, len: Option<usize>) -> (r:
        Result<(), Error>)
        ensures
            final(self).start_pos == old(self).start_pos,
            final(self).element_tag == old(self).element_tag,
            final(self).len == (if len is Some {
                None::<u32>
            } else {
                old(self).len
            }),
            seq_len_too_long(len) ==> r == Err::<(), Error>(Error::LEN(len.unwrap_or(0)))
                && final(ser).vec@ == old(ser).vec@,
            !seq_len_too_long(len) ==> r is Ok && final(ser).vec@ == old(ser).vec@
                + wrapped_list_head(len.unwrap_or(0) as u32, O::spec_big_endian()),
    {
        let n = match len {
            Some(n) => {
                self.len = None;
                n
            },
            None => 0,
        };
        ser.write_wrapped_list_header(n)
    }

    /// Checks the tag `tag` of the next element of a list against the tag
    /// of the elements before it (the first element sets it), and counts the
    /// element when the length was not known at the start.
    pub fn serialize_element(&mut self, tag: TagID) -> (r: Result<(), Error>)
        ensures
            final(self).start_pos == old(self).start_pos,
            old(self).len == Some(u32::MAX) ==> r == Err::<(), Error>(
                Error::LEN(u32::MAX as usize),
            ) && *final(self) == *old(self),
            old(self).len != Some(u32::MAX) ==> {
                let expected = if old(self).element_tag == TagID::End {
                    tag
                } else {
                    old(self).element_tag
                };
                &&& final(self).len == (match old(self).len {
                    Some(n) => Some((n + 1) as u32),
                    None => None::<u32>,
                })
                &&& final(self).element_tag == expected
                &&& expected == tag ==> r is Ok
                &&& expected != tag ==> r == Err::<(), Error>(
                    Error::MISMATCH { expected: expected, actual: tag },
                )
            },
    {
        match self.len {
            Some(n) => {
                if n == 0xFFFF_FFFF {
                    return Err(Error::LEN(n as usize));
                }
                self.len = Some(n + 1);
            },
            None => {},
        }
        if self.element_tag == TagID::End {
            self.element_tag = tag;
        }
        if self.element_tag != tag {
            return Err(Error::MISMATCH { expected: self.element_tag, actual: tag });
        }
        Ok(())
    }

    /// Ends a list: fills in its element tag, and its length when that was
    /// not known at the start.
    pub fn end<O: ByteOrder>(self, ser: &mut Serializer<O>)
        requires
            self.start_pos + 5 <= old(ser).vec@.len(),
        ensures
            ({
                let tagged = old(ser).vec@.update(self.start_pos as int, tag_byte(self.element_tag));
                match self.len {
                    Some(n) => final(ser).vec@ == patch4(
                        tagged,
                        self.start_pos + 1,
                        u32_bytes(n, O::spec_big_endian()),
                    ),
                    None => final(ser).vec@ == tagged,
                }
            }),
    {
        let _len = ser.vec.len();
        ser.vec[self.start_pos] = self.element_tag.to_u8();
        match self.len {
            Some(n) => patch_u32(&mut ser.vec, self.start_pos + 1, n, O::is_big_endian()),
            None => {},
        }
    }
}

/// The character of a 6-bit value in the standard Base64 alphabet
/// (`A`-`Z`, `a`-`z`, `0`-`9`, `+`, `/`).
pub open spec fn base64_digit(x: int) -> char {
    if x < 26 {
        (65 + x) as char
    } else if x < 52 {
        (97 + x - 26) as char
    } else if x < 62 {
        (48 + x - 52) as char
    } else if x == 62 {
        '+'
    } else {
        '/'
    }
}

/// Standard padded Base64 of some bytes: each group of 3 bytes as 4
/// characters, a last group of 1 or 2 bytes as 2 or 3 characters and `=`
/// up to 4.
pub open spec fn base64_encoding(b: Seq<u8>) -> Seq<char>
    decreases b.len(),
{
    let b0 = if b.len() > 0 { b[0] as int } else { 0 };
    let b1 = if b.len() > 1 { b[1] as int } else { 0 };
    let b2 = if b.len() > 2 { b[2] as int } else { 0 };
    if b.len() == 0 {
        Seq::empty()
    } else if b.len() == 1 {
        seq![base64_digit(b0 / 4), base64_digit((b0 % 4) * 16), '=', '=']
    } else if b.len() == 2 {
        seq![
            base64_digit(b0 / 4),
            base64_digit((b0 % 4) * 16 + b1 / 16),
            base64_digit((b1 % 16) * 4),
            '=',
        ]
    } else {
        seq![
            base64_digit(b0 / 4),
            base64_digit((b0 % 4) * 16 + b1 / 16),
            base64_digit((b1 % 16) * 4 + b2 / 64),
            base64_digit(b2 % 64),
        ] + base64_encoding(b.subrange(3, b.len() as int))
    }
}

/// Calls `base64ct::Base64::encode_string`. Claimed: the result is the
/// standard padded Base64 of the bytes (`base64_encoding`), 4 characters for
/// every 3 bytes or part of them. The crate panics when 4 times the length
/// overflows `usize`, which the `requires` rules out.
#[verifier::external_body]
fn base64_encode(v: &[u8]) -> (r: String)
    requires
        4 * v@.len() <= usize::MAX,
    ensures
        r@ == base64_encoding(v@),
        r@.len() == 4 * ((v@.len() + 2) / 3),
{
    <base64ct::Base64 as base64ct::Encoding>::encode_string(v)
}

/// The name written for a key `name(inner)`: the encoded name, an opening
/// parenthesis, the inner key's name bytes and a closing parenthesis.
pub open spec fn wrapped_key(enc: Seq<u8>, inner: Seq<u8>) -> Seq<u8> {
    enc + seq![40u8] + inner + seq![41u8]
}

/// Writes a map key as the head of a compound entry whose value has the tag
/// `tag_id`; keys are names, so only a few kinds of values can be keys.
pub struct KeySerializer {
    pub tag_id: TagID,
}

impl KeySerializer {
    /// A string key: the entry head with the Modified UTF-8 of `v` as name.
    pub fn serialize_str<O: ByteOrder>(&self, ser: &mut Serializer<O>, v: &str) -> (r: Result<
        (),
        Error,
    >)
        requires
            fits_codec(v@.len()),
        ensures
            mutf8_encoding(v@).len() >= u16::MAX ==> r == Err::<(), Error>(
                Error::LEN(mutf8_encoding(v@).len() as usize),
            ) && final(ser).vec@ == old(ser).vec@,
            mutf8_encoding(v@).len() < u16::MAX ==> r is Ok && final(ser).vec@ == old(ser).vec@
                + entry_head(tag_byte(self.tag_id), mutf8_encoding(v@), O::spec_big_endian()),
    {
        let encoded = mutf8_encode(v);
        ser.write_compound_header(self.tag_id, encoded.as_slice())
    }

    /// A byte-string key: named by the Base64 of the bytes.
    pub fn serialize_bytes<O: ByteOrder>(&self, ser: &mut Serializer<O>, v: &[u8]) -> (r: Result<
        (),
        Error,
    >)
        requires
            4 * v@.len() <= usize::MAX,
            fits_codec(4 * ((v@.len() + 2) / 3) as nat),
        ensures
            ({
                let enc = mutf8_encoding(base64_encoding(v@));
                &&& enc.len() >= u16::MAX ==> r == Err::<(), Error>(Error::LEN(enc.len() as usize))
                    && final(ser).vec@ == old(ser).vec@
                &&& enc.len() < u16::MAX ==> r is Ok && final(ser).vec@ == old(ser).vec@
                    + entry_head(tag_byte(self.tag_id), enc, O::spec_big_endian())
            }),
    {
        let s = base64_encode(v);
        self.serialize_str(ser, s.as_str())
    }

    /// Turns the key just written at `pos` into `name(<key>)` (a `Some` or a
    /// newtype struct key); a name that would reach 65535 bytes is refused
    /// and the key is left as it was.
    pub fn write_wrapped<O: ByteOrder>(ser: &mut Serializer<O>, pos: usize, name: &str) -> (r:
        Result<(), Error>)
        requires
            fits_codec(name@.len()),
            pos + 3 <= old(ser).vec@.len(),
            pos + 3 + u16_at(old(ser).vec@, pos + 1, O::spec_big_endian()) == old(ser).vec@.len(),
        ensures
            ({
                let b = old(ser).vec@;
                let big = O::spec_big_endian();
                let inner = b.subrange(pos + 3, b.len() as int);
                let enc = mutf8_encoding(name@);
                let n = inner.len() + enc.len() + 2;
                &&& n >= u16::MAX ==> r == Err::<(), Error>(Error::LEN(n as usize))
                    && final(ser).vec@ == b
                &&& n < u16::MAX ==> r is Ok && final(ser).vec@ == b.subrange(0, pos + 1)
                    + u16_bytes(n as u16, big) + wrapped_key(enc, inner)
            }),
    {
        let ghost b = ser.vec@;
        let encoded = mutf8_encode(name);
        let enc_len = encoded.len();
        let old_name_len = ser.vec.len() - pos - 3;
        let new_name_len = old_name_len + enc_len + 2;
        if new_name_len >= 65535 {
            return Err(Error::LEN(new_name_len));
        }
        let mut inner: Vec<u8> = Vec::new();
        let mut i = pos + 3;
        let len = ser.vec.len();
        while i < len
            invariant
                len == ser.vec@.len(),
                ser.vec@ == b,
                pos + 3 <= i <= len,
                inner@ == b.subrange(pos + 3, i as int),
            decreases len - i,
        {
            inner.push(ser.vec[i]);
            i = i + 1;
            assert(inner@ =~= b.subrange(pos + 3, i as int));
        }
        ser.vec.truncate(pos + 1);
        push_u16(&mut ser.vec, new_name_len as u16, O::is_big_endian());
        push_bytes(&mut ser.vec, encoded.as_slice());
        ser.vec.push(40);
        push_bytes(&mut ser.vec, inner.as_slice());
        ser.vec.push(41);
        assert(ser.vec@ =~= b.subrange(0, pos + 1) + u16_bytes(new_name_len as u16, O::spec_big_endian())
            + wrapped_key(mutf8_encoding(name@), b.subrange(pos + 3, b.len() as int)));
        Ok(())
    }
}

} // verus!
