//! The byte-level half of the serde deserializer.
//!
//! The deserializer holds the bytes that are left and the tag of the value
//! that comes next. serde's visitors decide what to ask for; every check
//! and every byte taken is done by a function of this module.
use core::marker::PhantomData;
use vstd::prelude::*;
use vstd::slice::slice_subrange;

use crate::byte_order::{
    i16_from_u16, i16_of, i32_from_u32, i32_of, i64_from_u64, i64_of, i8_from_u8, i8_of, read_u16,
    read_u32, read_u64, u16_at, u32_at, u64_at, ByteOrder,
};
use crate::error::Error;
use crate::mutf8::{cesu8_decode_lossy, cesu8_lossy, mutf8_decode_lossy, mutf8_encoding, mutf8_lossy};
use crate::serializer::{pow32, pow64, pow96};
use crate::skip::{skip_end, skip_payload};
use crate::tag::{tag_byte, tag_of_byte, TagID};

verus! {

/// The bytes of `s` after the first `n`.
pub open spec fn rest(s: Seq<u8>, n: int) -> Seq<u8> {
    s.subrange(n, s.len() as int)
}

/// The message of the error for a wrapped item that is not a compound with
/// exactly one entry of empty name.
pub open spec fn wrapped_item_message() -> Seq<char> {
    "wrapped item should contain exactly one element with empty name"@
}

/// The `i128` whose bits are the four 32-bit words, most significant first.
pub open spec fn i128_of_words(x1: u32, x2: u32, x3: u32, x4: u32) -> int {
    let u = x1 * pow96() + x2 * pow64() + x3 * pow32() + x4;
    if u >= 0x8000_0000_0000_0000_0000_0000_0000_0000 {
        u - 0x1_0000_0000_0000_0000_0000_0000_0000_0000
    } else {
        u
    }
}

/// A `u32` that is a Unicode scalar value.
pub open spec fn is_scalar(v: u32) -> bool {
    v <= 0x10FFFF && !(0xD800 <= v <= 0xDFFF)
}

/// `char::from_u32` of std: as its documentation says, the `char` with the
/// code point `i` when `i` is a Unicode scalar value, else `None`.
pub assume_specification[ core::char::from_u32 ](i: u32) -> (r: Option<char>)
    ensures
        is_scalar(i) ==> r == Some(i as char),
        !is_scalar(i) ==> r is None,
;

/// Reads values out of the payload bytes of a document, numbers in the
/// byte order `O`.
pub struct Deserializer<'de, O: ByteOrder> {
    /// The tag of the value that comes next.
    pub current_tag: TagID,
    /// The bytes not read yet.
    pub input: &'de [u8],
    pub marker: PhantomData<O>,
}

/// What `Deserializer::from_slice` decides for a document: the root tag
/// byte and where its payload starts, or the error.
pub open spec fn root_header(b: Seq<u8>, big: bool) -> Result<(u8, int), Error> {
    if b.len() < 1 {
        Err(Error::EOF)
    } else if b[0] > 12 || b[0] == 0 {
        Err(Error::INVALID(b[0]))
    } else if b.len() < 3 {
        Err(Error::EOF)
    } else if 3 + u16_at(b, 1, big) > b.len() {
        Err(Error::EOF)
    } else {
        Ok((b[0], 3 + u16_at(b, 1, big)))
    }
}

impl<'de, O: ByteOrder> Deserializer<'de, O> {
    /// Reads the root header of a document: a tag byte naming a tag type
    /// other than End, and a name, which is skipped.
    pub fn from_slice(input: &'de [u8]) -> (r: Result<Self, Error>)
        ensures
            match root_header(input@, O::spec_big_endian()) {
                Ok((t, p)) => r matches Ok(d) && Some(d.current_tag) == tag_of_byte(t)
                    && d.input@ == rest(input@, p),
                Err(e) => r == Err::<Self, Error>(e),
            },
    {
        let len = input.len();
        if len < 1 {
            return Err(Error::EOF);
        }
        let t = input[0];
        if t > 12 || t == 0 {
            return Err(Error::INVALID(t));
        }
        if len < 3 {
            return Err(Error::EOF);
        }
        let n = read_u16(input, 1, O::is_big_endian()) as usize;
        if n > len - 3 {
            return Err(Error::EOF);
        }
        Ok(
            Deserializer {
                current_tag: TagID::from_u8_unchecked(t),
                input: slice_subrange(input, 3 + n, len),
                marker: PhantomData,
            },
        )
    }

    /// Drops the first `n` bytes of the input.
    fn advance(&mut self, n: usize)
        requires
            n <= old(self).input@.len(),
        ensures
            final(self).input@ == rest(old(self).input@, n as int),
            final(self).current_tag == old(self).current_tag,
    {
        let len = self.input.len();
        self.input = slice_subrange(self.input, n, len);
    }

    /// `Error::MISMATCH` unless the next value has the tag `expected`.
    pub fn check_tag(&self, expected: TagID) -> (r: Result<(), Error>)
        ensures
            self.current_tag == expected ==> r is Ok,
            self.current_tag != expected ==> r == Err::<(), Error>(
                Error::MISMATCH { expected: expected, actual: self.current_tag },
            ),
    {
        if self.current_tag == expected {
            Ok(())
        } else {
            Err(Error::MISMATCH { expected, actual: self.current_tag })
        }
    }

    /// A Byte payload.
    pub fn parse_i8(&mut self) -> (r: Result<i8, Error>)
        ensures
            final(self).current_tag == old(self).current_tag,
            old(self).input@.len() < 1 ==> r == Err::<i8, Error>(Error::EOF) && final(self).input@
                == old(self).input@,
            old(self).input@.len() >= 1 ==> r == Ok::<i8, Error>(i8_of(old(self).input@[0]))
                && final(self).input@ == rest(old(self).input@, 1),
    {
        if self.input.len() < 1 {
            return Err(Error::EOF);
        }
        let v = self.input[0];
        self.advance(1);
        Ok(i8_from_u8(v))
    }

    /// A Short payload.
    pub fn parse_i16(&mut self) -> (r: Result<i16, Error>)
        ensures
            final(self).current_tag == old(self).current_tag,
            old(self).input@.len() < 2 ==> r == Err::<i16, Error>(Error::EOF) && final(self).input@
                == old(self).input@,
            old(self).input@.len() >= 2 ==> r == Ok::<i16, Error>(
                i16_of(u16_at(old(self).input@, 0, O::spec_big_endian())),
            ) && final(self).input@ == rest(old(self).input@, 2),
    {
        if self.input.len() < 2 {
            return Err(Error::EOF);
        }
        let v = read_u16(self.input, 0, O::is_big_endian());
        self.advance(2);
        Ok(i16_from_u16(v))
    }

    /// An Int payload.
    pub fn parse_i32(&mut self) -> (r: Result<i32, Error>)
        ensures
            final(self).current_tag == old(self).current_tag,
            old(self).input@.len() < 4 ==> r == Err::<i32, Error>(Error::EOF) && final(self).input@
                == old(self).input@,
            old(self).input@.len() >= 4 ==> r == Ok::<i32, Error>(
                i32_of(u32_at(old(self).input@, 0, O::spec_big_endian())),
            ) && final(self).input@ == rest(old(self).input@, 4),
    {
        if self.input.len() < 4 {
            return Err(Error::EOF);
        }
        let v = read_u32(self.input, 0, O::is_big_endian());
        self.advance(4);
        Ok(i32_from_u32(v))
    }

    /// A Long payload.
    pub fn parse_i64(&mut self) -> (r: Result<i64, Error>)
        ensures
            final(self).current_tag == old(self).current_tag,
            old(self).input@.len() < 8 ==> r == Err::<i64, Error>(Error::EOF) && final(self).input@
                == old(self).input@,
            old(self).input@.len() >= 8 ==> r == Ok::<i64, Error>(
                i64_of(u64_at(old(self).input@, 0, O::spec_big_endian())),
            ) && final(self).input@ == rest(old(self).input@, 8),
    {
        if self.input.len() < 8 {
            return Err(Error::EOF);
        }
        let v = read_u64(self.input, 0, O::is_big_endian());
        self.advance(8);
        Ok(i64_from_u64(v))
    }

    /// A Float payload, as its IEEE 754 bits.
    pub fn parse_f32(&mut self) -> (r: Result<u32, Error>)
        ensures
            final(self).current_tag == old(self).current_tag,
            old(self).input@.len() < 4 ==> r == Err::<u32, Error>(Error::EOF) && final(self).input@
                == old(self).input@,
            old(self).input@.len() >= 4 ==> r == Ok::<u32, Error>(
                u32_at(old(self).input@, 0, O::spec_big_endian()),
            ) && final(self).input@ == rest(old(self).input@, 4),
    {
        if self.input.len() < 4 {
            return Err(Error::EOF);
        }
        let v = read_u32(self.input, 0, O::is_big_endian());
        self.advance(4);
        Ok(v)
    }

    /// A Double payload, as its IEEE 754 bits.
    pub fn parse_f64(&mut self) -> (r: Result<u64, Error>)
        ensures
            final(self).current_tag == old(self).current_tag,
            old(self).input@.len() < 8 ==> r == Err::<u64, Error>(Error::EOF) && final(self).input@
                == old(self).input@,
            old(self).input@.len() >= 8 ==> r == Ok::<u64, Error>(
                u64_at(old(self).input@, 0, O::spec_big_endian()),
            ) && final(self).input@ == rest(old(self).input@, 8),
    {
        if self.input.len() < 8 {
            return Err(Error::EOF);
        }
        let v = read_u64(self.input, 0, O::is_big_endian());
        self.advance(8);
        Ok(v)
    }

    /// An Int Array payload read as an `i128`: its length field is skipped
    /// and its first four words are the bits of the number.
    pub fn parse_i128(&mut self) -> (r: Result<i128, Error>)
        ensures
            final(self).current_tag == old(self).current_tag,
            old(self).input@.len() < 20 ==> r == Err::<i128, Error>(Error::EOF)
                && final(self).input@ == old(self).input@,
            old(self).input@.len() >= 20 ==> ({
                let b = old(self).input@;
                let big = O::spec_big_endian();
                &&& r matches Ok(v) && v == i128_of_words(
                    u32_at(b, 4, big),
                    u32_at(b, 8, big),
                    u32_at(b, 12, big),
                    u32_at(b, 16, big),
                )
                &&& final(self).input@ == rest(b, 20)
            }),
    {
        if self.input.len() < 20 {
            return Err(Error::EOF);
        }
        let big = O::is_big_endian();
        let x1 = read_u32(self.input, 4, big);
        let x2 = read_u32(self.input, 8, big);
        let x3 = read_u32(self.input, 12, big);
        let x4 = read_u32(self.input, 16, big);
        self.advance(20);
        let u: u128 = (x1 as u128) * 0x1_0000_0000_0000_0000_0000_0000 + (x2 as u128)
            * 0x1_0000_0000_0000_0000 + (x3 as u128) * 0x1_0000_0000 + (x4 as u128);
        if u >= 0x8000_0000_0000_0000_0000_0000_0000_0000 {
            Ok(((u - 0x8000_0000_0000_0000_0000_0000_0000_0000) as i128) + i128::MIN)
        } else {
            Ok(u as i128)
        }
    }

    /// An Int payload read as a `char`; a number that is no Unicode scalar
    /// value is `Error::CHAR` (its 4 bytes are taken all the same).
    pub fn parse_char(&mut self) -> (r: Result<char, Error>)
        ensures
            final(self).current_tag == old(self).current_tag,
            old(self).input@.len() < 4 ==> r == Err::<char, Error>(Error::EOF)
                && final(self).input@ == old(self).input@,
            old(self).input@.len() >= 4 ==> ({
                let v = u32_at(old(self).input@, 0, O::spec_big_endian());
                &&& final(self).input@ == rest(old(self).input@, 4)
                &&& is_scalar(v) ==> r == Ok::<char, Error>(v as char)
                &&& !is_scalar(v) ==> r == Err::<char, Error>(Error::CHAR(v))
            }),
    {
        if self.input.len() < 4 {
            return Err(Error::EOF);
        }
        let v = read_u32(self.input, 0, O::is_big_endian());
        self.advance(4);
        match core::char::from_u32(v) {
            Some(c) => Ok(c),
            None => Err(Error::CHAR(v)),
        }
    }

    /// A String payload, decoded leniently from Modified UTF-8.
    pub fn parse_str(&mut self) -> (r: Result<String, Error>)
        ensures
            final(self).current_tag == old(self).current_tag,
            old(self).input@.len() < 2 ==> r == Err::<String, Error>(Error::EOF)
                && final(self).input@ == old(self).input@,
            old(self).input@.len() >= 2 ==> ({
                let b = old(self).input@;
                let n = u16_at(b, 0, O::spec_big_endian()) as int;
                &&& 2 + n > b.len() ==> r == Err::<String, Error>(Error::EOF) && final(self).input@
                    == b
                &&& 2 + n <= b.len() ==> (r matches Ok(s) && s@ == mutf8_lossy(
                    b.subrange(2, 2 + n),
                ) && final(self).input@ == rest(b, 2 + n) && forall|t: Seq<char>|
                    #[trigger] mutf8_encoding(t) == b.subrange(2, 2 + n) ==> s@ == t)
            }),
    {
        let len = self.input.len();
        if len < 2 {
            return Err(Error::EOF);
        }
        let n = read_u16(self.input, 0, O::is_big_endian()) as usize;
        if n > len - 2 {
            return Err(Error::EOF);
        }
        let s = mutf8_decode_lossy(slice_subrange(self.input, 2, 2 + n));
        self.advance(2 + n);
        Ok(s)
    }

    /// A Byte Array payload: its bytes, borrowed from the input.
    pub fn parse_bytes(&mut self) -> (r: Result<&'de [u8], Error>)
        ensures
            final(self).current_tag == old(self).current_tag,
            old(self).input@.len() < 4 ==> r == Err::<&[u8], Error>(Error::EOF)
                && final(self).input@ == old(self).input@,
            old(self).input@.len() >= 4 ==> ({
                let b = old(self).input@;
                let n = u32_at(b, 0, O::spec_big_endian()) as int;
                &&& 4 + n > b.len() ==> r == Err::<&[u8], Error>(Error::EOF) && final(self).input@
                    == b
                &&& 4 + n <= b.len() ==> (r matches Ok(s) && s@ == b.subrange(4, 4 + n)
                    && final(self).input@ == rest(b, 4 + n))
            }),
    {
        let len = self.input.len();
        if len < 4 {
            return Err(Error::EOF);
        }
        let n = read_u32(self.input, 0, O::is_big_endian()) as usize;
        if n > len - 4 {
            return Err(Error::EOF);
        }
        let s = slice_subrange(self.input, 4, 4 + n);
        self.advance(4 + n);
        Ok(s)
    }

    /// The payload of an empty compound: its End byte.
    pub fn parse_unit(&mut self) -> (r: Result<(), Error>)
        ensures
            final(self).current_tag == old(self).current_tag,
            old(self).input@.len() < 1 ==> r == Err::<(), Error>(Error::EOF) && final(self).input@
                == old(self).input@,
            old(self).input@.len() >= 1 && old(self).input@[0] != 0 ==> r == Err::<(), Error>(
                Error::INVALID(old(self).input@[0]),
            ) && final(self).input@ == old(self).input@,
            old(self).input@.len() >= 1 && old(self).input@[0] == 0 ==> r is Ok && final(self).input@ == rest(old(self).input@, 1),
    {
        if self.input.len() < 1 {
            return Err(Error::EOF);
        }
        let v = self.input[0];
        if v != 0 {
            return Err(Error::INVALID(v));
        }
        self.advance(1);
        Ok(())
    }

    /// The header of a wrapped list: the element tag must be Compound; the
    /// length is returned.
    pub fn wrapped_list_header(&mut self) -> (r: Result<u32, Error>)
        ensures
            final(self).current_tag == old(self).current_tag,
            old(self).input@.len() < 5 ==> r == Err::<u32, Error>(Error::EOF) && final(self).input@
                == old(self).input@,
            old(self).input@.len() >= 5 && old(self).input@[0] != 10 ==> r == Err::<u32, Error>(
                Error::INVALID(old(self).input@[0]),
            ) && final(self).input@ == old(self).input@,
            old(self).input@.len() >= 5 && old(self).input@[0] == 10 ==> r == Ok::<u32, Error>(
                u32_at(old(self).input@, 1, O::spec_big_endian()),
            ) && final(self).input@ == rest(old(self).input@, 5),
    {
        if self.input.len() < 5 {
            return Err(Error::EOF);
        }
        let t = self.input[0];
        if t != 10 {
            return Err(Error::INVALID(t));
        }
        let n = read_u32(self.input, 1, O::is_big_endian());
        self.advance(5);
        Ok(n)
    }

    /// Opens a wrapped item `Compound { "" : <value> }`: a tag byte naming a
    /// tag type other than End, which becomes the current tag, and an empty
    /// name.
    pub fn begin_wrapped_item(&mut self) -> (r: Result<(), Error>)
        ensures
            ({
                let b = old(self).input@;
                &&& b.len() < 3 ==> r == Err::<(), Error>(Error::EOF) && *final(self) == *old(self)
                &&& b.len() >= 3 && b[0] > 12 ==> r == Err::<(), Error>(Error::INVALID(b[0]))
                    && *final(self) == *old(self)
                &&& b.len() >= 3 && b[0] == 0 ==> (r matches Err(Error::MSG(m)) && m@
                    == wrapped_item_message() && *final(self) == *old(self))
                &&& b.len() >= 3 && 1 <= b[0] <= 12 ==> {
                    &&& Some(final(self).current_tag) == tag_of_byte(b[0])
                    &&& u16_at(b, 1, O::spec_big_endian()) != 0 ==> (r matches Err(Error::MSG(m))
                        && m@ == wrapped_item_message() && final(self).input@ == b)
                    &&& u16_at(b, 1, O::spec_big_endian()) == 0 ==> r is Ok && final(self).input@
                        == rest(b, 3)
                }
            }),
    {
        if self.input.len() < 3 {
            return Err(Error::EOF);
        }
        let t = self.input[0];
        if t > 12 {
            return Err(Error::INVALID(t));
        }
        if t == 0 {
            return Err(
                Error::MSG("wrapped item should contain exactly one element with empty name".to_owned()),
            );
        }
        self.current_tag = TagID::from_u8_unchecked(t);
        let n = read_u16(self.input, 1, O::is_big_endian());
        if n != 0 {
            return Err(
                Error::MSG("wrapped item should contain exactly one element with empty name".to_owned()),
            );
        }
        self.advance(3);
        Ok(())
    }

    /// Closes a wrapped item: the End of its compound.
    pub fn end_wrapped_item(&mut self) -> (r: Result<(), Error>)
        ensures
            final(self).current_tag == old(self).current_tag,
            old(self).input@.len() < 1 ==> r == Err::<(), Error>(Error::EOF) && final(self).input@
                == old(self).input@,
            old(self).input@.len() >= 1 && old(self).input@[0] != 0 ==> (r matches Err(
                Error::MSG(m),
            ) && m@ == wrapped_item_message() && final(self).input@ == old(self).input@),
            old(self).input@.len() >= 1 && old(self).input@[0] == 0 ==> r is Ok && final(self).input@ == rest(old(self).input@, 1),
    {
        if self.input.len() < 1 {
            return Err(Error::EOF);
        }
        if self.input[0] != 0 {
            return Err(
                Error::MSG("wrapped item should contain exactly one element with empty name".to_owned()),
            );
        }
        self.advance(1);
        Ok(())
    }

    /// The header of a native list: its element tag and length. An unknown
    /// element tag, or End with a nonzero length, is `Error::INVALID`.
    pub fn list_header(&mut self) -> (r: Result<(TagID, u32), Error>)
        ensures
            final(self).current_tag == old(self).current_tag,
            ({
                let b = old(self).input@;
                let n = u32_at(b, 1, O::spec_big_endian());
                &&& b.len() < 5 ==> r == Err::<(TagID, u32), Error>(Error::EOF) && final(self).input@
                    == b
                &&& b.len() >= 5 && b[0] > 12 ==> r == Err::<(TagID, u32), Error>(
                    Error::INVALID(b[0]),
                ) && final(self).input@ == b
                &&& b.len() >= 5 && b[0] == 0 && n > 0 ==> r == Err::<(TagID, u32), Error>(
                    Error::INVALID(0),
                ) && final(self).input@ == b
                &&& b.len() >= 5 && b[0] <= 12 && !(b[0] == 0 && n > 0) ==> (r matches Ok((t, m))
                    && Some(t) == tag_of_byte(b[0]) && m == n && final(self).input@ == rest(b, 5))
            }),
    {
        if self.input.len() < 5 {
            return Err(Error::EOF);
        }
        let t = self.input[0];
        if t > 12 {
            return Err(Error::INVALID(t));
        }
        let n = read_u32(self.input, 1, O::is_big_endian());
        if t == 0 && n > 0 {
            return Err(Error::INVALID(t));
        }
        self.advance(5);
        Ok((TagID::from_u8_unchecked(t), n))
    }

    /// The length field of an Int Array or Long Array.
    pub fn array_header(&mut self) -> (r: Result<u32, Error>)
        ensures
            final(self).current_tag == old(self).current_tag,
            old(self).input@.len() < 4 ==> r == Err::<u32, Error>(Error::EOF) && final(self).input@
                == old(self).input@,
            old(self).input@.len() >= 4 ==> r == Ok::<u32, Error>(
                u32_at(old(self).input@, 0, O::spec_big_endian()),
            ) && final(self).input@ == rest(old(self).input@, 4),
    {
        if self.input.len() < 4 {
            return Err(Error::EOF);
        }
        let n = read_u32(self.input, 0, O::is_big_endian());
        self.advance(4);
        Ok(n)
    }

    /// Starts a sequence: an Int Array or Long Array gives the tag of its
    /// elements and its length; a List is read as a wrapped list; any other
    /// tag is `Error::MISMATCH` against List.
    pub fn begin_seq(&mut self) -> (r: Result<(Option<TagID>, u32), Error>)
        ensures
            final(self).current_tag == old(self).current_tag,
            ({
                let b = old(self).input@;
                let t = old(self).current_tag;
                let big = O::spec_big_endian();
                &&& (t == TagID::IntArray || t == TagID::LongArray) ==> {
                    &&& b.len() < 4 ==> r == Err::<(Option<TagID>, u32), Error>(Error::EOF)
                        && final(self).input@ == b
                    &&& b.len() >= 4 ==> r == Ok::<(Option<TagID>, u32), Error>(
                        (
                            Some(
                                if t == TagID::IntArray {
                                    TagID::Int
                                } else {
                                    TagID::Long
                                },
                            ),
                            u32_at(b, 0, big),
                        ),
                    ) && final(self).input@ == rest(b, 4)
                }
                &&& t == TagID::List ==> {
                    &&& b.len() < 5 ==> r == Err::<(Option<TagID>, u32), Error>(Error::EOF)
                        && final(self).input@ == b
                    &&& b.len() >= 5 && b[0] != 10 ==> r == Err::<(Option<TagID>, u32), Error>(
                        Error::INVALID(b[0]),
                    ) && final(self).input@ == b
                    &&& b.len() >= 5 && b[0] == 10 ==> r == Ok::<(Option<TagID>, u32), Error>(
                        (None, u32_at(b, 1, big)),
                    ) && final(self).input@ == rest(b, 5)
                }
                &&& !(t == TagID::IntArray || t == TagID::LongArray || t == TagID::List) ==> r
                    == Err::<(Option<TagID>, u32), Error>(
                    Error::MISMATCH { expected: TagID::List, actual: t },
                ) && final(self).input@ == b
            }),
    {
        match self.current_tag {
            TagID::IntArray => match self.array_header() {
                Ok(n) => Ok((Some(TagID::Int), n)),
                Err(e) => Err(e),
            },
            TagID::LongArray => match self.array_header() {
                Ok(n) => Ok((Some(TagID::Long), n)),
                Err(e) => Err(e),
            },
            TagID::List => match self.wrapped_list_header() {
                Ok(n) => Ok((None, n)),
                Err(e) => Err(e),
            },
            _ => Err(Error::MISMATCH { expected: TagID::List, actual: self.current_tag }),
        }
    }

    /// Starts an option, which is a compound: `Ok(false)` for `None` (an
    /// empty compound, whose End is taken by `end_option`), `Ok(true)` for
    /// `Some`, whose value's tag byte becomes the current tag and whose
    /// (empty) name is skipped. An unknown tag byte is `Error::INVALID`, and
    /// that byte is taken.
    pub fn begin_option(&mut self) -> (r: Result<bool, Error>)
        ensures
            ({
                let b = old(self).input@;
                let t = old(self).current_tag;
                &&& t != TagID::Compound ==> r == Err::<bool, Error>(
                    Error::MISMATCH { expected: TagID::Compound, actual: t },
                ) && *final(self) == *old(self)
                &&& t == TagID::Compound && b.len() < 1 ==> r == Err::<bool, Error>(Error::EOF)
                    && *final(self) == *old(self)
                &&& t == TagID::Compound && b.len() >= 1 && b[0] == 0 ==> r == Ok::<bool, Error>(
                    false,
                ) && *final(self) == *old(self)
                &&& t == TagID::Compound && b.len() >= 1 && 1 <= b[0] <= 12 ==> {
                    &&& b.len() < 3 ==> r == Err::<bool, Error>(Error::EOF) && *final(self) == *old(self)
                    &&& b.len() >= 3 ==> r == Ok::<bool, Error>(true) && Some(final(self).current_tag)
                        == tag_of_byte(b[0]) && final(self).input@ == rest(b, 3)
                }
                &&& t == TagID::Compound && b.len() >= 1 && b[0] > 12 ==> r == Err::<bool, Error>(
                    Error::INVALID(b[0]),
                ) && final(self).current_tag == t && final(self).input@ == rest(b, 1)
            }),
    {
        if self.current_tag != TagID::Compound {
            return Err(Error::MISMATCH { expected: TagID::Compound, actual: self.current_tag });
        }
        if self.input.len() < 1 {
            return Err(Error::EOF);
        }
        let t = self.input[0];
        if t == 0 {
            Ok(false)
        } else if t <= 12 {
            if self.input.len() < 3 {
                return Err(Error::EOF);
            }
            self.advance(3);
            self.current_tag = TagID::from_u8_unchecked(t);
            Ok(true)
        } else {
            self.advance(1);
            Err(Error::INVALID(t))
        }
    }

    /// Ends an option: takes one byte, the End of its compound.
    pub fn end_option(&mut self) -> (r: Result<(), Error>)
        ensures
            final(self).current_tag == old(self).current_tag,
            old(self).input@.len() < 1 ==> r == Err::<(), Error>(Error::EOF) && final(self).input@
                == old(self).input@,
            old(self).input@.len() >= 1 ==> r is Ok && final(self).input@ == rest(
                old(self).input@,
                1,
            ),
    {
        if self.input.len() < 1 {
            return Err(Error::EOF);
        }
        self.advance(1);
        Ok(())
    }

    /// The next entry of a compound: `None` at its End (which is taken),
    /// else the entry's name, decoded leniently from CESU-8, with the
    /// entry's tag as the current tag.
    pub fn next_key(&mut self) -> (r: Result<Option<String>, Error>)
        ensures
            ({
                let b = old(self).input@;
                let big = O::spec_big_endian();
                &&& b.len() < 1 ==> r == Err::<Option<String>, Error>(Error::EOF) && *final(self)
                    == *old(self)
                &&& b.len() >= 1 && b[0] > 12 ==> r == Err::<Option<String>, Error>(
                    Error::INVALID(b[0]),
                ) && *final(self) == *old(self)
                &&& b.len() >= 1 && b[0] == 0 ==> r == Ok::<Option<String>, Error>(None)
                    && final(self).current_tag == old(self).current_tag && final(self).input@ == rest(
                    b,
                    1,
                )
                &&& b.len() >= 1 && 1 <= b[0] <= 12 ==> {
                    &&& Some(final(self).current_tag) == tag_of_byte(b[0])
                    &&& (b.len() < 3 || 3 + u16_at(b, 1, big) > b.len()) ==> r == Err::<
                        Option<String>,
                        Error,
                    >(Error::EOF) && final(self).input@ == b
                    &&& !(b.len() < 3 || 3 + u16_at(b, 1, big) > b.len()) ==> (r matches Ok(Some(s))
                        && s@ == cesu8_lossy(b.subrange(3, 3 + u16_at(b, 1, big))) && final(self).input@ == rest(b, 3 + u16_at(b, 1, big)))
                }
            }),
    {
        let len = self.input.len();
        if len < 1 {
            return Err(Error::EOF);
        }
        let t = self.input[0];
        if t > 12 {
            return Err(Error::INVALID(t));
        }
        if t == 0 {
            self.advance(1);
            return Ok(None);
        }
        self.current_tag = TagID::from_u8_unchecked(t);
        if len < 3 {
            return Err(Error::EOF);
        }
        let n = read_u16(self.input, 1, O::is_big_endian()) as usize;
        if n > len - 3 {
            return Err(Error::EOF);
        }
        let name = cesu8_decode_lossy(slice_subrange(self.input, 3, 3 + n));
        self.advance(3 + n);
        Ok(Some(name))
    }

    /// The variant of an enum written as a compound: its single entry's tag
    /// (not End) becomes the current tag, and its name is returned.
    pub fn variant(&mut self) -> (r: Result<String, Error>)
        ensures
            ({
                let b = old(self).input@;
                let big = O::spec_big_endian();
                &&& b.len() < 1 ==> r == Err::<String, Error>(Error::EOF) && *final(self) == *old(self)
                &&& b.len() >= 1 && (b[0] > 12 || b[0] == 0) ==> r == Err::<String, Error>(
                    Error::INVALID(b[0]),
                ) && *final(self) == *old(self)
                &&& b.len() >= 1 && 1 <= b[0] <= 12 ==> {
                    let c = rest(b, 1);
                    &&& Some(final(self).current_tag) == tag_of_byte(b[0])
                    &&& c.len() < 2 ==> r == Err::<String, Error>(Error::EOF) && final(self).input@
                        == c
                    &&& c.len() >= 2 && 2 + u16_at(c, 0, big) > c.len() ==> r == Err::<
                        String,
                        Error,
                    >(Error::EOF) && final(self).input@ == c
                    &&& c.len() >= 2 && 2 + u16_at(c, 0, big) <= c.len() ==> (r matches Ok(s) && s@
                        == mutf8_lossy(c.subrange(2, 2 + u16_at(c, 0, big))) && final(self).input@
                        == rest(c, 2 + u16_at(c, 0, big)))
                }
            }),
    {
        if self.input.len() < 1 {
            return Err(Error::EOF);
        }
        let t = self.input[0];
        if t > 12 || t == 0 {
            return Err(Error::INVALID(t));
        }
        self.current_tag = TagID::from_u8_unchecked(t);
        self.advance(1);
        self.parse_str()
    }

    /// How an enum is written: `Ok(true)` for a unit variant (an Int index),
    /// `Ok(false)` for a compound holding the variant, else
    /// `Error::MISMATCH` against Compound.
    pub fn enum_is_index(&self) -> (r: Result<bool, Error>)
        ensures
            self.current_tag == TagID::Int ==> r == Ok::<bool, Error>(true),
            self.current_tag == TagID::Compound ==> r == Ok::<bool, Error>(false),
            self.current_tag != TagID::Int && self.current_tag != TagID::Compound ==> r == Err::<
                bool,
                Error,
            >(Error::MISMATCH { expected: TagID::Compound, actual: self.current_tag }),
    {
        match self.current_tag {
            TagID::Int => Ok(true),
            TagID::Compound => Ok(false),
            _ => Err(Error::MISMATCH { expected: TagID::Compound, actual: self.current_tag }),
        }
    }

    /// Passes over the payload of the current tag without reading it into a
    /// value (see `skip::skip_end`). On an error nothing is taken.
    pub fn skip_value(&mut self) -> (r: Result<(), Error>)
        ensures
            final(self).current_tag == old(self).current_tag,
            match skip_end(tag_byte(old(self).current_tag), old(self).input@, 0, O::spec_big_endian()) {
                Ok(q) => r is Ok && final(self).input@ == rest(old(self).input@, q),
                Err(e) => r == Err::<(), Error>(e) && final(self).input@ == old(self).input@,
            },
    {
        match skip_payload(self.current_tag.to_u8(), self.input, 0, O::is_big_endian()) {
            Ok(q) => {
                self.advance(q);
                Ok(())
            },
            Err(e) => Err(e),
        }
    }

    /// Whether every byte has been read.
    pub fn is_empty(&self) -> (b: bool)
        ensures
            b == (self.input@.len() == 0),
    {
        self.input.len() == 0
    }

    /// The count of bytes not read yet.
    pub fn remaining(&self) -> (n: usize)
        ensures
            n == self.input@.len(),
    {
        self.input.len()
    }

    /// Checks that a whole document has been read: `Ok` when no byte is
    /// left, otherwise `REMAIN` with the count of bytes left.
    pub fn end(&self) -> (r: Result<(), Error>)
        ensures
            self.input@.len() == 0 ==> r is Ok,
            self.input@.len() > 0 ==> r == Err::<(), Error>(Error::REMAIN(self.input@.len() as usize)),
    {
        if self.input.len() == 0 {
            Ok(())
        } else {
            Err(Error::REMAIN(self.input.len()))
        }
    }
}

} // verus!
