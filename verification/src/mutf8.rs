//! Modified UTF-8, the string encoding of NBT, through `simd_cesu8`.
//!
//! Names of compound entries and String payloads are held as Modified UTF-8
//! bytes. Turning a Rust string into those bytes and back is the work of the
//! `simd_cesu8` crate; the functions of this module hand their input to it.
//! What the encoder returns is spelled out (`mutf8_encoding`); what the
//! decoders return is named.
use vstd::prelude::*;

verus! {

/// The error that `simd_cesu8` reports for bytes it cannot decode.
#[verifier::external_type_specification]
#[verifier::external_body]
pub struct ExDecodingError(simd_cesu8::DecodingError);

/// The three bytes of a code unit below 0x10000 in the UTF-8 layout.
pub open spec fn three_bytes(n: int) -> Seq<u8> {
    seq![(0xE0 + n / 4096) as u8, (0x80 + (n / 64) % 64) as u8, (0x80 + n % 64) as u8]
}

/// The Modified UTF-8 bytes of one character: NUL as the two bytes C0 80,
/// other characters below U+10000 as in UTF-8, and a character above as the
/// three-byte forms of its UTF-16 surrogate pair.
pub open spec fn mutf8_char(c: char) -> Seq<u8> {
    let n = c as int;
    if n == 0 {
        seq![0xC0u8, 0x80u8]
    } else if n < 0x80 {
        seq![n as u8]
    } else if n < 0x800 {
        seq![(0xC0 + n / 64) as u8, (0x80 + n % 64) as u8]
    } else if n < 0x10000 {
        three_bytes(n)
    } else {
        three_bytes(0xD800 + (n - 0x10000) / 1024) + three_bytes(0xDC00 + (n - 0x10000) % 1024)
    }
}

/// The Modified UTF-8 bytes of a string: those of its characters, in order.
pub open spec fn mutf8_encoding(s: Seq<char>) -> Seq<u8>
    decreases s.len(),
{
    if s.len() == 0 {
        Seq::empty()
    } else {
        mutf8_encoding(s.drop_last()) + mutf8_char(s.last())
    }
}

/// The string that `simd_cesu8::mutf8::decode_lossy` makes of some bytes.
pub uninterp spec fn mutf8_lossy(b: Seq<u8>) -> Seq<char>;

/// The string that `simd_cesu8::mutf8::decode_lossy_strict` makes of some bytes.
pub uninterp spec fn mutf8_lossy_strict(b: Seq<u8>) -> Seq<char>;

/// The string that `simd_cesu8::mutf8::decode` makes of some bytes, if it
/// accepts them.
pub uninterp spec fn mutf8_decoded(b: Seq<u8>) -> Option<Seq<char>>;

/// The string that `simd_cesu8::mutf8::decode_strict` makes of some bytes,
/// if it accepts them.
pub uninterp spec fn mutf8_decoded_strict(b: Seq<u8>) -> Option<Seq<char>>;

/// A string short enough that its encoding cannot outgrow `isize::MAX`
/// bytes (no character takes more than 8 bytes in either direction).
pub open spec fn fits_codec(n: nat) -> bool {
    8 * n <= isize::MAX
}

/// Calls `simd_cesu8::mutf8::encode`. Claimed: the result is the Modified
/// UTF-8 encoding of the string (`mutf8_encoding`), at most 8 bytes for each
/// character (the crate writes at most 2 bytes for each UTF-8 byte, and a
/// character has at most 4 of those). The crate panics only when the output
/// would exceed `isize::MAX` bytes, which the `requires` rules out.
#[verifier::external_body]
pub(crate) fn mutf8_encode(s: &str) -> (r: Vec<u8>)
    requires
        fits_codec(s@.len()),
    ensures
        r@ == mutf8_encoding(s@),
        r@.len() <= 8 * s@.len(),
{
    simd_cesu8::mutf8::encode(s).into_owned()
}

/// Calls `simd_cesu8::mutf8::decode_lossy`. Claimed: the result is a
/// function of the bytes alone (named `mutf8_lossy`), and on the Modified
/// UTF-8 encoding of a string it is that string (bytes that are valid UTF-8
/// are taken as they are; the others go through the crate's decoder, which
/// undoes each form the encoder writes). Each character of the result,
/// U+FFFD for a byte it cannot read included, takes at least one byte, so
/// the result has no more characters than the input has bytes. The crate panics only
/// when the output would exceed `isize::MAX` bytes, which the `requires`
/// rules out.
#[verifier::external_body]
pub(crate) fn mutf8_decode_lossy(b: &[u8]) -> (r: String)
    requires
        fits_codec(b@.len()),
    ensures
        r@ == mutf8_lossy(b@),
        forall|t: Seq<char>| #[trigger] mutf8_encoding(t) == b@ ==> r@ == t,
        r@.len() <= b@.len(),
{
    simd_cesu8::mutf8::decode_lossy(b).into_owned()
}

/// The string that `simd_cesu8::decode_lossy` (CESU-8) makes of some bytes.
pub uninterp spec fn cesu8_lossy(b: Seq<u8>) -> Seq<char>;

/// Calls `simd_cesu8::decode_lossy`, the CESU-8 decoder. Claimed: the result
/// is a function of the bytes alone (named `cesu8_lossy`). The crate panics
/// only when the output would exceed `isize::MAX` bytes, which the
/// `requires` rules out.
#[verifier::external_body]
pub(crate) fn cesu8_decode_lossy(b: &[u8]) -> (r: String)
    requires
        fits_codec(b@.len()),
    ensures
        r@ == cesu8_lossy(b@),
{
    simd_cesu8::decode_lossy(b).into_owned()
}

/// Calls `simd_cesu8::mutf8::decode_lossy_strict`. Claimed: the result is a
/// function of the bytes alone (named `mutf8_lossy_strict`), and on the
/// Modified UTF-8 encoding of a string it is that string.
#[verifier::external_body]
pub(crate) fn mutf8_decode_lossy_strict(b: &[u8]) -> (r: String)
    requires
        fits_codec(b@.len()),
    ensures
        r@ == mutf8_lossy_strict(b@),
        forall|t: Seq<char>| #[trigger] mutf8_encoding(t) == b@ ==> r@ == t,
{
    simd_cesu8::mutf8::decode_lossy_strict(b).into_owned()
}

/// Calls `simd_cesu8::mutf8::decode`. Claimed: whether it succeeds, and the
/// string on success, are a function of the bytes alone (named
/// `mutf8_decoded`); on the Modified UTF-8 encoding of a string it succeeds
/// with that string.
#[verifier::external_body]
pub(crate) fn mutf8_decode(b: &[u8]) -> (r: Result<String, simd_cesu8::DecodingError>)
    requires
        fits_codec(b@.len()),
    ensures
        match r {
            Ok(s) => mutf8_decoded(b@) == Some(s@),
            Err(_) => mutf8_decoded(b@) is None,
        },
        forall|t: Seq<char>| #[trigger] mutf8_encoding(t) == b@ ==> r is Ok && r->Ok_0@ == t,
{
    match simd_cesu8::mutf8::decode(b) {
        Ok(s) => Ok(s.into_owned()),
        Err(e) => Err(e),
    }
}

/// Calls `simd_cesu8::mutf8::decode_strict`. Claimed: whether it succeeds,
/// and the string on success, are a function of the bytes alone (named
/// `mutf8_decoded_strict`); on the Modified UTF-8 encoding of a string (which
/// holds no 0x00 byte and no 4-byte form) it succeeds with that string.
#[verifier::external_body]
pub(crate) fn mutf8_decode_strict(b: &[u8]) -> (r: Result<String, simd_cesu8::DecodingError>)
    requires
        fits_codec(b@.len()),
    ensures
        match r {
            Ok(s) => mutf8_decoded_strict(b@) == Some(s@),
            Err(_) => mutf8_decoded_strict(b@) is None,
        },
        forall|t: Seq<char>| #[trigger] mutf8_encoding(t) == b@ ==> r is Ok && r->Ok_0@ == t,
{
    match simd_cesu8::mutf8::decode_strict(b) {
        Ok(s) => Ok(s.into_owned()),
        Err(e) => Err(e),
    }
}

/// Bytes that are not a valid encoding; nothing more is told.
#[derive(Clone, Copy, Debug, PartialEq, Eq)]
pub struct DecodeError;

/// A run of Modified UTF-8 bytes, as stored in a document.
pub struct MUTF8Str<'a> {
    bytes: &'a [u8],
}

impl<'a> MUTF8Str<'a> {
    /// Wraps bytes that are taken to be Modified UTF-8; nothing is checked.
    pub fn from_mutf8_unchecked(bytes: &'a [u8]) -> (r: MUTF8Str<'a>)
        ensures
            r.spec_bytes() == bytes@,
    {
        MUTF8Str { bytes }
    }

    /// The bytes.
    pub closed spec fn spec_bytes(&self) -> Seq<u8> {
        self.bytes@
    }

    /// The bytes.
    pub fn as_bytes(&self) -> (r: &'a [u8])
        ensures
            r@ == self.spec_bytes(),
    {
        self.bytes
    }

    /// Decodes, replacing what is not Modified UTF-8 (valid UTF-8 is taken
    /// as it is).
    pub fn decode_lossy(&self) -> (r: String)
        requires
            fits_codec(self.spec_bytes().len()),
        ensures
            r@ == mutf8_lossy(self.spec_bytes()),
            forall|t: Seq<char>| #[trigger] mutf8_encoding(t) == self.spec_bytes() ==> r@ == t,
    {
        mutf8_decode_lossy(self.bytes)
    }

    /// Decodes, refusing what is not Modified UTF-8.
    pub fn decode_strict(&self) -> (r: Result<String, DecodeError>)
        requires
            fits_codec(self.spec_bytes().len()),
        ensures
            match r {
                Ok(s) => mutf8_decoded_strict(self.spec_bytes()) == Some(s@),
                Err(_) => mutf8_decoded_strict(self.spec_bytes()) is None,
            },
            forall|t: Seq<char>| #[trigger] mutf8_encoding(t) == self.spec_bytes() ==> (r matches Ok(x)
                && x@ == t),
    {
        match mutf8_decode_strict(self.bytes) {
            Ok(s) => Ok(s),
            Err(_) => Err(DecodeError),
        }
    }

    /// Decodes, refusing what is neither Modified UTF-8 nor UTF-8.
    pub fn decode(&self) -> (r: Result<String, DecodeError>)
        requires
            fits_codec(self.spec_bytes().len()),
        ensures
            match r {
                Ok(s) => mutf8_decoded(self.spec_bytes()) == Some(s@),
                Err(_) => mutf8_decoded(self.spec_bytes()) is None,
            },
            forall|t: Seq<char>| #[trigger] mutf8_encoding(t) == self.spec_bytes() ==> (r matches Ok(x)
                && x@ == t),
    {
        match mutf8_decode(self.bytes) {
            Ok(s) => Ok(s),
            Err(_) => Err(DecodeError),
        }
    }

    /// Decodes, replacing what is not Modified UTF-8.
    pub fn decode_lossy_strict(&self) -> (r: String)
        requires
            fits_codec(self.spec_bytes().len()),
        ensures
            r@ == mutf8_lossy_strict(self.spec_bytes()),
            forall|t: Seq<char>| #[trigger] mutf8_encoding(t) == self.spec_bytes() ==> r@ == t,
    {
        mutf8_decode_lossy_strict(self.bytes)
    }

    /// The lossy decoding as an owned string: the string itself for the
    /// Modified UTF-8 encoding of a string.
    pub fn to_utf8_string(&self) -> (r: String)
        requires
            fits_codec(self.spec_bytes().len()),
        ensures
            r@ == mutf8_lossy(self.spec_bytes()),
            forall|t: Seq<char>| #[trigger] mutf8_encoding(t) == self.spec_bytes() ==> r@ == t,
    {
        self.decode_lossy()
    }
}

} // verus!
