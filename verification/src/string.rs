//! Owned NBT strings made from Rust strings, and their text edits.
//!
//! An `OwnString` holds Modified UTF-8 bytes. An edit decodes them, changes
//! the text and encodes it again, as a document's strings are edited.
use vstd::prelude::*;
use vstd::string::{StrSliceExecFns, StringExecFns};
use vstd::utf8::{decode_utf8, encode_utf8, is_char_boundary, valid_utf8};

use crate::mutf8::{fits_codec, mutf8_decode_lossy, mutf8_encode, mutf8_encoding, mutf8_lossy};
use crate::value::OwnString;

verus! {

/// `String::push` appends a character (std's documentation).
pub assume_specification[ std::string::String::push ](s: &mut std::string::String, ch: char)
    ensures
        final(s)@ == old(s)@.push(ch),
;

/// `String::pop` removes and returns the last character, `None` when the
/// string is empty (std's documentation).
pub assume_specification[ std::string::String::pop ](s: &mut std::string::String) -> (r: Option<char>)
    ensures
        old(s)@.len() == 0 ==> r is None && final(s)@ == old(s)@,
        old(s)@.len() > 0 ==> r == Some(old(s)@.last()) && final(s)@ == old(s)@.drop_last(),
;

/// The UTF-8 bytes of the text that `bytes` decode to (leniently): byte
/// positions of the text edits count in these.
pub open spec fn text_utf8(bytes: Seq<u8>) -> Seq<u8> {
    encode_utf8(mutf8_lossy(bytes))
}

/// The text before byte position `i` of the decoded text.
pub open spec fn text_before(bytes: Seq<u8>, i: int) -> Seq<char> {
    decode_utf8(text_utf8(bytes).subrange(0, i))
}

/// The text from byte position `i` of the decoded text on.
pub open spec fn text_after(bytes: Seq<u8>, i: int) -> Seq<char> {
    decode_utf8(text_utf8(bytes).subrange(i, text_utf8(bytes).len() as int))
}

/// A text's UTF-8 bytes number at most 4 for each character.
proof fn lemma_utf8_len(t: Seq<char>)
    ensures
        encode_utf8(t).len() <= 4 * t.len(),
    decreases t.len(),
{
    if t.len() > 0 {
        lemma_utf8_len(t.drop_first());
    }
}

/// Splitting a text's UTF-8 bytes at a character boundary splits the text:
/// the two parts are the text before and after the boundary.
proof fn lemma_split_text(t: Seq<char>, i: int, a: Seq<char>, b: Seq<char>)
    requires
        is_char_boundary(encode_utf8(t), i),
        encode_utf8(a) == encode_utf8(t).subrange(0, i),
        encode_utf8(b) == encode_utf8(t).subrange(i, encode_utf8(t).len() as int),
    ensures
        a == decode_utf8(encode_utf8(t).subrange(0, i)),
        b == decode_utf8(encode_utf8(t).subrange(i, encode_utf8(t).len() as int)),
        t == a + b,
{
    broadcast use vstd::utf8::group_utf8_lib;

    let u = encode_utf8(t);
    assert(decode_utf8(encode_utf8(a)) == a);
    assert(decode_utf8(encode_utf8(b)) == b);
    assert(decode_utf8(u) == t);
    assert(decode_utf8(u) =~= decode_utf8(u.subrange(0, i)) + decode_utf8(
        u.subrange(i, u.len() as int),
    ));
}

/// The text between byte positions `i` and `j` of the decoded text.
pub open spec fn text_between(bytes: Seq<u8>, i: int, j: int) -> Seq<char> {
    decode_utf8(text_utf8(bytes).subrange(i, j))
}

/// After cutting valid UTF-8 at boundary `i`, a later boundary `j` of the
/// whole is a boundary of the rest, and the rest splits there into the
/// bytes between `i` and `j` and the bytes from `j` on.
proof fn lemma_boundary_shift(u: Seq<u8>, i: int, j: int)
    requires
        valid_utf8(u),
        is_char_boundary(u, i),
        is_char_boundary(u, j),
        0 <= i <= j <= u.len(),
    ensures
        is_char_boundary(u.subrange(i, u.len() as int), j - i),
        u.subrange(i, u.len() as int).subrange(0, j - i) == u.subrange(i, j),
        u.subrange(i, u.len() as int).subrange(j - i, u.len() - i) == u.subrange(j, u.len() as int),
{
    broadcast use vstd::utf8::group_utf8_lib;

    let rest = u.subrange(i, u.len() as int);
    assert(valid_utf8(rest));
    if j < u.len() {
        assert(rest[j - i] == u[j]);
        assert(is_char_boundary(u, j) <==> !vstd::utf8::is_continuation_byte(u[j]));
        assert(is_char_boundary(rest, j - i) <==> !vstd::utf8::is_continuation_byte(rest[j - i]));
    } else {
        assert(is_char_boundary(rest, rest.len() as int));
    }
    assert(rest.subrange(0, j - i) =~= u.subrange(i, j));
    assert(rest.subrange(j - i, u.len() - i) =~= u.subrange(j, u.len() as int));
}

/// At a character boundary `i` of the decoded text, the text before `i`
/// and the text from `i` on make the whole text, and the text before `i`
/// takes exactly the first `i` UTF-8 bytes. So the position-based edits
/// below cut the text where the byte position says.
pub proof fn lemma_text_at_boundary(bytes: Seq<u8>, i: int)
    requires
        is_char_boundary(text_utf8(bytes), i),
    ensures
        text_before(bytes, i) + text_after(bytes, i) == mutf8_lossy(bytes),
        encode_utf8(text_before(bytes, i)) == text_utf8(bytes).subrange(0, i),
        encode_utf8(text_after(bytes, i)) == text_utf8(bytes).subrange(
            i,
            text_utf8(bytes).len() as int,
        ),
{
    broadcast use vstd::utf8::group_utf8_lib;

    let u = text_utf8(bytes);
    assert(decode_utf8(u) == mutf8_lossy(bytes));
    assert(decode_utf8(u) =~= decode_utf8(u.subrange(0, i)) + decode_utf8(
        u.subrange(i, u.len() as int),
    ));
    assert(valid_utf8(u.subrange(0, i)));
    assert(valid_utf8(u.subrange(i, u.len() as int)));
}

impl OwnString {
    /// The Modified UTF-8 encoding of `s`.
    pub fn from_str(s: &str) -> (r: OwnString)
        requires
            fits_codec(s@.len()),
        ensures
            r@ == mutf8_encoding(s@),
    {
        OwnString { data: mutf8_encode(s) }
    }

    /// The length in bytes (Modified UTF-8).
    pub fn len(&self) -> (n: usize)
        ensures
            n == self@.len(),
    {
        self.data.len()
    }

    /// Whether there are no bytes.
    pub fn is_empty(&self) -> (b: bool)
        ensures
            b == (self@.len() == 0),
    {
        self.data.len() == 0
    }

    /// The Modified UTF-8 bytes.
    pub fn as_mutf8_bytes(&self) -> (r: &[u8])
        ensures
            r@ == self@,
    {
        self.data.as_slice()
    }

    /// The text, decoded leniently: the string itself for the encoding of a
    /// string.
    pub fn decode(&self) -> (r: String)
        requires
            fits_codec(self@.len()),
        ensures
            r@ == mutf8_lossy(self@),
            forall|t: Seq<char>| #[trigger] mutf8_encoding(t) == self@ ==> r@ == t,
            r@.len() <= self@.len(),
    {
        mutf8_decode_lossy(self.data.as_slice())
    }

    /// Appends `s` to the text: the bytes become the encoding of the decoded
    /// text followed by `s`.
    pub fn push_str(&mut self, s: &str)
        requires
            fits_codec(old(self)@.len() + s@.len()),
        ensures
            final(self)@ == mutf8_encoding(mutf8_lossy(old(self)@) + s@),
    {
        let mut t = self.decode();
        t.append(s);
        self.data = mutf8_encode(t.as_str());
    }

    /// Appends the character `ch` to the text.
    pub fn push(&mut self, ch: char)
        requires
            fits_codec(old(self)@.len() + 1),
        ensures
            final(self)@ == mutf8_encoding(mutf8_lossy(old(self)@).push(ch)),
    {
        let mut t = self.decode();
        t.push(ch);
        self.data = mutf8_encode(t.as_str());
    }

    /// Removes and returns the last character of the text, `None` when there
    /// is none. The bytes become the encoding of what is left of the text.
    pub fn pop(&mut self) -> (r: Option<char>)
        requires
            fits_codec(old(self)@.len()),
        ensures
            mutf8_lossy(old(self)@).len() == 0 ==> r is None && final(self)@ == mutf8_encoding(
                mutf8_lossy(old(self)@),
            ),
            mutf8_lossy(old(self)@).len() > 0 ==> r == Some(mutf8_lossy(old(self)@).last())
                && final(self)@ == mutf8_encoding(mutf8_lossy(old(self)@).drop_last()),
    {
        let mut t = self.decode();
        let r = t.pop();
        self.data = mutf8_encode(t.as_str());
        r
    }

    /// Removes all the text.
    pub fn clear(&mut self)
        ensures
            final(self)@ == Seq::<u8>::empty(),
            final(self)@ == mutf8_encoding(Seq::<char>::empty()),
    {
        self.data = Vec::new();
    }

    /// Inserts `s` at byte position `idx` of the decoded text, which must be
    /// a character boundary.
    pub fn insert_str(&mut self, idx: usize, s: &str)
        requires
            fits_codec(old(self)@.len() + s@.len()),
            is_char_boundary(text_utf8(old(self)@), idx as int),
        ensures
            final(self)@ == mutf8_encoding(text_before(old(self)@, idx as int) + s@ + text_after(
                old(self)@,
                idx as int,
            )),
    {
        broadcast use vstd::utf8::group_utf8_lib;

        let t = self.decode();
        let (a, b) = t.as_str().split_at(idx);
        proof {
            lemma_split_text(t@, idx as int, a@, b@);
        }
        let mut r = <std::string::String as StringExecFns>::from_str(a);
        r.append(s);
        r.append(b);
        self.data = mutf8_encode(r.as_str());
    }

    /// Whether byte position `idx` of the decoded text is a character
    /// boundary (the start, the end, or the first byte of a character).
    pub fn is_char_boundary(&self, idx: usize) -> (b: bool)
        requires
            fits_codec(self@.len()),
        ensures
            b == is_char_boundary(text_utf8(self@), idx as int),
    {
        let t = self.decode();
        t.as_str().is_char_boundary(idx)
    }

    /// Inserts the character `ch` at byte position `idx` of the decoded text,
    /// which must be a character boundary.
    pub fn insert(&mut self, idx: usize, ch: char)
        requires
            fits_codec(old(self)@.len() + 1),
            is_char_boundary(text_utf8(old(self)@), idx as int),
        ensures
            final(self)@ == mutf8_encoding(text_before(old(self)@, idx as int) + seq![ch]
                + text_after(old(self)@, idx as int)),
    {
        broadcast use vstd::utf8::group_utf8_lib;

        let t = self.decode();
        let (a, b) = t.as_str().split_at(idx);
        proof {
            lemma_split_text(t@, idx as int, a@, b@);
        }
        let mut r = <std::string::String as StringExecFns>::from_str(a);
        r.push(ch);
        r.append(b);
        proof {
            assert(r@ == a@ + seq![ch] + b@);
        }
        self.data = mutf8_encode(r.as_str());
    }

    /// Removes and returns the character at byte position `idx` of the
    /// decoded text, which must be a character boundary before the end.
    pub fn remove(&mut self, idx: usize) -> (r: char)
        requires
            fits_codec(old(self)@.len()),
            is_char_boundary(text_utf8(old(self)@), idx as int),
            idx < text_utf8(old(self)@).len(),
        ensures
            text_after(old(self)@, idx as int).len() > 0,
            r == text_after(old(self)@, idx as int)[0],
            final(self)@ == mutf8_encoding(text_before(old(self)@, idx as int) + text_after(
                old(self)@,
                idx as int,
            ).drop_first()),
    {
        broadcast use vstd::utf8::group_utf8_lib;

        let t = self.decode();
        let (a, b) = t.as_str().split_at(idx);
        proof {
            lemma_split_text(t@, idx as int, a@, b@);
            if b@.len() == 0 {
                assert(encode_utf8(b@) =~= Seq::<u8>::empty());
            }
        }
        let c = b.get_char(0);
        let n = b.unicode_len();
        let rest = b.substring_char(1, n);
        let mut r = <std::string::String as StringExecFns>::from_str(a);
        r.append(rest);
        self.data = mutf8_encode(r.as_str());
        c
    }

    /// Shortens the decoded text to its first `new_len` bytes, which must end
    /// at a character boundary; nothing is cut when `new_len` is at least
    /// the text's length. The bytes become the encoding of the text.
    pub fn truncate(&mut self, new_len: usize)
        requires
            fits_codec(old(self)@.len()),
            new_len >= text_utf8(old(self)@).len() || is_char_boundary(
                text_utf8(old(self)@),
                new_len as int,
            ),
        ensures
            new_len >= text_utf8(old(self)@).len() ==> final(self)@ == mutf8_encoding(
                mutf8_lossy(old(self)@),
            ),
            new_len < text_utf8(old(self)@).len() ==> final(self)@ == mutf8_encoding(
                text_before(old(self)@, new_len as int),
            ),
    {
        broadcast use vstd::utf8::group_utf8_lib;

        let t = self.decode();
        proof {
            lemma_utf8_len(t@);
        }
        if new_len >= t.as_str().len() {
            self.data = mutf8_encode(t.as_str());
        } else {
            let (a, b) = t.as_str().split_at(new_len);
            proof {
                lemma_split_text(t@, new_len as int, a@, b@);
            }
            self.data = mutf8_encode(a);
        }
    }

    /// Splits the decoded text at byte position `at`, which must be a
    /// character boundary: the text from `at` on is returned, and the bytes
    /// become the encoding of the text before it.
    pub fn split_off(&mut self, at: usize) -> (r: std::string::String)
        requires
            fits_codec(old(self)@.len()),
            is_char_boundary(text_utf8(old(self)@), at as int),
        ensures
            r@ == text_after(old(self)@, at as int),
            final(self)@ == mutf8_encoding(text_before(old(self)@, at as int)),
    {
        broadcast use vstd::utf8::group_utf8_lib;

        let t = self.decode();
        let (a, b) = t.as_str().split_at(at);
        proof {
            lemma_split_text(t@, at as int, a@, b@);
        }
        let r = <std::string::String as StringExecFns>::from_str(b);
        self.data = mutf8_encode(a);
        r
    }

    /// Replaces the bytes `range` of the decoded text, whose ends must be
    /// character boundaries, by `s`.
    pub fn replace_range(&mut self, range: core::ops::Range<usize>, s: &str)
        requires
            fits_codec(old(self)@.len() + s@.len()),
            range.start <= range.end,
            is_char_boundary(text_utf8(old(self)@), range.start as int),
            is_char_boundary(text_utf8(old(self)@), range.end as int),
        ensures
            final(self)@ == mutf8_encoding(text_before(old(self)@, range.start as int) + s@
                + text_after(old(self)@, range.end as int)),
    {
        broadcast use vstd::utf8::group_utf8_lib;

        let t = self.decode();
        let ghost u = encode_utf8(t@);
        let (a, rest) = t.as_str().split_at(range.start);
        proof {
            lemma_split_text(t@, range.start as int, a@, rest@);
            lemma_boundary_shift(u, range.start as int, range.end as int);
        }
        let (m, c) = rest.split_at(range.end - range.start);
        proof {
            lemma_split_text(rest@, (range.end - range.start) as int, m@, c@);
        }
        let mut r = <std::string::String as StringExecFns>::from_str(a);
        r.append(s);
        r.append(c);
        self.data = mutf8_encode(r.as_str());
    }

    /// Removes the bytes `range` of the decoded text, whose ends must be
    /// character boundaries.
    pub fn drain_drop(&mut self, range: core::ops::Range<usize>)
        requires
            fits_codec(old(self)@.len()),
            range.start <= range.end,
            is_char_boundary(text_utf8(old(self)@), range.start as int),
            is_char_boundary(text_utf8(old(self)@), range.end as int),
        ensures
            final(self)@ == mutf8_encoding(text_before(old(self)@, range.start as int)
                + text_after(old(self)@, range.end as int)),
    {
        broadcast use vstd::utf8::group_utf8_lib;

        let t = self.decode();
        let ghost u = encode_utf8(t@);
        let (a, rest) = t.as_str().split_at(range.start);
        proof {
            lemma_split_text(t@, range.start as int, a@, rest@);
            lemma_boundary_shift(u, range.start as int, range.end as int);
        }
        let (m, c) = rest.split_at(range.end - range.start);
        proof {
            lemma_split_text(rest@, (range.end - range.start) as int, m@, c@);
        }
        let mut r = <std::string::String as StringExecFns>::from_str(a);
        r.append(c);
        self.data = mutf8_encode(r.as_str());
    }

    /// Appends a copy of the bytes `range` of the decoded text, whose ends
    /// must be character boundaries, to the text.
    pub fn extend_from_within(&mut self, range: core::ops::Range<usize>)
        requires
            fits_codec(2 * old(self)@.len()),
            range.start <= range.end,
            is_char_boundary(text_utf8(old(self)@), range.start as int),
            is_char_boundary(text_utf8(old(self)@), range.end as int),
        ensures
            final(self)@ == mutf8_encoding(mutf8_lossy(old(self)@) + text_between(
                old(self)@,
                range.start as int,
                range.end as int,
            )),
    {
        broadcast use vstd::utf8::group_utf8_lib;

        let t = self.decode();
        let ghost u = encode_utf8(t@);
        let (a, rest) = t.as_str().split_at(range.start);
        proof {
            lemma_split_text(t@, range.start as int, a@, rest@);
            lemma_boundary_shift(u, range.start as int, range.end as int);
        }
        let (m, c) = rest.split_at(range.end - range.start);
        proof {
            lemma_split_text(rest@, (range.end - range.start) as int, m@, c@);
        }
        let mut r = <std::string::String as StringExecFns>::from_str(t.as_str());
        r.append(m);
        self.data = mutf8_encode(r.as_str());
    }
}

} // verus!
