//! What the deserializer reads back of what the serializer wrote.
//!
//! Each law takes the bytes that a function of `serializer` appends,
//! followed by anything, and shows that the matching function of
//! `deserializer` finds the value that was written and leaves exactly what
//! followed.
use vstd::prelude::*;

use crate::byte_order::{
    i16_of, i32_of, i64_of, i8_of, lemma_twos_complement_inverse, lemma_twos_complement_roundtrip,
    u16_at, u16_bytes, u16_of_i16, u32_at, u32_bytes, u32_of_i32, u64_bytes, u64_of_i64, u8_of_i8,
};
use crate::model::{Nbt, encode, nbt_tag, parse_payload, wf};
use crate::skip::skip_end;
use crate::tag::tag_byte;
use crate::tag_probe::{SerdeKind, kind_tag};
use crate::deserializer::{i128_of_words, rest, root_header};
use crate::roundtrip::{holds_at, lemma_holds_index, lemma_u16_read_back, lemma_u32_read_back};
use crate::serializer::{
    entry_head, i128_bits, patch4, pow32, pow64, pow96, string_payload, words_payload,
    wrapped_list_head,
};

verus! {

/// `x` stands at `p` of `a + x + c` for any `a` of length `p`.
proof fn lemma_holds_middle(a: Seq<u8>, x: Seq<u8>, c: Seq<u8>)
    ensures
        holds_at(a + x + c, a.len() as int, x),
{
    let b = a + x + c;
    assert(b.subrange(a.len() as int, (a.len() + x.len()) as int) =~= x);
}

/// The four 32-bit words of a 128-bit number, most significant first, make
/// the number again.
proof fn lemma_words_recombine(u: int)
    requires
        0 <= u < 0x1_0000_0000_0000_0000_0000_0000_0000_0000,
    ensures
        ((u / pow96()) as u32) * pow96() + (((u / pow64()) % pow32()) as u32) * pow64() + ((
        (u / pow32()) % pow32()) as u32) * pow32() + ((u % pow32()) as u32) == u,
{
    let q1 = u / pow32();
    let q2 = q1 / pow32();
    let q3 = q2 / pow32();
    assert(u == q1 * pow32() + u % pow32());
    assert(q1 == q2 * pow32() + q1 % pow32());
    assert(q2 == q3 * pow32() + q2 % pow32());
    assert(u / pow64() == q2);
    assert(u / pow96() == q3);
    assert(q3 < pow32());
}

/// An `i128` written as an Int Array of four words is read back.
pub proof fn lemma_i128_roundtrip(v: i128, tail: Seq<u8>, big: bool)
    ensures
        ({
            let b = words_payload(i128_bits(v), big) + tail;
            &&& b.len() >= 20
            &&& i128_of_words(u32_at(b, 4, big), u32_at(b, 8, big), u32_at(b, 12, big), u32_at(b, 16, big))
                == v
            &&& rest(b, 20) == tail
        }),
{
    let u = i128_bits(v);
    let x1 = (u / pow96()) as u32;
    let x2 = ((u / pow64()) % pow32()) as u32;
    let x3 = ((u / pow32()) % pow32()) as u32;
    let x4 = (u % pow32()) as u32;
    let h = u32_bytes(4, big);
    let w1 = u32_bytes(x1, big);
    let w2 = u32_bytes(x2, big);
    let w3 = u32_bytes(x3, big);
    let w4 = u32_bytes(x4, big);
    let b = words_payload(u, big) + tail;
    assert(b =~= h + w1 + (w2 + w3 + w4 + tail));
    lemma_holds_middle(h, w1, w2 + w3 + w4 + tail);
    assert(b =~= (h + w1) + w2 + (w3 + w4 + tail));
    lemma_holds_middle(h + w1, w2, w3 + w4 + tail);
    assert(b =~= (h + w1 + w2) + w3 + (w4 + tail));
    lemma_holds_middle(h + w1 + w2, w3, w4 + tail);
    assert(b =~= (h + w1 + w2 + w3) + w4 + tail);
    lemma_holds_middle(h + w1 + w2 + w3, w4, tail);
    lemma_u32_read_back(x1, b, 4, big);
    lemma_u32_read_back(x2, b, 8, big);
    lemma_u32_read_back(x3, b, 12, big);
    lemma_u32_read_back(x4, b, 16, big);
    lemma_words_recombine(u);
    assert(rest(b, 20) =~= tail);
}

/// A string payload of encoded bytes is read back: the length field gives
/// the length, the bytes after it are the encoded bytes, and what follows
/// is left.
pub proof fn lemma_string_roundtrip(encoded: Seq<u8>, tail: Seq<u8>, big: bool)
    requires
        encoded.len() < u16::MAX,
    ensures
        ({
            let b = string_payload(encoded, big) + tail;
            let n = u16_at(b, 0, big) as int;
            &&& b.len() >= 2
            &&& n == encoded.len()
            &&& 2 + n <= b.len()
            &&& b.subrange(2, 2 + n) == encoded
            &&& rest(b, 2 + n) == tail
        }),
{
    let h = u16_bytes(encoded.len() as u16, big);
    let b = string_payload(encoded, big) + tail;
    assert(b =~= Seq::<u8>::empty() + h + (encoded + tail));
    lemma_holds_middle(Seq::<u8>::empty(), h, encoded + tail);
    lemma_u16_read_back(encoded.len() as u16, b, 0, big);
    assert(b.subrange(2, 2 + encoded.len() as int) =~= encoded);
    assert(rest(b, 2 + encoded.len() as int) =~= tail);
}

/// A Byte Array payload is read back.
pub proof fn lemma_bytes_roundtrip(v: Seq<u8>, tail: Seq<u8>, big: bool)
    requires
        v.len() < u32::MAX,
    ensures
        ({
            let b = u32_bytes(v.len() as u32, big) + v + tail;
            let n = u32_at(b, 0, big) as int;
            &&& b.len() >= 4
            &&& n == v.len()
            &&& 4 + n <= b.len()
            &&& b.subrange(4, 4 + n) == v
            &&& rest(b, 4 + n) == tail
        }),
{
    let h = u32_bytes(v.len() as u32, big);
    let b = h + v + tail;
    assert(b =~= Seq::<u8>::empty() + h + (v + tail));
    lemma_holds_middle(Seq::<u8>::empty(), h, v + tail);
    lemma_u32_read_back(v.len() as u32, b, 0, big);
    assert(b.subrange(4, 4 + v.len() as int) =~= v);
    assert(rest(b, 4 + v.len() as int) =~= tail);
}

/// The head of a wrapped list is read back: element tag Compound and the
/// length.
pub proof fn lemma_wrapped_list_roundtrip(n: u32, tail: Seq<u8>, big: bool)
    ensures
        ({
            let b = wrapped_list_head(n, big) + tail;
            &&& b.len() >= 5
            &&& b[0] == 10
            &&& u32_at(b, 1, big) == n
            &&& rest(b, 5) == tail
        }),
{
    let b = wrapped_list_head(n, big) + tail;
    assert(b =~= seq![10u8] + u32_bytes(n, big) + tail);
    lemma_holds_middle(seq![10u8], u32_bytes(n, big), tail);
    lemma_u32_read_back(n, b, 1, big);
    assert(rest(b, 5) =~= tail);
}

/// A count written into the length field of a sequence is the length read
/// back there.
pub proof fn lemma_patched_length(s: Seq<u8>, p: int, n: u32, big: bool)
    requires
        0 <= p,
        p + 4 <= s.len(),
    ensures
        patch4(s, p, u32_bytes(n, big)).len() == s.len(),
        u32_at(patch4(s, p, u32_bytes(n, big)), p, big) == n,
{
    let a = s.subrange(0, p);
    let c = s.subrange(p + 4, s.len() as int);
    lemma_holds_middle(a, u32_bytes(n, big), c);
    lemma_u32_read_back(n, patch4(s, p, u32_bytes(n, big)), p, big);
}

/// A document started by `Serializer::with_root` with a tag other than End
/// is opened by `Deserializer::from_slice` at that tag, right after the
/// root header.
pub proof fn lemma_root_header_roundtrip(tag: u8, payload: Seq<u8>, big: bool)
    requires
        1 <= tag <= 12,
    ensures
        root_header(seq![tag, 0u8, 0u8] + payload, big) == Ok::<(u8, int), crate::error::Error>(
            (tag, 3),
        ),
        rest(seq![tag, 0u8, 0u8] + payload, 3) == payload,
{
    let b = seq![tag, 0u8, 0u8] + payload;
    assert(b[0] == tag);
    assert(b[1] == 0 && b[2] == 0);
    assert(rest(b, 3) =~= payload);
}

/// The head of a compound entry is read back by `Deserializer::next_key`:
/// the tag byte, the name's length and the name's bytes, leaving the value
/// that follows.
pub proof fn lemma_entry_head_roundtrip(tag: u8, encoded: Seq<u8>, tail: Seq<u8>, big: bool)
    requires
        encoded.len() < u16::MAX,
    ensures
        ({
            let b = entry_head(tag, encoded, big) + tail;
            let n = u16_at(b, 1, big) as int;
            &&& b.len() >= 3
            &&& b[0] == tag
            &&& n == encoded.len()
            &&& 3 + n <= b.len()
            &&& b.subrange(3, 3 + n) == encoded
            &&& rest(b, 3 + n) == tail
        }),
{
    let h = u16_bytes(encoded.len() as u16, big);
    let b = entry_head(tag, encoded, big) + tail;
    assert(b =~= seq![tag] + h + (encoded + tail));
    lemma_holds_middle(seq![tag], h, encoded + tail);
    lemma_u16_read_back(encoded.len() as u16, b, 1, big);
    assert(b.subrange(3, 3 + encoded.len() as int) =~= encoded);
    assert(rest(b, 3 + encoded.len() as int) =~= tail);
}

/// A wrapped item opened by the serializer is opened by the deserializer:
/// its tag byte and an empty name.
pub proof fn lemma_wrapped_item_roundtrip(tag: u8, tail: Seq<u8>, big: bool)
    ensures
        ({
            let b = seq![tag, 0u8, 0u8] + tail;
            &&& b.len() >= 3
            &&& b[0] == tag
            &&& u16_at(b, 1, big) == 0
            &&& rest(b, 3) == tail
        }),
{
    let b = seq![tag, 0u8, 0u8] + tail;
    assert(b[1] == 0 && b[2] == 0);
    assert(rest(b, 3) =~= tail);
}

/// The reader reads the payload the writer wrote for a value, and stops at
/// its end.
proof fn lemma_reads_own_payload(v: Nbt, big: bool, eager: bool)
    requires
        wf(v),
    ensures
        parse_payload(nbt_tag(v), encode(v, big), 0, big, eager) == Ok::<
            (Nbt, int),
            crate::error::Error,
        >((v, encode(v, big).len() as int)),
{
    let b = encode(v, big);
    assert(b.subrange(0, b.len() as int) =~= b);
    crate::roundtrip::lemma_parse_encode(v, b, 0, big, eager);
}

/// The one- and two-byte kinds. (See `lemma_kind_tags_fit_payloads`.)
#[verifier::spinoff_prover]
proof fn lemma_kinds_small_ints(big: bool, eager: bool)
    ensures
        parse_payload(tag_byte(kind_tag(SerdeKind::Bool)), seq![1u8], 0, big, eager) == Ok::<
            (Nbt, int),
            crate::error::Error,
        >((Nbt::Byte(1), 1)),
        parse_payload(tag_byte(kind_tag(SerdeKind::Bool)), seq![0u8], 0, big, eager) == Ok::<
            (Nbt, int),
            crate::error::Error,
        >((Nbt::Byte(0), 1)),
        forall|x: i8|
            #![auto]
            parse_payload(tag_byte(kind_tag(SerdeKind::I8)), seq![u8_of_i8(x)], 0, big, eager)
                == Ok::<(Nbt, int), crate::error::Error>((Nbt::Byte(x), 1)),
        forall|x: u8|
            #![auto]
            parse_payload(tag_byte(kind_tag(SerdeKind::U8)), seq![x], 0, big, eager) == Ok::<
                (Nbt, int),
                crate::error::Error,
            >((Nbt::Byte(i8_of(x)), 1)),
        forall|x: i16|
            #![auto]
            parse_payload(tag_byte(kind_tag(SerdeKind::I16)), u16_bytes(u16_of_i16(x), big), 0, big, eager)
                == Ok::<(Nbt, int), crate::error::Error>((Nbt::Short(x), 2)),
        forall|x: u16|
            #![auto]
            parse_payload(tag_byte(kind_tag(SerdeKind::U16)), u16_bytes(x, big), 0, big, eager)
                == Ok::<(Nbt, int), crate::error::Error>((Nbt::Short(i16_of(x)), 2)),
{
    lemma_reads_own_payload(Nbt::Byte(1), big, eager);
    lemma_reads_own_payload(Nbt::Byte(0), big, eager);
    assert forall|x: i8| #![auto]
        parse_payload(tag_byte(kind_tag(SerdeKind::I8)), seq![u8_of_i8(x)], 0, big, eager)
            == Ok::<(Nbt, int), crate::error::Error>((Nbt::Byte(x), 1)) by {
        lemma_reads_own_payload(Nbt::Byte(x), big, eager);
    }
    assert forall|x: u8| #![auto]
        parse_payload(tag_byte(kind_tag(SerdeKind::U8)), seq![x], 0, big, eager) == Ok::<
            (Nbt, int),
            crate::error::Error,
        >((Nbt::Byte(i8_of(x)), 1)) by {
        lemma_twos_complement_inverse(x, 0, 0, 0);
        lemma_reads_own_payload(Nbt::Byte(i8_of(x)), big, eager);
    }
    assert forall|x: i16| #![auto]
        parse_payload(tag_byte(kind_tag(SerdeKind::I16)), u16_bytes(u16_of_i16(x), big), 0, big, eager)
            == Ok::<(Nbt, int), crate::error::Error>((Nbt::Short(x), 2)) by {
        lemma_reads_own_payload(Nbt::Short(x), big, eager);
    }
    assert forall|x: u16| #![auto]
        parse_payload(tag_byte(kind_tag(SerdeKind::U16)), u16_bytes(x, big), 0, big, eager)
            == Ok::<(Nbt, int), crate::error::Error>((Nbt::Short(i16_of(x)), 2)) by {
        lemma_twos_complement_inverse(0, x, 0, 0);
        lemma_reads_own_payload(Nbt::Short(i16_of(x)), big, eager);
    }
}

/// The four-byte kinds. (See `lemma_kind_tags_fit_payloads`.)
#[verifier::spinoff_prover]
proof fn lemma_kinds_words(big: bool, eager: bool)
    ensures
        forall|x: i32|
            #![auto]
            parse_payload(tag_byte(kind_tag(SerdeKind::I32)), u32_bytes(u32_of_i32(x), big), 0, big, eager)
                == Ok::<(Nbt, int), crate::error::Error>((Nbt::Int(x), 4)),
        forall|x: u32|
            #![auto]
            parse_payload(tag_byte(kind_tag(SerdeKind::U32)), u32_bytes(x, big), 0, big, eager)
                == Ok::<(Nbt, int), crate::error::Error>((Nbt::Int(i32_of(x)), 4)),
        forall|x: u32|
            #![auto]
            parse_payload(tag_byte(kind_tag(SerdeKind::Char)), u32_bytes(x, big), 0, big, eager)
                == Ok::<(Nbt, int), crate::error::Error>((Nbt::Int(i32_of(x)), 4)),
        forall|x: u32|
            #![auto]
            parse_payload(tag_byte(kind_tag(SerdeKind::UnitVariant)), u32_bytes(x, big), 0, big, eager)
                == Ok::<(Nbt, int), crate::error::Error>((Nbt::Int(i32_of(x)), 4)),
        forall|x: u32|
            #![auto]
            parse_payload(tag_byte(kind_tag(SerdeKind::F32)), u32_bytes(x, big), 0, big, eager)
                == Ok::<(Nbt, int), crate::error::Error>((Nbt::Float(x), 4)),
{
    assert forall|x: i32| #![auto]
        parse_payload(tag_byte(kind_tag(SerdeKind::I32)), u32_bytes(u32_of_i32(x), big), 0, big, eager)
            == Ok::<(Nbt, int), crate::error::Error>((Nbt::Int(x), 4)) by {
        lemma_reads_own_payload(Nbt::Int(x), big, eager);
    }
    assert forall|x: u32| #![auto]
        parse_payload(tag_byte(kind_tag(SerdeKind::U32)), u32_bytes(x, big), 0, big, eager)
            == Ok::<(Nbt, int), crate::error::Error>((Nbt::Int(i32_of(x)), 4)) by {
        lemma_twos_complement_inverse(0, 0, x, 0);
        lemma_reads_own_payload(Nbt::Int(i32_of(x)), big, eager);
    }
    assert forall|x: u32| #![auto]
        parse_payload(tag_byte(kind_tag(SerdeKind::Char)), u32_bytes(x, big), 0, big, eager)
            == Ok::<(Nbt, int), crate::error::Error>((Nbt::Int(i32_of(x)), 4)) by {
        lemma_twos_complement_inverse(0, 0, x, 0);
        lemma_reads_own_payload(Nbt::Int(i32_of(x)), big, eager);
    }
    assert forall|x: u32| #![auto]
        parse_payload(tag_byte(kind_tag(SerdeKind::UnitVariant)), u32_bytes(x, big), 0, big, eager)
            == Ok::<(Nbt, int), crate::error::Error>((Nbt::Int(i32_of(x)), 4)) by {
        lemma_twos_complement_inverse(0, 0, x, 0);
        lemma_reads_own_payload(Nbt::Int(i32_of(x)), big, eager);
    }
    assert forall|x: u32| #![auto]
        parse_payload(tag_byte(kind_tag(SerdeKind::F32)), u32_bytes(x, big), 0, big, eager)
            == Ok::<(Nbt, int), crate::error::Error>((Nbt::Float(x), 4)) by {
        lemma_reads_own_payload(Nbt::Float(x), big, eager);
    }
}

/// The eight-byte kinds and the 128-bit kinds. (See `lemma_kind_tags_fit_payloads`.)
#[verifier::spinoff_prover]
proof fn lemma_kinds_wide(big: bool, eager: bool)
    ensures
        forall|x: i64|
            #![auto]
            parse_payload(tag_byte(kind_tag(SerdeKind::I64)), u64_bytes(u64_of_i64(x), big), 0, big, eager)
                == Ok::<(Nbt, int), crate::error::Error>((Nbt::Long(x), 8)),
        forall|x: u64|
            #![auto]
            parse_payload(tag_byte(kind_tag(SerdeKind::U64)), u64_bytes(x, big), 0, big, eager)
                == Ok::<(Nbt, int), crate::error::Error>((Nbt::Long(i64_of(x)), 8)),
        forall|x: u64|
            #![auto]
            parse_payload(tag_byte(kind_tag(SerdeKind::F64)), u64_bytes(x, big), 0, big, eager)
                == Ok::<(Nbt, int), crate::error::Error>((Nbt::Double(x), 8)),
        forall|v: i128|
            #![auto]
            skip_end(tag_byte(kind_tag(SerdeKind::I128)), words_payload(i128_bits(v), big), 0, big)
                == Ok::<int, crate::error::Error>(20),
        forall|v: u128|
            #![auto]
            skip_end(tag_byte(kind_tag(SerdeKind::U128)), words_payload(v as int, big), 0, big)
                == Ok::<int, crate::error::Error>(20),
{
    assert forall|x: i64| #![auto]
        parse_payload(tag_byte(kind_tag(SerdeKind::I64)), u64_bytes(u64_of_i64(x), big), 0, big, eager)
            == Ok::<(Nbt, int), crate::error::Error>((Nbt::Long(x), 8)) by {
        lemma_reads_own_payload(Nbt::Long(x), big, eager);
    }
    assert forall|x: u64| #![auto]
        parse_payload(tag_byte(kind_tag(SerdeKind::U64)), u64_bytes(x, big), 0, big, eager)
            == Ok::<(Nbt, int), crate::error::Error>((Nbt::Long(i64_of(x)), 8)) by {
        lemma_twos_complement_inverse(0, 0, 0, x);
        lemma_reads_own_payload(Nbt::Long(i64_of(x)), big, eager);
    }
    assert forall|x: u64| #![auto]
        parse_payload(tag_byte(kind_tag(SerdeKind::F64)), u64_bytes(x, big), 0, big, eager)
            == Ok::<(Nbt, int), crate::error::Error>((Nbt::Double(x), 8)) by {
        lemma_reads_own_payload(Nbt::Double(x), big, eager);
    }
    assert forall|v: i128| #![auto]
        skip_end(tag_byte(kind_tag(SerdeKind::I128)), words_payload(i128_bits(v), big), 0, big)
            == Ok::<int, crate::error::Error>(20) by {
        lemma_words_skip(i128_bits(v), big);
    }
    assert forall|v: u128| #![auto]
        skip_end(tag_byte(kind_tag(SerdeKind::U128)), words_payload(v as int, big), 0, big)
            == Ok::<int, crate::error::Error>(20) by {
        lemma_words_skip(v as int, big);
    }
}

/// Strings and byte strings. (See `lemma_kind_tags_fit_payloads`.)
#[verifier::spinoff_prover]
proof fn lemma_kinds_texts(big: bool, eager: bool)
    ensures
        forall|e: Seq<u8>|
            #![auto]
            e.len() < u16::MAX ==> parse_payload(tag_byte(kind_tag(SerdeKind::Str)), string_payload(e, big), 0, big, eager)
                == Ok::<(Nbt, int), crate::error::Error>((Nbt::String(e), 2 + e.len() as int)),
        forall|v: Seq<u8>|
            #![auto]
            v.len() < u32::MAX ==> parse_payload(tag_byte(kind_tag(SerdeKind::Bytes)), u32_bytes(v.len() as u32, big) + v, 0, big, eager)
                == Ok::<(Nbt, int), crate::error::Error>((Nbt::ByteArray(Seq::new(v.len(), |i: int| i8_of(v[i]))), 4 + v.len() as int)),
{
    assert forall|e: Seq<u8>| #![auto]
        e.len() < u16::MAX implies parse_payload(tag_byte(kind_tag(SerdeKind::Str)), string_payload(e, big), 0, big, eager)
            == Ok::<(Nbt, int), crate::error::Error>((Nbt::String(e), 2 + e.len() as int)) by {
        lemma_reads_own_payload(Nbt::String(e), big, eager);
    }
    assert forall|v: Seq<u8>| #![auto]
        v.len() < u32::MAX implies parse_payload(tag_byte(kind_tag(SerdeKind::Bytes)), u32_bytes(v.len() as u32, big) + v, 0, big, eager)
            == Ok::<(Nbt, int), crate::error::Error>((Nbt::ByteArray(Seq::new(v.len(), |i: int| i8_of(v[i]))), 4 + v.len() as int)) by {
        let s = Seq::new(v.len(), |i: int| i8_of(v[i]));
        assert forall|i: int| 0 <= i < v.len() implies u8_of_i8(s[i]) == v[i] by {
            lemma_twos_complement_inverse(v[i], 0, 0, 0);
        }
        assert(crate::model::enc_i8s(s) =~= v);
        lemma_reads_own_payload(Nbt::ByteArray(s), big, eager);
    }
}

/// Sequences and compound kinds. (See `lemma_kind_tags_fit_payloads`.)
#[verifier::spinoff_prover]
proof fn lemma_kinds_composites(big: bool, eager: bool)
    ensures
        forall|k: SerdeKind|
            #![auto]
            (k is Sequence || k is Tuple || k is TupleStruct) ==> parse_payload(tag_byte(kind_tag(k)), wrapped_list_head(0, big), 0, big, eager)
                == Ok::<(Nbt, int), crate::error::Error>((Nbt::List(10, Seq::empty()), 5)),
        forall|k: SerdeKind|
            #![auto]
            (k is OptionNone || k is OptionSome || k is Unit || k is UnitStruct || k is NewtypeVariant
                || k is TupleVariant || k is Mapping || k is Struct || k is StructVariant) ==> parse_payload(tag_byte(kind_tag(k)), seq![0u8], 0, big, eager)
                == Ok::<(Nbt, int), crate::error::Error>((Nbt::Compound(Seq::empty()), 1)),
{
    let lv = Nbt::List(10, Seq::empty());
    assert(encode(lv, big) =~= wrapped_list_head(0, big));
    lemma_reads_own_payload(lv, big, eager);
    let cv = Nbt::Compound(Seq::empty());
    assert(encode(cv, big) =~= seq![0u8]);
    lemma_reads_own_payload(cv, big, eager);

}

/// The tag chosen for each kind of serde value is the tag of the payload
/// the serializer writes for it: read under that tag, the bytes that
/// `Serializer::serialize_*` appends for a value give back that value (as
/// the NBT value of the tag) and end exactly where the payload ends. So an
/// `i32` is an Int of 4 bytes, an `i64` a Long of 8, a string a String, an
/// empty sequence a List and a unit or empty map a Compound.
pub proof fn lemma_kind_tags_fit_payloads(big: bool, eager: bool)
    ensures
        parse_payload(tag_byte(kind_tag(SerdeKind::Bool)), seq![1u8], 0, big, eager) == Ok::<
            (Nbt, int),
            crate::error::Error,
        >((Nbt::Byte(1), 1)),
        parse_payload(tag_byte(kind_tag(SerdeKind::Bool)), seq![0u8], 0, big, eager) == Ok::<
            (Nbt, int),
            crate::error::Error,
        >((Nbt::Byte(0), 1)),
        forall|x: i8|
            #![auto]
            parse_payload(tag_byte(kind_tag(SerdeKind::I8)), seq![u8_of_i8(x)], 0, big, eager)
                == Ok::<(Nbt, int), crate::error::Error>((Nbt::Byte(x), 1)),
        forall|x: u8|
            #![auto]
            parse_payload(tag_byte(kind_tag(SerdeKind::U8)), seq![x], 0, big, eager) == Ok::<
                (Nbt, int),
                crate::error::Error,
            >((Nbt::Byte(i8_of(x)), 1)),
        forall|x: i16|
            #![auto]
            parse_payload(tag_byte(kind_tag(SerdeKind::I16)), u16_bytes(u16_of_i16(x), big), 0, big, eager)
                == Ok::<(Nbt, int), crate::error::Error>((Nbt::Short(x), 2)),
        forall|x: u16|
            #![auto]
            parse_payload(tag_byte(kind_tag(SerdeKind::U16)), u16_bytes(x, big), 0, big, eager)
                == Ok::<(Nbt, int), crate::error::Error>((Nbt::Short(i16_of(x)), 2)),
        forall|x: i32|
            #![auto]
            parse_payload(tag_byte(kind_tag(SerdeKind::I32)), u32_bytes(u32_of_i32(x), big), 0, big, eager)
                == Ok::<(Nbt, int), crate::error::Error>((Nbt::Int(x), 4)),
        forall|x: u32|
            #![auto]
            parse_payload(tag_byte(kind_tag(SerdeKind::U32)), u32_bytes(x, big), 0, big, eager)
                == Ok::<(Nbt, int), crate::error::Error>((Nbt::Int(i32_of(x)), 4)),
        forall|x: u32|
            #![auto]
            parse_payload(tag_byte(kind_tag(SerdeKind::Char)), u32_bytes(x, big), 0, big, eager)
                == Ok::<(Nbt, int), crate::error::Error>((Nbt::Int(i32_of(x)), 4)),
        forall|x: u32|
            #![auto]
            parse_payload(tag_byte(kind_tag(SerdeKind::UnitVariant)), u32_bytes(x, big), 0, big, eager)
                == Ok::<(Nbt, int), crate::error::Error>((Nbt::Int(i32_of(x)), 4)),
        forall|x: i64|
            #![auto]
            parse_payload(tag_byte(kind_tag(SerdeKind::I64)), u64_bytes(u64_of_i64(x), big), 0, big, eager)
                == Ok::<(Nbt, int), crate::error::Error>((Nbt::Long(x), 8)),
        forall|x: u64|
            #![auto]
            parse_payload(tag_byte(kind_tag(SerdeKind::U64)), u64_bytes(x, big), 0, big, eager)
                == Ok::<(Nbt, int), crate::error::Error>((Nbt::Long(i64_of(x)), 8)),
        forall|x: u32|
            #![auto]
            parse_payload(tag_byte(kind_tag(SerdeKind::F32)), u32_bytes(x, big), 0, big, eager)
                == Ok::<(Nbt, int), crate::error::Error>((Nbt::Float(x), 4)),
        forall|x: u64|
            #![auto]
            parse_payload(tag_byte(kind_tag(SerdeKind::F64)), u64_bytes(x, big), 0, big, eager)
                == Ok::<(Nbt, int), crate::error::Error>((Nbt::Double(x), 8)),
        forall|v: i128|
            #![auto]
            skip_end(tag_byte(kind_tag(SerdeKind::I128)), words_payload(i128_bits(v), big), 0, big)
                == Ok::<int, crate::error::Error>(20),
        forall|v: u128|
            #![auto]
            skip_end(tag_byte(kind_tag(SerdeKind::U128)), words_payload(v as int, big), 0, big)
                == Ok::<int, crate::error::Error>(20),
        forall|e: Seq<u8>|
            #![auto]
            e.len() < u16::MAX ==> parse_payload(tag_byte(kind_tag(SerdeKind::Str)), string_payload(e, big), 0, big, eager)
                == Ok::<(Nbt, int), crate::error::Error>((Nbt::String(e), 2 + e.len() as int)),
        forall|v: Seq<u8>|
            #![auto]
            v.len() < u32::MAX ==> parse_payload(tag_byte(kind_tag(SerdeKind::Bytes)), u32_bytes(v.len() as u32, big) + v, 0, big, eager)
                == Ok::<(Nbt, int), crate::error::Error>((Nbt::ByteArray(Seq::new(v.len(), |i: int| i8_of(v[i]))), 4 + v.len() as int)),
        forall|k: SerdeKind|
            #![auto]
            (k is Sequence || k is Tuple || k is TupleStruct) ==> parse_payload(tag_byte(kind_tag(k)), wrapped_list_head(0, big), 0, big, eager)
                == Ok::<(Nbt, int), crate::error::Error>((Nbt::List(10, Seq::empty()), 5)),
        forall|k: SerdeKind|
            #![auto]
            (k is OptionNone || k is OptionSome || k is Unit || k is UnitStruct || k is NewtypeVariant
                || k is TupleVariant || k is Mapping || k is Struct || k is StructVariant) ==> parse_payload(tag_byte(kind_tag(k)), seq![0u8], 0, big, eager)
                == Ok::<(Nbt, int), crate::error::Error>((Nbt::Compound(Seq::empty()), 1)),
{
    lemma_kinds_small_ints(big, eager);
    lemma_kinds_words(big, eager);
    lemma_kinds_wide(big, eager);
    lemma_kinds_texts(big, eager);
    lemma_kinds_composites(big, eager);
}

/// The payload of four words is skipped as an Int Array of 20 bytes.
proof fn lemma_words_skip(u: int, big: bool)
    ensures
        skip_end(11, words_payload(u, big), 0, big) == Ok::<int, crate::error::Error>(20),
{
    let b = words_payload(u, big);
    assert(b.subrange(0, 4) =~= u32_bytes(4, big));
    lemma_u32_read_back(4, b, 0, big);
}

/// A document whose root has a name of any length is opened right after
/// the name: the tag is the root's and the input left is the payload.
pub proof fn lemma_named_root_header(tag: u8, name: Seq<u8>, payload: Seq<u8>, big: bool)
    requires
        1 <= tag <= 12,
        name.len() <= u16::MAX,
    ensures
        ({
            let doc = seq![tag] + u16_bytes(name.len() as u16, big) + name + payload;
            &&& root_header(doc, big) == Ok::<(u8, int), crate::error::Error>(
                (tag, 3 + name.len() as int),
            )
            &&& rest(doc, 3 + name.len() as int) == payload
        }),
{
    let h = u16_bytes(name.len() as u16, big);
    let doc = seq![tag] + h + name + payload;
    assert(doc =~= seq![tag] + h + (name + payload));
    lemma_holds_middle(seq![tag], h, name + payload);
    lemma_u16_read_back(name.len() as u16, doc, 1, big);
    assert(doc[0] == tag);
    assert(rest(doc, 3 + name.len() as int) =~= payload);
}

/// The numbers the serializer writes (Byte, Short, Int, Long, Float and
/// Double payloads) are read back by the deserializer's `parse_*`, which
/// take exactly their width and leave what follows.
pub proof fn lemma_numbers_roundtrip(a: i8, b: i16, c: i32, d: i64, f: u32, g: u64, tail: Seq<u8>, big: bool)
    ensures
        i8_of((seq![u8_of_i8(a)] + tail)[0]) == a,
        i16_of(u16_at(u16_bytes(u16_of_i16(b), big) + tail, 0, big)) == b,
        i32_of(u32_at(u32_bytes(u32_of_i32(c), big) + tail, 0, big)) == c,
        i64_of(crate::byte_order::u64_at(u64_bytes(u64_of_i64(d), big) + tail, 0, big)) == d,
        u32_at(u32_bytes(f, big) + tail, 0, big) == f,
        crate::byte_order::u64_at(u64_bytes(g, big) + tail, 0, big) == g,
        rest(seq![u8_of_i8(a)] + tail, 1) == tail,
        rest(u16_bytes(u16_of_i16(b), big) + tail, 2) == tail,
        rest(u32_bytes(f, big) + tail, 4) == tail,
        rest(u64_bytes(g, big) + tail, 8) == tail,
{
    lemma_twos_complement_roundtrip(a, b, c, d);
    let e = Seq::<u8>::empty();
    let s1 = u16_bytes(u16_of_i16(b), big) + tail;
    assert(s1 =~= e + u16_bytes(u16_of_i16(b), big) + tail);
    lemma_holds_middle(e, u16_bytes(u16_of_i16(b), big), tail);
    lemma_u16_read_back(u16_of_i16(b), s1, 0, big);
    let s2 = u32_bytes(u32_of_i32(c), big) + tail;
    assert(s2 =~= e + u32_bytes(u32_of_i32(c), big) + tail);
    lemma_holds_middle(e, u32_bytes(u32_of_i32(c), big), tail);
    lemma_u32_read_back(u32_of_i32(c), s2, 0, big);
    let s3 = u32_bytes(f, big) + tail;
    assert(s3 =~= e + u32_bytes(f, big) + tail);
    lemma_holds_middle(e, u32_bytes(f, big), tail);
    lemma_u32_read_back(f, s3, 0, big);
    crate::byte_order::lemma_u64_roundtrip(u64_of_i64(d), big);
    crate::byte_order::lemma_u64_roundtrip(g, big);
    assert((u64_bytes(u64_of_i64(d), big) + tail).subrange(0, 8) =~= u64_bytes(u64_of_i64(d), big));
    assert((u64_bytes(g, big) + tail).subrange(0, 8) =~= u64_bytes(g, big));
    assert(rest(seq![u8_of_i8(a)] + tail, 1) =~= tail);
    assert(rest(s1, 2) =~= tail);
    assert(rest(s3, 4) =~= tail);
    assert(rest(u64_bytes(g, big) + tail, 8) =~= tail);
}

} // verus!
