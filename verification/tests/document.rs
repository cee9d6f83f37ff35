use na_nbt::document::{read_owned, read_unsafe, read_unsafe_fallback, write_value_to_vec, Writable};
use na_nbt::refs::{Index, RefValue};
use na_nbt::tag::{Byte, Int, TagByte, TagString, TagTypedList, TypedList, NBT};
use na_nbt::value::{OwnCompound, OwnList, OwnString, OwnValue};
use na_nbt::{BigEndian, Error, LittleEndian, TagID};

fn small_doc() -> Vec<u8> {
    // Compound "" { "a": Byte 5, "s": String "hi" }
    vec![
        10, 0, 0, //
        1, 0, 1, b'a', 5, //
        8, 0, 1, b's', 0, 2, b'h', b'i', //
        0,
    ]
}

#[test]
fn read_small_compound() {
    let v = read_owned::<BigEndian>(&small_doc()).unwrap();
    match &v {
        OwnValue::Compound(c) => {
            assert_eq!(c.len(), 2);
            assert!(matches!(c.get("a"), Some(RefValue::Byte(5))));
            match c.get("s") {
                Some(RefValue::String(s)) => assert_eq!(s.bytes, b"hi"),
                _ => panic!("expected a string"),
            }
            assert!(c.get("b").is_none());
        }
        _ => panic!("expected a compound"),
    }
    assert_eq!(v.tag_id(), TagID::Compound);
    assert!(matches!(v.get(Index::Key("a")), Some(RefValue::Byte(5))));
    assert!(v.get(Index::Pos(0)).is_none());
}

#[test]
fn write_gives_back_the_document() {
    let doc = small_doc();
    let v = read_owned::<BigEndian>(&doc).unwrap();
    assert_eq!(write_value_to_vec::<BigEndian>(&v), doc);
    assert_eq!(v.write_to_vec::<BigEndian>(), doc);
}

#[test]
fn little_endian_numbers() {
    // Int 0x01020304 stored little endian
    let doc = vec![3, 0, 0, 4, 3, 2, 1];
    let v = read_owned::<LittleEndian>(&doc).unwrap();
    assert!(matches!(v, OwnValue::Int(0x01020304)));
    let big = read_owned::<BigEndian>(&doc).unwrap();
    assert!(matches!(big, OwnValue::Int(0x04030201)));
    assert_eq!(write_value_to_vec::<LittleEndian>(&v), doc);
}

#[test]
fn convert_byte_order_on_write() {
    let doc_be = vec![2, 0, 0, 0x12, 0x34];
    let v = read_owned::<BigEndian>(&doc_be).unwrap();
    assert_eq!(write_value_to_vec::<LittleEndian>(&v), vec![2, 0, 0, 0x34, 0x12]);
}

#[test]
fn converted_document_reads_back_in_its_new_order() {
    let doc_be = small_doc();
    let v = read_owned::<BigEndian>(&doc_be).unwrap();
    let doc_le = write_value_to_vec::<LittleEndian>(&v);
    assert_ne!(doc_le, doc_be);
    let back = read_owned::<LittleEndian>(&doc_le).unwrap();
    assert_eq!(write_value_to_vec::<BigEndian>(&back), doc_be);
}

#[test]
fn read_errors() {
    assert!(matches!(read_owned::<BigEndian>(&[]), Err(Error::EOF)));
    assert!(matches!(read_owned::<BigEndian>(&[0]), Err(Error::INVALID(0))));
    assert!(matches!(read_owned::<BigEndian>(&[13, 0, 0]), Err(Error::INVALID(13))));
    assert!(matches!(read_owned::<BigEndian>(&[1, 0]), Err(Error::EOF)));
    assert!(matches!(read_owned::<BigEndian>(&[1, 0, 5, 1]), Err(Error::EOF)));
    assert!(matches!(read_owned::<BigEndian>(&[1, 0, 0]), Err(Error::EOF)));
    assert!(matches!(read_owned::<BigEndian>(&[1, 0, 0, 7, 9]), Err(Error::REMAIN(1))));
    // a compound entry with an unknown tag
    assert!(matches!(
        read_owned::<BigEndian>(&[10, 0, 0, 20, 0, 0, 0]),
        Err(Error::INVALID(20))
    ));
}

#[test]
fn list_header_checks_lazy_and_eager() {
    // List of 3 compounds with only 2 bytes left: both modes report EOF.
    let data = [10u8, 0, 0, 0, 3, 0, 0];
    assert!(matches!(read_unsafe::<BigEndian>(9, &data, 0), Err(Error::EOF)));
    // unknown element tag: the eager reader refuses it before any bound check
    let data = [20u8, 0, 0, 0, 9];
    assert!(matches!(
        read_unsafe_fallback::<BigEndian, BigEndian>(9, &data, 0),
        Err(Error::INVALID(20))
    ));
    assert!(matches!(read_unsafe::<BigEndian>(9, &data, 0), Err(Error::EOF)));
}

#[test]
fn read_payload_reports_position() {
    let data = [0u8, 0, 0, 7, 99];
    match read_unsafe::<BigEndian>(3, &data, 0) {
        Ok((OwnValue::Int(7), 4)) => {}
        _ => panic!("expected Int 7 ending at 4"),
    }
}

#[test]
fn compound_insert_get_remove() {
    let mut c = OwnCompound::new();
    assert!(c.insert("x", OwnValue::Int(1)).is_none());
    assert!(c.insert("y", OwnValue::Short(2)).is_none());
    // inserting an existing name replaces it and hands the old value back
    assert!(matches!(c.insert("x", OwnValue::Int(3)), Some(OwnValue::Int(1))));
    assert_eq!(c.len(), 2);
    assert!(matches!(c.get("x"), Some(RefValue::Int(3))));
    assert!(matches!(c.get_::<Int>("x"), Some(RefValue::Int(3))));
    assert!(c.get_::<Byte>("x").is_none());
    assert!(matches!(c.remove("y"), Some(OwnValue::Short(2))));
    assert!(c.remove("y").is_none());
    assert!(c.get("y").is_none());
    assert_eq!(c.len(), 1);
    // the replaced entry moved to the end
    let mut it = c.iter();
    match it.next() {
        Some((name, RefValue::Int(3))) => assert_eq!(name.bytes, b"x"),
        _ => panic!("expected x"),
    }
    assert!(it.next().is_none());
}

#[test]
fn compound_names_are_modified_utf8() {
    let mut c = OwnCompound::new();
    c.insert("a\0", OwnValue::Byte(1));
    let mut it = c.iter();
    match it.next() {
        Some((name, _)) => assert_eq!(name.bytes, &[0x61, 0xC0, 0x80]),
        None => panic!("expected an entry"),
    }
    assert!(matches!(c.get("a\0"), Some(RefValue::Byte(1))));
}

#[test]
fn list_push_pop_insert_remove() {
    let mut l = OwnList::new();
    assert!(l.is_empty());
    l.push(OwnValue::Int(1));
    l.push(OwnValue::Int(2));
    // a value of another tag is ignored
    l.push(OwnValue::Byte(9));
    assert_eq!(l.len(), 2);
    assert_eq!(l.element_tag_id(), TagID::Int);
    assert!(l.element_is_::<Int>());
    l.insert(1, OwnValue::Int(5));
    // out of range: ignored
    l.insert(7, OwnValue::Int(6));
    assert_eq!(l.len(), 3);
    assert!(matches!(l.get(1), Some(RefValue::Int(5))));
    assert!(matches!(l.remove(0), Some(OwnValue::Int(1))));
    assert!(matches!(l.pop(), Some(OwnValue::Int(2))));
    assert!(matches!(l.pop(), Some(OwnValue::Int(5))));
    assert!(l.pop().is_none());
    assert!(l.get(0).is_none());
}

#[test]
fn push_then_pop_law_on_values() {
    let mut l = OwnList::new();
    l.push(OwnValue::Long(-4));
    match l.pop() {
        Some(OwnValue::Long(x)) => assert_eq!(x, -4),
        _ => panic!("expected the pushed value"),
    }
}

#[test]
fn insert_then_remove_law_on_values() {
    let mut c = OwnCompound::new();
    c.insert("k", OwnValue::Byte(1));
    c.insert("n", OwnValue::Int(10));
    assert!(matches!(c.remove("n"), Some(OwnValue::Int(10))));
    assert!(matches!(c.get("k"), Some(RefValue::Byte(1))));
}

#[test]
fn nested_list_in_compound_roundtrip() {
    let mut l = OwnList::new();
    l.push(OwnValue::String(OwnString { data: b"ab".to_vec() }));
    l.push(OwnValue::String(OwnString { data: vec![] }));
    let mut c = OwnCompound::new();
    c.insert("list", OwnValue::List(l));
    c.insert("ints", OwnValue::IntArray(vec![1, -1]));
    let v = OwnValue::Compound(c);
    let bytes = write_value_to_vec::<BigEndian>(&v);
    let back = read_owned::<BigEndian>(&bytes).unwrap();
    assert_eq!(write_value_to_vec::<BigEndian>(&back), bytes);
    match back.get(Index::Key("list")) {
        Some(RefValue::List(l)) => {
            assert_eq!(l.len(), 2);
            assert_eq!(l.tag_id(), TagID::String);
        }
        _ => panic!("expected a list"),
    }
}

#[test]
fn end_value_writes_one_byte() {
    assert_eq!(write_value_to_vec::<BigEndian>(&OwnValue::End), vec![0]);
    assert_eq!(().write_to_vec::<BigEndian>(), vec![0]);
}

#[test]
fn tag_ids() {
    assert!(matches!(TagID::from_u8(12), Ok(TagID::LongArray)));
    assert!(matches!(TagID::from_u8(13), Err(Error::INVALID(13))));
    assert!(TagID::Byte.is_primitive());
    assert!(TagID::IntArray.is_array());
    assert!(TagID::Compound.is_composite());
    assert!(!TagID::String.is_primitive());
    assert_eq!(TagByte::tag_id(), TagID::Byte);
    assert_eq!(TagString::tag_id(), TagID::String);
    assert_eq!(TypedList::<Int>::tag_id(), TagID::List);
    assert_eq!(TagTypedList::<TagByte>::tag_id(), TagID::List);
}

#[test]
fn arrays_and_strings_written_standalone() {
    let bytes: &[i8] = &[1, -1];
    assert_eq!(bytes.write_to_vec::<BigEndian>(), vec![7, 0, 0, 0, 0, 0, 2, 1, 0xFF]);
    let ints: &[i32] = &[1];
    assert_eq!(ints.write_to_vec::<LittleEndian>(), vec![11, 0, 0, 1, 0, 0, 0, 1, 0, 0, 0]);
    let longs: &[i64] = &[];
    assert_eq!(longs.write_to_vec::<BigEndian>(), vec![12, 0, 0, 0, 0, 0, 0]);
    let s = na_nbt::mutf8::MUTF8Str::from_mutf8_unchecked(b"hi");
    assert_eq!(s.write_to_vec::<BigEndian>(), vec![8, 0, 0, 0, 2, b'h', b'i']);
    assert_eq!(5i8.write_to_vec::<BigEndian>(), vec![1, 0, 0, 5]);
    assert_eq!((-2i16).write_to_vec::<BigEndian>(), vec![2, 0, 0, 0xFF, 0xFE]);
}

#[test]
fn mutf8_decoding() {
    let cesu = [0xed, 0xa0, 0xbd, 0xed, 0xb2, 0x96];
    let s = na_nbt::mutf8::MUTF8Str::from_mutf8_unchecked(&cesu);
    assert_eq!(s.decode_lossy(), "💖");
    assert_eq!(s.decode().unwrap(), "💖");
    let null = [0xC0, 0x80];
    let s = na_nbt::mutf8::MUTF8Str::from_mutf8_unchecked(&null);
    assert_eq!(s.to_utf8_string(), "\0");
    let bad = [0xFF];
    let s = na_nbt::mutf8::MUTF8Str::from_mutf8_unchecked(&bad);
    assert!(s.decode_strict().is_err());
    assert_eq!(s.decode_lossy_strict(), "\u{FFFD}");
}

#[test]
fn list_insert_then_remove_gives_the_list_back() {
    let mut l = OwnList::new();
    l.push(OwnValue::Byte(1));
    l.push(OwnValue::Byte(3));
    l.insert(1, OwnValue::Byte(2));
    assert!(matches!(l.get(1), Some(RefValue::Byte(2))));
    assert!(matches!(l.remove(1), Some(OwnValue::Byte(2))));
    assert_eq!(l.len(), 2);
    assert!(matches!(l.get(0), Some(RefValue::Byte(1))));
    assert!(matches!(l.get(1), Some(RefValue::Byte(3))));
}

#[test]
fn skipping_stops_where_reading_stops() {
    let doc = small_doc();
    let payload = &doc[3..];
    let (_, read_end) = read_unsafe::<BigEndian>(10, payload, 0).unwrap();
    let skip_end = na_nbt::skip::skip_payload(10, payload, 0, true).unwrap();
    assert_eq!(read_end, skip_end);
    assert_eq!(skip_end, payload.len());
}

#[test]
fn immutable_value_accessors() {
    let v = read_owned::<BigEndian>(&small_doc()).unwrap();
    let r: na_nbt::refs::ImmutableValue = v.to_ref();
    assert!(r.is_compound());
    assert!(!r.is_list());
    let c = r.as_compound().unwrap();
    assert!(r.as_list().is_none());
    let a = c.get("a").unwrap();
    assert_eq!(a.as_byte(), Some(5));
    assert_eq!(a.as_short(), None);
    assert!(a.is_byte());
    let s = c.get("s").unwrap();
    assert_eq!(s.as_string().unwrap().bytes, b"hi");
    assert_eq!(OwnValue::End.to_ref().as_end(), Some(()));
    assert_eq!(OwnValue::Float(1.0f32.to_bits()).to_ref().as_float(), Some(1.0f32.to_bits()));
}

#[test]
fn lazy_and_eager_readers_agree_on_what_they_accept() {
    let doc = small_doc();
    let payload = &doc[3..];
    let (lazy, end_lazy) = read_unsafe::<BigEndian>(10, payload, 0).unwrap();
    let (eager, end_eager) = read_unsafe_fallback::<BigEndian, BigEndian>(10, payload, 0).unwrap();
    assert_eq!(end_lazy, end_eager);
    assert_eq!(write_value_to_vec::<BigEndian>(&lazy), write_value_to_vec::<BigEndian>(&eager));
}

#[test]
fn decoding_an_encoded_string_gives_it_back() {
    // "a\0b" in Modified UTF-8
    let bytes = [0x61u8, 0xC0, 0x80, 0x62];
    let m = na_nbt::mutf8::MUTF8Str::from_mutf8_unchecked(&bytes);
    assert_eq!(m.to_utf8_string(), "a\0b");
    assert_eq!(m.decode_lossy(), "a\0b");
    assert_eq!(m.decode_lossy_strict(), "a\0b");
    assert_eq!(m.decode().unwrap(), "a\0b");
    assert_eq!(m.decode_strict().unwrap(), "a\0b");
    // U+10400 as a surrogate pair
    let pair = [0xEDu8, 0xA0, 0x81, 0xED, 0xB0, 0x80];
    let m = na_nbt::mutf8::MUTF8Str::from_mutf8_unchecked(&pair);
    assert_eq!(m.to_utf8_string(), "\u{10400}");
    assert_eq!(m.decode_strict().unwrap(), "\u{10400}");
    // a string written as a compound name comes back
    let mut c = OwnCompound::new();
    c.insert("n\0\u{10400}", OwnValue::Byte(1));
    let doc = c.write_to_vec::<BigEndian>();
    let v = read_owned::<BigEndian>(&doc).unwrap();
    match v.to_ref() {
        RefValue::Compound(rc) => {
            let mut it = rc.iter();
            let (name, _) = it.next().unwrap();
            assert_eq!(name.to_utf8_string(), "n\0\u{10400}");
        }
        _ => panic!("expected a compound"),
    }
}
