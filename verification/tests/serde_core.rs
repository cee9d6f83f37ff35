use na_nbt::deserializer::Deserializer;
use na_nbt::serializer::{ArraySerializer, KeySerializer, MapSerializer, Serializer};
use na_nbt::skip::skip_payload;
use na_nbt::tag_probe::{tag_of_kind, SerdeKind};
use na_nbt::{BigEndian, Error, LittleEndian, TagID};

#[test]
fn root_header_and_numbers() {
    let mut s = Serializer::<BigEndian>::with_root(TagID::Compound);
    s.serialize_i8(-1);
    s.serialize_bool(true);
    s.serialize_i16(0x0102);
    s.serialize_i32(-2);
    s.serialize_u64(1);
    s.serialize_f32(1.5f32.to_bits());
    assert_eq!(
        s.into_vec(),
        vec![
            10, 0, 0, 0xFF, 1, 1, 2, 0xFF, 0xFF, 0xFF, 0xFE, 0, 0, 0, 0, 0, 0, 0, 1, 0x3F, 0xC0, 0,
            0
        ]
    );
}

#[test]
fn little_endian_short() {
    let mut s = Serializer::<LittleEndian>::with_root(TagID::Short);
    s.serialize_u16(0x0102);
    assert_eq!(s.into_vec(), vec![2, 0, 0, 2, 1]);
}

#[test]
fn i128_as_four_words() {
    let mut s = Serializer::<BigEndian>::with_root(TagID::IntArray);
    s.serialize_i128(-2);
    let v = s.into_vec();
    assert_eq!(v.len(), 3 + 20);
    assert_eq!(&v[3..7], &[0, 0, 0, 4]);
    let mut words = vec![0xFFu8; 15];
    words.push(0xFE);
    assert_eq!(&v[7..23], &words[..]);
    let mut d = Deserializer::<BigEndian>::from_slice(&v).unwrap();
    assert_eq!(d.current_tag, TagID::IntArray);
    assert_eq!(d.parse_i128().unwrap(), -2);
    assert!(d.is_empty());
}

#[test]
fn u128_words() {
    let mut s = Serializer::<BigEndian>::with_root(TagID::IntArray);
    s.serialize_u128(0x00000001_00000002_00000003_00000004);
    assert_eq!(
        s.into_vec()[3..],
        [0, 0, 0, 4, 0, 0, 0, 1, 0, 0, 0, 2, 0, 0, 0, 3, 0, 0, 0, 4]
    );
}

#[test]
fn strings_are_modified_utf8() {
    let mut s = Serializer::<BigEndian>::with_root(TagID::String);
    s.serialize_str("a\0").unwrap();
    let v = s.into_vec();
    assert_eq!(v, vec![8, 0, 0, 0, 3, 0x61, 0xC0, 0x80]);
    let mut d = Deserializer::<BigEndian>::from_slice(&v).unwrap();
    assert_eq!(d.parse_str().unwrap(), "a\0");
    assert!(d.is_empty());
}

#[test]
fn too_long_string_is_refused() {
    let long = "x".repeat(65535);
    let mut s = Serializer::<BigEndian>::with_root(TagID::String);
    assert!(matches!(s.serialize_str(&long), Err(Error::LEN(65535))));
    assert_eq!(s.into_vec(), vec![8, 0, 0]);
}

#[test]
fn bytes_roundtrip() {
    let mut s = Serializer::<BigEndian>::with_root(TagID::ByteArray);
    s.serialize_bytes(&[1, 2, 3]).unwrap();
    let v = s.into_vec();
    assert_eq!(v, vec![7, 0, 0, 0, 0, 0, 3, 1, 2, 3]);
    let mut d = Deserializer::<BigEndian>::from_slice(&v).unwrap();
    assert_eq!(d.parse_bytes().unwrap(), &[1, 2, 3]);
}

#[test]
fn sequence_of_unknown_length_is_patched() {
    let mut s = Serializer::<BigEndian>::with_root(TagID::List);
    let mut seq = s.serialize_seq(None).unwrap();
    seq.serialize_element(&mut s, TagID::Byte).unwrap();
    s.serialize_i8(7);
    s.end_wrapped_item();
    seq.serialize_element(&mut s, TagID::Short).unwrap();
    s.serialize_i16(8);
    s.end_wrapped_item();
    seq.end(&mut s);
    let v = s.into_vec();
    assert_eq!(
        v,
        vec![9, 0, 0, 10, 0, 0, 0, 2, 1, 0, 0, 7, 0, 2, 0, 0, 0, 8, 0]
    );
    let mut d = Deserializer::<BigEndian>::from_slice(&v).unwrap();
    let (elem, n) = d.begin_seq().unwrap();
    assert!(elem.is_none());
    assert_eq!(n, 2);
    d.begin_wrapped_item().unwrap();
    assert_eq!(d.current_tag, TagID::Byte);
    assert_eq!(d.parse_i8().unwrap(), 7);
    d.end_wrapped_item().unwrap();
    d.begin_wrapped_item().unwrap();
    assert_eq!(d.current_tag, TagID::Short);
    assert_eq!(d.parse_i16().unwrap(), 8);
    d.end_wrapped_item().unwrap();
    assert!(d.is_empty());
}

#[test]
fn sequence_of_known_length_too_long() {
    let mut s = Serializer::<BigEndian>::with_root(TagID::List);
    let too_long = (u32::MAX as usize).checked_add(1);
    if let Some(n) = too_long {
        assert!(matches!(s.serialize_seq(Some(n)), Err(Error::LEN(_))));
        assert!(matches!(s.serialize_tuple(n), Err(Error::LEN(_))));
    }
    assert_eq!(s.into_vec(), vec![9, 0, 0]);
}

#[test]
fn homogeneous_list_checks_element_tags() {
    let mut s = Serializer::<BigEndian>::with_root(TagID::List);
    let mut a = ArraySerializer::list(&s);
    a.serialize_seq(&mut s, None).unwrap();
    a.serialize_element(TagID::Int).unwrap();
    s.serialize_i32(1);
    assert!(matches!(
        a.serialize_element(TagID::Long),
        Err(Error::MISMATCH { expected: TagID::Int, actual: TagID::Long })
    ));
    let mut s2 = Serializer::<BigEndian>::with_root(TagID::List);
    let mut b = ArraySerializer::list(&s2);
    b.serialize_seq(&mut s2, None).unwrap();
    b.serialize_element(TagID::Int).unwrap();
    s2.serialize_i32(1);
    b.serialize_element(TagID::Int).unwrap();
    s2.serialize_i32(2);
    b.end(&mut s2);
    let v = s2.into_vec();
    assert_eq!(v, vec![9, 0, 0, 3, 0, 0, 0, 2, 0, 0, 0, 1, 0, 0, 0, 2]);
    let mut d = Deserializer::<BigEndian>::from_slice(&v).unwrap();
    let (t, n) = d.list_header().unwrap();
    assert_eq!((t, n), (TagID::Int, 2));
}

#[test]
fn map_keys_and_values() {
    let mut s = Serializer::<BigEndian>::with_root(TagID::Compound);
    let mut m = s.serialize_map();
    m.serialize_key(&s);
    KeySerializer { tag_id: TagID::End }.serialize_str(&mut s, "k").unwrap();
    m.serialize_value(&mut s, TagID::Byte);
    s.serialize_i8(3);
    m.end(&mut s);
    let v = s.into_vec();
    assert_eq!(v, vec![10, 0, 0, 1, 0, 1, b'k', 3, 0]);
    let mut d = Deserializer::<BigEndian>::from_slice(&v).unwrap();
    assert_eq!(d.next_key().unwrap().as_deref(), Some("k"));
    assert_eq!(d.current_tag, TagID::Byte);
    assert_eq!(d.parse_i8().unwrap(), 3);
    assert!(d.next_key().unwrap().is_none());
    assert!(d.is_empty());
}

#[test]
fn byte_keys_are_base64() {
    let mut s = Serializer::<BigEndian>::with_root(TagID::Compound);
    KeySerializer { tag_id: TagID::Byte }.serialize_bytes(&mut s, &[0xff]).unwrap();
    assert_eq!(s.into_vec(), vec![10, 0, 0, 1, 0, 4, b'/', b'w', b'=', b'=']);
}

#[test]
fn wrapped_keys() {
    let mut s = Serializer::<BigEndian>::with_root(TagID::Compound);
    let pos = s.vec.len();
    KeySerializer { tag_id: TagID::Int }.serialize_str(&mut s, "3").unwrap();
    KeySerializer::write_wrapped(&mut s, pos, "Some").unwrap();
    assert_eq!(
        s.into_vec(),
        vec![10, 0, 0, 3, 0, 7, b'S', b'o', b'm', b'e', b'(', b'3', b')']
    );
}

#[test]
fn variants() {
    let mut s = Serializer::<BigEndian>::with_root(TagID::Compound);
    s.serialize_tuple_variant("V", 2).unwrap();
    assert_eq!(s.vec[3..], [9, 0, 1, b'V', 10, 0, 0, 0, 2]);
    let mut s = Serializer::<BigEndian>::with_root(TagID::Compound);
    s.serialize_struct_variant("W").unwrap();
    s.begin_compound_item("f", TagID::Byte);
    s.serialize_i8(1);
    assert_eq!(s.vec[3..], [10, 0, 1, b'W', 1, 0, 1, b'f', 1]);
    let mut d = Deserializer::<BigEndian>::from_slice(&[10, 0, 0, 10, 0, 1, b'W', 0]).unwrap();
    assert_eq!(d.enum_is_index().unwrap(), false);
    assert_eq!(d.variant().unwrap(), "W");
    assert_eq!(d.current_tag, TagID::Compound);
}

#[test]
fn deserializer_header_errors() {
    assert!(matches!(Deserializer::<BigEndian>::from_slice(&[]), Err(Error::EOF)));
    assert!(matches!(Deserializer::<BigEndian>::from_slice(&[0, 0, 0]), Err(Error::INVALID(0))));
    assert!(matches!(Deserializer::<BigEndian>::from_slice(&[14]), Err(Error::INVALID(14))));
    assert!(matches!(Deserializer::<BigEndian>::from_slice(&[1, 0]), Err(Error::EOF)));
    assert!(matches!(Deserializer::<BigEndian>::from_slice(&[1, 0, 2, 0]), Err(Error::EOF)));
}

#[test]
fn deserializer_value_errors() {
    let mut d = Deserializer::<BigEndian>::from_slice(&[3, 0, 0, 0, 0]).unwrap();
    assert!(matches!(d.parse_i32(), Err(Error::EOF)));
    assert!(matches!(
        d.check_tag(TagID::Long),
        Err(Error::MISMATCH { expected: TagID::Long, actual: TagID::Int })
    ));
    let mut d = Deserializer::<BigEndian>::from_slice(&[10, 0, 0, 5]).unwrap();
    assert!(matches!(d.parse_unit(), Err(Error::INVALID(5))));
    let mut d = Deserializer::<BigEndian>::from_slice(&[3, 0, 0, 0, 0x11, 0, 0]).unwrap();
    assert!(matches!(d.parse_char(), Err(Error::CHAR(0x110000))));
    let mut d = Deserializer::<BigEndian>::from_slice(&[3, 0, 0, 0, 0, 0, 0x41]).unwrap();
    assert_eq!(d.parse_char().unwrap(), 'A');
    let mut d = Deserializer::<BigEndian>::from_slice(&[9, 0, 0, 0, 0, 0, 0, 1]).unwrap();
    assert!(matches!(d.list_header(), Err(Error::INVALID(0))));
}

#[test]
fn wrapped_item_format_errors() {
    let mut d = Deserializer::<BigEndian>::from_slice(&[10, 0, 0, 0, 0, 0]).unwrap();
    match d.begin_wrapped_item() {
        Err(Error::MSG(m)) => {
            assert_eq!(m, "wrapped item should contain exactly one element with empty name")
        }
        _ => panic!("expected the format error"),
    }
    let mut d = Deserializer::<BigEndian>::from_slice(&[10, 0, 0, 1, 0, 1]).unwrap();
    assert!(matches!(d.begin_wrapped_item(), Err(Error::MSG(_))));
    assert_eq!(d.current_tag, TagID::Byte);
}

#[test]
fn options() {
    let mut d = Deserializer::<BigEndian>::from_slice(&[10, 0, 0, 0]).unwrap();
    assert_eq!(d.begin_option().unwrap(), false);
    d.end_option().unwrap();
    assert!(d.is_empty());
    let mut d = Deserializer::<BigEndian>::from_slice(&[10, 0, 0, 1, 0, 0, 9, 0]).unwrap();
    assert_eq!(d.begin_option().unwrap(), true);
    assert_eq!(d.parse_i8().unwrap(), 9);
    d.end_option().unwrap();
    assert!(d.is_empty());
    let mut d = Deserializer::<BigEndian>::from_slice(&[10, 0, 0, 40, 1]).unwrap();
    assert!(matches!(d.begin_option(), Err(Error::INVALID(40))));
    assert_eq!(d.remaining(), 1);
}

#[test]
fn skipping_values() {
    // Compound { "a": List of 2 Strings, "b": Int }, then a trailing byte
    let data = [
        9, 0, 1, b'a', 8, 0, 0, 0, 2, 0, 1, b'x', 0, 0, //
        3, 0, 1, b'b', 0, 0, 0, 1, //
        0, 77,
    ];
    assert_eq!(skip_payload(10, &data, 0, true).unwrap(), data.len() - 1);
    let mut doc = vec![10, 0, 0];
    doc.extend_from_slice(&data);
    let mut d = Deserializer::<BigEndian>::from_slice(&doc).unwrap();
    d.skip_value().unwrap();
    assert_eq!(d.remaining(), 1);
    // an unknown entry tag is refused before its name is looked at
    assert!(matches!(skip_payload(10, &[99], 0, true), Err(Error::INVALID(99))));
    // End elements take no bytes whatever the length says
    assert_eq!(skip_payload(9, &[0, 0, 0, 0, 5], 0, true).unwrap(), 5);
    assert!(matches!(skip_payload(11, &[0, 0, 0, 2, 0, 0, 0, 1], 0, true), Err(Error::EOF)));
}

#[test]
fn kinds_and_tags() {
    assert_eq!(tag_of_kind(SerdeKind::Bool), TagID::Byte);
    assert_eq!(tag_of_kind(SerdeKind::U16), TagID::Short);
    assert_eq!(tag_of_kind(SerdeKind::Char), TagID::Int);
    assert_eq!(tag_of_kind(SerdeKind::UnitVariant), TagID::Int);
    assert_eq!(tag_of_kind(SerdeKind::I128), TagID::IntArray);
    assert_eq!(tag_of_kind(SerdeKind::Str), TagID::String);
    assert_eq!(tag_of_kind(SerdeKind::Bytes), TagID::ByteArray);
    assert_eq!(tag_of_kind(SerdeKind::OptionNone), TagID::Compound);
    assert_eq!(tag_of_kind(SerdeKind::Sequence), TagID::List);
    assert_eq!(tag_of_kind(SerdeKind::Tuple), TagID::List);
    assert_eq!(tag_of_kind(SerdeKind::TupleVariant), TagID::Compound);
    assert_eq!(tag_of_kind(SerdeKind::Mapping), TagID::Compound);
    assert_eq!(tag_of_kind(SerdeKind::F64), TagID::Double);
}

#[test]
fn map_serializer_starts_empty() {
    let s = Serializer::<BigEndian>::with_root(TagID::Compound);
    let m: MapSerializer = s.serialize_map();
    assert!(m.tag_pos.is_none());
}

#[test]
fn compound_keys_are_decoded_as_cesu8() {
    let doc = [10, 0, 0, 1, 0, 6, 0xed, 0xa0, 0xbd, 0xed, 0xb2, 0x96, 4, 0];
    let mut d = Deserializer::<BigEndian>::from_slice(&doc).unwrap();
    assert_eq!(d.next_key().unwrap().as_deref(), Some("💖"));
    assert_eq!(d.parse_i8().unwrap(), 4);
    assert!(d.next_key().unwrap().is_none());
}

#[test]
fn end_reports_bytes_left() {
    // Byte root with one stray byte after the value
    let v = vec![1u8, 0, 0, 7, 9];
    let mut d = Deserializer::<BigEndian>::from_slice(&v).unwrap();
    assert!(matches!(d.end(), Err(Error::REMAIN(2))));
    assert_eq!(d.parse_i8().unwrap(), 7);
    assert!(matches!(d.end(), Err(Error::REMAIN(1))));
    let v = vec![1u8, 0, 0, 7];
    let mut d = Deserializer::<BigEndian>::from_slice(&v).unwrap();
    assert_eq!(d.parse_i8().unwrap(), 7);
    assert!(d.end().is_ok());
}

#[test]
fn every_cut_off_payload_asks_for_more() {
    // compound payload: Int "a" = 1, List "l" of 2 Shorts, End
    let payload: Vec<u8> = vec![
        3, 0, 1, b'a', 0, 0, 0, 1, //
        9, 0, 1, b'l', 2, 0, 0, 0, 2, 0, 5, 0, 6, //
        0,
    ];
    for n in 0..payload.len() {
        assert!(matches!(skip_payload(10, &payload[..n], 0, true), Err(Error::EOF)), "cut at {n}");
    }
    assert!(matches!(skip_payload(10, &payload, 0, true), Ok(end) if end == payload.len()));
    let mut longer = payload.clone();
    longer.extend_from_slice(&[9, 9, 9]);
    assert!(matches!(skip_payload(10, &longer, 0, true), Ok(end) if end == payload.len()));
}
