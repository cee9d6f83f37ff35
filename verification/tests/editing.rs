use na_nbt::config::MutableConfig;
use na_nbt::into_nbt::IntoNBT;
use na_nbt::mutref::{MutCompoundIter, MutListIter, MutValue};
use na_nbt::refs::{Index, RefValue};
use na_nbt::tag::{Int, Long, TagInt, TagString};
use na_nbt::typed_list::{OwnTypedList, TypedListBase};
use na_nbt::value::{OwnCompound, OwnList, OwnString, OwnValue};

#[test]
fn list_element_edited_in_place() {
    let mut l = OwnList::new();
    l.push(1i32.into_nbt());
    l.push(2i32.into_nbt());
    match l.get_mut(1) {
        Some(MutValue::Int(x)) => *x = 7,
        _ => panic!("expected an Int"),
    }
    assert!(matches!(l.get(1), Some(RefValue::Int(7))));
    assert!(matches!(l.get(0), Some(RefValue::Int(1))));
    assert!(l.get_mut(2).is_none());
    assert!(l.get_mut_::<Long>(0).is_none());
    assert!(matches!(l.get_mut_::<Int>(0), Some(MutValue::Int(_))));
}

#[test]
fn nested_list_edited_through_compound() {
    let mut inner = OwnList::new();
    inner.push(OwnValue::Byte(1));
    let mut c = OwnCompound::new();
    c.insert("xs", inner.into_nbt());
    match c.get_mut("xs") {
        Some(MutValue::List(l)) => l.push(OwnValue::Byte(2)),
        _ => panic!("expected a list"),
    }
    match c.get("xs") {
        Some(RefValue::List(l)) => assert_eq!(l.len(), 2),
        _ => panic!("expected a list"),
    }
    assert!(c.get_mut("nope").is_none());
    assert!(c.get_mut_::<Int>("xs").is_none());
}

#[test]
fn value_to_mut() {
    let mut v = OwnValue::Long(5);
    match v.to_mut() {
        MutValue::Long(x) => *x += 1,
        _ => panic!("expected a Long"),
    }
    assert!(matches!(v, OwnValue::Long(6)));
    match MutableConfig::read_mut(&mut v) {
        MutValue::Long(x) => *x = -1,
        _ => panic!("expected a Long"),
    }
    assert!(matches!(MutableConfig::read(&v), RefValue::Long(-1)));
}

#[test]
fn typed_lists() {
    let mut l: OwnTypedList<TagString> = OwnTypedList::new();
    assert!(l.is_empty());
    l.push("a".into_nbt());
    l.push(String::from("b").into_nbt());
    l.insert(0, OwnString::from_str("z").into_nbt());
    assert_eq!(l.len(), 3);
    match l.get(0) {
        Some(RefValue::String(s)) => assert_eq!(s.bytes, b"z"),
        _ => panic!("expected a string"),
    }
    assert!(matches!(l.remove(0), Some(OwnValue::String(_))));
    assert!(matches!(l.pop(), Some(OwnValue::String(_))));
    assert_eq!(l.len(), 1);

    let mut ints = OwnList::new();
    ints.push(OwnValue::Int(4));
    assert!(ints.typed_::<TagString>().is_none());
    let mut ints = OwnList::new();
    ints.push(OwnValue::Int(4));
    let typed = ints.typed_::<TagInt>().unwrap();
    assert_eq!(typed.len(), 1);
    // an empty End list can be typed as anything
    let empty = OwnList::new();
    let typed = empty.typed_::<TagString>().unwrap();
    assert!(typed.is_empty());
}

#[test]
fn conversions() {
    assert!(matches!(5i8.into_nbt(), OwnValue::Byte(5)));
    assert!(matches!((-3i16).into_nbt(), OwnValue::Short(-3)));
    assert!(matches!(9i64.into_nbt(), OwnValue::Long(9)));
    match vec![1i32, 2].into_nbt() {
        OwnValue::IntArray(v) => assert_eq!(v, vec![1, 2]),
        _ => panic!("expected an Int Array"),
    }
    assert!(matches!(OwnCompound::new().into_nbt(), OwnValue::Compound(_)));
}

#[test]
fn cursors_lend_each_element() {
    let mut l = OwnList::new();
    l.push(OwnValue::Short(1));
    l.push(OwnValue::Short(2));
    let mut it = MutListIter { pos: 0 };
    while let Some(m) = it.next(&mut l) {
        if let MutValue::Short(x) = m {
            *x *= 10;
        }
    }
    assert!(matches!(l.get(0), Some(RefValue::Short(10))));
    assert!(matches!(l.get(1), Some(RefValue::Short(20))));

    let mut c = OwnCompound::new();
    c.insert("a", OwnValue::Int(1));
    c.insert("b", OwnValue::Int(2));
    let mut it = MutCompoundIter { pos: 0 };
    let mut names = Vec::new();
    while let Some((name, m)) = it.next(&mut c) {
        names.push(name.bytes.to_vec());
        if let MutValue::Int(x) = m {
            *x = -*x;
        }
    }
    assert_eq!(names, vec![b"a".to_vec(), b"b".to_vec()]);
    assert!(matches!(c.get("b"), Some(RefValue::Int(-2))));
}

#[test]
fn value_get_mut_by_index() {

    let mut c = OwnCompound::new();
    c.insert("n", OwnValue::Int(1));
    let mut v = OwnValue::Compound(c);
    match v.get_mut(Index::Key("n")) {
        Some(MutValue::Int(x)) => *x = 11,
        _ => panic!("expected an Int"),
    }
    assert!(matches!(v.get(Index::Key("n")), Some(RefValue::Int(11))));
    assert!(v.get_mut(Index::Pos(0)).is_none());
    assert!(v.get_mut(Index::Key("m")).is_none());
}

#[test]
fn typed_access_on_views() {
    let mut c = OwnCompound::new();
    c.insert("i", OwnValue::Int(3));
    let v = OwnValue::Compound(c);
    let r = v.to_ref();
    assert!(matches!(r.get_::<Int>(Index::Key("i")), Some(RefValue::Int(3))));
    assert!(r.get_::<Long>(Index::Key("i")).is_none());
    assert!(RefValue::Int(1).into_::<Int>().is_some());
    assert!(RefValue::Int(1).into_::<Long>().is_none());
    let mut w = OwnValue::Short(2);
    let m = w.to_mut();
    assert_eq!(m.tag_id(), na_nbt::TagID::Short);
    assert!(m.is_::<na_nbt::tag::Short>());
}

#[test]
fn navigate_through_a_mutable_view() {
    let mut inner = OwnCompound::new();
    inner.insert("hp", OwnValue::Short(20));
    let mut l = OwnList::new();
    l.push(OwnValue::Compound(inner));
    let mut root = OwnValue::List(l);
    let mut m = root.to_mut();
    assert!(matches!(m.get(Index::Pos(0)), Some(RefValue::Compound(_))));
    assert!(m.get(Index::Pos(1)).is_none());
    assert!(m.get(Index::Key("hp")).is_none());
    assert!(m.get_::<Int>(Index::Pos(0)).is_none());
    match m.get_mut(Index::Pos(0)) {
        Some(mut entry) => {
            assert!(matches!(entry.get_::<na_nbt::tag::Short>(Index::Key("hp")), Some(RefValue::Short(20))));
            match entry.get_mut(Index::Key("hp")) {
                Some(MutValue::Short(x)) => *x = 5,
                _ => panic!("expected a Short"),
            }
            assert!(entry.get_mut(Index::Key("mp")).is_none());
            assert!(entry.get_mut_::<Int>(Index::Key("hp")).is_none());
            match entry.get_mut_::<na_nbt::tag::Short>(Index::Key("hp")) {
                Some(MutValue::Short(x)) => *x -= 1,
                _ => panic!("expected a Short"),
            }
        }
        None => panic!("expected an element"),
    }
    assert!(m.get_mut(Index::Key("hp")).is_none());
    match root.get(Index::Pos(0)) {
        Some(RefValue::Compound(c)) => assert!(matches!(c.get("hp"), Some(RefValue::Short(4)))),
        _ => panic!("expected a compound"),
    }
}

#[test]
fn borrowed_typed_lists() {
    let mut l = OwnList::new();
    l.push(OwnValue::Int(4));
    l.push(OwnValue::Int(5));
    let v = OwnValue::List(l);
    match v.to_ref() {
        RefValue::List(r) => {
            assert!(r.typed_::<Long>().is_none());
            let t = r.typed_::<Int>().expect("a list of Int");
            assert_eq!(t.len(), 2);
            assert!(!t.is_empty());
            assert!(matches!(t.get(1), Some(RefValue::Int(5))));
            assert!(t.get(2).is_none());
            let mut it = t.iter();
            assert!(matches!(it.next(), Some(RefValue::Int(4))));
            assert!(matches!(it.next(), Some(RefValue::Int(5))));
            assert!(it.next().is_none());
            assert_eq!(TypedListBase::len(&t), 2);
        }
        _ => panic!("expected a list"),
    }
    let empty = OwnValue::List(OwnList::new());
    match empty.to_ref() {
        RefValue::List(r) => {
            let t = r.typed_::<Long>().expect("an empty End list takes any element type");
            assert!(t.is_empty());
        }
        _ => panic!("expected a list"),
    }
}

#[test]
fn typed_insert_at_the_length_appends() {
    let mut l: OwnTypedList<TagInt> = OwnTypedList::new();
    l.insert(0, OwnValue::Int(1));
    l.insert(1, OwnValue::Int(3));
    l.insert(1, OwnValue::Int(2));
    assert_eq!(l.len(), 3);
    assert!(matches!(l.get(0), Some(RefValue::Int(1))));
    assert!(matches!(l.get(1), Some(RefValue::Int(2))));
    assert!(matches!(l.get(2), Some(RefValue::Int(3))));
    l.insert(5, OwnValue::Int(9));
    assert_eq!(l.len(), 3);
}

#[test]
fn mutable_typed_list_view() {
    let mut l = OwnList::new();
    l.push(OwnValue::Int(1));
    l.push(OwnValue::Int(2));
    assert!(l.typed_mut_::<Long>().is_none());
    {
        let mut t = l.typed_mut_::<Int>().expect("a list of Int");
        assert_eq!(t.len(), 2);
        assert!(!t.is_empty());
        assert!(matches!(t.get(0), Some(RefValue::Int(1))));
        match t.get_mut(1) {
            Some(MutValue::Int(x)) => *x = 7,
            _ => panic!("expected an Int"),
        }
        assert!(t.get_mut(2).is_none());
        let mut it = t.iter();
        assert!(matches!(it.next(), Some(RefValue::Int(1))));
        assert!(matches!(it.next(), Some(RefValue::Int(7))));
        let mut cursor = t.iter_mut();
        while let Some(v) = cursor.next(t.list) {
            if let MutValue::Int(x) = v {
                *x += 1;
            }
        }
    }
    assert!(matches!(l.get(0), Some(RefValue::Int(2))));
    assert!(matches!(l.get(1), Some(RefValue::Int(8))));

    // an empty End list takes the tag of the view
    let mut empty = OwnList::new();
    {
        let t = empty.typed_mut_::<Long>().expect("an empty End list takes any element type");
        assert!(t.is_empty());
    }
    assert_eq!(empty.element_tag_id(), na_nbt::TagID::Long);
}

#[test]
fn edits_keep_lists_well_formed_and_pop_returns_the_push() {
    let mut l = OwnList::new();
    l.push(OwnValue::Short(3));
    l.push(OwnValue::Short(4));
    match l.get_mut(0) {
        Some(MutValue::Short(x)) => *x = 9,
        _ => panic!("expected a Short"),
    }
    assert!(matches!(l.get(0), Some(RefValue::Short(9))));
    assert!(matches!(l.get(1), Some(RefValue::Short(4))));
    assert_eq!(l.len(), 2);
    l.push(OwnValue::Short(5));
    assert!(matches!(l.pop(), Some(OwnValue::Short(5))));
    assert_eq!(l.len(), 2);
    assert_eq!(l.element_tag_id(), na_nbt::TagID::Short);
    let mut e = OwnList::new();
    assert!(e.pop().is_none());
    assert_eq!(e.len(), 0);
}

#[test]
fn strings_from_rust_text_and_their_edits() {
    let mut s = OwnString::from_str("a\0");
    assert_eq!(s.as_mutf8_bytes(), &[0x61, 0xC0, 0x80]);
    assert_eq!(s.len(), 3);
    assert_eq!(s.decode(), "a\0");
    s.push_str("\u{10400}");
    assert_eq!(s.as_mutf8_bytes(), &[0x61, 0xC0, 0x80, 0xED, 0xA0, 0x81, 0xED, 0xB0, 0x80]);
    s.push('!');
    assert_eq!(s.decode(), "a\0\u{10400}!");
    assert_eq!(s.pop(), Some('!'));
    assert_eq!(s.pop(), Some('\u{10400}'));
    assert_eq!(s.as_mutf8_bytes(), &[0x61, 0xC0, 0x80]);
    s.clear();
    assert!(s.is_empty());
    assert_eq!(s.pop(), None);
    assert!(s.is_empty());
    match "hi".into_nbt() {
        OwnValue::String(t) => assert_eq!(t.as_mutf8_bytes(), b"hi"),
        _ => panic!("expected a string"),
    }
    let mut c = OwnCompound::new();
    c.insert("name", String::from("Steve").into_nbt());
    match c.get("name") {
        Some(RefValue::String(r)) => assert_eq!(r.to_utf8_string(), "Steve"),
        _ => panic!("expected a string"),
    }
}

#[test]
fn string_edits_at_byte_positions() {
    // decoded text "héllo": h(1) é(2) l l o -> byte positions 0,1,3,4,5,6
    let mut s = OwnString::from_str("héllo");
    assert!(s.is_char_boundary(1));
    assert!(!s.is_char_boundary(2));
    assert!(s.is_char_boundary(6));
    assert!(!s.is_char_boundary(7));
    s.insert_str(3, "XY");
    assert_eq!(s.decode(), "héXYllo");
    s.insert(0, '\0');
    assert_eq!(s.decode(), "\0héXYllo");
    assert_eq!(s.as_mutf8_bytes()[..2], [0xC0, 0x80]);
    assert_eq!(s.remove(1), 'h');
    assert_eq!(s.decode(), "\0éXYllo");
    s.replace_range(3..5, "-");
    assert_eq!(s.decode(), "\0é-llo");
    s.drain_drop(4..6);
    assert_eq!(s.decode(), "\0é-o");
    s.extend_from_within(1..3);
    assert_eq!(s.decode(), "\0é-oé");
    let tail = s.split_off(4);
    assert_eq!(tail, "oé");
    assert_eq!(s.decode(), "\0é-");
    s.truncate(10);
    assert_eq!(s.decode(), "\0é-");
    s.truncate(1);
    assert_eq!(s.decode(), "\0");
    assert_eq!(s.as_mutf8_bytes(), &[0xC0, 0x80]);
}

#[test]
fn string_edited_through_a_mutable_view() {
    let mut c = OwnCompound::new();
    c.insert("n", "ab".into_nbt());
    match c.get_mut("n") {
        Some(MutValue::String(s)) => s.push_str("c"),
        _ => panic!("expected a string"),
    }
    match c.get("n") {
        Some(RefValue::String(r)) => assert_eq!(r.to_utf8_string(), "abc"),
        _ => panic!("expected a string"),
    }
}
