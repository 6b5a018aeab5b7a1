use std::rc::Rc;
use vdom::attr::{AttrDyn, AttrListEntry, AttrRefValue, AttrStr, AttrTrue, AttrValue};
use vdom::frame::{PathFrame, PathRef};
use vdom::key::Key;
use vdom::path::{Ident, Path};

#[test]
fn root_frame_is_the_empty_string_key() {
    let root = PathFrame::new();
    assert!(root.parent().is_none());
    assert!(root.ident() == &Ident::Key(Key::Str("")));
    assert_eq!(root.to_string(), "s");
    assert!(root.path() == Path::new(None, Ident::Key(Key::Str(""))));
}

#[test]
fn frames_extend_their_parent() {
    let root = PathFrame::new();
    let ul = root.add_key(Key::Str("ul"));
    let row = ul.add_index(7);
    let cell = row.add_ident(Ident::Key(Key::U64(2)));
    assert_eq!(cell.to_string(), "u2.7.sul.s");
    assert!(cell.ident() == &Ident::Key(Key::U64(2)));
    let parent = cell.parent().unwrap();
    assert!(parent.ident() == &Ident::Index(7));
    assert_eq!(parent.to_path().to_string(), "7.sul.s");
    assert!(parent.parent().unwrap().parent().unwrap().parent().is_none());
}

#[test]
fn frame_path_is_the_path_built_the_persistent_way() {
    let root = PathFrame::new();
    let ul = root.add_key(Key::Str("ul"));
    let row = ul.add_key(Key::String(Rc::new("row-7".to_string())));
    let persistent = Path::new(None, Ident::Key(Key::Str("")))
        .push(Ident::Key(Key::Str("ul")))
        .push(Ident::Key(Key::Str("row-7")));
    assert!(row.path() == persistent);
    assert_eq!(row.to_string(), persistent.to_string());
    assert_eq!(row.to_string(), "srow-7.sul.s");
}

#[test]
fn frame_iter_walks_from_leaf_to_root() {
    let root = PathFrame::new();
    let a = root.add_index(1);
    let b = a.add_index(2);
    let mut it = b.iter();
    let mut seen = Vec::new();
    while let Some(p) = it.next() {
        seen.push(p.ident().to_string());
    }
    assert_eq!(seen, vec!["2".to_string(), "1".to_string(), "s".to_string()]);
    assert!(it.next().is_none());
}

#[test]
fn path_ref_over_a_persistent_path() {
    let path = Path::new(None, Ident::Index(0)).push(Ident::Index(1));
    let borrowed = PathRef::Path(&path);
    assert!(borrowed.ident() == &Ident::Index(1));
    assert!(borrowed.to_path() == path);
    assert_eq!(borrowed.to_string(), "1.0");
    let parent = borrowed.parent().unwrap();
    assert!(parent.ident() == &Ident::Index(0));
    assert!(parent.parent().is_none());
    let mut it = borrowed.iter();
    assert!(it.next().is_some());
    assert!(it.next().is_some());
    assert!(it.next().is_none());
}

#[test]
fn keys_come_from_plain_values() {
    assert!(Key::from(7u8) == Key::U64(7));
    assert!(Key::from(7u16) == Key::U64(7));
    assert!(Key::from(7u32) == Key::U64(7));
    assert!(Key::from(7u64) == Key::U64(7));
    assert!(Key::from(7usize) == Key::U64(7));
    assert!(Key::from(-7i8) == Key::I64(-7));
    assert!(Key::from(-7i16) == Key::I64(-7));
    assert!(Key::from(-7i32) == Key::I64(-7));
    assert!(Key::from(-7i64) == Key::I64(-7));
    assert!(Key::from(-7isize) == Key::I64(-7));
    assert!(Key::from("a") == Key::Str("a"));
    assert!(Key::from("a".to_string()) == Key::Str("a"));
    assert!(Key::from(Rc::new("a".to_string())) == Key::Str("a"));
    assert!(Key::from(vec![1u8, 2]) == Key::Bytes(Rc::new(vec![1, 2])));
    assert!(Key::from(Rc::new(vec![1u8, 2])) == Key::Bytes(Rc::new(vec![1, 2])));
    assert!(Ident::from(Key::U64(1)) == Ident::Key(Key::U64(1)));
    assert!(Ident::from(3usize) == Ident::Index(3));
}

#[test]
fn attribute_values_come_from_plain_values() {
    assert!(AttrValue::from(true).as_ref().same(&AttrRefValue::True));
    assert!(AttrValue::from(false).as_ref().same(&AttrRefValue::Null));
    assert!(AttrValue::from(Some(())).as_ref().same(&AttrRefValue::True));
    assert!(AttrValue::from(None::<()>).as_ref().same(&AttrRefValue::Null));
    assert!(AttrValue::from("x").as_ref().same(&AttrRefValue::Str("x")));
    assert!(AttrValue::from(Some("x")).as_ref().same(&AttrRefValue::Str("x")));
    assert!(AttrValue::from(None::<&'static str>).as_ref().same(&AttrRefValue::Null));
    assert!(AttrValue::from("x".to_string()).as_ref().same(&AttrRefValue::Str("x")));
    assert!(AttrValue::from(Some("x".to_string())).as_ref().same(&AttrRefValue::Str("x")));
    assert!(AttrValue::from(None::<String>).as_ref().same(&AttrRefValue::Null));
    let entry = AttrListEntry::from(AttrTrue::new("a"));
    assert_eq!(entry.effective(), Some("a"));
    let entry = AttrListEntry::from(AttrStr::new("a", "b"));
    assert_eq!(entry.effective(), Some("b"));
    let entry = AttrListEntry::from(AttrDyn::new("a", AttrValue::from(false)));
    assert_eq!(entry.effective(), None);
    assert_eq!(AttrTrue::new("a").name(), "a");
    assert!(AttrStr::new("a", "b").value().same(&AttrRefValue::Str("b")));
    assert!(!AttrDyn::new("a", AttrValue::Null).is_value_static());
}
