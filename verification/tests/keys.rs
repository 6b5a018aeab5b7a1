use std::collections::hash_map::DefaultHasher;
use std::hash::{Hash, Hasher};
use std::rc::Rc;
use vdom::key::Key;
use vdom::path::{Ident, Path};

fn hash_of<T: Hash>(value: &T) -> u64 {
    let mut hasher = DefaultHasher::new();
    value.hash(&mut hasher);
    hasher.finish()
}

#[test]
fn owned_and_borrowed_string_keys_are_equal() {
    let owned = Key::String(Rc::new("row".to_string()));
    let borrowed = Key::Str("row");
    assert!(owned == borrowed);
    assert!(borrowed == owned);
    assert!(owned.same(&borrowed));
    assert_eq!(hash_of(&owned), hash_of(&borrowed));
    assert_eq!(owned.hash_input(), borrowed.hash_input());
}

#[test]
fn keys_of_different_kinds_differ() {
    assert!(Key::U64(1) != Key::I64(1));
    assert!(Key::Str("1") != Key::U64(1));
    assert!(Key::Bytes(Rc::new(vec![b'a'])) != Key::Str("a"));
    assert!(Key::U64(1) != Key::U64(2));
    assert!(Key::Str("a") != Key::Str("b"));
    assert!(Key::Bytes(Rc::new(vec![1, 2])) != Key::Bytes(Rc::new(vec![1, 3])));
    assert!(Key::Bytes(Rc::new(vec![1, 2])) != Key::Bytes(Rc::new(vec![1])));
    assert!(Key::Bytes(Rc::new(vec![1, 2])) == Key::Bytes(Rc::new(vec![1, 2])));
}

#[test]
fn key_text_has_a_letter_for_its_kind() {
    assert_eq!(Key::U64(0).to_string(), "u0");
    assert_eq!(Key::U64(7).to_string(), "u7");
    assert_eq!(Key::U64(1234567890).to_string(), "u1234567890");
    assert_eq!(Key::U64(u64::MAX).to_string(), "u18446744073709551615");
    assert_eq!(Key::I64(-42).to_string(), "i-42");
    assert_eq!(Key::I64(0).to_string(), "i0");
    assert_eq!(Key::I64(i64::MIN).to_string(), "i-9223372036854775808");
    assert_eq!(Key::I64(i64::MAX).to_string(), "i9223372036854775807");
    assert_eq!(Key::Str("row-7").to_string(), "srow-7");
    assert_eq!(Key::String(Rc::new("é".to_string())).to_string(), "sé");
    assert_eq!(Key::Bytes(Rc::new(vec![0, 10, 255, 16])).to_string(), "0x000aff10");
    assert_eq!(Key::Bytes(Rc::new(Vec::new())).to_string(), "0x");
}

#[test]
fn key_hash_input_starts_with_its_kind() {
    assert_eq!(Key::U64(1).hash_input(), vec![1, 1, 0, 0, 0, 0, 0, 0, 0]);
    assert_eq!(Key::I64(1).hash_input(), vec![2, 0, 1, 0, 0, 0, 0, 0, 0, 0]);
    assert_eq!(Key::I64(-1).hash_input(), vec![2, 1, 0, 0, 0, 0, 0, 0, 0, 0]);
    assert_eq!(Key::I64(-2).hash_input(), vec![2, 1, 1, 0, 0, 0, 0, 0, 0, 0]);
    assert_eq!(Key::Str("ab").hash_input(), vec![3, b'a', b'b']);
    assert_eq!(Key::Bytes(Rc::new(vec![9, 8])).hash_input(), vec![4, 9, 8]);
    assert_ne!(hash_of(&Key::U64(1)), hash_of(&Key::I64(1)));
}

#[test]
fn cloned_key_is_the_same_key() {
    let key = Key::String(Rc::new("k".to_string()));
    let copy = key.clone();
    assert!(key == copy);
    let bytes = Key::Bytes(Rc::new(vec![1, 2, 3]));
    assert!(bytes.clone() == bytes);
}

#[test]
fn ident_text_and_equality() {
    assert_eq!(Ident::Index(3).to_string(), "3");
    assert_eq!(Ident::Key(Key::U64(3)).to_string(), "u3");
    assert!(Ident::Index(3) != Ident::Key(Key::U64(3)));
    assert!(Ident::Index(3) == Ident::Index(3));
    assert!(Ident::Key(Key::Str("a")) == Ident::Key(Key::String(Rc::new("a".to_string()))));
    assert!(Ident::Index(3).clone() == Ident::Index(3));
    assert_eq!(Ident::Index(3).hash_input(), vec![0, 3, 0, 0, 0, 0, 0, 0, 0]);
    assert_eq!(Ident::Key(Key::U64(3)).hash_input(), vec![1, 3, 0, 0, 0, 0, 0, 0, 0]);
    assert_ne!(hash_of(&Ident::Index(3)), hash_of(&Ident::Key(Key::U64(3))));
    assert_eq!(
        hash_of(&Ident::Key(Key::Str("a"))),
        hash_of(&Ident::Key(Key::String(Rc::new("a".to_string()))))
    );
}

#[test]
fn path_is_extended_without_changing_its_parent() {
    let root = Path::new(None, Ident::Key(Key::Str("")));
    let ul = root.push(Ident::Index(0));
    let row = ul.push(Ident::Key(Key::Str("row-7")));
    assert_eq!(root.len(), 1);
    assert_eq!(ul.len(), 2);
    assert_eq!(row.len(), 3);
    assert!(row.parent().unwrap() == &ul);
    assert!(ul.parent().unwrap() == &root);
    assert!(root.parent().is_none());
    assert!(row.get() == &Ident::Key(Key::Str("row-7")));
    assert!(row.ident() == &Ident::Key(Key::Str("row-7")));
}

#[test]
fn path_text_joins_segments_from_leaf_to_root() {
    let root = Path::new(None, Ident::Key(Key::Str("")));
    let ul = root.push(Ident::Index(0));
    let row = ul.push(Ident::Key(Key::Str("row-7")));
    assert_eq!(root.to_string(), "s");
    assert_eq!(ul.to_string(), "0.s");
    assert_eq!(row.to_string(), "srow-7.0.s");
}

#[test]
fn path_faithfulness_same_segments_same_text_and_hash() {
    let first = Path::new(None, Ident::Key(Key::Str("")))
        .push(Ident::Key(Key::Str("ul")))
        .push(Ident::Key(Key::Str("row-7")));
    let again = Path::from_idents(vec![
        Ident::Key(Key::String(Rc::new(String::new()))),
        Ident::Key(Key::String(Rc::new("ul".to_string()))),
        Ident::Key(Key::String(Rc::new("row-7".to_string()))),
    ])
    .unwrap();
    assert!(first == again);
    assert!(first.same(&again));
    assert_eq!(first.to_string(), again.to_string());
    assert_eq!(first.to_string(), "srow-7.sul.s");
    assert_eq!(hash_of(&first), hash_of(&again));
}

#[test]
fn path_replace_gives_the_sibling() {
    let root = Path::new(None, Ident::Key(Key::Str("")));
    let a = root.push(Ident::Index(0));
    let b = a.replace(Ident::Index(1));
    assert!(b == root.push(Ident::Index(1)));
    assert!(b != a);
    assert!(a == root.push(Ident::Index(0)));
    let other_root = root.replace(Ident::Key(Key::U64(9)));
    assert!(other_root.parent().is_none());
    assert_eq!(other_root.to_string(), "u9");
}

#[test]
fn path_iter_walks_from_leaf_to_root() {
    let root = Path::new(None, Ident::Key(Key::Str("r")));
    let leaf = root.push(Ident::Index(1)).push(Ident::Index(2));
    let mut it = leaf.iter();
    let mut seen = Vec::new();
    while let Some(p) = it.next() {
        seen.push(p.ident().to_string());
    }
    assert_eq!(seen, vec!["2".to_string(), "1".to_string(), "sr".to_string()]);
    assert!(it.next().is_none());
    let idents = leaf.idents();
    assert_eq!(idents.len(), 3);
    assert!(idents[0] == Ident::Index(2));
    assert!(idents[2] == Ident::Key(Key::Str("r")));
}

#[test]
fn path_from_no_idents_is_none() {
    assert!(Path::from_idents(Vec::new()).is_none());
}

#[test]
fn paths_of_different_length_differ() {
    let root = Path::new(None, Ident::Index(0));
    let longer = root.push(Ident::Index(0));
    assert!(root != longer);
    assert!(longer != root);
    assert!(longer.clone() == longer);
}
