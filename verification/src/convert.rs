//! Conversions into keys and attribute values from the plain values that
//! stand for them.
use crate::attr::{AttrDyn, AttrListEntry, AttrStr, AttrTrue, AttrValue};
use crate::key::Key;
use crate::node::{CompNode, Node, NodeBuilder, Tag, Text};
use crate::path::Ident;
use std::rc::Rc;
use vstd::prelude::*;
use vstd::std_specs::convert::FromSpecImpl;

verus! {

impl From<u8> for Key {
    fn from(v: u8) -> (r: Key) {
        Key::U64(v as u64)
    }
}

impl FromSpecImpl<u8> for Key {
    open spec fn obeys_from_spec() -> bool {
        true
    }

    open spec fn from_spec(v: u8) -> Key {
        Key::U64(v as u64)
    }
}

impl From<u16> for Key {
    fn from(v: u16) -> (r: Key) {
        Key::U64(v as u64)
    }
}

impl FromSpecImpl<u16> for Key {
    open spec fn obeys_from_spec() -> bool {
        true
    }

    open spec fn from_spec(v: u16) -> Key {
        Key::U64(v as u64)
    }
}

impl From<u32> for Key {
    fn from(v: u32) -> (r: Key) {
        Key::U64(v as u64)
    }
}

impl FromSpecImpl<u32> for Key {
    open spec fn obeys_from_spec() -> bool {
        true
    }

    open spec fn from_spec(v: u32) -> Key {
        Key::U64(v as u64)
    }
}

impl From<u64> for Key {
    fn from(v: u64) -> (r: Key) {
        Key::U64(v)
    }
}

impl FromSpecImpl<u64> for Key {
    open spec fn obeys_from_spec() -> bool {
        true
    }

    open spec fn from_spec(v: u64) -> Key {
        Key::U64(v)
    }
}

impl From<usize> for Key {
    fn from(v: usize) -> (r: Key) {
        Key::U64(v as u64)
    }
}

impl FromSpecImpl<usize> for Key {
    open spec fn obeys_from_spec() -> bool {
        true
    }

    open spec fn from_spec(v: usize) -> Key {
        Key::U64(v as u64)
    }
}

impl From<i8> for Key {
    fn from(v: i8) -> (r: Key) {
        Key::I64(v as i64)
    }
}

impl FromSpecImpl<i8> for Key {
    open spec fn obeys_from_spec() -> bool {
        true
    }

    open spec fn from_spec(v: i8) -> Key {
        Key::I64(v as i64)
    }
}

impl From<i16> for Key {
    fn from(v: i16) -> (r: Key) {
        Key::I64(v as i64)
    }
}

impl FromSpecImpl<i16> for Key {
    open spec fn obeys_from_spec() -> bool {
        true
    }

    open spec fn from_spec(v: i16) -> Key {
        Key::I64(v as i64)
    }
}

impl From<i32> for Key {
    fn from(v: i32) -> (r: Key) {
        Key::I64(v as i64)
    }
}

impl FromSpecImpl<i32> for Key {
    open spec fn obeys_from_spec() -> bool {
        true
    }

    open spec fn from_spec(v: i32) -> Key {
        Key::I64(v as i64)
    }
}

impl From<i64> for Key {
    fn from(v: i64) -> (r: Key) {
        Key::I64(v)
    }
}

impl FromSpecImpl<i64> for Key {
    open spec fn obeys_from_spec() -> bool {
        true
    }

    open spec fn from_spec(v: i64) -> Key {
        Key::I64(v)
    }
}

impl From<isize> for Key {
    fn from(v: isize) -> (r: Key) {
        Key::I64(v as i64)
    }
}

impl FromSpecImpl<isize> for Key {
    open spec fn obeys_from_spec() -> bool {
        true
    }

    open spec fn from_spec(v: isize) -> Key {
        Key::I64(v as i64)
    }
}

impl From<String> for Key {
    fn from(v: String) -> (r: Key) {
        Key::String(Rc::new(v))
    }
}

impl FromSpecImpl<String> for Key {
    open spec fn obeys_from_spec() -> bool {
        true
    }

    open spec fn from_spec(v: String) -> Key {
        Key::String(Rc::new(v))
    }
}

impl From<Rc<String>> for Key {
    fn from(v: Rc<String>) -> (r: Key) {
        Key::String(v)
    }
}

impl FromSpecImpl<Rc<String>> for Key {
    open spec fn obeys_from_spec() -> bool {
        true
    }

    open spec fn from_spec(v: Rc<String>) -> Key {
        Key::String(v)
    }
}

impl From<&'static str> for Key {
    fn from(v: &'static str) -> (r: Key) {
        Key::Str(v)
    }
}

impl FromSpecImpl<&'static str> for Key {
    open spec fn obeys_from_spec() -> bool {
        true
    }

    open spec fn from_spec(v: &'static str) -> Key {
        Key::Str(v)
    }
}

impl From<Vec<u8>> for Key {
    fn from(v: Vec<u8>) -> (r: Key) {
        Key::Bytes(Rc::new(v))
    }
}

impl FromSpecImpl<Vec<u8>> for Key {
    open spec fn obeys_from_spec() -> bool {
        true
    }

    open spec fn from_spec(v: Vec<u8>) -> Key {
        Key::Bytes(Rc::new(v))
    }
}

impl From<Rc<Vec<u8>>> for Key {
    fn from(v: Rc<Vec<u8>>) -> (r: Key) {
        Key::Bytes(v)
    }
}

impl FromSpecImpl<Rc<Vec<u8>>> for Key {
    open spec fn obeys_from_spec() -> bool {
        true
    }

    open spec fn from_spec(v: Rc<Vec<u8>>) -> Key {
        Key::Bytes(v)
    }
}

impl From<Key> for Ident {
    fn from(v: Key) -> (r: Ident) {
        Ident::Key(v)
    }
}

impl FromSpecImpl<Key> for Ident {
    open spec fn obeys_from_spec() -> bool {
        true
    }

    open spec fn from_spec(v: Key) -> Ident {
        Ident::Key(v)
    }
}

impl From<usize> for Ident {
    fn from(v: usize) -> (r: Ident) {
        Ident::Index(v)
    }
}

impl FromSpecImpl<usize> for Ident {
    open spec fn obeys_from_spec() -> bool {
        true
    }

    open spec fn from_spec(v: usize) -> Ident {
        Ident::Index(v)
    }
}

impl From<bool> for AttrValue {
    fn from(v: bool) -> (r: AttrValue) {
        if v {
            AttrValue::True
        } else {
            AttrValue::Null
        }
    }
}

impl FromSpecImpl<bool> for AttrValue {
    open spec fn obeys_from_spec() -> bool {
        true
    }

    open spec fn from_spec(v: bool) -> AttrValue {
        if v {
            AttrValue::True
        } else {
            AttrValue::Null
        }
    }
}

impl From<Option<()>> for AttrValue {
    fn from(v: Option<()>) -> (r: AttrValue) {
        match v {
            Some(_) => AttrValue::True,
            None => AttrValue::Null,
        }
    }
}

impl FromSpecImpl<Option<()>> for AttrValue {
    open spec fn obeys_from_spec() -> bool {
        true
    }

    open spec fn from_spec(v: Option<()>) -> AttrValue {
        match v {
            Some(_) => AttrValue::True,
            None => AttrValue::Null,
        }
    }
}

impl From<&'static str> for AttrValue {
    fn from(v: &'static str) -> (r: AttrValue) {
        AttrValue::Str(v)
    }
}

impl FromSpecImpl<&'static str> for AttrValue {
    open spec fn obeys_from_spec() -> bool {
        true
    }

    open spec fn from_spec(v: &'static str) -> AttrValue {
        AttrValue::Str(v)
    }
}

impl From<Option<&'static str>> for AttrValue {
    fn from(v: Option<&'static str>) -> (r: AttrValue) {
        match v {
            Some(s) => AttrValue::Str(s),
            None => AttrValue::Null,
        }
    }
}

impl FromSpecImpl<Option<&'static str>> for AttrValue {
    open spec fn obeys_from_spec() -> bool {
        true
    }

    open spec fn from_spec(v: Option<&'static str>) -> AttrValue {
        match v {
            Some(s) => AttrValue::Str(s),
            None => AttrValue::Null,
        }
    }
}

impl From<String> for AttrValue {
    fn from(v: String) -> (r: AttrValue) {
        AttrValue::String(v)
    }
}

impl FromSpecImpl<String> for AttrValue {
    open spec fn obeys_from_spec() -> bool {
        true
    }

    open spec fn from_spec(v: String) -> AttrValue {
        AttrValue::String(v)
    }
}

impl From<Option<String>> for AttrValue {
    fn from(v: Option<String>) -> (r: AttrValue) {
        match v {
            Some(s) => AttrValue::String(s),
            None => AttrValue::Null,
        }
    }
}

impl FromSpecImpl<Option<String>> for AttrValue {
    open spec fn obeys_from_spec() -> bool {
        true
    }

    open spec fn from_spec(v: Option<String>) -> AttrValue {
        match v {
            Some(s) => AttrValue::String(s),
            None => AttrValue::Null,
        }
    }
}

impl From<AttrTrue> for AttrListEntry {
    fn from(v: AttrTrue) -> (r: AttrListEntry) {
        AttrListEntry::True(v)
    }
}

impl FromSpecImpl<AttrTrue> for AttrListEntry {
    open spec fn obeys_from_spec() -> bool {
        true
    }

    open spec fn from_spec(v: AttrTrue) -> AttrListEntry {
        AttrListEntry::True(v)
    }
}

impl From<AttrStr> for AttrListEntry {
    fn from(v: AttrStr) -> (r: AttrListEntry) {
        AttrListEntry::Str(v)
    }
}

impl FromSpecImpl<AttrStr> for AttrListEntry {
    open spec fn obeys_from_spec() -> bool {
        true
    }

    open spec fn from_spec(v: AttrStr) -> AttrListEntry {
        AttrListEntry::Str(v)
    }
}

impl From<AttrDyn> for AttrListEntry {
    fn from(v: AttrDyn) -> (r: AttrListEntry) {
        AttrListEntry::Dyn(v)
    }
}

impl FromSpecImpl<AttrDyn> for AttrListEntry {
    open spec fn obeys_from_spec() -> bool {
        true
    }

    open spec fn from_spec(v: AttrDyn) -> AttrListEntry {
        AttrListEntry::Dyn(v)
    }
}

impl<H, C, I> From<String> for Node<H, C, I> {
    fn from(v: String) -> (r: Node<H, C, I>) {
        Node::Text(Text::new_dyn(v))
    }
}

impl<H, C, I> FromSpecImpl<String> for Node<H, C, I> {
    open spec fn obeys_from_spec() -> bool {
        true
    }

    open spec fn from_spec(v: String) -> Node<H, C, I> {
        Node::Text(Text { text: v, is_static: false, store: None })
    }
}

impl<H, C, I> From<Text<H>> for Node<H, C, I> {
    fn from(v: Text<H>) -> (r: Node<H, C, I>) {
        Node::Text(v)
    }
}

impl<H, C, I> FromSpecImpl<Text<H>> for Node<H, C, I> {
    open spec fn obeys_from_spec() -> bool {
        true
    }

    open spec fn from_spec(v: Text<H>) -> Node<H, C, I> {
        Node::Text(v)
    }
}

impl<H, C, I> From<Tag<H, C, I>> for Node<H, C, I> {
    fn from(v: Tag<H, C, I>) -> (r: Node<H, C, I>) {
        Node::Tag(v)
    }
}

impl<H, C, I> FromSpecImpl<Tag<H, C, I>> for Node<H, C, I> {
    open spec fn obeys_from_spec() -> bool {
        true
    }

    open spec fn from_spec(v: Tag<H, C, I>) -> Node<H, C, I> {
        Node::Tag(v)
    }
}

impl<H, C, I> From<CompNode<H, C, I>> for Node<H, C, I> {
    fn from(v: CompNode<H, C, I>) -> (r: Node<H, C, I>) {
        Node::Comp(v)
    }
}

impl<H, C, I> FromSpecImpl<CompNode<H, C, I>> for Node<H, C, I> {
    open spec fn obeys_from_spec() -> bool {
        true
    }

    open spec fn from_spec(v: CompNode<H, C, I>) -> Node<H, C, I> {
        Node::Comp(v)
    }
}

impl<H, C, I> From<NodeBuilder<H, C, I>> for Node<H, C, I> {
    fn from(v: NodeBuilder<H, C, I>) -> (r: Node<H, C, I>) {
        v.build()
    }
}

impl<H, C, I> FromSpecImpl<NodeBuilder<H, C, I>> for Node<H, C, I> {
    open spec fn obeys_from_spec() -> bool {
        true
    }

    open spec fn from_spec(v: NodeBuilder<H, C, I>) -> Node<H, C, I> {
        Node::Tag(v.spec_tag())
    }
}

} // verus!
