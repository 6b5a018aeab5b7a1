//! Attributes: named values on a tag, and what changes between two of them.
use crate::text::str_eq;
use vstd::prelude::*;
use vstd::std_specs::cmp::PartialEqSpecImpl;

verus! {

/// What an attribute value stands for.
pub enum AttrValueView {
    /// Present without a payload.
    True,
    /// Absent.
    Null,
    /// Present with a string payload.
    Str(Seq<char>),
}

/// An attribute value that owns its payload.
#[derive(Debug)]
pub enum AttrValue {
    True,
    Null,
    Str(&'static str),
    String(String),
}

/// An attribute value that borrows its payload.
#[derive(Debug, Clone, Copy)]
pub enum AttrRefValue<'a> {
    True,
    Null,
    Str(&'a str),
}

impl View for AttrValue {
    type V = AttrValueView;

    open spec fn view(&self) -> AttrValueView {
        match *self {
            AttrValue::True => AttrValueView::True,
            AttrValue::Null => AttrValueView::Null,
            AttrValue::Str(s) => AttrValueView::Str(s@),
            AttrValue::String(s) => AttrValueView::Str(s@),
        }
    }
}

impl<'a> View for AttrRefValue<'a> {
    type V = AttrValueView;

    open spec fn view(&self) -> AttrValueView {
        match *self {
            AttrRefValue::True => AttrValueView::True,
            AttrRefValue::Null => AttrValueView::Null,
            AttrRefValue::Str(s) => AttrValueView::Str(s@),
        }
    }
}

impl AttrValue {
    /// `True` for `true`, `Null` for `false`.
    pub fn from_bool(v: bool) -> (r: AttrValue)
        ensures
            r@ == if v {
                AttrValueView::True
            } else {
                AttrValueView::Null
            },
    {
        if v {
            AttrValue::True
        } else {
            AttrValue::Null
        }
    }

    /// `True` for `Some`, `Null` for `None`.
    pub fn from_flag(v: Option<()>) -> (r: AttrValue)
        ensures
            r@ == if v is Some {
                AttrValueView::True
            } else {
                AttrValueView::Null
            },
    {
        match v {
            Some(_) => AttrValue::True,
            None => AttrValue::Null,
        }
    }

    /// The payload where there is one, `Null` for `None`.
    pub fn from_static(v: Option<&'static str>) -> (r: AttrValue)
        ensures
            r@ == match v {
                Some(s) => AttrValueView::Str(s@),
                None => AttrValueView::Null,
            },
    {
        match v {
            Some(s) => AttrValue::Str(s),
            None => AttrValue::Null,
        }
    }

    /// The payload where there is one, `Null` for `None`.
    pub fn from_string(v: Option<String>) -> (r: AttrValue)
        ensures
            r@ == match v {
                Some(s) => AttrValueView::Str(s@),
                None => AttrValueView::Null,
            },
    {
        match v {
            Some(s) => AttrValue::String(s),
            None => AttrValue::Null,
        }
    }

    /// The same value, borrowed.
    pub fn as_ref<'a>(&'a self) -> (r: AttrRefValue<'a>)
        ensures
            r@ == self@,
    {
        match self {
            AttrValue::True => AttrRefValue::True,
            AttrValue::Null => AttrRefValue::Null,
            AttrValue::Str(s) => AttrRefValue::Str(s),
            AttrValue::String(s) => AttrRefValue::Str(s.as_str()),
        }
    }
}

impl AttrValue {
    /// Whether two values are of one form and hold the same: a payload that
    /// is borrowed is not one that is owned.
    pub open spec fn same_form(&self, other: &AttrValue) -> bool {
        match (*self, *other) {
            (AttrValue::True, AttrValue::True) => true,
            (AttrValue::Null, AttrValue::Null) => true,
            (AttrValue::Str(a), AttrValue::Str(b)) => a@ == b@,
            (AttrValue::String(a), AttrValue::String(b)) => a@ == b@,
            _ => false,
        }
    }
}

impl Clone for AttrValue {
    fn clone(&self) -> (r: AttrValue)
        ensures
            r == *self,
    {
        match self {
            AttrValue::True => AttrValue::True,
            AttrValue::Null => AttrValue::Null,
            AttrValue::Str(s) => AttrValue::Str(s),
            AttrValue::String(s) => AttrValue::String(s.clone()),
        }
    }
}

impl PartialEq for AttrValue {
    fn eq(&self, other: &AttrValue) -> (r: bool) {
        match (self, other) {
            (AttrValue::True, AttrValue::True) => true,
            (AttrValue::Null, AttrValue::Null) => true,
            (AttrValue::Str(a), AttrValue::Str(b)) => str_eq(a, b),
            (AttrValue::String(a), AttrValue::String(b)) => str_eq(a.as_str(), b.as_str()),
            _ => false,
        }
    }
}

impl PartialEqSpecImpl for AttrValue {
    open spec fn obeys_eq_spec() -> bool {
        true
    }

    open spec fn eq_spec(&self, other: &AttrValue) -> bool {
        self.same_form(other)
    }
}

impl Eq for AttrValue {

}

impl<'a> PartialEq for AttrRefValue<'a> {
    fn eq(&self, other: &AttrRefValue<'a>) -> (r: bool) {
        self.same(other)
    }
}

impl<'a> PartialEqSpecImpl for AttrRefValue<'a> {
    open spec fn obeys_eq_spec() -> bool {
        true
    }

    open spec fn eq_spec(&self, other: &AttrRefValue<'a>) -> bool {
        self@ == other@
    }
}

impl<'a> Eq for AttrRefValue<'a> {

}

impl<'a> AttrRefValue<'a> {
    /// Whether two values stand for the same thing.
    pub fn same(&self, other: &AttrRefValue<'_>) -> (r: bool)
        ensures
            r == (self@ == other@),
    {
        match (self, other) {
            (AttrRefValue::True, AttrRefValue::True) => true,
            (AttrRefValue::Null, AttrRefValue::Null) => true,
            (AttrRefValue::Str(a), AttrRefValue::Str(b)) => str_eq(a, b),
            _ => false,
        }
    }
}

/// What an attribute stands for: its name, its value, and whether the value
/// is fixed where the tree is written down.
pub struct AttrView {
    pub name: Seq<char>,
    pub value: AttrValueView,
    pub is_static: bool,
}

impl AttrView {
    /// The string that the backing element carries for the attribute: its own
    /// name for a value without payload, nothing for an absent one.
    pub open spec fn effective(self) -> Option<Seq<char>> {
        match self.value {
            AttrValueView::True => Some(self.name),
            AttrValueView::Null => None,
            AttrValueView::Str(s) => Some(s),
        }
    }
}

/// An attribute that is present without a payload.
#[derive(Debug)]
pub struct AttrTrue {
    key: &'static str,
}

/// An attribute with a payload fixed where the tree is written down.
#[derive(Debug)]
pub struct AttrStr {
    key: &'static str,
    value: &'static str,
}

/// An attribute whose value is computed when the tree is built.
#[derive(Debug)]
pub struct AttrDyn {
    key: &'static str,
    value: AttrValue,
}

impl View for AttrTrue {
    type V = AttrView;

    closed spec fn view(&self) -> AttrView {
        AttrView { name: self.key@, value: AttrValueView::True, is_static: true }
    }
}

impl View for AttrStr {
    type V = AttrView;

    closed spec fn view(&self) -> AttrView {
        AttrView { name: self.key@, value: AttrValueView::Str(self.value@), is_static: true }
    }
}

impl View for AttrDyn {
    type V = AttrView;

    closed spec fn view(&self) -> AttrView {
        AttrView { name: self.key@, value: self.value@, is_static: false }
    }
}

impl AttrTrue {
    pub fn new(key: &'static str) -> (r: AttrTrue)
        ensures
            r@ == (AttrView { name: key@, value: AttrValueView::True, is_static: true }),
    {
        AttrTrue { key }
    }

    pub fn is_value_static(&self) -> (r: bool)
        ensures
            r == self@.is_static,
    {
        true
    }

    pub fn name(&self) -> (r: &str)
        ensures
            r@ == self@.name,
    {
        self.key
    }

    pub fn value(&self) -> (r: AttrRefValue<'_>)
        ensures
            r@ == self@.value,
    {
        AttrRefValue::True
    }
}

impl AttrStr {
    pub fn new(key: &'static str, value: &'static str) -> (r: AttrStr)
        ensures
            r@ == (AttrView { name: key@, value: AttrValueView::Str(value@), is_static: true }),
    {
        AttrStr { key, value }
    }

    pub fn is_value_static(&self) -> (r: bool)
        ensures
            r == self@.is_static,
    {
        true
    }

    pub fn name(&self) -> (r: &str)
        ensures
            r@ == self@.name,
    {
        self.key
    }

    pub fn value(&self) -> (r: AttrRefValue<'_>)
        ensures
            r@ == self@.value,
    {
        AttrRefValue::Str(self.value)
    }
}

impl AttrDyn {
    pub fn new(key: &'static str, value: AttrValue) -> (r: AttrDyn)
        ensures
            r@ == (AttrView { name: key@, value: value@, is_static: false }),
    {
        AttrDyn { key, value }
    }

    pub fn is_value_static(&self) -> (r: bool)
        ensures
            r == self@.is_static,
    {
        false
    }

    pub fn name(&self) -> (r: &str)
        ensures
            r@ == self@.name,
    {
        self.key
    }

    pub fn value(&self) -> (r: AttrRefValue<'_>)
        ensures
            r@ == self@.value,
    {
        self.value.as_ref()
    }
}

/// One entry of an attribute list.
#[derive(Debug)]
pub enum AttrListEntry {
    True(AttrTrue),
    Str(AttrStr),
    Dyn(AttrDyn),
}

impl View for AttrListEntry {
    type V = AttrView;

    open spec fn view(&self) -> AttrView {
        match *self {
            AttrListEntry::True(a) => a@,
            AttrListEntry::Str(a) => a@,
            AttrListEntry::Dyn(a) => a@,
        }
    }
}

/// What has to happen to an attribute of the backing element.
#[derive(Debug)]
pub enum AttrChange<'a> {
    /// Nothing: the element carries the right string, or rightly none.
    Keep,
    /// The element is to carry this string.
    Assign(&'a str),
    /// The element is to carry the attribute no longer.
    Remove,
}

/// What a change stands for.
pub enum AttrChangeView {
    Keep,
    Assign(Seq<char>),
    Remove,
}

impl<'a> View for AttrChange<'a> {
    type V = AttrChangeView;

    open spec fn view(&self) -> AttrChangeView {
        match *self {
            AttrChange::Keep => AttrChangeView::Keep,
            AttrChange::Assign(s) => AttrChangeView::Assign(s@),
            AttrChange::Remove => AttrChangeView::Remove,
        }
    }
}

/// The change that leads from the string that the element carries to the one
/// that it is to carry.
pub open spec fn attr_change(
    curr: Option<Seq<char>>,
    ancestor: Option<Seq<char>>,
) -> AttrChangeView {
    match (curr, ancestor) {
        (Some(c), Some(a)) => if c == a {
            AttrChangeView::Keep
        } else {
            AttrChangeView::Assign(c)
        },
        (Some(c), None) => AttrChangeView::Assign(c),
        (None, Some(_)) => AttrChangeView::Remove,
        (None, None) => AttrChangeView::Keep,
    }
}

impl AttrListEntry {
    pub fn is_value_static(&self) -> (r: bool)
        ensures
            r == self@.is_static,
    {
        match self {
            AttrListEntry::True(a) => a.is_value_static(),
            AttrListEntry::Str(a) => a.is_value_static(),
            AttrListEntry::Dyn(a) => a.is_value_static(),
        }
    }

    pub fn name(&self) -> (r: &str)
        ensures
            r@ == self@.name,
    {
        match self {
            AttrListEntry::True(a) => a.name(),
            AttrListEntry::Str(a) => a.name(),
            AttrListEntry::Dyn(a) => a.name(),
        }
    }

    pub fn value(&self) -> (r: AttrRefValue<'_>)
        ensures
            r@ == self@.value,
    {
        match self {
            AttrListEntry::True(a) => a.value(),
            AttrListEntry::Str(a) => a.value(),
            AttrListEntry::Dyn(a) => a.value(),
        }
    }

    /// The string that the backing element carries for the attribute.
    pub fn effective(&self) -> (r: Option<&str>)
        ensures
            match r {
                Some(s) => self@.effective() == Some(s@),
                None => self@.effective() is None,
            },
    {
        match self.value() {
            AttrRefValue::True => Some(self.name()),
            AttrRefValue::Null => None,
            AttrRefValue::Str(s) => Some(s),
        }
    }

    /// What has to happen to the backing element so that it carries `self`
    /// where it carried `ancestor`.
    pub fn change_from<'a>(&'a self, ancestor: &AttrListEntry) -> (r: AttrChange<'a>)
        ensures
            r@ == attr_change(self@.effective(), ancestor@.effective()),
    {
        match (self.effective(), ancestor.effective()) {
            (Some(c), Some(a)) => {
                if str_eq(c, a) {
                    AttrChange::Keep
                } else {
                    AttrChange::Assign(c)
                }
            },
            (Some(c), None) => AttrChange::Assign(c),
            (None, Some(_)) => AttrChange::Remove,
            (None, None) => AttrChange::Keep,
        }
    }
}

/// The names of the attributes of a list, in the list's order.
pub open spec fn attr_names(attrs: Seq<AttrListEntry>) -> Seq<Seq<char>> {
    attrs.map_values(|a: AttrListEntry| a@.name)
}

/// Whether two attribute lists name the same attributes in the same order.
pub fn same_names(a: &Vec<AttrListEntry>, b: &Vec<AttrListEntry>) -> (r: bool)
    ensures
        r == (attr_names(a@) == attr_names(b@)),
{
    if a.len() != b.len() {
        assert(attr_names(a@).len() != attr_names(b@).len());
        return false;
    }
    let mut i: usize = 0;
    while i < a.len()
        invariant
            0 <= i <= a.len(),
            a.len() == b.len(),
            forall|j: int| 0 <= j < i ==> a@[j]@.name == b@[j]@.name,
        decreases a.len() - i,
    {
        if !str_eq(a[i].name(), b[i].name()) {
            assert(attr_names(a@)[i as int] != attr_names(b@)[i as int]);
            return false;
        }
        i += 1;
    }
    assert(attr_names(a@) =~= attr_names(b@));
    true
}

} // verus!
