//! Keys: the identity tokens of keyed children and of path segments.
use crate::text::{
    bytes_eq, decimal, hex, push_decimal, push_hex, push_signed_decimal, signed_decimal, str_eq,
};
use std::rc::Rc;
use vstd::bytes::{spec_u64_to_le_bytes, u64_to_le_bytes};
use vstd::prelude::*;
use vstd::std_specs::cmp::PartialEqSpecImpl;
use vstd::string::StringExecFns;

verus! {

/// What a key stands for, whichever way it is held in memory.
pub enum KeyView {
    U64(u64),
    I64(i64),
    Str(Seq<char>),
    Bytes(Seq<u8>),
}

/// An identity token: an unsigned or signed integer, a string or a byte blob.
///
/// A string key may borrow a static string or share an owned one; the two
/// denote the same key when their characters agree.
#[derive(Debug)]
pub enum Key {
    U64(u64),
    I64(i64),
    Str(&'static str),
    String(Rc<String>),
    Bytes(Rc<Vec<u8>>),
}

impl View for Key {
    type V = KeyView;

    open spec fn view(&self) -> KeyView {
        match *self {
            Key::U64(v) => KeyView::U64(v),
            Key::I64(v) => KeyView::I64(v),
            Key::Str(s) => KeyView::Str(s@),
            Key::String(s) => KeyView::Str(s@),
            Key::Bytes(b) => KeyView::Bytes(b@),
        }
    }
}

/// What `Rc::clone` returns: a second pointer to the same allocation, hence
/// to the same value.
#[verifier::external_body]
pub(crate) fn share<T>(rc: &Rc<T>) -> (r: Rc<T>)
    ensures
        r == *rc,
{
    Rc::clone(rc)
}

impl KeyView {
    /// The text of a key: a letter for its kind, then its value.
    pub open spec fn text(self) -> Seq<char> {
        match self {
            KeyView::U64(v) => seq!['u'] + decimal(v as nat),
            KeyView::I64(v) => seq!['i'] + signed_decimal(v as int),
            KeyView::Str(s) => seq!['s'] + s,
            KeyView::Bytes(b) => seq!['0', 'x'] + hex(b),
        }
    }

    /// The bytes that stand for a key when it is hashed: a byte for its kind,
    /// then its value.
    pub open spec fn hash_input(self) -> Seq<u8> {
        match self {
            KeyView::U64(v) => seq![1u8] + spec_u64_to_le_bytes(v),
            KeyView::I64(v) => if v < 0 {
                seq![2u8, 1u8] + spec_u64_to_le_bytes((-(v + 1)) as u64)
            } else {
                seq![2u8, 0u8] + spec_u64_to_le_bytes(v as u64)
            },
            KeyView::Str(s) => seq![3u8] + vstd::utf8::encode_utf8(s),
            KeyView::Bytes(b) => seq![4u8] + b,
        }
    }
}

fn append_bytes(out: &mut Vec<u8>, bytes: &[u8])
    ensures
        final(out)@ == old(out)@ + bytes@,
{
    let mut i: usize = 0;
    while i < bytes.len()
        invariant
            0 <= i <= bytes.len(),
            out@ == old(out)@ + bytes@.take(i as int),
        decreases bytes.len() - i,
    {
        out.push(bytes[i]);
        assert(bytes@.take(i as int + 1) =~= bytes@.take(i as int).push(bytes@[i as int]));
        i += 1;
    }
    assert(bytes@.take(i as int) =~= bytes@);
}

impl Key {
    /// Whether two keys denote the same value.
    pub fn same(&self, other: &Key) -> (r: bool)
        ensures
            r == (self@ == other@),
    {
        match (self, other) {
            (Key::U64(a), Key::U64(b)) => *a == *b,
            (Key::I64(a), Key::I64(b)) => *a == *b,
            (Key::String(a), Key::String(b)) => str_eq(a.as_str(), b.as_str()),
            (Key::String(a), Key::Str(b)) => str_eq(a.as_str(), b),
            (Key::Str(a), Key::String(b)) => str_eq(a, b.as_str()),
            (Key::Str(a), Key::Str(b)) => str_eq(a, b),
            (Key::Bytes(a), Key::Bytes(b)) => bytes_eq(a.as_slice(), b.as_slice()),
            _ => false,
        }
    }

    /// The text of the key: `u`, `i` or `s` before an integer or a string,
    /// `0x` before the hexadecimal digits of a byte blob.
    pub fn to_string(&self) -> (r: String)
        ensures
            r@ == self@.text(),
    {
        let mut out = String::new();
        match self {
            Key::U64(v) => {
                proof {
                    reveal_strlit("u");
                }
                out.append("u");
                push_decimal(&mut out, *v);
            },
            Key::I64(v) => {
                proof {
                    reveal_strlit("i");
                }
                out.append("i");
                push_signed_decimal(&mut out, *v);
            },
            Key::Str(s) => {
                proof {
                    reveal_strlit("s");
                }
                out.append("s");
                out.append(s);
            },
            Key::String(s) => {
                proof {
                    reveal_strlit("s");
                }
                out.append("s");
                out.append(s.as_str());
            },
            Key::Bytes(b) => {
                proof {
                    reveal_strlit("0x");
                }
                out.append("0x");
                push_hex(&mut out, b);
            },
        }
        assert(out@ =~= self@.text());
        out
    }

    /// The bytes that stand for the key when it is hashed. Keys that denote
    /// the same value give the same bytes.
    pub fn hash_input(&self) -> (r: Vec<u8>)
        ensures
            r@ == self@.hash_input(),
    {
        let mut out: Vec<u8> = Vec::new();
        match self {
            Key::U64(v) => {
                out.push(1);
                let b = u64_to_le_bytes(*v);
                append_bytes(&mut out, b.as_slice());
            },
            Key::I64(v) => {
                out.push(2);
                if *v < 0 {
                    out.push(1);
                    let b = u64_to_le_bytes((-(*v + 1)) as u64);
                    append_bytes(&mut out, b.as_slice());
                } else {
                    out.push(0);
                    let b = u64_to_le_bytes(*v as u64);
                    append_bytes(&mut out, b.as_slice());
                }
            },
            Key::Str(s) => {
                out.push(3);
                append_bytes(&mut out, s.as_bytes());
            },
            Key::String(s) => {
                out.push(3);
                append_bytes(&mut out, s.as_str().as_bytes());
            },
            Key::Bytes(b) => {
                out.push(4);
                append_bytes(&mut out, b.as_slice());
            },
        }
        assert(out@ =~= self@.hash_input());
        out
    }
}

impl Clone for Key {
    fn clone(&self) -> (r: Key)
        ensures
            r == *self,
    {
        match self {
            Key::U64(v) => Key::U64(*v),
            Key::I64(v) => Key::I64(*v),
            Key::Str(s) => Key::Str(s),
            Key::String(s) => Key::String(share(s)),
            Key::Bytes(b) => Key::Bytes(share(b)),
        }
    }
}

impl PartialEq for Key {
    fn eq(&self, other: &Key) -> (r: bool) {
        self.same(other)
    }
}

impl PartialEqSpecImpl for Key {
    open spec fn obeys_eq_spec() -> bool {
        true
    }

    open spec fn eq_spec(&self, other: &Key) -> bool {
        self@ == other@
    }
}

impl Eq for Key {

}

/// Hands `bytes` to `Hasher::write`, which feeds them into the hasher's state.
#[verifier::external_body]
pub(crate) fn feed<H: core::hash::Hasher>(state: &mut H, bytes: &[u8]) {
    state.write(bytes);
}

impl core::hash::Hash for Key {
    fn hash<H: core::hash::Hasher>(&self, state: &mut H) {
        let bytes = self.hash_input();
        feed(state, bytes.as_slice());
    }
}

} // verus!
