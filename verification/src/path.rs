//! Paths: the address of a tree position, as the segments taken from the root.
use crate::key::{feed, share, Key, KeyView};
use crate::text::{decimal, push_decimal};
use std::rc::Rc;
use vstd::bytes::{spec_u64_to_le_bytes, u64_to_le_bytes};
use vstd::prelude::*;
use vstd::std_specs::cmp::PartialEqSpecImpl;
use vstd::string::StringExecFns;

verus! {

/// What a path segment stands for.
pub enum IdentView {
    Key(KeyView),
    Index(usize),
}

impl IdentView {
    /// The bytes that stand for a segment when it is hashed: those of its
    /// key, or a zero byte and its index.
    pub open spec fn hash_input(self) -> Seq<u8> {
        match self {
            IdentView::Key(k) => k.hash_input(),
            IdentView::Index(i) => seq![0u8] + spec_u64_to_le_bytes(i as u64),
        }
    }

    /// The text of a segment: the text of its key, or its bare index.
    pub open spec fn text(self) -> Seq<char> {
        match self {
            IdentView::Key(k) => k.text(),
            IdentView::Index(i) => decimal(i as nat),
        }
    }
}

/// One segment of a path: the key of a keyed child, or the position of a child
/// without a key among its siblings without a key.
#[derive(Debug)]
pub enum Ident {
    Key(Key),
    /// Keyed siblings are not counted into it.
    Index(usize),
}

impl View for Ident {
    type V = IdentView;

    open spec fn view(&self) -> IdentView {
        match *self {
            Ident::Key(k) => IdentView::Key(k@),
            Ident::Index(i) => IdentView::Index(i),
        }
    }
}

impl Ident {
    /// Whether two segments denote the same child.
    pub fn same(&self, other: &Ident) -> (r: bool)
        ensures
            r == (self@ == other@),
    {
        match (self, other) {
            (Ident::Key(a), Ident::Key(b)) => a.same(b),
            (Ident::Index(a), Ident::Index(b)) => *a == *b,
            _ => false,
        }
    }

    /// The bytes that stand for the segment when it is hashed. Segments that
    /// denote the same child give the same bytes.
    pub fn hash_input(&self) -> (r: Vec<u8>)
        ensures
            r@ == self@.hash_input(),
    {
        match self {
            Ident::Key(k) => k.hash_input(),
            Ident::Index(i) => {
                let mut out: Vec<u8> = Vec::new();
                out.push(0);
                let mut rest = u64_to_le_bytes(*i as u64);
                out.append(&mut rest);
                assert(out@ =~= self@.hash_input());
                out
            },
        }
    }

    /// The text of the segment.
    pub fn to_string(&self) -> (r: String)
        ensures
            r@ == self@.text(),
    {
        match self {
            Ident::Key(k) => k.to_string(),
            Ident::Index(i) => {
                let mut out = String::new();
                push_decimal(&mut out, *i as u64);
                assert(out@ =~= decimal(*i as nat));
                out
            },
        }
    }
}

impl Clone for Ident {
    fn clone(&self) -> (r: Ident)
        ensures
            r == *self,
    {
        match self {
            Ident::Key(k) => Ident::Key(k.clone()),
            Ident::Index(i) => Ident::Index(*i),
        }
    }
}

impl PartialEq for Ident {
    fn eq(&self, other: &Ident) -> (r: bool) {
        self.same(other)
    }
}

impl PartialEqSpecImpl for Ident {
    open spec fn obeys_eq_spec() -> bool {
        true
    }

    open spec fn eq_spec(&self, other: &Ident) -> bool {
        self@ == other@
    }
}

impl Eq for Ident {

}

impl core::hash::Hash for Ident {
    fn hash<H: core::hash::Hasher>(&self, state: &mut H) {
        let bytes = self.hash_input();
        feed(state, bytes.as_slice());
    }
}

/// What a sequence of segments stands for.
pub open spec fn idents_view(idents: Seq<Ident>) -> Seq<IdentView> {
    idents.map_values(|i: Ident| i@)
}

/// The text of a path: the texts of its segments from the leaf to the root,
/// with a dot between two of them.
pub open spec fn path_text(segments: Seq<IdentView>) -> Seq<char>
    decreases segments.len(),
{
    if segments.len() == 0 {
        Seq::empty()
    } else if segments.len() == 1 {
        segments[0].text()
    } else {
        segments.last().text() + seq!['.'] + path_text(segments.drop_last())
    }
}

#[derive(Debug)]
struct PathIntern {
    parent: Option<Path>,
    ident: Ident,
}

/// A persistent path: each path shares its parent, so that extending one costs
/// one allocation and a path may be kept after the traversal that built it.
#[derive(Debug)]
pub struct Path(Rc<PathIntern>);

impl View for Path {
    type V = Seq<IdentView>;

    /// The segments from the root to the leaf.
    closed spec fn view(&self) -> Seq<IdentView>
        decreases self,
    {
        match self.0.parent {
            None => seq![self.0.ident@],
            Some(parent) => parent@.push(self.0.ident@),
        }
    }
}

impl Path {
    /// The parent in the model: `None` for a path of one segment.
    pub closed spec fn spec_parent(&self) -> Option<Path> {
        self.0.parent
    }

    /// The last segment in the model.
    pub closed spec fn spec_ident(&self) -> Ident {
        self.0.ident
    }

    /// How a path is made of its parent and its last segment.
    pub proof fn lemma_view(&self)
        ensures
            self@.len() >= 1,
            self@.last() == self.spec_ident()@,
            match self.spec_parent() {
                None => self@ == seq![self.spec_ident()@],
                Some(parent) => self@ == parent@.push(self.spec_ident()@),
            },
            self.spec_parent() matches Some(parent) ==> self@.drop_last() == parent@,
        decreases self,
    {
        match self.0.parent {
            None => {},
            Some(parent) => {
                parent.lemma_view();
                assert(parent@.push(self.0.ident@).drop_last() =~= parent@);
            },
        }
    }

    /// The path that extends `parent`, or starts at the root, with `ident`.
    pub fn new(parent: Option<Path>, ident: Ident) -> (r: Path)
        ensures
            r.spec_parent() == parent,
            r.spec_ident() == ident,
            r@ == match parent {
                None => seq![ident@],
                Some(p) => p@.push(ident@),
            },
    {
        Path(Rc::new(PathIntern { parent, ident }))
    }

    /// The path one segment longer. `self` stays as it was.
    pub fn push(&self, ident: Ident) -> (r: Path)
        ensures
            r@ == self@.push(ident@),
            r.spec_parent() == Some(*self),
            r.spec_ident() == ident,
    {
        Path::new(Some(self.clone()), ident)
    }

    /// The sibling path: the same parent, with `ident` as the last segment.
    pub fn replace(&self, ident: Ident) -> (r: Path)
        ensures
            r@ == self@.drop_last().push(ident@),
            r.spec_parent() == self.spec_parent(),
            r.spec_ident() == ident,
    {
        proof {
            self.lemma_view();
        }
        let parent = match &self.0.parent {
            None => None,
            Some(p) => Some(p.clone()),
        };
        let r = Path::new(parent, ident);
        assert(r@ =~= self@.drop_last().push(ident@));
        r
    }

    /// The last segment.
    pub fn get(&self) -> (r: &Ident)
        ensures
            *r == self.spec_ident(),
            r@ == self@.last(),
    {
        proof {
            self.lemma_view();
        }
        &self.0.ident
    }

    /// The last segment.
    pub fn ident(&self) -> (r: &Ident)
        ensures
            *r == self.spec_ident(),
            r@ == self@.last(),
    {
        self.get()
    }

    /// The path without its last segment; `None` for a path of one segment.
    pub fn parent(&self) -> (r: Option<&Path>)
        ensures
            match r {
                None => self.spec_parent() is None && self@.len() == 1,
                Some(p) => self.spec_parent() == Some(*p) && p@ == self@.drop_last(),
            },
    {
        proof {
            self.lemma_view();
        }
        self.0.parent.as_ref()
    }

    /// The number of segments.
    pub fn len(&self) -> (r: usize)
        requires
            self@.len() <= usize::MAX,
        ensures
            r == self@.len(),
        decreases self,
    {
        proof {
            self.lemma_view();
        }
        match &self.0.parent {
            None => 1,
            Some(p) => p.len() + 1,
        }
    }

    /// Whether two paths hold the same segments, however they were built.
    pub fn same(&self, other: &Path) -> (r: bool)
        ensures
            r == (self@ == other@),
        decreases self,
    {
        proof {
            self.lemma_view();
            other.lemma_view();
        }
        if !self.0.ident.same(&other.0.ident) {
            return false;
        }
        match (&self.0.parent, &other.0.parent) {
            (None, None) => true,
            (Some(a), Some(b)) => {
                let r = a.same(b);
                proof {
                    if r {
                        assert(self@ =~= other@);
                    } else {
                        assert(self@.drop_last() == a@);
                        assert(other@.drop_last() == b@);
                    }
                }
                r
            },
            (Some(a), None) => {
                proof {
                    a.lemma_view();
                }
                false
            },
            (None, Some(b)) => {
                proof {
                    b.lemma_view();
                }
                false
            },
        }
    }

    /// An iterator over the path and its ancestors, from the leaf to the root.
    pub fn iter<'a>(&'a self) -> (r: PathIter<'a>)
        ensures
            r.remaining() == Some(*self),
    {
        PathIter(Some(self))
    }

    /// The segments from the leaf to the root.
    pub fn idents(&self) -> (r: Vec<Ident>)
        ensures
            idents_view(r@) == self@.reverse(),
    {
        let mut out: Vec<Ident> = Vec::new();
        let mut it = self.iter();
        let ghost mut done: Seq<IdentView> = Seq::empty();
        proof {
            self.lemma_view();
            assert(self@ =~= self@ + done.reverse());
        }
        loop
            invariant
                idents_view(out@) == done,
                match it.remaining() {
                    None => self@ == done.reverse(),
                    Some(p) => self@ == p@ + done.reverse(),
                },
            ensures
                idents_view(out@) == self@.reverse(),
            decreases it.remaining(),
        {
            let ghost before = it.remaining();
            match it.next() {
                None => {
                    assert(done.reverse().reverse() =~= done);
                    break ;
                },
                Some(p) => {
                    proof {
                        p.lemma_view();
                        let next = done.push(p.spec_ident()@);
                        assert(next.reverse() =~= seq![p.spec_ident()@] + done.reverse());
                        match p.spec_parent() {
                            None => {
                                assert(self@ =~= next.reverse());
                            },
                            Some(q) => {
                                assert(self@ =~= q@ + next.reverse());
                            },
                        }
                        done = next;
                    }
                    out.push(p.ident().clone());
                    assert(idents_view(out@) =~= done);
                },
            }
        }
        out
    }

    /// The text of the path: its segments from the leaf to the root, with a
    /// dot between two of them.
    pub fn to_string(&self) -> (r: String)
        ensures
            r@ == path_text(self@),
        decreases self,
    {
        proof {
            self.lemma_view();
        }
        let mut out = self.0.ident.to_string();
        match &self.0.parent {
            None => {},
            Some(p) => {
                proof {
                    reveal_strlit(".");
                    p.lemma_view();
                }
                out.append(".");
                let rest = p.to_string();
                out.append(rest.as_str());
                assert(out@ =~= path_text(self@));
            },
        }
        out
    }

    /// The path of the given segments, from the root to the leaf; `None` where
    /// there are none.
    pub fn from_idents(idents: Vec<Ident>) -> (r: Option<Path>)
        ensures
            match r {
                None => idents.len() == 0,
                Some(p) => idents.len() > 0 && p@ == idents_view(idents@),
            },
    {
        let mut parent: Option<Path> = None;
        let mut i: usize = 0;
        while i < idents.len()
            invariant
                0 <= i <= idents.len(),
                match parent {
                    None => i == 0,
                    Some(p) => i > 0 && p@ == idents_view(idents@).take(i as int),
                },
            decreases idents.len() - i,
        {
            let next = Path::new(parent, idents[i].clone());
            assert(next@ =~= idents_view(idents@).take(i as int + 1));
            parent = Some(next);
            i += 1;
        }
        assert(idents_view(idents@).take(i as int) =~= idents_view(idents@));
        parent
    }
}

impl Clone for Path {
    fn clone(&self) -> (r: Path)
        ensures
            r == *self,
    {
        Path(share(&self.0))
    }
}

impl core::hash::Hash for Path {
    fn hash<H: core::hash::Hasher>(&self, state: &mut H)
        decreases self,
    {
        self.0.ident.hash(state);
        match &self.0.parent {
            None => {},
            Some(p) => p.hash(state),
        }
    }
}

impl PartialEq for Path {
    fn eq(&self, other: &Path) -> (r: bool) {
        self.same(other)
    }
}

impl PartialEqSpecImpl for Path {
    open spec fn obeys_eq_spec() -> bool {
        true
    }

    open spec fn eq_spec(&self, other: &Path) -> bool {
        self@ == other@
    }
}

impl Eq for Path {

}

/// Walks a path and its ancestors, from the leaf to the root.
pub struct PathIter<'a>(Option<&'a Path>);

impl<'a> PathIter<'a> {
    /// The path that `next` hands out next, in the model.
    pub closed spec fn remaining(&self) -> Option<Path> {
        match self.0 {
            None => None,
            Some(p) => Some(*p),
        }
    }

    /// The next path on the way to the root, `None` after the root.
    pub fn next(&mut self) -> (r: Option<&'a Path>)
        ensures
            match r {
                None => old(self).remaining() is None && final(self).remaining() is None,
                Some(p) => old(self).remaining() == Some(*p) && final(self).remaining()
                    == p.spec_parent(),
            },
            old(self).remaining() matches Some(p) ==> (final(self).remaining() matches Some(q)
                ==> decreases_to!(p => q)),
    {
        match self.0 {
            None => None,
            Some(p) => {
                self.0 = p.0.parent.as_ref();
                Some(p)
            },
        }
    }
}

} // verus!
