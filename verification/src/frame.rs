//! Path frames: a path that borrows its parent for the time of a traversal,
//! and turns into a persistent path when it has to outlive it.
use crate::key::Key;
use crate::path::{Ident, IdentView, Path};
use vstd::prelude::*;

verus! {

/// A borrowed path: a persistent one, or a frame of a traversal.
#[derive(Clone, Copy)]
pub enum PathRef<'a> {
    Path(&'a Path),
    PathFrame(&'a PathFrame<'a>),
}

/// One step of a traversal: the segment taken, and the path that it was
/// taken from.
pub struct PathFrame<'a> {
    parent: Option<PathRef<'a>>,
    ident: Ident,
}

/// The segments of a borrowed path, from the root to the leaf.
pub closed spec fn ref_view(path: PathRef<'_>) -> Seq<IdentView>
    decreases path, 0nat,
{
    match path {
        PathRef::Path(p) => p@,
        PathRef::PathFrame(f) => frame_view(*f),
    }
}

/// The segments of a frame, from the root to the leaf.
pub closed spec fn frame_view(frame: PathFrame<'_>) -> Seq<IdentView>
    decreases frame, 1nat,
{
    match frame.parent {
        None => seq![frame.ident@],
        Some(parent) => ref_view(parent).push(frame.ident@),
    }
}

impl<'a> PathRef<'a> {
    /// The parent in the model.
    pub closed spec fn spec_parent(self) -> Option<PathRef<'a>> {
        match self {
            PathRef::Path(p) => match p.spec_parent() {
                Some(q) => Some(PathRef::Path(&q)),
                None => None,
            },
            PathRef::PathFrame(f) => f.parent,
        }
    }

    /// How a borrowed path is made of its parent and its last segment.
    pub proof fn lemma_view(self)
        ensures
            ref_view(self).len() >= 1,
            match self.spec_parent() {
                None => ref_view(self).len() == 1,
                Some(parent) => ref_view(self).drop_last() == ref_view(parent),
            },
        decreases self,
    {
        match self {
            PathRef::Path(p) => {
                p.lemma_view();
            },
            PathRef::PathFrame(f) => {
                match f.parent {
                    None => {},
                    Some(parent) => {
                        parent.lemma_view();
                        assert(ref_view(parent).push(f.ident@).drop_last() =~= ref_view(parent));
                    },
                }
            },
        }
    }

    /// The path without its last segment; `None` for a path of one segment.
    pub fn parent(&self) -> (r: Option<PathRef<'a>>)
        ensures
            match r {
                None => ref_view(*self).len() == 1,
                Some(p) => ref_view(p) == ref_view(*self).drop_last(),
            },
            r == self.spec_parent(),
    {
        proof {
            self.lemma_view();
        }
        match self {
            PathRef::Path(p) => match p.parent() {
                Some(q) => Some(PathRef::Path(q)),
                None => None,
            },
            PathRef::PathFrame(f) => f.parent(),
        }
    }

    /// The last segment.
    pub fn ident(&self) -> (r: &'a Ident)
        ensures
            r@ == ref_view(*self).last(),
    {
        match self {
            PathRef::Path(p) => p.ident(),
            PathRef::PathFrame(f) => f.ident(),
        }
    }

    /// An iterator over the path and its ancestors, from the leaf to the root.
    pub fn iter(&self) -> (r: PathRefIter<'a>)
        ensures
            r.remaining() == Some(*self),
    {
        PathRefIter(Some(*self))
    }

    /// The text of the path: its segments from the leaf to the root, with a
    /// dot between two of them.
    pub fn to_string(&self) -> (r: String)
        ensures
            r@ == crate::path::path_text(ref_view(*self)),
    {
        self.to_path().to_string()
    }

    /// The persistent path of the same segments.
    pub fn to_path(&self) -> (r: Path)
        ensures
            r@ == ref_view(*self),
        decreases *self, 0nat,
    {
        match self {
            PathRef::Path(p) => (*p).clone(),
            PathRef::PathFrame(f) => f.path(),
        }
    }
}

impl<'a> PathFrame<'a> {
    /// The frame of the root: its segment is the empty string key.
    pub fn new() -> (r: PathFrame<'a>)
        ensures
            frame_view(r) == seq![Ident::Key(Key::Str(""))@],
    {
        PathFrame { parent: None, ident: Ident::Key(Key::Str("")) }
    }

    /// The frame of the child with the key `key`.
    pub fn add_key(&'a self, key: Key) -> (r: PathFrame<'a>)
        ensures
            frame_view(r) == frame_view(*self).push(Ident::Key(key)@),
    {
        PathFrame { parent: Some(PathRef::PathFrame(self)), ident: Ident::Key(key) }
    }

    /// The frame of the child at position `index` among the children without
    /// a key.
    pub fn add_index(&'a self, index: usize) -> (r: PathFrame<'a>)
        ensures
            frame_view(r) == frame_view(*self).push(IdentView::Index(index)),
    {
        PathFrame { parent: Some(PathRef::PathFrame(self)), ident: Ident::Index(index) }
    }

    /// The frame of the child with the identity `ident`.
    pub fn add_ident(&'a self, ident: Ident) -> (r: PathFrame<'a>)
        ensures
            frame_view(r) == frame_view(*self).push(ident@),
    {
        PathFrame { parent: Some(PathRef::PathFrame(self)), ident }
    }

    /// The path that the frame was taken from; `None` for the root's frame.
    pub fn parent(&'a self) -> (r: Option<PathRef<'a>>)
        ensures
            match r {
                None => frame_view(*self).len() == 1,
                Some(p) => ref_view(p) == frame_view(*self).drop_last(),
            },
            r == PathRef::PathFrame(self).spec_parent(),
    {
        proof {
            PathRef::PathFrame(self).lemma_view();
        }
        self.parent
    }

    /// The last segment.
    pub fn ident(&self) -> (r: &Ident)
        ensures
            r@ == frame_view(*self).last(),
    {
        &self.ident
    }

    /// An iterator over the frame and its ancestors, from the leaf to the root.
    pub fn iter(&'a self) -> (r: PathRefIter<'a>)
        ensures
            r.remaining() == Some(PathRef::PathFrame(self)),
    {
        PathRefIter(Some(PathRef::PathFrame(self)))
    }

    /// The persistent path of the same segments, which may be kept when the
    /// traversal is over.
    pub fn path(&self) -> (r: Path)
        ensures
            r@ == frame_view(*self),
        decreases *self, 1nat,
    {
        let parent = match &self.parent {
            None => None,
            Some(p) => Some(p.to_path()),
        };
        Path::new(parent, self.ident.clone())
    }

    /// The text of the frame's path: its segments from the leaf to the root,
    /// with a dot between two of them.
    pub fn to_string(&self) -> (r: String)
        ensures
            r@ == crate::path::path_text(frame_view(*self)),
    {
        self.path().to_string()
    }
}

/// Walks a borrowed path and its ancestors, from the leaf to the root.
pub struct PathRefIter<'a>(Option<PathRef<'a>>);

impl<'a> PathRefIter<'a> {
    /// The path that `next` hands out next, in the model.
    pub closed spec fn remaining(&self) -> Option<PathRef<'a>> {
        self.0
    }

    /// The next path on the way to the root, `None` after the root.
    pub fn next(&mut self) -> (r: Option<PathRef<'a>>)
        ensures
            r == old(self).remaining(),
            match r {
                None => final(self).remaining() is None,
                Some(p) => final(self).remaining() == p.spec_parent(),
            },
    {
        let current = self.0;
        match current {
            None => None,
            Some(p) => {
                self.0 = p.parent();
                Some(p)
            },
        }
    }
}

} // verus!
