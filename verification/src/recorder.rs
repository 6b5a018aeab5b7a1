//! A driver that shows nothing and keeps what it is asked: for trying a tree
//! out, and for seeing what a change costs.
use crate::driver::{deref_opt, made, Asked, Call, Driver};
use crate::path::Path;
use vstd::prelude::*;

verus! {

/// One request as the recorder keeps it.
#[derive(Debug)]
pub enum Request {
    CreateElement { path: Path, tag: String, made: Option<u64> },
    CreateText { path: Path, text: String, made: Option<u64> },
    Insert { path: Path, parent: Option<u64>, child: u64, index: usize },
    Reorder { path: Path, parent: Option<u64>, child: u64, index: usize },
    Remove { path: Path, handle: u64 },
    SetText { path: Path, target: u64, text: String },
    SetAttribute { path: Path, target: u64, name: String, value: String },
    RemoveAttribute { path: Path, target: u64, name: String },
}

impl View for Request {
    type V = Call<u64>;

    open spec fn view(&self) -> Call<u64> {
        match *self {
            Request::CreateElement { path, tag, made } => Call::CreateElement {
                path: path@,
                tag: tag@,
                made,
            },
            Request::CreateText { path, text, made } => Call::CreateText {
                path: path@,
                text: text@,
                made,
            },
            Request::Insert { path, parent, child, index } => Call::Insert {
                path: path@,
                parent,
                child,
                index,
            },
            Request::Reorder { path, parent, child, index } => Call::Reorder {
                path: path@,
                parent,
                child,
                index,
            },
            Request::Remove { path, handle } => Call::Remove { path: path@, handle },
            Request::SetText { path, target, text } => Call::SetText {
                path: path@,
                target,
                text: text@,
            },
            Request::SetAttribute { path, target, name, value } => Call::SetAttribute {
                path: path@,
                target,
                name: name@,
                value: value@,
            },
            Request::RemoveAttribute { path, target, name } => Call::RemoveAttribute {
                path: path@,
                target,
                name: name@,
            },
        }
    }
}

/// What a sequence of kept requests stands for.
pub open spec fn requests_view(requests: Seq<Request>) -> Seq<Call<u64>> {
    requests.map_values(|r: Request| r@)
}

/// The answer of a recorder that refuses.
#[derive(Debug, Clone, Copy, PartialEq, Eq, Structural)]
pub struct Refused;

/// A driver whose handles are the numbers from one up, and which keeps every
/// request. It grants every request but the one that it was told to refuse,
/// and a request for a handle when the numbers have run out.
pub struct Recorder {
    pub made: u64,
    pub refuse_at: Option<usize>,
    pub log: Vec<Request>,
}

/// The copy of an optional handle.
fn copied(h: Option<&u64>) -> (r: Option<u64>)
    ensures
        r == deref_opt(h),
{
    match h {
        Some(h) => Some(*h),
        None => None,
    }
}

impl Recorder {
    /// A recorder that refuses nothing.
    pub fn new() -> (r: Recorder)
        ensures
            r.asked() == Seq::<Call<u64>>::empty(),
            r.made == 0,
            r.refuse_at is None,
    {
        let r = Recorder { made: 0, refuse_at: None, log: Vec::new() };
        assert(r.asked() =~= Seq::<Call<u64>>::empty());
        r
    }

    /// A recorder that refuses the request that comes after `granted`
    /// others.
    pub fn refusing_at(granted: usize) -> (r: Recorder)
        ensures
            r.asked() == Seq::<Call<u64>>::empty(),
            r.made == 0,
            r.refuse_at == Some(granted),
    {
        let r = Recorder { made: 0, refuse_at: Some(granted), log: Vec::new() };
        assert(r.asked() =~= Seq::<Call<u64>>::empty());
        r
    }

    /// Whether the next request is refused.
    pub open spec fn refuses_next(&self) -> bool {
        self.refuse_at == Some(self.log.len())
    }

    /// Whether the next request is refused.
    fn refuses(&self) -> (r: bool)
        ensures
            r == self.refuses_next(),
    {
        match self.refuse_at {
            Some(n) => n == self.log.len(),
            None => false,
        }
    }

    /// Keeps a request, and answers it.
    fn keep(&mut self, request: Request, refuse: bool) -> (r: Result<(), Refused>)
        ensures
            final(self).asked() == old(self).asked().push(request@),
            final(self).log@ == old(self).log@.push(request),
            final(self).made == old(self).made,
            final(self).refuse_at == old(self).refuse_at,
            r is Err == refuse,
    {
        self.log.push(request);
        assert(self.asked() =~= old(self).asked().push(request@));
        if refuse {
            Err(Refused)
        } else {
            Ok(())
        }
    }

    /// Keeps a request for a handle, and answers it: with the next number,
    /// unless it refuses.
    fn keep_made(&mut self, element: bool, path: &Path, content: &str) -> (r: Result<
        u64,
        Refused,
    >)
        ensures
            final(self).asked() == old(self).asked().push(
                if element {
                    Call::CreateElement { path: path@, tag: content@, made: made(r) }
                } else {
                    Call::CreateText { path: path@, text: content@, made: made(r) }
                },
            ),
            final(self).refuse_at == old(self).refuse_at,
            r is Err == (old(self).refuses_next() || old(self).made == u64::MAX),
            r matches Ok(h) ==> h == old(self).made + 1 && final(self).made == h,
    {
        let refuse = self.refuses() || self.made == u64::MAX;
        let made = if refuse {
            None
        } else {
            self.made = self.made + 1;
            Some(self.made)
        };
        let request = if element {
            Request::CreateElement { path: path.clone(), tag: content.to_owned(), made }
        } else {
            Request::CreateText { path: path.clone(), text: content.to_owned(), made }
        };
        let _ = self.keep(request, refuse);
        match made {
            Some(h) => Ok(h),
            None => Err(Refused),
        }
    }
}

impl Driver for Recorder {
    type Handle = u64;

    type Err = Refused;

    open spec fn asked(&self) -> Asked<u64> {
        requests_view(self.log@)
    }

    fn create_element(&mut self, path: &Path, tag: &str) -> (r: Result<u64, Refused>)
        ensures
            r is Err == (old(self).refuses_next() || old(self).made == u64::MAX),
            r matches Ok(h) ==> h == old(self).made + 1 && final(self).made == h,
    {
        self.keep_made(true, path, tag)
    }

    fn create_text(&mut self, path: &Path, text: &str) -> (r: Result<u64, Refused>)
        ensures
            r is Err == (old(self).refuses_next() || old(self).made == u64::MAX),
            r matches Ok(h) ==> h == old(self).made + 1 && final(self).made == h,
    {
        self.keep_made(false, path, text)
    }

    fn insert(&mut self, path: &Path, parent: Option<&u64>, child: &u64, index: usize) -> (r:
        Result<(), Refused>)
        ensures
            r is Err == old(self).refuses_next(),
            final(self).made == old(self).made,
    {
        let refuse = self.refuses();
        self.keep(
            Request::Insert { path: path.clone(), parent: copied(parent), child: *child, index },
            refuse,
        )
    }

    fn reorder(&mut self, path: &Path, parent: Option<&u64>, child: &u64, index: usize) -> (r:
        Result<(), Refused>)
        ensures
            r is Err == old(self).refuses_next(),
            final(self).made == old(self).made,
    {
        let refuse = self.refuses();
        self.keep(
            Request::Reorder { path: path.clone(), parent: copied(parent), child: *child, index },
            refuse,
        )
    }

    fn remove(&mut self, path: &Path, handle: u64) -> (r: Result<(), Refused>)
        ensures
            r is Err == old(self).refuses_next(),
            final(self).made == old(self).made,
    {
        let refuse = self.refuses();
        self.keep(Request::Remove { path: path.clone(), handle }, refuse)
    }

    fn set_text(&mut self, path: &Path, target: &u64, text: &str) -> (r: Result<(), Refused>)
        ensures
            r is Err == old(self).refuses_next(),
            final(self).made == old(self).made,
    {
        let refuse = self.refuses();
        self.keep(
            Request::SetText { path: path.clone(), target: *target, text: text.to_owned() },
            refuse,
        )
    }

    fn set_attribute(&mut self, path: &Path, target: &u64, name: &str, value: &str) -> (r: Result<
        (),
        Refused,
    >)
        ensures
            r is Err == old(self).refuses_next(),
            final(self).made == old(self).made,
    {
        let refuse = self.refuses();
        self.keep(
            Request::SetAttribute {
                path: path.clone(),
                target: *target,
                name: name.to_owned(),
                value: value.to_owned(),
            },
            refuse,
        )
    }

    fn remove_attribute(&mut self, path: &Path, target: &u64, name: &str) -> (r: Result<
        (),
        Refused,
    >)
        ensures
            r is Err == old(self).refuses_next(),
            final(self).made == old(self).made,
    {
        let refuse = self.refuses();
        self.keep(
            Request::RemoveAttribute {
                path: path.clone(),
                target: *target,
                name: name.to_owned(),
            },
            refuse,
        )
    }
}

} // verus!
