//! The driver: what the engine asks of the platform, and the record of what
//! the driver was asked.
use crate::node::{CompNode, Node};
use crate::path::{IdentView, Path};
use vstd::prelude::*;

verus! {

/// One request made of the driver, with the path of the node that it is
/// about.
pub enum Call<H> {
    /// `made` is the handle that came back, `None` where the request failed.
    CreateElement { path: Seq<IdentView>, tag: Seq<char>, made: Option<H> },
    /// `made` is the handle that came back, `None` where the request failed.
    CreateText { path: Seq<IdentView>, text: Seq<char>, made: Option<H> },
    Insert { path: Seq<IdentView>, parent: Option<H>, child: H, index: usize },
    Reorder { path: Seq<IdentView>, parent: Option<H>, child: H, index: usize },
    Remove { path: Seq<IdentView>, handle: H },
    SetText { path: Seq<IdentView>, target: H, text: Seq<char> },
    SetAttribute { path: Seq<IdentView>, target: H, name: Seq<char>, value: Seq<char> },
    RemoveAttribute { path: Seq<IdentView>, target: H, name: Seq<char> },
}

impl<H> Call<H> {
    /// The path of the node that the request is about.
    pub open spec fn path(self) -> Seq<IdentView> {
        match self {
            Call::CreateElement { path, .. } => path,
            Call::CreateText { path, .. } => path,
            Call::Insert { path, .. } => path,
            Call::Reorder { path, .. } => path,
            Call::Remove { path, .. } => path,
            Call::SetText { path, .. } => path,
            Call::SetAttribute { path, .. } => path,
            Call::RemoveAttribute { path, .. } => path,
        }
    }
}

/// The record of a driver: the requests that it has been asked, oldest
/// first.
pub type Asked<H> = Seq<Call<H>>;

/// The capabilities of a platform that can show a tree.
///
/// A handle stands for one backing resource: an element or a piece of text.
/// The engine keeps each handle in the store of the node that it backs, hands
/// it back with every later request about that node, and gives it up with
/// `remove`. It never looks inside one.
///
/// A driver keeps count of what it is asked: every request, granted or
/// refused, is the next entry of `asked`. A driver that is verified proves
/// this. A driver that is written without proofs gives `asked` a body that
/// is never run, and the engine believes of it that it was asked what it
/// was asked.
pub trait Driver {
    /// A backing resource.
    type Handle;

    /// Why a request failed.
    type Err;

    /// The requests that the driver has been asked so far, oldest first.
    spec fn asked(&self) -> Asked<Self::Handle>;

    /// Makes an element with this tag name, attached nowhere yet.
    fn create_element(&mut self, path: &Path, tag: &str) -> (r: Result<Self::Handle, Self::Err>)
        ensures
            final(self).asked() == old(self).asked().push(
                Call::CreateElement {
                    path: path@,
                    tag: tag@,
                    made: made(r),
                },
            ),
    ;

    /// Makes a piece of text with this content, attached nowhere yet.
    fn create_text(&mut self, path: &Path, text: &str) -> (r: Result<Self::Handle, Self::Err>)
        ensures
            final(self).asked() == old(self).asked().push(
                Call::CreateText {
                    path: path@,
                    text: text@,
                    made: made(r),
                },
            ),
    ;

    /// Attaches `child` as the child at `index` of `parent`, or of the root
    /// where `parent` is `None`.
    fn insert(
        &mut self,
        path: &Path,
        parent: Option<&Self::Handle>,
        child: &Self::Handle,
        index: usize,
    ) -> (r: Result<(), Self::Err>)
        ensures
            final(self).asked() == old(self).asked().push(
                Call::Insert {
                    path: path@,
                    parent: deref_opt(parent),
                    child: *child,
                    index,
                },
            ),
    ;

    /// Moves the attached `child` to position `index` among its siblings.
    fn reorder(
        &mut self,
        path: &Path,
        parent: Option<&Self::Handle>,
        child: &Self::Handle,
        index: usize,
    ) -> (r: Result<(), Self::Err>)
        ensures
            final(self).asked() == old(self).asked().push(
                Call::Reorder {
                    path: path@,
                    parent: deref_opt(parent),
                    child: *child,
                    index,
                },
            ),
    ;

    /// Detaches the resource and gives it up.
    fn remove(&mut self, path: &Path, handle: Self::Handle) -> (r: Result<(), Self::Err>)
        ensures
            final(self).asked() == old(self).asked().push(
                Call::Remove {
                    path: path@,
                    handle,
                },
            ),
    ;

    /// Replaces the content of a piece of text.
    fn set_text(&mut self, path: &Path, target: &Self::Handle, text: &str) -> (r: Result<
        (),
        Self::Err,
    >)
        ensures
            final(self).asked() == old(self).asked().push(
                Call::SetText {
                    path: path@,
                    target: *target,
                    text: text@,
                },
            ),
    ;

    /// Sets the attribute `name` of an element to `value`.
    fn set_attribute(
        &mut self,
        path: &Path,
        target: &Self::Handle,
        name: &str,
        value: &str,
    ) -> (r: Result<(), Self::Err>)
        ensures
            final(self).asked() == old(self).asked().push(
                Call::SetAttribute {
                    path: path@,
                    target: *target,
                    name: name@,
                    value: value@,
                },
            ),
    ;

    /// Takes the attribute `name` off an element.
    fn remove_attribute(&mut self, path: &Path, target: &Self::Handle, name: &str) -> (r: Result<
        (),
        Self::Err,
    >)
        ensures
            final(self).asked() == old(self).asked().push(
                Call::RemoveAttribute {
                    path: path@,
                    target: *target,
                    name: name@,
                },
            ),
    ;
}

/// Why a traversal stopped.
#[derive(Debug)]
pub enum Error<E> {
    /// The driver refused a request.
    Driver(E),
    /// A component rendered a tree that cannot be mounted.
    Render(RenderError),
}

/// What is wrong with what a component rendered.
#[derive(Debug, PartialEq, Eq, Structural, Clone, Copy)]
pub enum RenderError {
    /// The rendered tree is not a new one, or two of its siblings share an
    /// identity.
    Malformed,
    /// Components render components deeper than the limit allows.
    TooDeep,
}

/// How deep components may render components unless the limit is changed:
/// as deep as can be counted.
pub const DEFAULT_RENDER_DEPTH: usize = usize::MAX;

/// The `Some` of a result, for the record of a request that makes a handle.
pub open spec fn made<H, E>(r: Result<H, E>) -> Option<H> {
    match r {
        Ok(h) => Some(h),
        Err(_) => None,
    }
}

/// The answer of the driver where it refused, for the record of refusals.
pub open spec fn refusal<T, E>(r: Result<T, Error<E>>) -> Option<E> {
    match r {
        Err(Error::Driver(e)) => Some(e),
        _ => None,
    }
}

/// The handle behind an optional reference.
pub open spec fn deref_opt<H>(h: Option<&H>) -> Option<H> {
    match h {
        Some(h) => Some(*h),
        None => None,
    }
}

/// A driver together with what the engine keeps about it: a counter for
/// identifiers, the limit on the depth of rendering, the count of the
/// requests that the driver refused, and the faults of rendering met.
pub struct DriverCtx<D: Driver> {
    id: u64,
    render_depth: usize,
    driver: D,
    refusals: Ghost<nat>,
    last_refused: Ghost<bool>,
    refused_with: Ghost<Option<D::Err>>,
    faults: Ghost<Seq<RenderError>>,
}

impl<D: Driver> DriverCtx<D> {
    /// The requests that the driver has been asked, oldest first.
    pub closed spec fn calls(&self) -> Seq<Call<D::Handle>> {
        self.driver.asked()
    }

    /// The record is the driver's own.
    pub proof fn lemma_calls(&self)
        ensures
            self.calls() == self.spec_driver().asked(),
    {
    }

    /// How many of the requests the driver has refused.
    pub closed spec fn refusals(&self) -> nat {
        self.refusals@
    }

    /// Whether the driver refused the request made last.
    pub closed spec fn last_refused(&self) -> bool {
        self.last_refused@
    }

    /// The answer of the driver to the request that it refused last.
    pub closed spec fn refused_with(&self) -> Option<D::Err> {
        self.refused_with@
    }

    /// The faults of rendering met so far, oldest first. `TooDeep` is noted
    /// where a component that has to render is reached with no depth left,
    /// `Malformed` where a rendering is not a new tree or not a well-formed
    /// one, and nowhere else.
    pub closed spec fn faults(&self) -> Seq<RenderError> {
        self.faults@
    }

    /// The identifier handed out last, 0 before the first.
    pub closed spec fn last_id(&self) -> u64 {
        self.id
    }

    /// How deep components may render components.
    pub closed spec fn spec_render_depth(&self) -> usize {
        self.render_depth
    }

    /// The driver.
    pub closed spec fn spec_driver(&self) -> D {
        self.driver
    }

    /// Whether `self` is `before` with `more` requests made after those of
    /// `before`, none of which the driver refused, and nothing else changed
    /// but the driver.
    pub open spec fn extends(&self, before: &Self, more: Seq<Call<D::Handle>>) -> bool {
        &&& self.calls() == before.calls() + more
        &&& self.refusals() == before.refusals()
        &&& self.refused_with() == before.refused_with()
        &&& self.faults() == before.faults()
        &&& if more.len() > 0 {
            !self.last_refused()
        } else {
            self.last_refused() == before.last_refused()
        }
        &&& self.last_id() == before.last_id()
        &&& self.spec_render_depth() == before.spec_render_depth()
    }

    /// Whether `self` is `before` after some requests, which ended with the
    /// first refusal or the first fault of rendering, if there was one.
    pub open spec fn follows(&self, before: &Self) -> bool {
        &&& before.calls().is_prefix_of(self.calls())
        &&& self.unfailed(before) || self.refused(before) || self.faulted(
            before,
            self.faults().last(),
        )
        &&& self.last_id() == before.last_id()
        &&& self.spec_render_depth() == before.spec_render_depth()
    }

    /// Whether nothing has been refused and no fault of rendering met since
    /// `before`.
    pub open spec fn unfailed(&self, before: &Self) -> bool {
        &&& self.refusals() == before.refusals()
        &&& self.refused_with() == before.refused_with()
        &&& self.faults() == before.faults()
    }

    /// Whether the driver has refused one request since `before`, the last
    /// one made, and no fault of rendering was met.
    pub open spec fn refused(&self, before: &Self) -> bool {
        &&& self.refusals() == before.refusals() + 1
        &&& self.last_refused()
        &&& self.refused_with() is Some
        &&& self.calls().len() > before.calls().len()
        &&& self.faults() == before.faults()
    }

    /// Whether one fault of rendering, `fault`, was met since `before`, and
    /// the driver has refused nothing.
    pub open spec fn faulted(&self, before: &Self, fault: RenderError) -> bool {
        &&& self.faults() == before.faults().push(fault)
        &&& self.faults().len() == before.faults().len() + 1
        &&& self.refusals() == before.refusals()
        &&& self.refused_with() == before.refused_with()
    }

    /// Requests made one after the other add up.
    pub proof fn lemma_extends(
        &self,
        mid: &Self,
        before: &Self,
        first: Seq<Call<D::Handle>>,
        second: Seq<Call<D::Handle>>,
    )
        requires
            mid.extends(before, first),
            self.extends(mid, second),
        ensures
            self.extends(before, first + second),
            self.follows(before),
            mid.follows(before),
    {
        assert((before.calls() + first) + second =~= before.calls() + (first + second));
    }

    /// One more step after requests that were all granted: the step's
    /// requests add to them where it was granted too, and a refusal in the
    /// step is the one refusal since `before`.
    pub proof fn lemma_step(
        &self,
        mid: &Self,
        before: &Self,
        first: Seq<Call<D::Handle>>,
        second: Seq<Call<D::Handle>>,
        granted: bool,
    )
        requires
            mid.extends(before, first),
            self.follows(mid),
            granted ==> self.extends(mid, second),
        ensures
            self.follows(before),
            self.refused(mid) == self.refused(before),
            forall|fault: RenderError| self.faulted(mid, fault) == self.faulted(before, fault),
            self.unfailed(mid) == self.unfailed(before),
            granted ==> self.extends(before, first + second),
    {
        assert((before.calls() + first) + second =~= before.calls() + (first + second));
    }

    /// Whatever follows what follows `before` without a refusal follows
    /// `before`.
    pub proof fn lemma_follows(&self, mid: &Self, before: &Self)
        requires
            mid.follows(before),
            mid.unfailed(before),
            self.follows(mid),
        ensures
            self.follows(before),
            self.refused(mid) == self.refused(before),
            forall|fault: RenderError| self.faulted(mid, fault) == self.faulted(before, fault),
            self.unfailed(mid) == self.unfailed(before),
    {
    }

    /// What extends `before` follows it.
    pub proof fn lemma_extends_follows(&self, before: &Self, more: Seq<Call<D::Handle>>)
        requires
            self.extends(before, more),
        ensures
            self.follows(before),
            self.unfailed(before),
    {
    }

    pub fn new(driver: D) -> (r: Self)
        ensures
            r.calls() == driver.asked(),
            r.refusals() == 0,
            !r.last_refused(),
            r.refused_with() is None,
            r.faults() == Seq::<RenderError>::empty(),
            r.last_id() == 0,
            r.spec_render_depth() == DEFAULT_RENDER_DEPTH,
            r.spec_driver() == driver,
    {
        DriverCtx {
            id: 0,
            render_depth: DEFAULT_RENDER_DEPTH,
            driver,
            refusals: Ghost(0),
            last_refused: Ghost(false),
            refused_with: Ghost(None),
            faults: Ghost(Seq::empty()),
        }
    }

    /// The next identifier: one more than the last.
    pub fn next_id(&mut self) -> (r: u64)
        requires
            old(self).last_id() < u64::MAX,
        ensures
            r == old(self).last_id() + 1,
            final(self).last_id() == r,
            final(self).calls() == old(self).calls(),
            final(self).refusals() == old(self).refusals(),
            final(self).last_refused() == old(self).last_refused(),
            final(self).refused_with() == old(self).refused_with(),
            final(self).faults() == old(self).faults(),
            final(self).spec_render_depth() == old(self).spec_render_depth(),
            final(self).spec_driver() == old(self).spec_driver(),
    {
        self.id += 1;
        self.id
    }

    /// The next identifier, or `None` when they have run out.
    pub fn try_next_id(&mut self) -> (r: Option<u64>)
        ensures
            match r {
                Some(id) => old(self).last_id() < u64::MAX && id == old(self).last_id() + 1
                    && final(self).last_id() == id,
                None => old(self).last_id() == u64::MAX && final(self).last_id() == u64::MAX,
            },
            final(self).calls() == old(self).calls(),
            final(self).refusals() == old(self).refusals(),
            final(self).last_refused() == old(self).last_refused(),
            final(self).refused_with() == old(self).refused_with(),
            final(self).faults() == old(self).faults(),
            final(self).spec_render_depth() == old(self).spec_render_depth(),
            final(self).spec_driver() == old(self).spec_driver(),
    {
        if self.id < u64::MAX {
            Some(self.next_id())
        } else {
            None
        }
    }

    /// How deep components may render components.
    pub fn render_depth(&self) -> (r: usize)
        ensures
            r == self.spec_render_depth(),
    {
        self.render_depth
    }

    /// Changes how deep components may render components.
    pub fn set_render_depth(&mut self, depth: usize)
        ensures
            final(self).spec_render_depth() == depth,
            final(self).calls() == old(self).calls(),
            final(self).refusals() == old(self).refusals(),
            final(self).last_refused() == old(self).last_refused(),
            final(self).refused_with() == old(self).refused_with(),
            final(self).faults() == old(self).faults(),
            final(self).last_id() == old(self).last_id(),
            final(self).spec_driver() == old(self).spec_driver(),
    {
        self.render_depth = depth;
    }

    /// Runs `f` on the driver.
    pub fn with<F, R>(&self, f: F) -> (r: R) where F: FnOnce(&D) -> R
        requires
            f.requires((&self.spec_driver(),)),
        ensures
            f.ensures((&self.spec_driver(),), r),
    {
        f(&self.driver)
    }

    /// Runs `f` on the driver, which it may change, and hands back what `f`
    /// returns: `f` is given a reference to the driver as it is, and the
    /// driver is afterwards what `f` left behind that reference. The record
    /// is the driver's, so what `f` asks of the driver is in it; a refusal
    /// there is not counted.
    pub fn with_mut<F, R>(&mut self, f: F) -> (r: R) where F: FnOnce(&mut D) -> R
        requires
            forall|d: &mut D| *d == old(self).spec_driver() ==> #[trigger] f.requires((d,)),
        ensures
            exists|d: &mut D|
                *d == old(self).spec_driver() && *final(d) == final(self).spec_driver()
                    && #[trigger] f.ensures((d,), r),
            final(self).calls() == final(self).spec_driver().asked(),
            final(self).refusals() == old(self).refusals(),
            final(self).last_refused() == old(self).last_refused(),
            final(self).refused_with() == old(self).refused_with(),
            final(self).faults() == old(self).faults(),
            final(self).last_id() == old(self).last_id(),
            final(self).spec_render_depth() == old(self).spec_render_depth(),
    {
        f(&mut self.driver)
    }

    /// The driver itself. The record is the driver's, so what is asked of
    /// it through the reference is in it; a refusal there is not counted.
    pub fn driver_mut(&mut self) -> (r: &mut D)
        ensures
            *r == old(self).spec_driver(),
            final(self).spec_driver() == *final(r),
            final(self).calls() == final(r).asked(),
            final(self).refusals() == old(self).refusals(),
            final(self).last_refused() == old(self).last_refused(),
            final(self).refused_with() == old(self).refused_with(),
            final(self).faults() == old(self).faults(),
            final(self).last_id() == old(self).last_id(),
            final(self).spec_render_depth() == old(self).spec_render_depth(),
    {
        &mut self.driver
    }

    /// Keeps count of whether the driver refused the request made last, and
    /// with what.
    fn note(&mut self, refusal: Ghost<Option<D::Err>>)
        ensures
            final(self).spec_driver() == old(self).spec_driver(),
            final(self).calls() == old(self).calls(),
            final(self).last_id() == old(self).last_id(),
            final(self).spec_render_depth() == old(self).spec_render_depth(),
            final(self).faults() == old(self).faults(),
            final(self).last_refused() == refusal@ is Some,
            final(self).refusals() == if refusal@ is Some {
                old(self).refusals() + 1
            } else {
                old(self).refusals()
            },
            final(self).refused_with() == if refusal@ is Some {
                refusal@
            } else {
                old(self).refused_with()
            },
    {
        proof {
            if refusal@ is Some {
                self.refusals@ = self.refusals@ + 1;
                self.refused_with@ = refusal@;
            }
            self.last_refused@ = refusal@ is Some;
        }
    }

    /// Notes that a component that has to render was reached with no depth
    /// left.
    pub(crate) fn note_too_deep<C, I>(&mut self, comp: &CompNode<D::Handle, C, I>, depth: usize)
        requires
            depth == 0,
        ensures
            final(self).faulted(old(self), RenderError::TooDeep),
            final(self).follows(old(self)),
            final(self).calls() == old(self).calls(),
            final(self).spec_driver() == old(self).spec_driver(),
            final(self).last_refused() == old(self).last_refused(),
            final(self).last_id() == old(self).last_id(),
            final(self).spec_render_depth() == old(self).spec_render_depth(),
    {
        proof {
            self.faults@ = self.faults@.push(RenderError::TooDeep);
        }
    }

    /// Notes that a rendering is not a new tree, or not a well-formed one.
    pub(crate) fn note_malformed<C, I>(&mut self, rendered: &Node<D::Handle, C, I>)
        requires
            !(rendered.fresh() && rendered.well_formed()),
        ensures
            final(self).faulted(old(self), RenderError::Malformed),
            final(self).follows(old(self)),
            final(self).calls() == old(self).calls(),
            final(self).spec_driver() == old(self).spec_driver(),
            final(self).last_refused() == old(self).last_refused(),
            final(self).last_id() == old(self).last_id(),
            final(self).spec_render_depth() == old(self).spec_render_depth(),
    {
        proof {
            self.faults@ = self.faults@.push(RenderError::Malformed);
        }
    }

    /// Asks the driver for an element. The request is the next
    /// entry of the record, and a refusal is counted.
    pub fn create_element(&mut self, path: &Path, tag: &str) -> (r: Result<
        D::Handle,
        Error<D::Err>,
    >)
        ensures
            final(self).calls() == old(self).calls().push(
                Call::CreateElement {
                    path: path@,
                    tag: tag@,
                    made: made(r),
                },
            ),
            r is Ok ==> final(self).extends(
                old(self),
                seq![
                    Call::CreateElement {
                        path: path@,
                        tag: tag@,
                        made: made(r),
                    },
                ],
            ),
            r matches Err(Error::Driver(e)) ==> final(self).refused(old(self))
                && final(self).refused_with() == Some(e),
            !(r matches Err(Error::Render(_))),
            final(self).follows(old(self)),
    {
        let ghost before = *self;
        let r = match self.driver.create_element(path, tag) {
            Ok(made) => Ok(made),
            Err(e) => Err(Error::Driver(e)),
        };
        self.note(Ghost(refusal(r)));
        proof {
            let call = Call::CreateElement {
                path: path@,
                tag: tag@,
                made: made(r),
            };
            assert(before.calls().push(call) =~= before.calls() + seq![call]);
        }
        r
    }

    /// Asks the driver for a piece of text. The request is the next
    /// entry of the record, and a refusal is counted.
    pub fn create_text(&mut self, path: &Path, text: &str) -> (r: Result<D::Handle, Error<D::Err>>)
        ensures
            final(self).calls() == old(self).calls().push(
                Call::CreateText {
                    path: path@,
                    text: text@,
                    made: made(r),
                },
            ),
            r is Ok ==> final(self).extends(
                old(self),
                seq![
                    Call::CreateText {
                        path: path@,
                        text: text@,
                        made: made(r),
                    },
                ],
            ),
            r matches Err(Error::Driver(e)) ==> final(self).refused(old(self))
                && final(self).refused_with() == Some(e),
            !(r matches Err(Error::Render(_))),
            final(self).follows(old(self)),
    {
        let ghost before = *self;
        let r = match self.driver.create_text(path, text) {
            Ok(made) => Ok(made),
            Err(e) => Err(Error::Driver(e)),
        };
        self.note(Ghost(refusal(r)));
        proof {
            let call = Call::CreateText {
                path: path@,
                text: text@,
                made: made(r),
            };
            assert(before.calls().push(call) =~= before.calls() + seq![call]);
        }
        r
    }

    /// Asks the driver to attach `child`. The request is the next
    /// entry of the record, and a refusal is counted.
    pub fn insert(
        &mut self,
        path: &Path,
        parent: Option<&D::Handle>,
        child: &D::Handle,
        index: usize,
    ) -> (r: Result<(), Error<D::Err>>)
        ensures
            final(self).calls() == old(self).calls().push(
                Call::Insert {
                    path: path@,
                    parent: deref_opt(parent),
                    child: *child,
                    index,
                },
            ),
            r is Ok ==> final(self).extends(
                old(self),
                seq![
                    Call::Insert {
                        path: path@,
                        parent: deref_opt(parent),
                        child: *child,
                        index,
                    },
                ],
            ),
            r matches Err(Error::Driver(e)) ==> final(self).refused(old(self))
                && final(self).refused_with() == Some(e),
            !(r matches Err(Error::Render(_))),
            final(self).follows(old(self)),
    {
        let ghost before = *self;
        let r = match self.driver.insert(path, parent, child, index) {
            Ok(made) => Ok(made),
            Err(e) => Err(Error::Driver(e)),
        };
        self.note(Ghost(refusal(r)));
        proof {
            let call = Call::Insert {
                path: path@,
                parent: deref_opt(parent),
                child: *child,
                index,
            };
            assert(before.calls().push(call) =~= before.calls() + seq![call]);
        }
        r
    }

    /// Asks the driver to move `child`. The request is the next
    /// entry of the record, and a refusal is counted.
    pub fn reorder(
        &mut self,
        path: &Path,
        parent: Option<&D::Handle>,
        child: &D::Handle,
        index: usize,
    ) -> (r: Result<(), Error<D::Err>>)
        ensures
            final(self).calls() == old(self).calls().push(
                Call::Reorder {
                    path: path@,
                    parent: deref_opt(parent),
                    child: *child,
                    index,
                },
            ),
            r is Ok ==> final(self).extends(
                old(self),
                seq![
                    Call::Reorder {
                        path: path@,
                        parent: deref_opt(parent),
                        child: *child,
                        index,
                    },
                ],
            ),
            r matches Err(Error::Driver(e)) ==> final(self).refused(old(self))
                && final(self).refused_with() == Some(e),
            !(r matches Err(Error::Render(_))),
            final(self).follows(old(self)),
    {
        let ghost before = *self;
        let r = match self.driver.reorder(path, parent, child, index) {
            Ok(made) => Ok(made),
            Err(e) => Err(Error::Driver(e)),
        };
        self.note(Ghost(refusal(r)));
        proof {
            let call = Call::Reorder {
                path: path@,
                parent: deref_opt(parent),
                child: *child,
                index,
            };
            assert(before.calls().push(call) =~= before.calls() + seq![call]);
        }
        r
    }

    /// Gives a handle up to the driver. The request is the next
    /// entry of the record, and a refusal is counted.
    pub fn remove(&mut self, path: &Path, handle: D::Handle) -> (r: Result<(), Error<D::Err>>)
        ensures
            final(self).calls() == old(self).calls().push(
                Call::Remove {
                    path: path@,
                    handle,
                },
            ),
            r is Ok ==> final(self).extends(
                old(self),
                seq![
                    Call::Remove {
                        path: path@,
                        handle,
                    },
                ],
            ),
            r matches Err(Error::Driver(e)) ==> final(self).refused(old(self))
                && final(self).refused_with() == Some(e),
            !(r matches Err(Error::Render(_))),
            final(self).follows(old(self)),
    {
        let ghost before = *self;
        let r = match self.driver.remove(path, handle) {
            Ok(made) => Ok(made),
            Err(e) => Err(Error::Driver(e)),
        };
        self.note(Ghost(refusal(r)));
        proof {
            let call = Call::Remove {
                path: path@,
                handle,
            };
            assert(before.calls().push(call) =~= before.calls() + seq![call]);
        }
        r
    }

    /// Asks the driver to replace the content of a text. The request is the
    /// next entry of the record, and a refusal is counted.
    pub fn set_text(&mut self, path: &Path, target: &D::Handle, text: &str) -> (r: Result<
        (),
        Error<D::Err>,
    >)
        ensures
            final(self).calls() == old(self).calls().push(
                Call::SetText {
                    path: path@,
                    target: *target,
                    text: text@,
                },
            ),
            r is Ok ==> final(self).extends(
                old(self),
                seq![
                    Call::SetText {
                        path: path@,
                        target: *target,
                        text: text@,
                    },
                ],
            ),
            r matches Err(Error::Driver(e)) ==> final(self).refused(old(self))
                && final(self).refused_with() == Some(e),
            !(r matches Err(Error::Render(_))),
            final(self).follows(old(self)),
    {
        let ghost before = *self;
        let r = match self.driver.set_text(path, target, text) {
            Ok(made) => Ok(made),
            Err(e) => Err(Error::Driver(e)),
        };
        self.note(Ghost(refusal(r)));
        proof {
            let call = Call::SetText {
                path: path@,
                target: *target,
                text: text@,
            };
            assert(before.calls().push(call) =~= before.calls() + seq![call]);
        }
        r
    }

    /// Asks the driver to set an attribute. The request is the next
    /// entry of the record, and a refusal is counted.
    pub fn set_attribute(
        &mut self,
        path: &Path,
        target: &D::Handle,
        name: &str,
        value: &str,
    ) -> (r: Result<(), Error<D::Err>>)
        ensures
            final(self).calls() == old(self).calls().push(
                Call::SetAttribute {
                    path: path@,
                    target: *target,
                    name: name@,
                    value: value@,
                },
            ),
            r is Ok ==> final(self).extends(
                old(self),
                seq![
                    Call::SetAttribute {
                        path: path@,
                        target: *target,
                        name: name@,
                        value: value@,
                    },
                ],
            ),
            r matches Err(Error::Driver(e)) ==> final(self).refused(old(self))
                && final(self).refused_with() == Some(e),
            !(r matches Err(Error::Render(_))),
            final(self).follows(old(self)),
    {
        let ghost before = *self;
        let r = match self.driver.set_attribute(path, target, name, value) {
            Ok(made) => Ok(made),
            Err(e) => Err(Error::Driver(e)),
        };
        self.note(Ghost(refusal(r)));
        proof {
            let call = Call::SetAttribute {
                path: path@,
                target: *target,
                name: name@,
                value: value@,
            };
            assert(before.calls().push(call) =~= before.calls() + seq![call]);
        }
        r
    }

    /// Asks the driver to take an attribute off. The request is the next
    /// entry of the record, and a refusal is counted.
    pub fn remove_attribute(&mut self, path: &Path, target: &D::Handle, name: &str) -> (r: Result<
        (),
        Error<D::Err>,
    >)
        ensures
            final(self).calls() == old(self).calls().push(
                Call::RemoveAttribute {
                    path: path@,
                    target: *target,
                    name: name@,
                },
            ),
            r is Ok ==> final(self).extends(
                old(self),
                seq![
                    Call::RemoveAttribute {
                        path: path@,
                        target: *target,
                        name: name@,
                    },
                ],
            ),
            r matches Err(Error::Driver(e)) ==> final(self).refused(old(self))
                && final(self).refused_with() == Some(e),
            !(r matches Err(Error::Render(_))),
            final(self).follows(old(self)),
    {
        let ghost before = *self;
        let r = match self.driver.remove_attribute(path, target, name) {
            Ok(made) => Ok(made),
            Err(e) => Err(Error::Driver(e)),
        };
        self.note(Ghost(refusal(r)));
        proof {
            let call = Call::RemoveAttribute {
                path: path@,
                target: *target,
                name: name@,
            };
            assert(before.calls().push(call) =~= before.calls() + seq![call]);
        }
        r
    }
}

} // verus!
