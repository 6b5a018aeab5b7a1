//! Components: state that renders a tree from an input, rendered again only
//! when the state or the input has changed.
use crate::node::{CompNode, Node, NodeView, Snapshot, Text};
use vstd::prelude::*;
use vstd::std_specs::cmp::PartialEqSpec;

verus! {

/// A stateful unit of an application. Its state is made once, when the
/// component is mounted, and then lives in the tree; what it shows is
/// rendered from the state and from the input that its parent supplies.
///
/// The three methods are functions of their arguments: each has a name for
/// what it returns. A component that is verified says what the names stand
/// for and proves it. A component that is written without proofs cannot
/// say it: it gives each name a body that is never run, and the engine
/// believes of it that the same arguments give the same result, and nothing
/// else.
pub trait Comp: Sized + Clone {
    /// What the parent supplies.
    type Input: Clone;

    /// What `new` makes: the first state is a function of the input.
    spec fn new_spec(input: &Self::Input) -> Self;

    /// What `render` describes: rendering is a function of the state and the
    /// input.
    spec fn render_spec(&self, input: &Self::Input) -> NodeView<Self::Input>;

    /// What `should_rerender` answers: it is a function of its arguments.
    spec fn rerender_spec(
        last: &Self,
        curr: &Self,
        last_input: &Self::Input,
        curr_input: &Self::Input,
    ) -> bool;

    /// The state of a component that is mounted with `input`.
    fn new(input: &Self::Input) -> (r: Self)
        ensures
            r == Self::new_spec(input),
    ;

    /// The tree that the component shows.
    fn render<H>(&self, input: &Self::Input) -> (r: Node<H, Self, Self::Input>)
        ensures
            r.content() == self.render_spec(input),
    ;

    /// Whether a component that rendered from `last` and `last_input` has to
    /// render again now that it holds `curr` and is given `curr_input`.
    /// Structural inequality of either pair is the policy to start from; a
    /// component may ignore what does not show.
    fn should_rerender(
        last: &Self,
        curr: &Self,
        last_input: &Self::Input,
        curr_input: &Self::Input,
    ) -> (r: bool)
        ensures
            r == Self::rerender_spec(last, curr, last_input, curr_input),
    ;
}

/// The policy to start from: a component renders again where its input or its
/// state is no longer equal to what it rendered from.
pub fn changed<C: PartialEq, I: PartialEq>(
    last: &C,
    curr: &C,
    last_input: &I,
    curr_input: &I,
) -> (r: bool)
    ensures
        C::obeys_eq_spec() && I::obeys_eq_spec() ==> r == (!last_input.eq_spec(curr_input)
            || !last.eq_spec(curr)),
{
    last_input != curr_input || last != curr
}

/// The input of the component of trees without components.
#[derive(Clone, Copy, Debug)]
pub struct NoInput;

/// The component of trees without components: it has no state, takes no
/// input, shows an empty text and never renders again.
#[derive(Clone, Copy, Debug)]
pub struct NoComp;

impl Comp for NoComp {
    type Input = NoInput;

    open spec fn new_spec(input: &NoInput) -> NoComp {
        NoComp
    }

    open spec fn render_spec(&self, input: &NoInput) -> NodeView<NoInput> {
        NodeView::Text { text: Seq::empty(), is_static: true }
    }

    open spec fn rerender_spec(
        last: &NoComp,
        curr: &NoComp,
        last_input: &NoInput,
        curr_input: &NoInput,
    ) -> bool {
        false
    }

    fn new(input: &NoInput) -> (r: NoComp) {
        NoComp
    }

    fn render<H>(&self, input: &NoInput) -> (r: Node<H, NoComp, NoInput>) {
        proof {
            reveal_strlit("");
        }
        let r = Node::Text(Text::new_static(""));
        assert(r.content() == self.render_spec(input)) by {
            assert(""@ =~= Seq::<char>::empty());
        }
        r
    }

    fn should_rerender(
        last: &NoComp,
        curr: &NoComp,
        last_input: &NoInput,
        curr_input: &NoInput,
    ) -> (r: bool) {
        false
    }
}

/// Whether the component's snapshot was taken of the state that it holds and
/// of the input that it was given: the snapshot holds a copy of each.
pub open spec fn snapshot_of_now<H, C: Comp>(c: CompNode<H, C, C::Input>) -> bool {
    match (c.state, c.snapshot) {
        (Some(now), Snapshot::Rendered { state, input, .. }) => cloned(now, state) && cloned(
            c.input,
            input,
        ),
        _ => false,
    }
}

/// Whether the component has rendered from the state that it holds and the
/// input that it was given: it holds a snapshot taken of both, with a tree
/// that describes what the state in the snapshot renders from the input in
/// the snapshot.
pub open spec fn rendered_now<H, C: Comp>(c: CompNode<H, C, C::Input>) -> bool {
    &&& snapshot_of_now(c)
    &&& c.snapshot matches Snapshot::Rendered { state, input, rendered }
    &&& rendered.content() == state.render_spec(&input)
}

/// Whether `node` is a component that holds `state` and has rendered from
/// it.
pub open spec fn holds_rendering<H, C: Comp>(
    node: Node<H, C, C::Input>,
    state: Option<C>,
) -> bool {
    node matches Node::Comp(c) && c.state == state && rendered_now(c)
}

impl<H, C: Comp> Node<H, C, C::Input> {
    /// Whether every component in the tree, and in what the components of
    /// the tree rendered, holds the state that it was mounted with, and a
    /// snapshot taken of that state and of its input.
    pub open spec fn newly_mounted(&self) -> bool
        decreases self,
    {
        match self {
            Node::Tag(t) => forall|i: int|
                0 <= i < t.children.len() ==> (#[trigger] t.children[i]).node.newly_mounted(),
            Node::Text(_) => true,
            Node::Comp(c) => c.state == Some(C::new_spec(&c.input)) && match c.snapshot {
                Snapshot::Rendered { rendered, .. } => snapshot_of_now(*c)
                    && rendered.newly_mounted(),
                _ => true,
            },
        }
    }

    /// Whether every snapshot in the tree holds what its state renders from
    /// its input.
    pub open spec fn faithful(&self) -> bool
        decreases self,
    {
        match self {
            Node::Tag(t) => forall|i: int|
                0 <= i < t.children.len() ==> (#[trigger] t.children[i]).node.faithful(),
            Node::Text(_) => true,
            Node::Comp(c) => match c.snapshot {
                Snapshot::Rendered { state, input, rendered } => rendered.content()
                    == state.render_spec(&input) && rendered.faithful(),
                _ => true,
            },
        }
    }
}

} // verus!
