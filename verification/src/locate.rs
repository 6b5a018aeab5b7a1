//! Finding a node by the segments that lead to it, and updating the state of
//! a component from outside a traversal.
use crate::comp::Comp;
use crate::node::lemma_position_frame;
use crate::node::{find, find_child, CompNode, Node, Snapshot};
use crate::path::{idents_view, Ident, IdentView};
use vstd::prelude::*;

verus! {

/// The node that the segments from `from` on lead to, below `node`.
///
/// A segment names a child of a tag by its identity. A component stands for
/// the tree that it rendered, so that no segment is spent on it.
pub open spec fn node_at<H, C, I>(
    node: Node<H, C, I>,
    segments: Seq<IdentView>,
    from: int,
) -> Option<Node<H, C, I>>
    decreases node,
{
    match node {
        Node::Comp(c) => match c.snapshot {
            Snapshot::Rendered { rendered, .. } => node_at(*rendered, segments, from),
            _ => None,
        },
        Node::Tag(t) => if from >= segments.len() {
            Some(node)
        } else if from < 0 {
            None
        } else {
            match find_child(t.children@, segments[from]) {
                Some(j) => if 0 <= j < t.children.len() {
                    node_at(t.children[j].node, segments, from + 1)
                } else {
                    None
                },
                None => None,
            }
        },
        Node::Text(_) => if from >= segments.len() {
            Some(node)
        } else {
            None
        },
    }
}

/// The component that the segments from `from` on lead to, below `node`: the
/// first one met where the segments end.
pub open spec fn comp_at<H, C, I>(
    node: Node<H, C, I>,
    segments: Seq<IdentView>,
    from: int,
) -> Option<CompNode<H, C, I>>
    decreases node,
{
    match node {
        Node::Comp(c) => if from >= segments.len() {
            Some(c)
        } else {
            match c.snapshot {
                Snapshot::Rendered { rendered, .. } => comp_at(*rendered, segments, from),
                _ => None,
            }
        },
        Node::Tag(t) => if from >= segments.len() || from < 0 {
            None
        } else {
            match find_child(t.children@, segments[from]) {
                Some(j) => if 0 <= j < t.children.len() {
                    comp_at(t.children[j].node, segments, from + 1)
                } else {
                    None
                },
                None => None,
            }
        },
        Node::Text(_) => None,
    }
}

/// The node that the segments from `from` on lead to, below `node`; `None`
/// where they lead nowhere.
pub fn locate<'a, H, C, I>(node: &'a Node<H, C, I>, segments: &Vec<Ident>, from: usize) -> (r:
    Option<&'a Node<H, C, I>>)
    ensures
        match r {
            Some(n) => node_at(*node, idents_view(segments@), from as int) == Some(*n),
            None => node_at(*node, idents_view(segments@), from as int) is None,
        },
    decreases node,
{
    match node {
        Node::Comp(c) => match &c.snapshot {
            Snapshot::Rendered { rendered, .. } => locate(rendered, segments, from),
            _ => None,
        },
        Node::Tag(t) => {
            if from >= segments.len() {
                Some(node)
            } else {
                match find(&t.children, &segments[from]) {
                    Some(j) => {
                        assert(node->Tag_0 == *t);
                        locate(&t.children[j].node, segments, from + 1)
                    },
                    None => None,
                }
            }
        },
        Node::Text(_) => {
            if from >= segments.len() {
                Some(node)
            } else {
                None
            }
        },
    }
}

/// Replaces the state of the component that the segments from `from` on lead
/// to by what `f` makes of it, as a component does that updates itself
/// between two traversals. Its snapshot stays, so that the next
/// reconciliation finds the new state beside what the old one rendered, and
/// asks the component's policy whether to render again.
///
/// Returns whether there is such a component and it holds a state. What the
/// tree describes, what backs it and what its components rendered stay as
/// they are either way.
pub fn update_state_at<H, C: Comp, F: FnOnce(C) -> C>(
    node: &mut Node<H, C, C::Input>,
    segments: &Vec<Ident>,
    from: usize,
    f: F,
) -> (r: bool)
    requires
        forall|state: C| f.requires((state,)),
    ensures
        r == (comp_at(*old(node), idents_view(segments@), from as int) matches Some(c)
            && c.state is Some),
        r ==> {
            &&& comp_at(*old(node), idents_view(segments@), from as int) matches Some(before)
            &&& comp_at(*final(node), idents_view(segments@), from as int) matches Some(after)
            &&& after.input == before.input
            &&& after.snapshot == before.snapshot
            &&& after.state matches Some(state)
            &&& f.ensures((before.state->0,), state)
        },
        final(node).content() == old(node).content(),
        final(node).root_handle() == old(node).root_handle(),
        old(node).mounted() ==> final(node).mounted(),
        old(node).faithful() ==> final(node).faithful(),
    decreases *old(node),
{
    let ghost before = *node;
    match node {
        Node::Comp(c) => {
            if from >= segments.len() {
                match c.state.take() {
                    Some(state) => {
                        c.state = Some(f(state));
                        true
                    },
                    None => false,
                }
            } else {
                match &mut c.snapshot {
                    Snapshot::Rendered { rendered, .. } => update_state_at(
                        rendered,
                        segments,
                        from,
                        f,
                    ),
                    _ => false,
                }
            }
        },
        Node::Tag(t) => {
            let ghost t0 = *t;
            assert(before->Tag_0 == t0);
            if from >= segments.len() {
                false
            } else {
                match find(&t.children, &segments[from]) {
                    Some(j) => {
                        let child = &mut t.children[j];
                        let r = update_state_at(&mut child.node, segments, from + 1, f);
                        proof {
                            assert(t.children@ =~= t0.children@.update(
                                j as int,
                                t.children[j as int],
                            ));
                            lemma_position_frame(
                                t.children@,
                                t0.children@,
                                idents_view(segments@)[from as int],
                                0,
                            );
                            assert(Node::Tag(*t).content() =~= before.content()) by {
                                assert(Node::Tag(*t).content()->Tag_children
                                    =~= before.content()->Tag_children);
                            }
                        }
                        r
                    },
                    None => false,
                }
            }
        },
        Node::Text(_) => false,
    }
}

} // verus!
