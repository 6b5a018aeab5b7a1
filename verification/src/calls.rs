//! The requests that mounting and unmounting a tree make of the driver.
use crate::attr::{AttrListEntry, AttrView};
use crate::driver::Call;
use crate::node::{Node, Snapshot, Tag};
use crate::path::IdentView;
use vstd::prelude::*;

verus! {

/// The request that sets a new element's attribute: none for an absent one.
pub open spec fn attr_add_call<H>(attr: AttrView, target: H, path: Seq<IdentView>) -> Seq<
    Call<H>,
> {
    match attr.effective() {
        Some(value) => seq![Call::SetAttribute { path, target, name: attr.name, value }],
        None => Seq::empty(),
    }
}

/// The requests that set the first `n` attributes of a new element.
pub open spec fn attrs_add_calls<H>(
    attrs: Seq<AttrListEntry>,
    target: H,
    path: Seq<IdentView>,
    n: nat,
) -> Seq<Call<H>>
    decreases n,
{
    if n == 0 || n > attrs.len() {
        Seq::empty()
    } else {
        attrs_add_calls(attrs, target, path, (n - 1) as nat) + attr_add_call(
            attrs[n - 1]@,
            target,
            path,
        )
    }
}

/// The requests that mount `node` as the child at `index` of `parent`: read
/// off the mounted node, whose stores hold the handles that were made.
///
/// An element is made, given its attributes and its children, and attached
/// last. A component asks what the tree that it rendered asks.
pub open spec fn add_calls<H, C, I>(
    node: Node<H, C, I>,
    parent: Option<H>,
    path: Seq<IdentView>,
    index: usize,
) -> Seq<Call<H>>
    decreases node, 0nat,
{
    match node {
        Node::Tag(t) => match t.store {
            Some(h) => seq![Call::CreateElement { path, tag: t.tag@, made: Some(h) }]
                + attrs_add_calls(t.attrs@, h, path, t.attrs.len() as nat) + children_add_calls(
                t,
                h,
                path,
                t.children.len() as nat,
            ) + seq![Call::Insert { path, parent, child: h, index }],
            None => Seq::empty(),
        },
        Node::Text(x) => match x.store {
            Some(h) => seq![
                Call::CreateText { path, text: x.text@, made: Some(h) },
                Call::Insert { path, parent, child: h, index },
            ],
            None => Seq::empty(),
        },
        Node::Comp(c) => match c.snapshot {
            Snapshot::Rendered { rendered, .. } => add_calls(*rendered, parent, path, index),
            _ => Seq::empty(),
        },
    }
}

/// The requests that mount the first `n` children of a tag under `parent`,
/// each at its position and under the tag's path extended by its identity.
pub open spec fn children_add_calls<H, C, I>(
    t: Tag<H, C, I>,
    parent: H,
    path: Seq<IdentView>,
    n: nat,
) -> Seq<Call<H>>
    decreases t, n,
{
    if n == 0 || n > t.children.len() {
        Seq::empty()
    } else {
        children_add_calls(t, parent, path, (n - 1) as nat) + add_calls(
            t.children[n - 1].node,
            Some(parent),
            path.push(t.children[n - 1].ident@),
            (n - 1) as usize,
        )
    }
}

/// The requests that mount the first `n` children depend on those children
/// alone.
pub proof fn lemma_children_add_calls_frame<H, C, I>(
    t1: Tag<H, C, I>,
    t2: Tag<H, C, I>,
    parent: H,
    path: Seq<IdentView>,
    n: nat,
)
    requires
        n <= t1.children.len(),
        n <= t2.children.len(),
        forall|j: int| 0 <= j < n ==> t1.children[j] == t2.children[j],
    ensures
        children_add_calls(t1, parent, path, n) == children_add_calls(t2, parent, path, n),
    decreases n,
{
    if n > 0 {
        lemma_children_add_calls_frame(t1, t2, parent, path, (n - 1) as nat);
    }
}

/// The requests that unmount `node`: read off the node as it was mounted.
///
/// The children of an element go first, the element itself last.
pub open spec fn remove_calls<H, C, I>(node: Node<H, C, I>, path: Seq<IdentView>) -> Seq<Call<H>>
    decreases node, 0nat,
{
    match node {
        Node::Tag(t) => match t.store {
            Some(h) => children_remove_calls(t, path, t.children.len() as nat) + seq![
                Call::Remove { path, handle: h },
            ],
            None => Seq::empty(),
        },
        Node::Text(x) => match x.store {
            Some(h) => seq![Call::Remove { path, handle: h }],
            None => Seq::empty(),
        },
        Node::Comp(c) => match c.snapshot {
            Snapshot::Rendered { rendered, .. } => remove_calls(*rendered, path),
            _ => Seq::empty(),
        },
    }
}

/// The requests that unmount the first `n` children of a tag.
pub open spec fn children_remove_calls<H, C, I>(
    t: Tag<H, C, I>,
    path: Seq<IdentView>,
    n: nat,
) -> Seq<Call<H>>
    decreases t, n,
{
    if n == 0 || n > t.children.len() {
        Seq::empty()
    } else {
        children_remove_calls(t, path, (n - 1) as nat) + remove_calls(
            t.children[n - 1].node,
            path.push(t.children[n - 1].ident@),
        )
    }
}

} // verus!
