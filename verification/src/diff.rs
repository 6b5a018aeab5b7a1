//! Reconciling a new tree against the mounted one that it replaces.
use crate::attr::{
    attr_change, attr_names, same_names, AttrChange, AttrChangeView, AttrListEntry, AttrView,
};
use crate::calls::{add_calls, remove_calls};
use crate::comp::{holds_rendering, snapshot_of_now, Comp};
use crate::driver::{deref_opt, Call, Driver, DriverCtx, Error, RenderError};
use crate::mount::{accept_rendered, remove, visit_node};
use crate::node::{
    attrs_view, find, find_child, lemma_found, lemma_position_frame, lemma_position_from,
    lemma_position_unique, lemma_same_attrs_same_names, lemma_same_content, position_from,
    siblings_unique, Child, Node, Snapshot, Tag,
};
use crate::path::{IdentView, Path};
use crate::text::str_eq;
use vstd::prelude::*;

verus! {

/// The request that brings one attribute of a kept element up to date.
pub open spec fn attr_diff_call<H>(
    curr: AttrView,
    ancestor: AttrView,
    target: H,
    path: Seq<IdentView>,
) -> Seq<Call<H>> {
    match attr_change(curr.effective(), ancestor.effective()) {
        AttrChangeView::Keep => Seq::empty(),
        AttrChangeView::Assign(value) => seq![
            Call::SetAttribute { path, target, name: curr.name, value },
        ],
        AttrChangeView::Remove => seq![Call::RemoveAttribute { path, target, name: curr.name }],
    }
}

/// The requests that bring the first `n` attributes of a kept element up to
/// date, each against the ancestor's attribute at the same place.
pub open spec fn attrs_diff_calls<H>(
    curr: Seq<AttrListEntry>,
    ancestor: Seq<AttrListEntry>,
    target: H,
    path: Seq<IdentView>,
    n: nat,
) -> Seq<Call<H>>
    decreases n,
{
    if n == 0 || n > curr.len() || n > ancestor.len() {
        Seq::empty()
    } else {
        attrs_diff_calls(curr, ancestor, target, path, (n - 1) as nat) + attr_diff_call(
            curr[n - 1]@,
            ancestor[n - 1]@,
            target,
            path,
        )
    }
}

/// Whether `curr` can take over what backs `ancestor`: two texts, two
/// components, or two tags of one name whose attribute lists name the same
/// attributes. Anything else is taken down and built anew.
pub open spec fn compatible<H, C, I>(curr: Node<H, C, I>, ancestor: Node<H, C, I>) -> bool {
    match (curr, ancestor) {
        (Node::Tag(c), Node::Tag(a)) => c.tag@ == a.tag@ && attr_names(c.attrs@) == attr_names(
            a.attrs@,
        ),
        (Node::Text(_), Node::Text(_)) => true,
        (Node::Comp(_), Node::Comp(_)) => true,
        _ => false,
    }
}

/// The requests that reconcile `curr` against `ancestor`: read off `curr` as
/// it is afterwards and `ancestor` as it was before.
///
/// A kept text is given its new content where that differs. A kept tag has
/// its attributes brought up to date, then its children reconciled, then the
/// ancestor's children that are gone unmounted. A component whose policy asks
/// for no new rendering asks nothing; one that renders again reconciles what
/// it rendered against what it had rendered. Nodes that are not compatible
/// are replaced: the ancestor is unmounted, then `curr` is mounted.
pub open spec fn diff_calls<H, C: Comp>(
    curr: Node<H, C, C::Input>,
    ancestor: Node<H, C, C::Input>,
    parent: Option<H>,
    path: Seq<IdentView>,
    index: usize,
) -> Seq<Call<H>>
    decreases curr, 0nat,
{
    if !compatible(curr, ancestor) {
        remove_calls(ancestor, path) + add_calls(curr, parent, path, index)
    } else {
        match (curr, ancestor) {
            (Node::Tag(c), Node::Tag(a)) => match c.store {
                Some(h) => attrs_diff_calls(c.attrs@, a.attrs@, h, path, c.attrs.len() as nat)
                    + children_diff_calls(c, a.children@, h, path, c.children.len() as nat)
                    + leftover_calls(c.children@, a.children@, path, a.children.len() as nat),
                None => Seq::empty(),
            },
            (Node::Text(c), Node::Text(a)) => match c.store {
                Some(h) => if c.text@ == a.text@ {
                    Seq::empty()
                } else {
                    seq![Call::SetText { path, target: h, text: c.text@ }]
                },
                None => Seq::empty(),
            },
            (Node::Comp(c), Node::Comp(a)) => match (c.state, c.snapshot, a.snapshot) {
                (
                    Some(state),
                    Snapshot::Rendered { rendered, .. },
                    Snapshot::Rendered { state: last, input: last_input, rendered: last_rendered },
                ) => if C::rerender_spec(&last, &state, &last_input, &c.input) {
                    diff_calls(*rendered, *last_rendered, parent, path, index)
                } else {
                    Seq::empty()
                },
                _ => Seq::empty(),
            },
            _ => Seq::empty(),
        }
    }
}

/// The requests that reconcile the first `n` children of a kept tag.
///
/// A child whose identity the ancestor knows is reconciled against the
/// ancestor's child of that identity, and moved where its position has
/// changed; any other child is mounted.
pub open spec fn children_diff_calls<H, C: Comp>(
    c: Tag<H, C, C::Input>,
    a: Seq<Child<H, C, C::Input>>,
    parent: H,
    path: Seq<IdentView>,
    n: nat,
) -> Seq<Call<H>>
    decreases c, n,
{
    if n == 0 || n > c.children.len() {
        Seq::empty()
    } else {
        children_diff_calls(c, a, parent, path, (n - 1) as nat) + child_diff_calls(
            c,
            a,
            parent,
            path,
            n - 1,
        )
    }
}

/// The requests that reconcile the child at position `i` of a kept tag.
pub open spec fn child_diff_calls<H, C: Comp>(
    c: Tag<H, C, C::Input>,
    a: Seq<Child<H, C, C::Input>>,
    parent: H,
    path: Seq<IdentView>,
    i: int,
) -> Seq<Call<H>>
    decreases c, 0nat,
{
    if 0 <= i < c.children.len() {
        let child = c.children[i];
        let child_path = path.push(child.ident@);
        match find_child(a, child.ident@) {
            Some(j) => diff_calls(
                child.node,
                a[j].node,
                Some(parent),
                child_path,
                i as usize,
            ) + moved_calls(child.node, parent, child_path, i, j),
            None => add_calls(child.node, Some(parent), child_path, i as usize),
        }
    } else {
        Seq::empty()
    }
}

/// The request that moves a kept child from position `j` to position `i`:
/// none where the two are the same.
pub open spec fn moved_calls<H, C, I>(
    child: Node<H, C, I>,
    parent: H,
    child_path: Seq<IdentView>,
    i: int,
    j: int,
) -> Seq<Call<H>> {
    if i == j {
        Seq::empty()
    } else {
        match child.root_handle() {
            Some(h) => seq![
                Call::Reorder {
                    path: child_path,
                    parent: Some(parent),
                    child: h,
                    index: i as usize,
                },
            ],
            None => Seq::empty(),
        }
    }
}

/// The requests that unmount those of the ancestor's first `m` children
/// whose identity `c` no longer holds, in the ancestor's order.
pub open spec fn leftover_calls<H, C, I>(
    c: Seq<Child<H, C, I>>,
    a: Seq<Child<H, C, I>>,
    path: Seq<IdentView>,
    m: nat,
) -> Seq<Call<H>>
    decreases m,
{
    if m == 0 || m > a.len() {
        Seq::empty()
    } else {
        leftover_calls(c, a, path, (m - 1) as nat) + leftover_call(c, a, path, m - 1)
    }
}

/// The requests that unmount the ancestor's child at position `j`, where `c`
/// no longer holds its identity.
pub open spec fn leftover_call<H, C, I>(
    c: Seq<Child<H, C, I>>,
    a: Seq<Child<H, C, I>>,
    path: Seq<IdentView>,
    j: int,
) -> Seq<Call<H>> {
    if 0 <= j < a.len() && find_child(c, a[j].ident@) is None {
        remove_calls(a[j].node, path.push(a[j].ident@))
    } else {
        Seq::empty()
    }
}

/// Whether `curr`, as it is after reconciling, holds what backed `ancestor`
/// before, wherever the two are compatible.
///
/// A kept tag or text holds the ancestor's handle. A kept child holds what
/// backed the ancestor's child of its identity. A component holds the
/// ancestor's state, and the ancestor's very snapshot where its policy asked
/// for no new rendering, and otherwise a snapshot taken of that state and of
/// its own input. What replaces something incompatible, or was not there
/// before, is newly mounted.
pub open spec fn carried<H, C: Comp>(
    curr: Node<H, C, C::Input>,
    ancestor: Node<H, C, C::Input>,
) -> bool
    decreases curr,
{
    if !compatible(curr, ancestor) {
        curr.newly_mounted()
    } else {
        match (curr, ancestor) {
            (Node::Tag(c), Node::Tag(a)) => c.store == a.store && forall|i: int|
                0 <= i < c.children.len() ==> match find_child(
                    a.children@,
                    (#[trigger] c.children[i]).ident@,
                ) {
                    Some(j) => carried(c.children[i].node, a.children[j].node),
                    None => c.children[i].node.newly_mounted(),
                },
            (Node::Text(c), Node::Text(a)) => c.store == a.store,
            (Node::Comp(c), Node::Comp(a)) => c.state == a.state && match (
                c.state,
                c.snapshot,
                a.snapshot,
            ) {
                (
                    Some(state),
                    Snapshot::Rendered { rendered, .. },
                    Snapshot::Rendered { state: last, input: last_input, rendered: last_rendered },
                ) => if C::rerender_spec(&last, &state, &last_input, &c.input) {
                    carried(*rendered, *last_rendered) && snapshot_of_now(c)
                } else {
                    c.snapshot == a.snapshot
                },
                _ => true,
            },
            _ => true,
        }
    }
}

/// Whether `curr` describes what `ancestor` shows, so that reconciling has
/// nothing to ask of the driver: the same tags with the same attributes, the
/// same texts, the same children under the same identities in the same
/// order, and components whose policy asks for no new rendering of the state
/// that the ancestor holds.
pub open spec fn nothing_to_ask<H, C: Comp>(
    curr: Node<H, C, C::Input>,
    ancestor: Node<H, C, C::Input>,
) -> bool
    decreases curr,
{
    match (curr, ancestor) {
        (Node::Tag(c), Node::Tag(a)) => {
            &&& c.tag@ == a.tag@
            &&& attrs_view(c.attrs@) == attrs_view(a.attrs@)
            &&& same_children(c.children@, a.children@, c.children.len() as nat)
        },
        (Node::Text(c), Node::Text(a)) => c.text@ == a.text@,
        (Node::Comp(c), Node::Comp(a)) => a.state is Some && a.snapshot is Rendered
            && !renders_again(curr, ancestor),
        _ => false,
    }
}

/// Whether the first `n` children of `c` are those of `a` at the same places,
/// `a` has no more children than `c`, and none of them has anything to ask.
pub open spec fn same_children<H, C: Comp>(
    c: Seq<Child<H, C, C::Input>>,
    a: Seq<Child<H, C, C::Input>>,
    n: nat,
) -> bool
    decreases c, n,
{
    &&& c.len() == a.len()
    &&& n <= c.len()
    &&& forall|i: int|
        0 <= i < n ==> (#[trigger] c[i]).ident@ == a[i].ident@ && nothing_to_ask(
            c[i].node,
            a[i].node,
        )
}

/// Whether `curr` is a component that takes over the state of the component
/// `ancestor`, and its policy asks for a new rendering.
pub open spec fn renders_again<H, C: Comp>(
    curr: Node<H, C, C::Input>,
    ancestor: Node<H, C, C::Input>,
) -> bool {
    match (curr, ancestor) {
        (Node::Comp(c), Node::Comp(a)) => match (a.state, a.snapshot) {
            (Some(state), Snapshot::Rendered { state: last, input: last_input, .. }) =>
                C::rerender_spec(&last, &state, &last_input, &c.input),
            _ => false,
        },
        _ => false,
    }
}

/// Whether `curr` can take over what backs `ancestor`.
pub fn is_compatible<H, C, I>(curr: &Node<H, C, I>, ancestor: &Node<H, C, I>) -> (r: bool)
    ensures
        r == compatible(*curr, *ancestor),
{
    match (curr, ancestor) {
        (Node::Tag(c), Node::Tag(a)) => str_eq(c.tag.as_str(), a.tag.as_str()) && same_names(
            &c.attrs,
            &a.attrs,
        ),
        (Node::Text(_), Node::Text(_)) => true,
        (Node::Comp(_), Node::Comp(_)) => true,
        _ => false,
    }
}

/// Brings the attributes of a kept element up to date: each attribute
/// against the ancestor's attribute at the same place, in the list's order.
pub fn diff_attrs<D: Driver>(
    curr: &Vec<AttrListEntry>,
    ancestor: &Vec<AttrListEntry>,
    target: &D::Handle,
    path: &Path,
    ctx: &mut DriverCtx<D>,
) -> (r: Result<(), Error<D::Err>>)
    requires
        curr.len() == ancestor.len(),
    ensures
        r is Ok ==> final(ctx).extends(
            old(ctx),
            attrs_diff_calls(curr@, ancestor@, *target, path@, curr.len() as nat),
        ),
        final(ctx).follows(old(ctx)),
        r matches Err(Error::Driver(e)) ==> final(ctx).refused(old(ctx))
            && final(ctx).refused_with() == Some(e),
        !(r matches Err(Error::Render(_))),
        r is Ok <==> final(ctx).unfailed(old(ctx)),
        attrs_view(curr@) == attrs_view(ancestor@) ==> r is Ok
            && final(ctx).calls() == old(ctx).calls(),
{
    let ghost ctx0 = *ctx;
    let mut i: usize = 0;
    assert(ctx.calls() =~= ctx0.calls() + attrs_diff_calls(curr@, ancestor@, *target, path@, 0));
    while i < curr.len()
        invariant
            0 <= i <= curr.len(),
            curr.len() == ancestor.len(),
            ctx0 == *old(ctx),
            ctx.extends(&ctx0, attrs_diff_calls(curr@, ancestor@, *target, path@, i as nat)),
            attrs_view(curr@) == attrs_view(ancestor@) ==> ctx.calls() == ctx0.calls(),
        decreases curr.len() - i,
    {
        proof {
            if attrs_view(curr@) == attrs_view(ancestor@) {
                assert(attrs_view(curr@)[i as int] == curr@[i as int]@);
                assert(attrs_view(ancestor@)[i as int] == ancestor@[i as int]@);
            }
        }
        let ghost ctx1 = *ctx;
        let ghost done = attrs_diff_calls(curr@, ancestor@, *target, path@, i as nat);
        let ghost step = attr_diff_call(curr@[i as int]@, ancestor@[i as int]@, *target, path@);
        proof {
            ctx1.lemma_extends_follows(&ctx0, done);
        }
        let r = match curr[i].change_from(&ancestor[i]) {
            AttrChange::Keep => {
                assert(ctx.calls() =~= ctx1.calls() + step);
                Ok(())
            },
            AttrChange::Assign(value) => ctx.set_attribute(path, target, curr[i].name(), value),
            AttrChange::Remove => ctx.remove_attribute(path, target, curr[i].name()),
        };
        proof {
            ctx.lemma_step(&ctx1, &ctx0, done, step, r is Ok);
        }
        match r {
            Ok(()) => {},
            Err(e) => {
                return Err(e);
            },
        }
        i += 1;
    }
    proof {
        ctx.lemma_extends_follows(
            &ctx0,
            attrs_diff_calls(curr@, ancestor@, *target, path@, curr.len() as nat),
        );
    }
    Ok(())
}

/// Unmounts the ancestor's children whose identity `c` no longer holds, in
/// the ancestor's order.
fn remove_leftover<D: Driver, C, I>(
    c: &Vec<Child<D::Handle, C, I>>,
    a: &mut Vec<Child<D::Handle, C, I>>,
    path: &Path,
    ctx: &mut DriverCtx<D>,
) -> (r: Result<(), Error<D::Err>>)
    requires
        forall|j: int|
            0 <= j < old(a).len() && find_child(c@, (#[trigger] old(a)[j]).ident@) is None
                ==> old(a)[j].node.mounted(),
    ensures
        r is Ok ==> final(ctx).extends(
            old(ctx),
            leftover_calls(c@, old(a)@, path@, old(a).len() as nat),
        ),
        r is Ok ==> final(a).len() == old(a).len() && forall|j: int|
            0 <= j < old(a).len() ==> if find_child(c@, (#[trigger] old(a)[j]).ident@) is None {
                final(a)[j].node.released()
            } else {
                final(a)[j] == old(a)[j]
            },
        final(a).len() == old(a).len(),
        forall|j: int|
            0 <= j < old(a).len() ==> (#[trigger] final(a)[j]).ident == old(a)[j].ident
                && final(a)[j].node.content() == old(a)[j].node.content(),
        final(ctx).follows(old(ctx)),
        r matches Err(Error::Driver(e)) ==> final(ctx).refused(old(ctx))
            && final(ctx).refused_with() == Some(e),
        !(r matches Err(Error::Render(_))),
        r is Ok <==> final(ctx).unfailed(old(ctx)),
        (forall|j: int|
            0 <= j < old(a).len() ==> find_child(c@, (#[trigger] old(a)[j]).ident@) is Some)
            ==> r is Ok && final(ctx).calls() == old(ctx).calls(),
{
    let ghost a0 = a@;
    let ghost ctx0 = *ctx;
    let mut j: usize = 0;
    assert(ctx.calls() =~= ctx0.calls() + leftover_calls(c@, a0, path@, 0));
    while j < a.len()
        invariant
            0 <= j <= a.len(),
            a0 == old(a)@,
            ctx0 == *old(ctx),
            a.len() == a0.len(),
            forall|k: int| j <= k < a.len() ==> a[k] == a0[k],
            forall|k: int|
                0 <= k < a.len() ==> (#[trigger] a[k]).ident == a0[k].ident
                    && a[k].node.content() == a0[k].node.content(),
            forall|k: int|
                0 <= k < j ==> if find_child(c@, (#[trigger] a0[k]).ident@) is None {
                    a[k].node.released()
                } else {
                    a[k] == a0[k]
                },
            forall|k: int|
                0 <= k < a0.len() && find_child(c@, (#[trigger] a0[k]).ident@) is None
                    ==> a0[k].node.mounted(),
            ctx.extends(&ctx0, leftover_calls(c@, a0, path@, j as nat)),
            (forall|k: int|
                0 <= k < a0.len() ==> find_child(c@, (#[trigger] a0[k]).ident@) is Some)
                ==> ctx.calls() == ctx0.calls(),
        decreases a.len() - j,
    {
        let ghost ctx1 = *ctx;
        let ghost done = leftover_calls(c@, a0, path@, j as nat);
        let ghost step = leftover_call(c@, a0, path@, j as int);
        proof {
            ctx1.lemma_extends_follows(&ctx0, done);
        }
        let gone = &mut a[j];
        let r = if find(c, &gone.ident).is_none() {
            let gone_path = path.push(gone.ident.clone());
            remove(&mut gone.node, &gone_path, ctx)
        } else {
            assert(ctx.calls() =~= ctx1.calls() + step);
            Ok(())
        };
        proof {
            ctx.lemma_follows(&ctx1, &ctx0);
        }
        match r {
            Ok(()) => {},
            Err(e) => {
                return Err(e);
            },
        }
        proof {
            ctx.lemma_extends(&ctx1, &ctx0, done, step);
        }
        j += 1;
    }
    proof {
        ctx.lemma_extends_follows(&ctx0, leftover_calls(c@, a0, path@, a0.len() as nat));
    }
    Ok(())
}

/// Whether every one of the children shows what its components render.
pub open spec fn all_faithful<H, C: Comp>(children: Seq<Child<H, C, C::Input>>) -> bool {
    forall|j: int| 0 <= j < children.len() ==> (#[trigger] children[j]).node.faithful()
}

/// Whether every one of the children is mounted.
pub open spec fn all_mounted<H, C, I>(children: Seq<Child<H, C, I>>) -> bool {
    forall|j: int| 0 <= j < children.len() ==> (#[trigger] children[j]).node.mounted()
}

/// The requests that reconcile the first `n` children depend on those
/// children alone.
pub proof fn lemma_children_diff_calls_frame<H, C: Comp>(
    c1: Tag<H, C, C::Input>,
    c2: Tag<H, C, C::Input>,
    a: Seq<Child<H, C, C::Input>>,
    parent: H,
    path: Seq<IdentView>,
    n: nat,
)
    requires
        n <= c1.children.len(),
        n <= c2.children.len(),
        forall|j: int| 0 <= j < n ==> c1.children[j] == c2.children[j],
    ensures
        children_diff_calls(c1, a, parent, path, n) == children_diff_calls(c2, a, parent, path, n),
    decreases n,
{
    if n > 0 {
        lemma_children_diff_calls_frame(c1, c2, a, parent, path, (n - 1) as nat);
        assert(child_diff_calls(c1, a, parent, path, n - 1) == child_diff_calls(
            c2,
            a,
            parent,
            path,
            n - 1,
        ));
    }
}

/// Which of the ancestor's children are left over, and what unmounting them
/// asks, depends on the ancestor's identities and on the children that are
/// left over alone.
pub proof fn lemma_leftover_frame_ancestor<H, C, I>(
    c: Seq<Child<H, C, I>>,
    a1: Seq<Child<H, C, I>>,
    a2: Seq<Child<H, C, I>>,
    path: Seq<IdentView>,
    m: nat,
)
    requires
        a1.len() == a2.len(),
        forall|j: int| 0 <= j < a1.len() ==> (#[trigger] a1[j]).ident@ == a2[j].ident@,
        forall|j: int|
            0 <= j < a1.len() && find_child(c, (#[trigger] a1[j]).ident@) is None ==> a1[j]
                == a2[j],
    ensures
        leftover_calls(c, a1, path, m) == leftover_calls(c, a2, path, m),
    decreases m,
{
    if m > 0 && m <= a1.len() {
        lemma_leftover_frame_ancestor(c, a1, a2, path, (m - 1) as nat);
    }
}

/// Nodes that describe the same thing are compatible with the same nodes.
pub proof fn lemma_compatible_content<H, C, I>(
    x: Node<H, C, I>,
    y: Node<H, C, I>,
    ancestor: Node<H, C, I>,
)
    requires
        x.content() == y.content(),
    ensures
        compatible(x, ancestor) == compatible(y, ancestor),
{
    match (x, y) {
        (Node::Tag(tx), Node::Tag(ty)) => {
            assert(attrs_view(tx.attrs@) == attrs_view(ty.attrs@));
            assert(tx.attrs.len() == ty.attrs.len()) by {
                assert(attrs_view(tx.attrs@).len() == attrs_view(ty.attrs@).len());
            }
            assert forall|i: int| 0 <= i < tx.attrs.len() implies attr_names(tx.attrs@)[i]
                == attr_names(ty.attrs@)[i] by {
                assert(attrs_view(tx.attrs@)[i] == attrs_view(ty.attrs@)[i]);
            }
            assert(attr_names(tx.attrs@) =~= attr_names(ty.attrs@));
        },
        _ => {},
    }
}

/// Reconciles the children of a kept tag against the ancestor's children.
fn diff_children<D: Driver, C: Comp>(
    c: &mut Tag<D::Handle, C, C::Input>,
    a: &mut Vec<Child<D::Handle, C, C::Input>>,
    parent: &D::Handle,
    path: &Path,
    ctx: &mut DriverCtx<D>,
    depth: usize,
) -> (r: Result<(), Error<D::Err>>)
    requires
        Node::Tag(*old(c)).fresh(),
        Node::Tag(*old(c)).well_formed(),
        all_mounted(old(a)@),
        siblings_unique(old(a)@),
    ensures
        r is Ok ==> {
            &&& final(c).children.len() == old(c).children.len()
            &&& forall|j: int|
                0 <= j < old(c).children.len() ==> {
                    &&& (#[trigger] final(c).children[j]).ident == old(c).children[j].ident
                    &&& final(c).children[j].node.mounted()
                    &&& final(c).children[j].node.content() == old(c).children[j].node.content()
                }
            &&& all_faithful(old(a)@) ==> all_faithful(final(c).children@)
            &&& forall|j: int|
                0 <= j < old(c).children.len() ==> match find_child(
                    old(a)@,
                    (#[trigger] final(c).children[j]).ident@,
                ) {
                    Some(k) => carried(final(c).children[j].node, old(a)[k].node),
                    None => final(c).children[j].node.newly_mounted(),
                }
            &&& final(a).len() == old(a).len()
            &&& forall|j: int|
                0 <= j < old(a).len() ==> (#[trigger] final(a)[j]).ident == old(a)[j].ident
            &&& forall|j: int|
                0 <= j < old(a).len() ==> if find_child(
                    old(c).children@,
                    (#[trigger] old(a)[j]).ident@,
                ) is None {
                    final(a)[j] == old(a)[j]
                } else {
                    final(a)[j].node.released()
                }
            &&& final(ctx).extends(
                old(ctx),
                children_diff_calls(
                    *final(c),
                    old(a)@,
                    *parent,
                    path@,
                    old(c).children.len() as nat,
                ),
            )
        },
        final(a).len() == old(a).len(),
        forall|j: int|
            0 <= j < old(a).len() ==> (#[trigger] final(a)[j]).ident == old(a)[j].ident
                && final(a)[j].node.content() == old(a)[j].node.content(),
        final(c).children.len() == old(c).children.len(),
        forall|j: int|
            0 <= j < old(c).children.len() ==> (#[trigger] final(c).children[j]).ident == old(
                c,
            ).children[j].ident && final(c).children[j].node.content() == old(
                c,
            ).children[j].node.content(),
        final(c).tag == old(c).tag,
        final(c).is_static == old(c).is_static,
        final(c).attrs == old(c).attrs,
        final(c).store == old(c).store,
        final(ctx).follows(old(ctx)),
        r matches Err(Error::Driver(e)) ==> final(ctx).refused(old(ctx))
            && final(ctx).refused_with() == Some(e),
        r matches Err(Error::Render(e)) ==> final(ctx).faulted(old(ctx), e),
        r matches Err(Error::Render(_)) ==> Node::Tag(*old(c)).has_comp(),
        same_children(old(c).children@, old(a)@, old(c).children.len() as nat) ==> r is Ok
            && final(ctx).calls() == old(ctx).calls(),
    decreases *old(a), 0nat,
{
    let ghost c0 = *c;
    let ghost a0 = a@;
    let ghost ctx0 = *ctx;
    let mut i: usize = 0;
    assert(ctx.calls() =~= ctx0.calls() + children_diff_calls(*c, a0, *parent, path@, 0));
    proof {
        assert forall|j: int| 0 <= j < a0.len() implies position_from(
            c0.children@,
            (#[trigger] a0[j]).ident@,
            0,
        ) >= 0 by {
            lemma_position_from(c0.children@, a0[j].ident@, 0);
        }
    }
    while i < c.children.len()
        invariant
            0 <= i <= c.children.len(),
            c0 == *old(c),
            a0 == old(a)@,
            ctx0 == *old(ctx),
            Node::Tag(c0).fresh(),
            Node::Tag(c0).well_formed(),
            all_mounted(a0),
            siblings_unique(a0),
            same_children(c0.children@, a0, c0.children.len() as nat) ==> ctx.calls()
                == ctx0.calls(),
            forall|j: int|
                0 <= j < a0.len() && position_from(c0.children@, (#[trigger] a0[j]).ident@, 0)
                    < i ==> a[j].node.released(),
            c.children.len() == c0.children.len(),
            c.tag == c0.tag,
            c.is_static == c0.is_static,
            c.attrs == c0.attrs,
            c.store == c0.store,
            forall|j: int|
                0 <= j < i ==> {
                    &&& (#[trigger] c.children[j]).ident == c0.children[j].ident
                    &&& c.children[j].node.mounted()
                    &&& c.children[j].node.content() == c0.children[j].node.content()
                },
            all_faithful(a0) ==> forall|j: int|
                0 <= j < i ==> (#[trigger] c.children[j]).node.faithful(),
            forall|j: int|
                0 <= j < i ==> match find_child(a0, (#[trigger] c.children[j]).ident@) {
                    Some(k) => carried(c.children[j].node, a0[k].node),
                    None => c.children[j].node.newly_mounted(),
                },
            forall|j: int| i <= j < c.children.len() ==> c.children[j] == c0.children[j],
            forall|j: int|
                0 <= j < c.children.len() ==> (#[trigger] c.children[j]).ident
                    == c0.children[j].ident && c.children[j].node.content()
                    == c0.children[j].node.content(),
            a.len() == a0.len(),
            forall|j: int|
                0 <= j < a0.len() ==> (#[trigger] a[j]).ident == a0[j].ident
                    && a[j].node.content() == a0[j].node.content(),
            forall|j: int|
                0 <= j < a0.len() && position_from(c0.children@, (#[trigger] a0[j]).ident@, 0)
                    >= i ==> a[j] == a0[j],
            ctx.extends(&ctx0, children_diff_calls(*c, a0, *parent, path@, i as nat)),
        decreases c.children.len() - i,
    {
        let ghost c1 = *c;
        let ghost a1 = a@;
        let ghost ctx1 = *ctx;
        let ghost done = children_diff_calls(c1, a0, *parent, path@, i as nat);
        let ghost quiet = same_children(c0.children@, a0, c0.children.len() as nat);
        proof {
            ctx1.lemma_extends_follows(&ctx0, done);
            lemma_position_unique(c0.children@, i as int);
            lemma_position_frame(a1, a0, c0.children[i as int].ident@, 0);
            lemma_position_from(a0, c0.children[i as int].ident@, 0);
            if quiet {
                assert(c0.children@[i as int].ident@ == a0[i as int].ident@);
                lemma_position_unique(a0, i as int);
            }
        }
        let child = &mut c.children[i];
        let child_path = path.push(child.ident.clone());
        match find(a, &child.ident) {
            Some(j) => {
                let last = &mut a[j];
                assert(*last == a0[j as int]);
                assert(old(a)@[j as int] == *last);
                let r = diff_bounded(
                    &mut child.node,
                    &mut last.node,
                    Some(parent),
                    &child_path,
                    i,
                    ctx,
                    depth,
                );
                let ghost ctx2 = *ctx;
                proof {
                    ctx2.lemma_follows(&ctx1, &ctx0);
                    if r matches Err(Error::Render(_)) {
                        assert(c0.children[i as int].node.has_comp());
                    }
                }
                match r {
                    Ok(()) => {},
                    Err(e) => {
                        return Err(e);
                    },
                }
                proof {
                    assert forall|k: int|
                        0 <= k < a0.len() && position_from(
                            c0.children@,
                            (#[trigger] a0[k]).ident@,
                            0,
                        ) < i + 1 implies a@[k].node.released() by {
                        if position_from(c0.children@, a0[k].ident@, 0) == i {
                            lemma_position_from(c0.children@, a0[k].ident@, 0);
                            assert(a0[k].ident@ == a0[j as int].ident@);
                            if k != j {
                                assert(a0[k].ident@ != a0[j as int].ident@);
                            }
                        } else {
                            assert(k != j);
                            assert(a@[k] == a1[k]);
                        }
                    }
                }
                let ghost reconciled = diff_calls(
                    child.node,
                    a0[j as int].node,
                    Some(*parent),
                    child_path@,
                    i,
                );
                let ghost moved = moved_calls(child.node, *parent, child_path@, i as int, j as int);
                proof {
                    child.node.lemma_mounted_has_handle();
                }
                if j != i {
                    match child.node.handle() {
                        Some(h) => {
                            let r = ctx.reorder(&child_path, Some(parent), h, i);
                            proof {
                                ctx.lemma_step(&ctx2, &ctx1, reconciled, moved, r is Ok);
                                ctx.lemma_follows(&ctx1, &ctx0);
                            }
                            match r {
                                Ok(()) => {},
                                Err(e) => {
                                    return Err(e);
                                },
                            }
                        },
                        None => {},
                    }
                } else {
                    assert(ctx.calls() =~= ctx1.calls() + (reconciled + moved));
                }
                proof {
                    assert(ctx.extends(&ctx1, reconciled + moved));
                }
            },
            None => {
                let r = visit_node(&mut child.node, Some(parent), &child_path, i, ctx, depth);
                proof {
                    ctx.lemma_follows(&ctx1, &ctx0);
                    if r matches Err(Error::Render(_)) {
                        assert(c0.children[i as int].node.has_comp());
                    }
                    assert forall|k: int|
                        0 <= k < a0.len() && position_from(
                            c0.children@,
                            (#[trigger] a0[k]).ident@,
                            0,
                        ) < i + 1 implies a@[k].node.released() by {
                        if position_from(c0.children@, a0[k].ident@, 0) == i {
                            lemma_position_from(c0.children@, a0[k].ident@, 0);
                            lemma_found(a0, c0.children[i as int].ident@, k);
                        }
                    }
                }
                match r {
                    Ok(()) => {},
                    Err(e) => {
                        return Err(e);
                    },
                }
            },
        }
        proof {
            lemma_children_diff_calls_frame(c1, *c, a0, *parent, path@, i as nat);
            let step = child_diff_calls(*c, a0, *parent, path@, i as int);
            assert(ctx.extends(&ctx1, step));
            ctx.lemma_extends(&ctx1, &ctx0, done, step);
        }
        i += 1;
    }
    proof {
        ctx.lemma_extends_follows(
            &ctx0,
            children_diff_calls(*c, a0, *parent, path@, c.children.len() as nat),
        );
        assert forall|j: int| 0 <= j < a0.len() implies if find_child(
            c0.children@,
            (#[trigger] a0[j]).ident@,
        ) is None {
            a[j] == a0[j]
        } else {
            a[j].node.released()
        } by {
            lemma_position_from(c0.children@, a0[j].ident@, 0);
        }
    }
    Ok(())
}

/// Reconciles `curr` against `ancestor`, with components rendering
/// components at most `depth` deep.
fn diff_bounded<D: Driver, C: Comp>(
    curr: &mut Node<D::Handle, C, C::Input>,
    ancestor: &mut Node<D::Handle, C, C::Input>,
    parent: Option<&D::Handle>,
    path: &Path,
    index: usize,
    ctx: &mut DriverCtx<D>,
    depth: usize,
) -> (r: Result<(), Error<D::Err>>)
    requires
        old(curr).fresh(),
        old(curr).well_formed(),
        old(ancestor).mounted(),
    ensures
        r is Ok ==> {
            &&& final(curr).mounted()
            &&& old(ancestor).faithful() ==> final(curr).faithful()
            &&& carried(*final(curr), *old(ancestor))
            &&& final(ctx).extends(
                old(ctx),
                diff_calls(*final(curr), *old(ancestor), deref_opt(parent), path@, index),
            )
        },
        r is Ok ==> final(ancestor).released(),
        r is Ok && (*old(curr)) is Comp && (*old(ancestor)) is Comp && !renders_again(
            *old(curr),
            *old(ancestor),
        ) ==> final(ancestor)->Comp_0.snapshot is Taken,
        final(curr).content() == old(curr).content(),
        final(ancestor).content() == old(ancestor).content(),
        final(ctx).follows(old(ctx)),
        r matches Err(Error::Driver(e)) ==> final(ctx).refused(old(ctx))
            && final(ctx).refused_with() == Some(e),
        r matches Err(Error::Render(e)) ==> final(ctx).faulted(old(ctx), e),
        r matches Err(Error::Render(_)) ==> old(curr).has_comp(),
        nothing_to_ask(*old(curr), *old(ancestor)) ==> r is Ok
            && final(ctx).calls() == old(ctx).calls(),
        renders_again(*old(curr), *old(ancestor)) && depth == 0 ==> r == Err::<
            (),
            Error<D::Err>,
        >(Error::Render(RenderError::TooDeep)) && final(ctx).calls() == old(ctx).calls(),
        renders_again(*old(curr), *old(ancestor)) && depth > 0 ==> holds_rendering(
            *final(curr),
            old(ancestor)->Comp_0.state,
        ),
        r is Ok <==> final(ctx).unfailed(old(ctx)),
    decreases *old(ancestor), 1nat,
{
    let ghost curr0 = *curr;
    let ghost anc0 = *ancestor;
    let ghost ctx0 = *ctx;
    proof {
        if nothing_to_ask(curr0, anc0) && curr0 is Tag {
            lemma_same_attrs_same_names(curr0->Tag_0.attrs@, anc0->Tag_0.attrs@);
        }
    }
    if !is_compatible(curr, ancestor) {
        let r = remove(ancestor, path, ctx);
        let ghost ctx1 = *ctx;
        match r {
            Ok(()) => {},
            Err(e) => {
                return Err(e);
            },
        }
        let r = visit_node(curr, parent, path, index, ctx, depth);
        proof {
            ctx.lemma_follows(&ctx1, &ctx0);
        }
        match r {
            Ok(()) => {},
            Err(e) => {
                return Err(e);
            },
        }
        proof {
            ctx.lemma_extends(
                &ctx1,
                &ctx0,
                remove_calls(anc0, path@),
                add_calls(*curr, deref_opt(parent), path@, index),
            );
            lemma_compatible_content(*curr, curr0, anc0);
        }
        return Ok(());
    }
    match (curr, ancestor) {
        (Node::Tag(c), Node::Tag(a)) => {
            let ghost c0 = *c;
            let ghost a0 = *a;
            assert(anc0->Tag_0 == a0);
            assert(curr0->Tag_0 == c0);
            assert(c0.attrs.len() == a0.attrs.len()) by {
                assert(attr_names(c0.attrs@).len() == attr_names(a0.attrs@).len());
            }
            match a.store.as_ref() {
                Some(h) => {
                    let r = diff_attrs(&c.attrs, &a.attrs, h, path, ctx);
                    let ghost ctx1 = *ctx;
                    match r {
                        Ok(()) => {},
                        Err(e) => {
                            return Err(e);
                        },
                    }
                    let ghost attrs = attrs_diff_calls(
                        c0.attrs@,
                        a0.attrs@,
                        *h,
                        path@,
                        c0.attrs.len() as nat,
                    );
                    let r = diff_children(c, &mut a.children, h, path, ctx, depth);
                    let ghost ctx2 = *ctx;
                    proof {
                        ctx2.lemma_follows(&ctx1, &ctx0);
                        lemma_same_content(*c, c0);
                        lemma_same_content(*a, a0);
                    }
                    match r {
                        Ok(()) => {},
                        Err(e) => {
                            return Err(e);
                        },
                    }
                    let ghost c2 = *c;
                    let ghost kids = children_diff_calls(
                        c2,
                        a0.children@,
                        *h,
                        path@,
                        c0.children.len() as nat,
                    );
                    proof {
                        ctx2.lemma_extends(&ctx1, &ctx0, attrs, kids);
                    }
                    let ghost a2 = a.children@;
                    proof {
                        assert forall|j: int|
                            0 <= j < a2.len() && find_child(
                                c.children@,
                                (#[trigger] a2[j]).ident@,
                            ) is None implies a2[j].node.mounted() by {
                            lemma_position_frame(c.children@, c0.children@, a2[j].ident@, 0);
                            assert(a2[j].ident == a0.children[j].ident);
                            assert(a2[j] == a0.children[j]);
                        }
                        if nothing_to_ask(curr0, anc0) {
                            assert forall|j: int| 0 <= j < a2.len() implies find_child(
                                c.children@,
                                (#[trigger] a2[j]).ident@,
                            ) is Some by {
                                assert(a2[j].ident == a0.children[j].ident);
                                assert(c0.children@[j].ident@ == a0.children@[j].ident@);
                                assert(c.children[j].ident == c0.children[j].ident);
                                lemma_found(c.children@, a2[j].ident@, j);
                            }
                        }
                    }
                    let r = remove_leftover(&c.children, &mut a.children, path, ctx);
                    let ghost ctx3 = *ctx;
                    proof {
                        ctx3.lemma_follows(&ctx2, &ctx0);
                        lemma_same_content(*a, a0);
                    }
                    match r {
                        Ok(()) => {},
                        Err(e) => {
                            return Err(e);
                        },
                    }
                    proof {
                        let gone = leftover_calls(
                            c2.children@,
                            a0.children@,
                            path@,
                            a0.children.len() as nat,
                        );
                        assert forall|j: int|
                            0 <= j < a2.len() && find_child(
                                c2.children@,
                                (#[trigger] a2[j]).ident@,
                            ) is None implies a2[j] == a0.children[j] by {
                            lemma_position_frame(c2.children@, c0.children@, a2[j].ident@, 0);
                            assert(a2[j].ident == a0.children[j].ident);
                        }
                        lemma_leftover_frame_ancestor(
                            c2.children@,
                            a2,
                            a0.children@,
                            path@,
                            a0.children.len() as nat,
                        );
                        ctx3.lemma_extends(&ctx2, &ctx0, attrs + kids, gone);
                        assert forall|j: int| 0 <= j < a2.len() implies (
                        #[trigger] a.children@[j]).node.released() by {
                            lemma_position_frame(c2.children@, c0.children@, a2[j].ident@, 0);
                            assert(a2[j].ident == a0.children[j].ident);
                        }
                    }
                },
                None => {},
            }
            let ghost h = a0.store->0;
            let ghost c3 = *c;
            c.store = a.store.take();
            proof {
                lemma_same_content(*a, a0);
                lemma_children_diff_calls_frame(
                    c3,
                    *c,
                    a0.children@,
                    h,
                    path@,
                    c0.children.len() as nat,
                );
                lemma_same_content(*c, c0);
                assert(compatible(Node::Tag(*c), anc0));
            }
            Ok(())
        },
        (Node::Text(c), Node::Text(a)) => {
            match a.store.as_ref() {
                Some(h) => {
                    if !str_eq(c.text.as_str(), a.text.as_str()) {
                        let r = ctx.set_text(path, h, c.text.as_str());
                        match r {
                            Ok(()) => {},
                            Err(e) => {
                                return Err(e);
                            },
                        }
                    } else {
                        assert(ctx.calls() =~= ctx0.calls() + Seq::<Call<D::Handle>>::empty());
                    }
                },
                None => {},
            }
            c.store = a.store.take();
            Ok(())
        },
        (Node::Comp(c), Node::Comp(a)) => {
            let ghost a0 = *a;
            assert(anc0->Comp_0 == a0);
            let state = match a.state.take() {
                Some(state) => state,
                None => {
                    return Ok(());
                },
            };
            let rerender = match &a.snapshot {
                Snapshot::Rendered { state: last, input: last_input, .. } => C::should_rerender(
                    last,
                    &state,
                    last_input,
                    &c.input,
                ),
                _ => false,
            };
            if !rerender {
                let mut snapshot = Snapshot::Taken;
                core::mem::swap(&mut a.snapshot, &mut snapshot);
                c.state = Some(state);
                c.snapshot = snapshot;
                assert(ctx.calls() =~= ctx0.calls() + Seq::<Call<D::Handle>>::empty());
                return Ok(());
            }
            if depth == 0 {
                ctx.note_too_deep(c, depth);
                return Err(Error::Render(RenderError::TooDeep));
            }
            let snap_state = state.clone();
            let snap_input = c.input.clone();
            let rendered: Node<D::Handle, C, C::Input> = snap_state.render(&snap_input);
            c.state = Some(state);
            c.snapshot = Snapshot::Rendered {
                state: snap_state,
                input: snap_input,
                rendered: Box::new(rendered),
            };
            match (&mut c.snapshot, &mut a.snapshot) {
                (
                    Snapshot::Rendered { rendered, .. },
                    Snapshot::Rendered { rendered: last_rendered, .. },
                ) => {
                    assert(a0.snapshot->Rendered_rendered == *last_rendered);
                    diff_rendered(
                        rendered,
                        last_rendered,
                        parent,
                        path,
                        index,
                        ctx,
                        (depth - 1) as usize,
                    )
                },
                _ => Ok(()),
            }
        },
        _ => Ok(()),
    }
}

/// Reconciles what a component has rendered against what it had rendered
/// before, with components rendering components at most `depth` deep below
/// it: a rendering that is not a new tree, or not a well-formed one, is a
/// fault and nothing is asked of the driver; any other is reconciled as a new
/// tree is.
pub fn diff_rendered<D: Driver, C: Comp>(
    rendered: &mut Node<D::Handle, C, C::Input>,
    last_rendered: &mut Node<D::Handle, C, C::Input>,
    parent: Option<&D::Handle>,
    path: &Path,
    index: usize,
    ctx: &mut DriverCtx<D>,
    depth: usize,
) -> (r: Result<(), Error<D::Err>>)
    requires
        old(last_rendered).mounted(),
    ensures
        !(old(rendered).fresh() && old(rendered).well_formed()) ==> r == Err::<
            (),
            Error<D::Err>,
        >(Error::Render(RenderError::Malformed)) && final(ctx).calls() == old(ctx).calls(),
        old(rendered).fresh() && old(rendered).well_formed() ==> {
            &&& r is Ok ==> {
                &&& final(rendered).mounted()
                &&& old(last_rendered).faithful() ==> final(rendered).faithful()
                &&& carried(*final(rendered), *old(last_rendered))
                &&& final(last_rendered).released()
                &&& final(ctx).extends(
                    old(ctx),
                    diff_calls(
                        *final(rendered),
                        *old(last_rendered),
                        deref_opt(parent),
                        path@,
                        index,
                    ),
                )
            }
            &&& r matches Err(Error::Render(_)) ==> old(rendered).has_comp()
            &&& nothing_to_ask(*old(rendered), *old(last_rendered)) ==> r is Ok
                && final(ctx).calls() == old(ctx).calls()
            &&& renders_again(*old(rendered), *old(last_rendered)) && depth == 0 ==> r == Err::<
                (),
                Error<D::Err>,
            >(Error::Render(RenderError::TooDeep)) && final(ctx).calls() == old(ctx).calls()
        },
        final(rendered).content() == old(rendered).content(),
        final(last_rendered).content() == old(last_rendered).content(),
        final(ctx).follows(old(ctx)),
        r matches Err(Error::Driver(e)) ==> final(ctx).refused(old(ctx))
            && final(ctx).refused_with() == Some(e),
        r matches Err(Error::Render(e)) ==> final(ctx).faulted(old(ctx), e),
        r is Ok <==> final(ctx).unfailed(old(ctx)),
    decreases *old(last_rendered), 2nat,
{
    match accept_rendered(rendered) {
        Ok(()) => diff_bounded(rendered, last_rendered, parent, path, index, ctx, depth),
        Err(e) => {
            ctx.note_malformed(rendered);
            Err(Error::Render(e))
        },
    }
}

/// Reconciles the new tree `curr` against the mounted tree `ancestor` that it
/// replaces at the same place.
///
/// What backs `ancestor` is carried over to `curr` wherever the two are
/// compatible; the driver is asked only for what differs, in the order that
/// `diff_calls` describes. Afterwards `curr` is the mounted tree and
/// `ancestor` is spent.
pub fn diff_node<D: Driver, C: Comp>(
    curr: &mut Node<D::Handle, C, C::Input>,
    ancestor: &mut Node<D::Handle, C, C::Input>,
    parent: Option<&D::Handle>,
    path: &Path,
    index: usize,
    ctx: &mut DriverCtx<D>,
) -> (r: Result<(), Error<D::Err>>)
    requires
        old(curr).fresh(),
        old(curr).well_formed(),
        old(ancestor).mounted(),
    ensures
        r is Ok ==> {
            &&& final(curr).mounted()
            &&& old(ancestor).faithful() ==> final(curr).faithful()
            &&& carried(*final(curr), *old(ancestor))
            &&& final(ctx).extends(
                old(ctx),
                diff_calls(*final(curr), *old(ancestor), deref_opt(parent), path@, index),
            )
        },
        r is Ok ==> final(ancestor).released(),
        r is Ok && (*old(curr)) is Comp && (*old(ancestor)) is Comp && !renders_again(
            *old(curr),
            *old(ancestor),
        ) ==> final(ancestor)->Comp_0.snapshot is Taken,
        final(curr).content() == old(curr).content(),
        final(ancestor).content() == old(ancestor).content(),
        final(ctx).follows(old(ctx)),
        r matches Err(Error::Driver(e)) ==> final(ctx).refused(old(ctx))
            && final(ctx).refused_with() == Some(e),
        r matches Err(Error::Render(e)) ==> final(ctx).faulted(old(ctx), e),
        r matches Err(Error::Render(_)) ==> old(curr).has_comp(),
        nothing_to_ask(*old(curr), *old(ancestor)) ==> r is Ok
            && final(ctx).calls() == old(ctx).calls(),
        renders_again(*old(curr), *old(ancestor)) && old(ctx).spec_render_depth() == 0 ==> r
            == Err::<(), Error<D::Err>>(Error::Render(RenderError::TooDeep))
            && final(ctx).calls() == old(ctx).calls(),
        renders_again(*old(curr), *old(ancestor)) && old(ctx).spec_render_depth() > 0
            ==> holds_rendering(*final(curr), old(ancestor)->Comp_0.state),
        r is Ok <==> final(ctx).unfailed(old(ctx)),
{
    let depth = ctx.render_depth();
    diff_bounded(curr, ancestor, parent, path, index, ctx, depth)
}

/// The requests that reconcile a place that may hold a node against what it
/// held: read off the new node as it is afterwards and the old one as it was
/// before.
pub open spec fn option_diff_calls<H, C: Comp>(
    curr: Option<Node<H, C, C::Input>>,
    ancestor: Option<Node<H, C, C::Input>>,
    parent: Option<H>,
    path: Seq<IdentView>,
    index: usize,
) -> Seq<Call<H>> {
    match (curr, ancestor) {
        (Some(c), Some(a)) => diff_calls(c, a, parent, path, index),
        (Some(c), None) => add_calls(c, parent, path, index),
        (None, Some(a)) => remove_calls(a, path),
        (None, None) => Seq::empty(),
    }
}

/// Reconciles a place that may hold a node against what it held: a node
/// against a node is reconciled, a node where there was none is mounted, a
/// node that is gone is unmounted, and nothing against nothing asks nothing.
pub fn diff<D: Driver, C: Comp>(
    curr: &mut Option<Node<D::Handle, C, C::Input>>,
    ancestor: &mut Option<Node<D::Handle, C, C::Input>>,
    parent: Option<&D::Handle>,
    path: &Path,
    index: usize,
    ctx: &mut DriverCtx<D>,
) -> (r: Result<(), Error<D::Err>>)
    requires
        (*old(curr)) matches Some(c) ==> c.fresh() && c.well_formed(),
        (*old(ancestor)) matches Some(a) ==> a.mounted(),
    ensures
        (*final(curr)) is Some == (*old(curr)) is Some,
        (*final(ancestor)) is Some == (*old(ancestor)) is Some,
        (*final(ancestor)) matches Some(a) ==> a.content() == (*old(ancestor))->0.content(),
        (*final(curr)) matches Some(c) ==> c.content() == (*old(curr))->0.content(),
        r is Ok ==> {
            &&& (*final(curr)) matches Some(c) ==> {
                &&& c.mounted()
                &&& ((*old(ancestor)) matches Some(a) ==> a.faithful()) ==> c.faithful()
                &&& match *old(ancestor) {
                    Some(a) => carried(c, a),
                    None => c.newly_mounted(),
                }
            }
            &&& (*old(ancestor)) is Some ==> ((*final(ancestor)) matches Some(a)
                && a.released())
            &&& final(ctx).extends(
                old(ctx),
                option_diff_calls(
                    *final(curr),
                    *old(ancestor),
                    deref_opt(parent),
                    path@,
                    index,
                ),
            )
        },
        (*old(curr)) is None && (*old(ancestor)) is None ==> r is Ok,
        match (*old(curr), *old(ancestor)) {
            (Some(c), Some(a)) => nothing_to_ask(c, a),
            _ => false,
        } ==> r is Ok && final(ctx).calls() == old(ctx).calls(),
        final(ctx).follows(old(ctx)),
        r matches Err(Error::Driver(e)) ==> final(ctx).refused(old(ctx))
            && final(ctx).refused_with() == Some(e),
        r matches Err(Error::Render(e)) ==> final(ctx).faulted(old(ctx), e),
        r matches Err(Error::Render(_)) ==> ((*old(curr)) matches Some(c) && c.has_comp()),
        r is Ok <==> final(ctx).unfailed(old(ctx)),
{
    match (curr, ancestor) {
        (Some(c), Some(a)) => diff_node(c, a, parent, path, index, ctx),
        (Some(c), None) => crate::mount::visit(c, parent, path, index, ctx),
        (None, Some(a)) => {
            match remove(a, path, ctx) {
                Ok(()) => Ok(()),
                Err(e) => Err(e),
            }
        },
        (None, None) => {
            assert(ctx.calls() =~= old(ctx).calls() + Seq::<Call<D::Handle>>::empty());
            Ok(())
        },
    }
}

} // verus!
