//! Bringing a mounted tree up to date after components have updated their
//! own state.
use crate::comp::{holds_rendering, snapshot_of_now, Comp};
use crate::diff::{carried, diff_calls, diff_rendered};
use crate::driver::{deref_opt, Call, Driver, DriverCtx, Error, RenderError};
use crate::node::{lemma_same_content, CompNode, Node, Snapshot, Tag};
use crate::path::{IdentView, Path};
use vstd::prelude::*;

verus! {

/// Whether the component's policy asks for a new rendering, now that the
/// component holds the state that it holds beside what it rendered last.
pub open spec fn stale<H, C: Comp>(c: CompNode<H, C, C::Input>) -> bool {
    match (c.state, c.snapshot) {
        (Some(state), Snapshot::Rendered { state: last, input: last_input, .. }) =>
            C::rerender_spec(&last, &state, &last_input, &c.input),
        _ => false,
    }
}

/// Whether no component in the tree is stale, nor any in what the components
/// of the tree have rendered.
pub open spec fn settled<H, C: Comp>(node: Node<H, C, C::Input>) -> bool
    decreases node,
{
    match node {
        Node::Tag(t) => forall|i: int|
            0 <= i < t.children.len() ==> settled((#[trigger] t.children[i]).node),
        Node::Text(_) => true,
        Node::Comp(c) => !stale(c) && match c.snapshot {
            Snapshot::Rendered { rendered, .. } => settled(*rendered),
            _ => true,
        },
    }
}

/// Whether `after` is `before` brought up to date: what backs it and the
/// states of its components are those of `before`; a stale component holds a
/// snapshot taken of its state and its input, whose tree took over what
/// backed the tree rendered before; any other component holds the snapshot
/// that it held, brought up to date in its turn.
pub open spec fn brought_up<H, C: Comp>(
    after: Node<H, C, C::Input>,
    before: Node<H, C, C::Input>,
) -> bool
    decreases before,
{
    match (after, before) {
        (Node::Tag(a), Node::Tag(b)) => a.store == b.store && a.children.len()
            == b.children.len() && forall|i: int|
            0 <= i < b.children.len() ==> brought_up(
                (#[trigger] a.children[i]).node,
                b.children[i].node,
            ),
        (Node::Text(a), Node::Text(b)) => a.store == b.store,
        (Node::Comp(a), Node::Comp(b)) => a.state == b.state && match (a.snapshot, b.snapshot) {
            (
                Snapshot::Rendered { state, input, rendered },
                Snapshot::Rendered { state: last, input: last_input, rendered: last_rendered },
            ) => if stale(b) {
                snapshot_of_now(a) && carried(*rendered, *last_rendered)
            } else {
                state == last && input == last_input && brought_up(*rendered, *last_rendered)
            },
            _ => false,
        },
        _ => false,
    }
}

/// The requests that bring a mounted tree up to date: read off the tree as
/// it is afterwards and as it was before.
///
/// A stale component renders again, and what it rendered is reconciled
/// against what it had rendered. Anything else asks only what the stale
/// components below it ask.
pub open spec fn refresh_calls<H, C: Comp>(
    after: Node<H, C, C::Input>,
    before: Node<H, C, C::Input>,
    parent: Option<H>,
    path: Seq<IdentView>,
    index: usize,
) -> Seq<Call<H>>
    decreases before, 0nat,
{
    match (after, before) {
        (Node::Tag(a), Node::Tag(b)) => match b.store {
            Some(h) => children_refresh_calls(a, b, h, path, b.children.len() as nat),
            None => Seq::empty(),
        },
        (Node::Comp(a), Node::Comp(b)) => match (a.snapshot, b.snapshot) {
            (
                Snapshot::Rendered { rendered, .. },
                Snapshot::Rendered { rendered: last_rendered, .. },
            ) => if stale(b) {
                diff_calls(*rendered, *last_rendered, parent, path, index)
            } else {
                refresh_calls(*rendered, *last_rendered, parent, path, index)
            },
            _ => Seq::empty(),
        },
        _ => Seq::empty(),
    }
}

/// The requests that bring the first `n` children of a mounted tag up to
/// date.
pub open spec fn children_refresh_calls<H, C: Comp>(
    a: Tag<H, C, C::Input>,
    b: Tag<H, C, C::Input>,
    parent: H,
    path: Seq<IdentView>,
    n: nat,
) -> Seq<Call<H>>
    decreases b, n,
{
    if n == 0 || n > b.children.len() || n > a.children.len() {
        Seq::empty()
    } else {
        children_refresh_calls(a, b, parent, path, (n - 1) as nat) + refresh_calls(
            a.children[n - 1].node,
            b.children[n - 1].node,
            Some(parent),
            path.push(b.children[n - 1].ident@),
            (n - 1) as usize,
        )
    }
}

/// The requests that bring the first `n` children up to date depend on those
/// children alone.
pub proof fn lemma_children_refresh_calls_frame<H, C: Comp>(
    a1: Tag<H, C, C::Input>,
    a2: Tag<H, C, C::Input>,
    b: Tag<H, C, C::Input>,
    parent: H,
    path: Seq<IdentView>,
    n: nat,
)
    requires
        n <= a1.children.len(),
        n <= a2.children.len(),
        forall|j: int| 0 <= j < n ==> a1.children[j] == a2.children[j],
    ensures
        children_refresh_calls(a1, b, parent, path, n) == children_refresh_calls(
            a2,
            b,
            parent,
            path,
            n,
        ),
    decreases n,
{
    if n > 0 {
        lemma_children_refresh_calls_frame(a1, a2, b, parent, path, (n - 1) as nat);
    }
}

/// Brings the children of a mounted tag up to date, in their order.
fn refresh_children<D: Driver, C: Comp>(
    t: &mut Tag<D::Handle, C, C::Input>,
    path: &Path,
    ctx: &mut DriverCtx<D>,
    depth: usize,
) -> (r: Result<(), Error<D::Err>>)
    requires
        Node::Tag(*old(t)).mounted(),
    ensures
        r is Ok ==> {
            &&& forall|j: int|
                0 <= j < old(t).children.len() ==> {
                    &&& (#[trigger] final(t).children[j]).node.mounted()
                    &&& brought_up(final(t).children[j].node, old(t).children[j].node)
                }
            &&& Node::Tag(*old(t)).faithful() ==> forall|j: int|
                0 <= j < old(t).children.len() ==> (
                #[trigger] final(t).children[j]).node.faithful()
            &&& final(ctx).extends(
                old(ctx),
                children_refresh_calls(
                    *final(t),
                    *old(t),
                    old(t).store->0,
                    path@,
                    old(t).children.len() as nat,
                ),
            )
        },
        final(t).children.len() == old(t).children.len(),
        forall|j: int|
            0 <= j < old(t).children.len() ==> (#[trigger] final(t).children[j]).ident == old(
                t,
            ).children[j].ident && final(t).children[j].node.content() == old(
                t,
            ).children[j].node.content(),
        final(t).tag == old(t).tag,
        final(t).is_static == old(t).is_static,
        final(t).attrs == old(t).attrs,
        final(t).store == old(t).store,
        final(ctx).follows(old(ctx)),
        r matches Err(Error::Driver(e)) ==> final(ctx).refused(old(ctx))
            && final(ctx).refused_with() == Some(e),
        r matches Err(Error::Render(e)) ==> final(ctx).faulted(old(ctx), e),
        r matches Err(Error::Render(_)) ==> !settled(Node::Tag(*old(t))),
        settled(Node::Tag(*old(t))) ==> r is Ok && final(ctx).calls() == old(ctx).calls(),
    decreases *old(t), 0nat,
{
    let ghost t0 = *t;
    let ghost before = Node::Tag(t0);
    let ghost ctx0 = *ctx;
    match t.store.as_ref() {
        Some(h) => {
            let mut i: usize = 0;
            assert(ctx.calls() =~= ctx0.calls() + children_refresh_calls(*t, t0, *h, path@, 0));
            while i < t.children.len()
                invariant
                    0 <= i <= t.children.len(),
                    before == Node::Tag(t0),
                    t0 == *old(t),
                    ctx0 == *old(ctx),
                    before.mounted(),
                    t.children.len() == t0.children.len(),
                    t.tag == t0.tag,
                    t.is_static == t0.is_static,
                    t.attrs == t0.attrs,
                    t.store == t0.store,
                    t0.store == Some(*h),
                    forall|j: int|
                        0 <= j < t.children.len() ==> (#[trigger] t.children[j]).ident
                            == t0.children[j].ident && t.children[j].node.content()
                            == t0.children[j].node.content(),
                    forall|j: int|
                        0 <= j < i ==> {
                            &&& (#[trigger] t.children[j]).node.mounted()
                            &&& brought_up(t.children[j].node, t0.children[j].node)
                        },
                    before.faithful() ==> forall|j: int|
                        0 <= j < i ==> (#[trigger] t.children[j]).node.faithful(),
                    forall|j: int| i <= j < t.children.len() ==> t.children[j] == t0.children[j],
                    ctx.extends(&ctx0, children_refresh_calls(*t, t0, *h, path@, i as nat)),
                    settled(before) ==> ctx.calls() == ctx0.calls(),
                decreases t.children.len() - i,
            {
                let ghost t1 = *t;
                let ghost ctx1 = *ctx;
                let ghost done = children_refresh_calls(t1, t0, *h, path@, i as nat);
                proof {
                    ctx1.lemma_extends_follows(&ctx0, done);
                }
                let child = &mut t.children[i];
                let child_path = path.push(child.ident.clone());
                let r = refresh_bounded(&mut child.node, Some(h), &child_path, i, ctx, depth);
                proof {
                    ctx.lemma_follows(&ctx1, &ctx0);
                    if r matches Err(Error::Render(_)) {
                        assert(!settled(t0.children[i as int].node));
                    }
                }
                match r {
                    Ok(()) => {},
                    Err(e) => {
                        return Err(e);
                    },
                }
                proof {
                    lemma_children_refresh_calls_frame(t1, *t, t0, *h, path@, i as nat);
                    ctx.lemma_extends(
                        &ctx1,
                        &ctx0,
                        done,
                        refresh_calls(
                            t.children[i as int].node,
                            t0.children[i as int].node,
                            Some(*h),
                            child_path@,
                            i,
                        ),
                    );
                }
                i += 1;
            }
            proof {
                ctx.lemma_extends_follows(
                    &ctx0,
                    children_refresh_calls(*t, t0, *h, path@, t0.children.len() as nat),
                );
            }
            Ok(())
        },
        None => Ok(()),
    }
}

/// Brings a mounted tree up to date, with components rendering components
/// at most `depth` deep.
fn refresh_bounded<D: Driver, C: Comp>(
    node: &mut Node<D::Handle, C, C::Input>,
    parent: Option<&D::Handle>,
    path: &Path,
    index: usize,
    ctx: &mut DriverCtx<D>,
    depth: usize,
) -> (r: Result<(), Error<D::Err>>)
    requires
        old(node).mounted(),
    ensures
        r is Ok ==> {
            &&& final(node).mounted()
            &&& old(node).faithful() ==> final(node).faithful()
            &&& brought_up(*final(node), *old(node))
            &&& final(ctx).extends(
                old(ctx),
                refresh_calls(*final(node), *old(node), deref_opt(parent), path@, index),
            )
        },
        final(node).content() == old(node).content(),
        final(ctx).follows(old(ctx)),
        r matches Err(Error::Driver(e)) ==> final(ctx).refused(old(ctx))
            && final(ctx).refused_with() == Some(e),
        r matches Err(Error::Render(e)) ==> final(ctx).faulted(old(ctx), e),
        r matches Err(Error::Render(_)) ==> !settled(*old(node)),
        settled(*old(node)) ==> r is Ok && final(ctx).calls() == old(ctx).calls(),
        (*old(node)) matches Node::Comp(c) && stale(c) && depth == 0 ==> r == Err::<
            (),
            Error<D::Err>,
        >(Error::Render(RenderError::TooDeep)) && final(ctx).calls() == old(ctx).calls(),
        (*old(node)) is Comp && stale(old(node)->Comp_0) && depth > 0 ==> holds_rendering(
            *final(node),
            old(node)->Comp_0.state,
        ),
        r is Ok <==> final(ctx).unfailed(old(ctx)),
    decreases *old(node), 1nat,
{
    let ghost before = *node;
    let ghost ctx0 = *ctx;
    match node {
        Node::Tag(t) => {
            let ghost t0 = *t;
            assert(before->Tag_0 == t0);
            let r = refresh_children(t, path, ctx, depth);
            proof {
                lemma_same_content(*t, t0);
            }
            r
        },
        Node::Text(_) => {
            assert(ctx.calls() =~= ctx0.calls() + Seq::<Call<D::Handle>>::empty());
            Ok(())
        },
        Node::Comp(c) => {
            let ghost c0 = *c;
            assert(before->Comp_0 == c0);
            let rerender = match (&c.state, &c.snapshot) {
                (Some(state), Snapshot::Rendered { state: last, input: last_input, .. }) =>
                    C::should_rerender(last, state, last_input, &c.input),
                _ => false,
            };
            if !rerender {
                match &mut c.snapshot {
                    Snapshot::Rendered { rendered, .. } => refresh_bounded(
                        rendered,
                        parent,
                        path,
                        index,
                        ctx,
                        depth,
                    ),
                    _ => Ok(()),
                }
            } else {
                if depth == 0 {
                    ctx.note_too_deep(c, depth);
                    return Err(Error::Render(RenderError::TooDeep));
                }
                let (snap_state, snap_input) = match &c.state {
                    Some(state) => (state.clone(), c.input.clone()),
                    None => {
                        return Ok(());
                    },
                };
                let rendered: Node<D::Handle, C, C::Input> = snap_state.render(&snap_input);
                let mut last = Snapshot::Rendered {
                    state: snap_state,
                    input: snap_input,
                    rendered: Box::new(rendered),
                };
                core::mem::swap(&mut c.snapshot, &mut last);
                match (&mut c.snapshot, &mut last) {
                    (
                        Snapshot::Rendered { rendered, .. },
                        Snapshot::Rendered { rendered: last_rendered, .. },
                    ) => {
                        assert(c0.snapshot->Rendered_rendered == *last_rendered);
                        diff_rendered(
                            rendered,
                            last_rendered,
                            parent,
                            path,
                            index,
                            ctx,
                            (depth - 1) as usize,
                        )
                    },
                    _ => Ok(()),
                }
            }
        },
    }
}

/// Brings a mounted tree up to date after components in it have updated
/// their own state: each stale component renders again, and what it
/// rendered is reconciled in place against what it had rendered. A tree
/// without a stale component asks nothing of the driver.
pub fn refresh<D: Driver, C: Comp>(
    node: &mut Node<D::Handle, C, C::Input>,
    parent: Option<&D::Handle>,
    path: &Path,
    index: usize,
    ctx: &mut DriverCtx<D>,
) -> (r: Result<(), Error<D::Err>>)
    requires
        old(node).mounted(),
    ensures
        r is Ok ==> {
            &&& final(node).mounted()
            &&& old(node).faithful() ==> final(node).faithful()
            &&& brought_up(*final(node), *old(node))
            &&& final(ctx).extends(
                old(ctx),
                refresh_calls(*final(node), *old(node), deref_opt(parent), path@, index),
            )
        },
        final(node).content() == old(node).content(),
        final(ctx).follows(old(ctx)),
        r matches Err(Error::Driver(e)) ==> final(ctx).refused(old(ctx))
            && final(ctx).refused_with() == Some(e),
        r matches Err(Error::Render(e)) ==> final(ctx).faulted(old(ctx), e),
        r matches Err(Error::Render(_)) ==> !settled(*old(node)),
        settled(*old(node)) ==> r is Ok && final(ctx).calls() == old(ctx).calls(),
        (*old(node)) matches Node::Comp(c) && stale(c) && old(ctx).spec_render_depth() == 0
            ==> r == Err::<(), Error<D::Err>>(Error::Render(RenderError::TooDeep))
            && final(ctx).calls() == old(ctx).calls(),
        (*old(node)) is Comp && stale(old(node)->Comp_0) && old(ctx).spec_render_depth() > 0
            ==> holds_rendering(*final(node), old(node)->Comp_0.state),
        r is Ok <==> final(ctx).unfailed(old(ctx)),
{
    let depth = ctx.render_depth();
    refresh_bounded(node, parent, path, index, ctx, depth)
}

} // verus!
