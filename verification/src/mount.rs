//! Mounting a new tree and unmounting a mounted one.
use crate::attr::AttrListEntry;
use crate::calls::{
    add_calls, attr_add_call, attrs_add_calls, children_add_calls, children_remove_calls,
    lemma_children_add_calls_frame, remove_calls,
};
use crate::comp::{holds_rendering, Comp};
use crate::driver::{deref_opt, Call, Driver, DriverCtx, Error, RenderError};
use crate::node::{lemma_same_content, Node, Snapshot, Tag};
use crate::path::Path;
use vstd::prelude::*;

verus! {

/// Sets the attributes of a new element, in the list's order; an absent one
/// is passed over.
pub fn visit_attrs<D: Driver>(
    attrs: &Vec<AttrListEntry>,
    target: &D::Handle,
    path: &Path,
    ctx: &mut DriverCtx<D>,
) -> (r: Result<(), Error<D::Err>>)
    ensures
        r is Ok ==> final(ctx).extends(
            old(ctx),
            attrs_add_calls(attrs@, *target, path@, attrs.len() as nat),
        ),
        final(ctx).follows(old(ctx)),
        r matches Err(Error::Driver(e)) ==> final(ctx).refused(old(ctx))
            && final(ctx).refused_with() == Some(e),
        !(r matches Err(Error::Render(_))),
        r is Ok <==> final(ctx).unfailed(old(ctx)),
{
    let ghost ctx0 = *ctx;
    let mut i: usize = 0;
    assert(ctx.calls() =~= ctx0.calls() + attrs_add_calls(attrs@, *target, path@, 0));
    while i < attrs.len()
        invariant
            0 <= i <= attrs.len(),
            ctx0 == *old(ctx),
            ctx.extends(&ctx0, attrs_add_calls(attrs@, *target, path@, i as nat)),
        decreases attrs.len() - i,
    {
        let ghost ctx1 = *ctx;
        proof {
            ctx1.lemma_extends_follows(&ctx0, attrs_add_calls(attrs@, *target, path@, i as nat));
        }
        match attrs[i].effective() {
            Some(value) => {
                let r = ctx.set_attribute(path, target, attrs[i].name(), value);
                proof {
                    ctx.lemma_step(
                        &ctx1,
                        &ctx0,
                        attrs_add_calls(attrs@, *target, path@, i as nat),
                        attr_add_call(attrs@[i as int]@, *target, path@),
                        r is Ok,
                    );
                }
                match r {
                    Ok(()) => {},
                    Err(e) => {
                        return Err(e);
                    },
                }
            },
            None => {
                assert(attrs_add_calls(attrs@, *target, path@, (i + 1) as nat) =~= attrs_add_calls(
                    attrs@,
                    *target,
                    path@,
                    i as nat,
                ));
            },
        }
        i += 1;
    }
    proof {
        ctx.lemma_extends_follows(
            &ctx0,
            attrs_add_calls(attrs@, *target, path@, attrs.len() as nat),
        );
    }
    Ok(())
}

/// Whether a component has rendered a tree that can be mounted: a new one,
/// in which no two siblings share an identity.
pub fn accept_rendered<H, C, I>(rendered: &Node<H, C, I>) -> (r: Result<(), RenderError>)
    ensures
        r is Ok == (rendered.fresh() && rendered.well_formed()),
        r matches Err(e) ==> e == RenderError::Malformed,
{
    if rendered.is_fresh() && rendered.is_well_formed() {
        Ok(())
    } else {
        Err(RenderError::Malformed)
    }
}

/// Mounts the children of a new element under `parent`, which backs it.
fn visit_children<D: Driver, C: Comp>(
    t: &mut Tag<D::Handle, C, C::Input>,
    parent: &D::Handle,
    path: &Path,
    ctx: &mut DriverCtx<D>,
    depth: usize,
) -> (r: Result<(), Error<D::Err>>)
    requires
        Node::Tag(*old(t)).fresh(),
        Node::Tag(*old(t)).well_formed(),
    ensures
        r is Ok ==> {
            &&& final(t).children.len() == old(t).children.len()
            &&& forall|j: int|
                0 <= j < old(t).children.len() ==> {
                    &&& (#[trigger] final(t).children[j]).ident == old(t).children[j].ident
                    &&& final(t).children[j].node.mounted()
                    &&& final(t).children[j].node.newly_mounted()
                    &&& final(t).children[j].node.faithful()
                    &&& final(t).children[j].node.content() == old(t).children[j].node.content()
                }
            &&& final(ctx).extends(
                old(ctx),
                children_add_calls(*final(t), *parent, path@, old(t).children.len() as nat),
            )
        },
        final(t).children.len() == old(t).children.len(),
        forall|j: int|
            0 <= j < old(t).children.len() ==> (#[trigger] final(t).children[j]).ident == old(
                t,
            ).children[j].ident && final(t).children[j].node.content() == old(
                t,
            ).children[j].node.content(),
        final(t).tag == old(t).tag,
        final(t).is_static == old(t).is_static,
        final(t).attrs == old(t).attrs,
        final(t).store == old(t).store,
        final(ctx).follows(old(ctx)),
        r matches Err(Error::Driver(e)) ==> final(ctx).refused(old(ctx))
            && final(ctx).refused_with() == Some(e),
        r matches Err(Error::Render(e)) ==> final(ctx).faulted(old(ctx), e),
        r matches Err(Error::Render(_)) ==> Node::Tag(*old(t)).has_comp(),
    decreases depth, *old(t), 0nat,
{
    let ghost t0 = *t;
    let ghost ctx0 = *ctx;
    let mut i: usize = 0;
    assert(ctx.calls() =~= ctx0.calls() + children_add_calls(*t, *parent, path@, 0));
    while i < t.children.len()
        invariant
            0 <= i <= t.children.len(),
            t0 == *old(t),
            ctx0 == *old(ctx),
            Node::Tag(t0).fresh(),
            Node::Tag(t0).well_formed(),
            t.children.len() == t0.children.len(),
            t.tag == t0.tag,
            t.is_static == t0.is_static,
            t.attrs == t0.attrs,
            t.store == t0.store,
            forall|j: int|
                0 <= j < i ==> {
                    &&& (#[trigger] t.children[j]).ident == t0.children[j].ident
                    &&& t.children[j].node.mounted()
                    &&& t.children[j].node.newly_mounted()
                    &&& t.children[j].node.faithful()
                    &&& t.children[j].node.content() == t0.children[j].node.content()
                },
            forall|j: int| i <= j < t.children.len() ==> t.children[j] == t0.children[j],
            forall|j: int|
                0 <= j < t.children.len() ==> (#[trigger] t.children[j]).ident
                    == t0.children[j].ident && t.children[j].node.content()
                    == t0.children[j].node.content(),
            ctx.extends(&ctx0, children_add_calls(*t, *parent, path@, i as nat)),
        decreases t.children.len() - i,
    {
        let ghost t1 = *t;
        let ghost ctx1 = *ctx;
        proof {
            ctx1.lemma_extends_follows(&ctx0, children_add_calls(t1, *parent, path@, i as nat));
        }
        let child = &mut t.children[i];
        let child_path = path.push(child.ident.clone());
        let r = visit_node(&mut child.node, Some(parent), &child_path, i, ctx, depth);
        proof {
            ctx.lemma_follows(&ctx1, &ctx0);
            if r matches Err(Error::Render(_)) {
                assert(t0.children[i as int].node.has_comp());
            }
        }
        match r {
            Ok(()) => {},
            Err(e) => {
                return Err(e);
            },
        }
        proof {
            lemma_children_add_calls_frame(t1, *t, *parent, path@, i as nat);
            ctx.lemma_extends(
                &ctx1,
                &ctx0,
                children_add_calls(t1, *parent, path@, i as nat),
                add_calls(t.children[i as int].node, Some(*parent), child_path@, i),
            );
        }
        i += 1;
    }
    proof {
        ctx.lemma_extends_follows(
            &ctx0,
            children_add_calls(*t, *parent, path@, t.children.len() as nat),
        );
    }
    Ok(())
}

/// Mounts a new tree, with components rendering components at most `depth`
/// deep.
pub(crate) fn visit_node<D: Driver, C: Comp>(
    node: &mut Node<D::Handle, C, C::Input>,
    parent: Option<&D::Handle>,
    path: &Path,
    index: usize,
    ctx: &mut DriverCtx<D>,
    depth: usize,
) -> (r: Result<(), Error<D::Err>>)
    requires
        old(node).fresh(),
        old(node).well_formed(),
    ensures
        r is Ok ==> {
            &&& final(node).mounted()
            &&& final(node).newly_mounted()
            &&& final(node).faithful()
            &&& final(ctx).extends(
                old(ctx),
                add_calls(*final(node), deref_opt(parent), path@, index),
            )
        },
        final(node).content() == old(node).content(),
        final(ctx).follows(old(ctx)),
        r matches Err(Error::Driver(e)) ==> final(ctx).refused(old(ctx))
            && final(ctx).refused_with() == Some(e),
        r matches Err(Error::Render(e)) ==> final(ctx).faulted(old(ctx), e),
        r matches Err(Error::Render(_)) ==> old(node).has_comp(),
        (*old(node)) is Comp && depth == 0 ==> r == Err::<(), Error<D::Err>>(
            Error::Render(RenderError::TooDeep),
        ) && final(ctx).calls() == old(ctx).calls(),
        (*old(node)) is Comp && depth > 0 ==> holds_rendering(
            *final(node),
            Some(C::new_spec(&old(node)->Comp_0.input)),
        ),
        r is Ok <==> final(ctx).unfailed(old(ctx)),
    decreases depth, *old(node), 1nat,
{
    let ghost before = *node;
    let ghost ctx0 = *ctx;
    match node {
        Node::Tag(t) => {
            let ghost t0 = *t;
            assert(before->Tag_0 == t0);
            let h = match ctx.create_element(path, t.tag.as_str()) {
                Ok(h) => h,
                Err(e) => {
                    return Err(e);
                },
            };
            let ghost ctx1 = *ctx;
            let ghost created = seq![
                Call::CreateElement { path: path@, tag: t0.tag@, made: Some(h) },
            ];
            let r = visit_attrs(&t.attrs, &h, path, ctx);
            let ghost ctx2 = *ctx;
            proof {
                ctx1.lemma_extends_follows(&ctx0, created);
                ctx2.lemma_follows(&ctx1, &ctx0);
            }
            match r {
                Ok(()) => {},
                Err(e) => {
                    return Err(e);
                },
            }
            let ghost attrs = attrs_add_calls(t0.attrs@, h, path@, t0.attrs.len() as nat);
            proof {
                ctx2.lemma_extends(&ctx1, &ctx0, created, attrs);
            }
            let r = visit_children(t, &h, path, ctx, depth);
            let ghost ctx3 = *ctx;
            proof {
                ctx3.lemma_follows(&ctx2, &ctx0);
                lemma_same_content(*t, t0);
            }
            match r {
                Ok(()) => {},
                Err(e) => {
                    return Err(e);
                },
            }
            let ghost t3 = *t;
            let ghost kids = children_add_calls(t3, h, path@, t0.children.len() as nat);
            proof {
                ctx3.lemma_extends(&ctx2, &ctx0, created + attrs, kids);
            }
            let r = ctx.insert(path, parent, &h, index);
            let ghost attach = seq![
                Call::Insert { path: path@, parent: deref_opt(parent), child: h, index },
            ];
            proof {
                ctx.lemma_step(&ctx3, &ctx0, created + attrs + kids, attach, r is Ok);
            }
            match r {
                Ok(()) => {},
                Err(e) => {
                    return Err(e);
                },
            }
            t.store = Some(h);
            proof {
                lemma_children_add_calls_frame(t3, *t, h, path@, t0.children.len() as nat);
                lemma_same_content(*t, t0);
            }
            Ok(())
        },
        Node::Text(x) => {
            let h = match ctx.create_text(path, x.text.as_str()) {
                Ok(h) => h,
                Err(e) => {
                    return Err(e);
                },
            };
            let ghost ctx1 = *ctx;
            let r = ctx.insert(path, parent, &h, index);
            proof {
                ctx.lemma_step(
                    &ctx1,
                    &ctx0,
                    seq![Call::CreateText { path: path@, text: x.text@, made: Some(h) }],
                    seq![Call::Insert { path: path@, parent: deref_opt(parent), child: h, index }],
                    r is Ok,
                );
            }
            match r {
                Ok(()) => {},
                Err(e) => {
                    return Err(e);
                },
            }
            x.store = Some(h);
            assert(add_calls(
                Node::<D::Handle, C, C::Input>::Text(*x),
                deref_opt(parent),
                path@,
                index,
            ) =~= seq![Call::CreateText { path: path@, text: x.text@, made: Some(h) }] + seq![
                Call::Insert { path: path@, parent: deref_opt(parent), child: h, index },
            ]);
            Ok(())
        },
        Node::Comp(c) => {
            if depth == 0 {
                ctx.note_too_deep(c, depth);
                return Err(Error::Render(RenderError::TooDeep));
            }
            let state = C::new(&c.input);
            let snap_state = state.clone();
            let snap_input = c.input.clone();
            let rendered: Node<D::Handle, C, C::Input> = snap_state.render(&snap_input);
            c.state = Some(state);
            c.snapshot = Snapshot::Rendered {
                state: snap_state,
                input: snap_input,
                rendered: Box::new(rendered),
            };
            match &mut c.snapshot {
                Snapshot::Rendered { rendered, .. } => mount_rendered(
                    rendered,
                    parent,
                    path,
                    index,
                    ctx,
                    depth - 1,
                ),
                _ => Ok(()),
            }
        },
    }
}

/// Mounts what a component has rendered, with components rendering
/// components at most `depth` deep below it: a rendering that is not a new
/// tree, or not a well-formed one, is a fault and nothing is asked of the
/// driver; any other is mounted as a new tree is.
pub fn mount_rendered<D: Driver, C: Comp>(
    rendered: &mut Node<D::Handle, C, C::Input>,
    parent: Option<&D::Handle>,
    path: &Path,
    index: usize,
    ctx: &mut DriverCtx<D>,
    depth: usize,
) -> (r: Result<(), Error<D::Err>>)
    ensures
        !(old(rendered).fresh() && old(rendered).well_formed()) ==> r == Err::<
            (),
            Error<D::Err>,
        >(Error::Render(RenderError::Malformed)) && final(ctx).calls() == old(ctx).calls(),
        old(rendered).fresh() && old(rendered).well_formed() ==> {
            &&& r is Ok ==> {
                &&& final(rendered).mounted()
                &&& final(rendered).newly_mounted()
                &&& final(rendered).faithful()
                &&& final(ctx).extends(
                    old(ctx),
                    add_calls(*final(rendered), deref_opt(parent), path@, index),
                )
            }
            &&& r matches Err(Error::Render(_)) ==> old(rendered).has_comp()
            &&& (*old(rendered)) is Comp && depth == 0 ==> r == Err::<(), Error<D::Err>>(
                Error::Render(RenderError::TooDeep),
            ) && final(ctx).calls() == old(ctx).calls()
        },
        final(rendered).content() == old(rendered).content(),
        final(ctx).follows(old(ctx)),
        r matches Err(Error::Driver(e)) ==> final(ctx).refused(old(ctx))
            && final(ctx).refused_with() == Some(e),
        r matches Err(Error::Render(e)) ==> final(ctx).faulted(old(ctx), e),
        r is Ok <==> final(ctx).unfailed(old(ctx)),
    decreases depth, *old(rendered), 2nat,
{
    match accept_rendered(rendered) {
        Ok(()) => visit_node(rendered, parent, path, index, ctx, depth),
        Err(e) => {
            ctx.note_malformed(rendered);
            Err(Error::Render(e))
        },
    }
}

/// Mounts a new tree as the child at `index` of `parent`, or of the root
/// where `parent` is `None`: every node of it is added.
///
/// Each tag and text gets a backing resource, whose handle its store then
/// holds; each component is given its state and renders. The requests arrive
/// in the order that `add_calls` describes.
pub fn visit<D: Driver, C: Comp>(
    node: &mut Node<D::Handle, C, C::Input>,
    parent: Option<&D::Handle>,
    path: &Path,
    index: usize,
    ctx: &mut DriverCtx<D>,
) -> (r: Result<(), Error<D::Err>>)
    requires
        old(node).fresh(),
        old(node).well_formed(),
    ensures
        r is Ok ==> {
            &&& final(node).mounted()
            &&& final(node).newly_mounted()
            &&& final(node).faithful()
            &&& final(ctx).extends(
                old(ctx),
                add_calls(*final(node), deref_opt(parent), path@, index),
            )
        },
        final(node).content() == old(node).content(),
        final(ctx).follows(old(ctx)),
        r matches Err(Error::Driver(e)) ==> final(ctx).refused(old(ctx))
            && final(ctx).refused_with() == Some(e),
        r matches Err(Error::Render(e)) ==> final(ctx).faulted(old(ctx), e),
        r matches Err(Error::Render(_)) ==> old(node).has_comp(),
        (*old(node)) is Comp && old(ctx).spec_render_depth() == 0 ==> r == Err::<
            (),
            Error<D::Err>,
        >(Error::Render(RenderError::TooDeep)) && final(ctx).calls() == old(ctx).calls(),
        (*old(node)) is Comp && old(ctx).spec_render_depth() > 0 ==> holds_rendering(
            *final(node),
            Some(C::new_spec(&old(node)->Comp_0.input)),
        ),
        r is Ok <==> final(ctx).unfailed(old(ctx)),
{
    let depth = ctx.render_depth();
    visit_node(node, parent, path, index, ctx, depth)
}

/// Unmounts the children of a mounted tag, in their order.
fn remove_children<D: Driver, C, I>(
    t: &mut Tag<D::Handle, C, I>,
    path: &Path,
    ctx: &mut DriverCtx<D>,
) -> (r: Result<(), Error<D::Err>>)
    requires
        Node::Tag(*old(t)).mounted(),
    ensures
        r is Ok ==> {
            &&& forall|j: int|
                0 <= j < old(t).children.len() ==> (#[trigger] final(t).children[j]).node.released()
                    && final(t).children[j].node.released_from(&old(t).children[j].node)
            &&& final(ctx).extends(
                old(ctx),
                children_remove_calls(*old(t), path@, old(t).children.len() as nat),
            )
        },
        final(t).children.len() == old(t).children.len(),
        forall|j: int|
            0 <= j < old(t).children.len() ==> (#[trigger] final(t).children[j]).ident == old(
                t,
            ).children[j].ident && final(t).children[j].node.content() == old(
                t,
            ).children[j].node.content(),
        final(t).tag == old(t).tag,
        final(t).is_static == old(t).is_static,
        final(t).attrs == old(t).attrs,
        final(t).store == old(t).store,
        final(ctx).follows(old(ctx)),
        r matches Err(Error::Driver(e)) ==> final(ctx).refused(old(ctx))
            && final(ctx).refused_with() == Some(e),
        !(r matches Err(Error::Render(_))),
        r is Ok <==> final(ctx).unfailed(old(ctx)),
    decreases *old(t), 0nat,
{
    let ghost t0 = *t;
    let ghost ctx0 = *ctx;
    let mut i: usize = 0;
    assert(ctx.calls() =~= ctx0.calls() + children_remove_calls(t0, path@, 0));
    while i < t.children.len()
        invariant
            0 <= i <= t.children.len(),
            t0 == *old(t),
            ctx0 == *old(ctx),
            Node::Tag(t0).mounted(),
            t.children.len() == t0.children.len(),
            t.store == t0.store,
            t.tag == t0.tag,
            t.is_static == t0.is_static,
            t.attrs == t0.attrs,
            forall|j: int|
                0 <= j < t.children.len() ==> (#[trigger] t.children[j]).ident
                    == t0.children[j].ident && t.children[j].node.content()
                    == t0.children[j].node.content(),
            forall|j: int|
                0 <= j < i ==> (#[trigger] t.children[j]).node.released()
                    && t.children[j].node.released_from(&t0.children[j].node),
            forall|j: int| i <= j < t.children.len() ==> t.children[j] == t0.children[j],
            ctx.extends(&ctx0, children_remove_calls(t0, path@, i as nat)),
        decreases t.children.len() - i,
    {
        let ghost ctx1 = *ctx;
        let child = &mut t.children[i];
        let child_path = path.push(child.ident.clone());
        let r = remove(&mut child.node, &child_path, ctx);
        proof {
            ctx1.lemma_extends_follows(&ctx0, children_remove_calls(t0, path@, i as nat));
            ctx.lemma_follows(&ctx1, &ctx0);
        }
        match r {
            Ok(()) => {},
            Err(e) => {
                return Err(e);
            },
        }
        proof {
            ctx.lemma_extends(
                &ctx1,
                &ctx0,
                children_remove_calls(t0, path@, i as nat),
                remove_calls(t0.children[i as int].node, child_path@),
            );
        }
        i += 1;
    }
    proof {
        ctx.lemma_extends_follows(
            &ctx0,
            children_remove_calls(t0, path@, t0.children.len() as nat),
        );
    }
    Ok(())
}

/// Unmounts a mounted tree: the children of an element first, the element
/// itself last. Every handle in the tree is given up to the driver; what the
/// tree describes, and what its components hold, stays.
pub fn remove<D: Driver, C, I>(
    node: &mut Node<D::Handle, C, I>,
    path: &Path,
    ctx: &mut DriverCtx<D>,
) -> (r: Result<(), Error<D::Err>>)
    requires
        old(node).mounted(),
    ensures
        r is Ok ==> final(node).released() && final(node).released_from(old(node))
            && final(ctx).extends(old(ctx), remove_calls(*old(node), path@)),
        final(node).content() == old(node).content(),
        final(ctx).follows(old(ctx)),
        r matches Err(Error::Driver(e)) ==> final(ctx).refused(old(ctx))
            && final(ctx).refused_with() == Some(e),
        !(r matches Err(Error::Render(_))),
        r is Ok <==> final(ctx).unfailed(old(ctx)),
    decreases *old(node), 1nat,
{
    let ghost before = *node;
    let ghost ctx0 = *ctx;
    match node {
        Node::Tag(t) => {
            let ghost t0 = *t;
            assert(before->Tag_0 == t0);
            let r = remove_children(t, path, ctx);
            let ghost ctx1 = *ctx;
            proof {
                lemma_same_content(*t, t0);
            }
            match r {
                Ok(()) => {},
                Err(e) => {
                    return Err(e);
                },
            }
            match t.store.take() {
                Some(h) => {
                    let r = ctx.remove(path, h);
                    proof {
                        lemma_same_content(*t, t0);
                        ctx.lemma_step(
                            &ctx1,
                            &ctx0,
                            children_remove_calls(t0, path@, t0.children.len() as nat),
                            seq![Call::Remove { path: path@, handle: h }],
                            r is Ok,
                        );
                    }
                    r
                },
                None => Ok(()),
            }
        },
        Node::Text(x) => {
            match x.store.take() {
                Some(h) => {
                    let r = ctx.remove(path, h);
                    r
                },
                None => Ok(()),
            }
        },
        Node::Comp(c) => {
            match &mut c.snapshot {
                Snapshot::Rendered { rendered, .. } => remove(rendered, path, ctx),
                _ => Ok(()),
            }
        },
    }
}

} // verus!
