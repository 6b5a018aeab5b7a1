//! What holds of every reconciliation, proved from the definitions of the
//! requests that it makes.
use crate::attr::{AttrListEntry, AttrView};
use crate::calls::{
    add_calls, attrs_add_calls, children_add_calls, children_remove_calls, remove_calls,
};
use crate::comp::Comp;
use crate::diff::{
    attr_diff_call, attrs_diff_calls, carried, child_diff_calls, children_diff_calls, compatible,
    diff_calls, leftover_calls, moved_calls, option_diff_calls,
};
use crate::driver::Call;
use crate::node::{
    attrs_view, find_child, lemma_found, lemma_position_from, lemma_same_attrs_same_names, Child,
    Node, Snapshot, Tag,
};
use crate::path::IdentView;
use crate::refresh::{children_refresh_calls, refresh_calls, settled};
use vstd::prelude::*;

verus! {

/// Whether `curr` describes what `ancestor` shows: the same tags with the same
/// attributes, the same texts, the same children under the same identities
/// in the same order, and components whose policy asks for no new rendering.
pub open spec fn same_as<H, C: Comp>(
    curr: Node<H, C, C::Input>,
    ancestor: Node<H, C, C::Input>,
) -> bool
    decreases curr,
{
    match (curr, ancestor) {
        (Node::Tag(c), Node::Tag(a)) => {
            &&& c.tag@ == a.tag@
            &&& attrs_view(c.attrs@) == attrs_view(a.attrs@)
            &&& c.children.len() == a.children.len()
            &&& forall|i: int|
                0 <= i < c.children.len() ==> (#[trigger] c.children[i]).ident@
                    == a.children[i].ident@ && same_as(c.children[i].node, a.children[i].node)
        },
        (Node::Text(c), Node::Text(a)) => c.text@ == a.text@,
        (Node::Comp(c), Node::Comp(a)) => match (c.state, a.snapshot) {
            (Some(state), Snapshot::Rendered { state: last, input: last_input, .. }) =>
                !C::rerender_spec(&last, &state, &last_input, &c.input),
            _ => false,
        },
        _ => false,
    }
}

/// Attributes that have not changed ask nothing.
pub proof fn lemma_attrs_unchanged<H>(
    curr: Seq<AttrListEntry>,
    ancestor: Seq<AttrListEntry>,
    target: H,
    path: Seq<IdentView>,
    n: nat,
)
    requires
        attrs_view(curr) == attrs_view(ancestor),
    ensures
        attrs_diff_calls(curr, ancestor, target, path, n) == Seq::<Call<H>>::empty(),
    decreases n,
{
    lemma_same_attrs_same_names(curr, ancestor);
    if n > 0 && n <= curr.len() {
        lemma_attrs_unchanged(curr, ancestor, target, path, (n - 1) as nat);
        assert(curr[n - 1]@ == ancestor[n - 1]@);
        assert(attrs_diff_calls(curr, ancestor, target, path, n) =~= Seq::<Call<H>>::empty());
    }
}

/// Where both lists hold the same identities at the same places, none of the
/// ancestor's children is left over.
pub proof fn lemma_none_left_over<H, C, I>(
    c: Seq<Child<H, C, I>>,
    a: Seq<Child<H, C, I>>,
    path: Seq<IdentView>,
    m: nat,
)
    requires
        forall|j: int| 0 <= j < a.len() ==> find_child(c, (#[trigger] a[j]).ident@) is Some,
    ensures
        leftover_calls(c, a, path, m) == Seq::<Call<H>>::empty(),
    decreases m,
{
    if m > 0 && m <= a.len() {
        lemma_none_left_over(c, a, path, (m - 1) as nat);
        assert(find_child(c, a[m - 1].ident@) is Some);
        assert(leftover_calls(c, a, path, m) =~= Seq::<Call<H>>::empty());
    }
}

/// Idempotence: reconciling a tree against one that shows the same asks
/// nothing of the driver.
pub proof fn law_unchanged_asks_nothing<H, C: Comp>(
    curr: Node<H, C, C::Input>,
    ancestor: Node<H, C, C::Input>,
    parent: Option<H>,
    path: Seq<IdentView>,
    index: usize,
)
    requires
        same_as(curr, ancestor),
        ancestor.well_formed(),
    ensures
        diff_calls(curr, ancestor, parent, path, index) == Seq::<Call<H>>::empty(),
    decreases curr, 0nat,
{
    match (curr, ancestor) {
        (Node::Tag(c), Node::Tag(a)) => {
            lemma_same_attrs_same_names(c.attrs@, a.attrs@);
            assert(compatible(curr, ancestor));
            match c.store {
                Some(h) => {
                    lemma_attrs_unchanged(c.attrs@, a.attrs@, h, path, c.attrs.len() as nat);
                    lemma_children_unchanged(c, a, h, path, c.children.len() as nat);
                    assert forall|j: int| 0 <= j < a.children.len() implies find_child(
                        c.children@,
                        (#[trigger] a.children@[j]).ident@,
                    ) is Some by {
                        assert(c.children[j].ident@ == a.children[j].ident@);
                        lemma_found(c.children@, a.children[j].ident@, j);
                    }
                    lemma_none_left_over(
                        c.children@,
                        a.children@,
                        path,
                        a.children.len() as nat,
                    );
                    assert(diff_calls(curr, ancestor, parent, path, index) =~= Seq::<
                        Call<H>,
                    >::empty());
                },
                None => {},
            }
        },
        (Node::Text(_), Node::Text(_)) => {},
        (Node::Comp(_), Node::Comp(_)) => {},
        _ => {},
    }
}

/// The children of an unchanged tag ask nothing.
pub proof fn lemma_children_unchanged<H, C: Comp>(
    c: Tag<H, C, C::Input>,
    a: Tag<H, C, C::Input>,
    parent: H,
    path: Seq<IdentView>,
    n: nat,
)
    requires
        same_as(Node::Tag(c), Node::Tag(a)),
        Node::Tag(a).well_formed(),
        n <= c.children.len(),
    ensures
        children_diff_calls(c, a.children@, parent, path, n) == Seq::<Call<H>>::empty(),
    decreases c, n,
{
    if n > 0 {
        lemma_children_unchanged(c, a, parent, path, (n - 1) as nat);
        let i = n - 1;
        let child = c.children[i];
        assert(child.ident@ == a.children[i].ident@);
        crate::node::lemma_position_unique(a.children@, i);
        assert(find_child(a.children@, child.ident@) == Some(i));
        law_unchanged_asks_nothing(
            child.node,
            a.children[i].node,
            Some(parent),
            path.push(child.ident@),
            i as usize,
        );
        assert(child_diff_calls(c, a.children@, parent, path, i) =~= Seq::<Call<H>>::empty());
        assert(children_diff_calls(c, a.children@, parent, path, n) =~= Seq::<Call<H>>::empty());
    }
}

/// Symmetry of adding: a node that appears where there was none is mounted
/// by the very requests that visiting it makes.
pub proof fn law_added_is_visited<H, C: Comp>(
    curr: Node<H, C, C::Input>,
    parent: Option<H>,
    path: Seq<IdentView>,
    index: usize,
)
    ensures
        option_diff_calls(Some(curr), None, parent, path, index) == add_calls(
            curr,
            parent,
            path,
            index,
        ),
{
}

/// Symmetry of replacing: a node that is not compatible with its ancestor is
/// mounted by the very requests that visiting it makes, after those that
/// unmount the ancestor.
pub proof fn law_replaced_is_removed_then_visited<H, C: Comp>(
    curr: Node<H, C, C::Input>,
    ancestor: Node<H, C, C::Input>,
    parent: Option<H>,
    path: Seq<IdentView>,
    index: usize,
)
    requires
        !compatible(curr, ancestor),
    ensures
        diff_calls(curr, ancestor, parent, path, index) == remove_calls(ancestor, path)
            + add_calls(curr, parent, path, index),
{
}

/// Whether the handle `h` is given up by one of the requests.
pub open spec fn gives_up<H>(calls: Seq<Call<H>>, h: H) -> bool {
    exists|k: int| 0 <= k < calls.len() && (#[trigger] calls[k] matches Call::Remove { handle, .. }
        && handle == h)
}

/// Whether some tag or text of the tree holds the handle `h`.
pub open spec fn holds<H, C, I>(node: Node<H, C, I>, h: H) -> bool
    decreases node,
{
    match node {
        Node::Tag(t) => t.store == Some(h) || exists|i: int|
            0 <= i < t.children.len() && holds((#[trigger] t.children[i]).node, h),
        Node::Text(x) => x.store == Some(h),
        Node::Comp(c) => match c.snapshot {
            Snapshot::Rendered { rendered, .. } => holds(*rendered, h),
            _ => false,
        },
    }
}

/// A handle that is given up by some requests is given up by these requests
/// among others.
pub proof fn lemma_gives_up_among<H>(x: Seq<Call<H>>, y: Seq<Call<H>>, h: H)
    requires
        gives_up(x, h) || gives_up(y, h),
    ensures
        gives_up(x + y, h),
{
    if gives_up(x, h) {
        let k = choose|k: int|
            0 <= k < x.len() && (#[trigger] x[k] matches Call::Remove { handle, .. } && handle
                == h);
        assert((x + y)[k] == x[k]);
    } else {
        let k = choose|k: int|
            0 <= k < y.len() && (#[trigger] y[k] matches Call::Remove { handle, .. } && handle
                == h);
        assert((x + y)[x.len() + k] == y[k]);
    }
}

/// Symmetry of removing: unmounting a tree gives up every handle that the
/// tree holds.
pub proof fn law_removed_gives_up_every_handle<H, C, I>(
    node: Node<H, C, I>,
    path: Seq<IdentView>,
    h: H,
)
    requires
        node.mounted(),
        holds(node, h),
    ensures
        gives_up(remove_calls(node, path), h),
    decreases node, 0nat,
{
    match node {
        Node::Tag(t) => {
            let below = children_remove_calls(t, path, t.children.len() as nat);
            let own = seq![Call::Remove { path, handle: t.store->0 }];
            if t.store == Some(h) {
                assert(own[0] == Call::Remove { path, handle: h });
                assert(gives_up(own, h));
            } else {
                let i = choose|i: int|
                    0 <= i < t.children.len() && holds((#[trigger] t.children[i]).node, h);
                lemma_children_give_up(t, path, t.children.len() as nat, i, h);
            }
            lemma_gives_up_among(below, own, h);
        },
        Node::Text(x) => {
            let calls = remove_calls(node, path);
            assert(calls[0] == Call::Remove { path, handle: h });
        },
        Node::Comp(c) => match c.snapshot {
            Snapshot::Rendered { rendered, .. } => {
                law_removed_gives_up_every_handle(*rendered, path, h);
            },
            _ => {},
        },
    }
}

/// Unmounting the first `n` children of a tag gives up every handle that the
/// child at position `i` below `n` holds.
pub proof fn lemma_children_give_up<H, C, I>(
    t: Tag<H, C, I>,
    path: Seq<IdentView>,
    n: nat,
    i: int,
    h: H,
)
    requires
        Node::Tag(t).mounted(),
        0 <= i < n <= t.children.len(),
        holds(t.children[i].node, h),
    ensures
        gives_up(children_remove_calls(t, path, n), h),
    decreases t, n,
{
    let before = children_remove_calls(t, path, (n - 1) as nat);
    let last = remove_calls(t.children[n - 1].node, path.push(t.children[n - 1].ident@));
    if i == n - 1 {
        law_removed_gives_up_every_handle(
            t.children[i].node,
            path.push(t.children[i].ident@),
            h,
        );
    } else {
        lemma_children_give_up(t, path, (n - 1) as nat, i, h);
    }
    lemma_gives_up_among(before, last, h);
}

/// The short cut for components: where the policy asks for no new rendering,
/// the component keeps the ancestor's snapshot as it is, and nothing is asked
/// of the driver.
pub proof fn law_component_reuse<H, C: Comp>(
    curr: Node<H, C, C::Input>,
    ancestor: Node<H, C, C::Input>,
    parent: Option<H>,
    path: Seq<IdentView>,
    index: usize,
)
    requires
        curr is Comp,
        ancestor is Comp,
        carried(curr, ancestor),
        curr->Comp_0.state is Some,
        curr->Comp_0.snapshot is Rendered,
        ancestor->Comp_0.snapshot is Rendered,
        !C::rerender_spec(
            &ancestor->Comp_0.snapshot->state,
            &curr->Comp_0.state->0,
            &ancestor->Comp_0.snapshot->input,
            &curr->Comp_0.input,
        ),
    ensures
        curr->Comp_0.snapshot == ancestor->Comp_0.snapshot,
        curr->Comp_0.state == ancestor->Comp_0.state,
        diff_calls(curr, ancestor, parent, path, index) == Seq::<Call<H>>::empty(),
{
}

/// Whether every one of the requests moves a node, and does nothing else.
pub open spec fn only_reorders<H>(calls: Seq<Call<H>>) -> bool {
    forall|k: int| 0 <= k < calls.len() ==> (#[trigger] calls[k]) is Reorder
}

/// Whether `c` holds the children of `a` in another order: each child of `c`
/// shows what the child of `a` with its identity shows, and `a` has no
/// other child.
pub open spec fn reordered<H, C: Comp>(c: Tag<H, C, C::Input>, a: Tag<H, C, C::Input>) -> bool {
    &&& c.tag@ == a.tag@
    &&& attrs_view(c.attrs@) == attrs_view(a.attrs@)
    &&& forall|i: int|
        0 <= i < c.children.len() ==> (find_child(
            a.children@,
            (#[trigger] c.children[i]).ident@,
        ) matches Some(j) && same_as(c.children[i].node, a.children[j].node)
            && a.children[j].node.well_formed())
    &&& forall|j: int|
        0 <= j < a.children.len() ==> find_child(
            c.children@,
            (#[trigger] a.children[j]).ident@,
        ) is Some
}

/// The children of a tag whose children were reordered ask only to be moved.
pub proof fn lemma_children_reordered<H, C: Comp>(
    c: Tag<H, C, C::Input>,
    a: Tag<H, C, C::Input>,
    parent: H,
    path: Seq<IdentView>,
    n: nat,
)
    requires
        reordered(c, a),
        n <= c.children.len(),
    ensures
        only_reorders(children_diff_calls(c, a.children@, parent, path, n)),
    decreases n,
{
    if n > 0 {
        lemma_children_reordered(c, a, parent, path, (n - 1) as nat);
        let i = n - 1;
        let child = c.children[i];
        let j = find_child(a.children@, child.ident@)->0;
        lemma_position_from(a.children@, child.ident@, 0);
        law_unchanged_asks_nothing(
            child.node,
            a.children[j].node,
            Some(parent),
            path.push(child.ident@),
            i as usize,
        );
        let step = child_diff_calls(c, a.children@, parent, path, i);
        assert(step =~= moved_calls(child.node, parent, path.push(child.ident@), i, j));
        assert(only_reorders(step));
    }
}

/// Stability under reordering: where the children of a tag are those of its
/// ancestor in another order, with nothing else changed, reconciling asks
/// the driver to move nodes and nothing else: nothing is made, removed or
/// rewritten.
pub proof fn law_reorder_only_moves<H, C: Comp>(
    c: Tag<H, C, C::Input>,
    a: Tag<H, C, C::Input>,
    parent: Option<H>,
    path: Seq<IdentView>,
    index: usize,
)
    requires
        reordered(c, a),
    ensures
        only_reorders(diff_calls(Node::Tag(c), Node::Tag(a), parent, path, index)),
{
    lemma_same_attrs_same_names(c.attrs@, a.attrs@);
    assert(compatible(Node::Tag(c), Node::Tag(a)));
    match c.store {
        Some(h) => {
            lemma_attrs_unchanged(c.attrs@, a.attrs@, h, path, c.attrs.len() as nat);
            lemma_children_reordered(c, a, h, path, c.children.len() as nat);
            lemma_none_left_over(c.children@, a.children@, path, a.children.len() as nat);
            assert(diff_calls(Node::Tag(c), Node::Tag(a), parent, path, index)
                =~= children_diff_calls(c, a.children@, h, path, c.children.len() as nat));
        },
        None => {},
    }
}

/// What an attribute asks when it changes: one that is switched off, or
/// loses its value, is removed; one that gains a value is set to it; one
/// whose value stays asks nothing.
pub proof fn law_attribute_changes<H>(
    curr: AttrView,
    ancestor: AttrView,
    target: H,
    path: Seq<IdentView>,
)
    ensures
        ancestor.effective() is Some && curr.value is Null ==> attr_diff_call(
            curr,
            ancestor,
            target,
            path,
        ) == seq![Call::RemoveAttribute { path, target, name: curr.name }],
        ancestor.value is Null && curr.value is Str ==> attr_diff_call(
            curr,
            ancestor,
            target,
            path,
        ) == seq![Call::SetAttribute { path, target, name: curr.name, value: curr.value->Str_0 }],
        curr.effective() == ancestor.effective() ==> attr_diff_call(
            curr,
            ancestor,
            target,
            path,
        ) == Seq::<Call<H>>::empty(),
{
}

/// Whether every one of the requests is about a node at or below `path`.
pub open spec fn all_under<H>(calls: Seq<Call<H>>, path: Seq<IdentView>) -> bool {
    forall|k: int| 0 <= k < calls.len() ==> path.is_prefix_of((#[trigger] calls[k]).path())
}

/// Requests under a path extended by a segment are under the path.
pub proof fn lemma_under_child<H>(calls: Seq<Call<H>>, path: Seq<IdentView>, ident: IdentView)
    requires
        all_under(calls, path.push(ident)),
    ensures
        all_under(calls, path),
{
    assert forall|k: int| 0 <= k < calls.len() implies path.is_prefix_of(
        (#[trigger] calls[k]).path(),
    ) by {
        assert(path.push(ident).is_prefix_of(calls[k].path()));
        assert(path =~= path.push(ident).subrange(0, path.len() as int));
    }
}

/// The requests that set the attributes of a new element name its path.
pub proof fn lemma_attrs_add_under<H>(
    attrs: Seq<AttrListEntry>,
    target: H,
    path: Seq<IdentView>,
    n: nat,
)
    ensures
        all_under(attrs_add_calls(attrs, target, path, n), path),
    decreases n,
{
    if n > 0 && n <= attrs.len() {
        lemma_attrs_add_under(attrs, target, path, (n - 1) as nat);
    }
}

/// The requests that bring the attributes of a kept element up to date name
/// its path.
pub proof fn lemma_attrs_diff_under<H>(
    curr: Seq<AttrListEntry>,
    ancestor: Seq<AttrListEntry>,
    target: H,
    path: Seq<IdentView>,
    n: nat,
)
    ensures
        all_under(attrs_diff_calls(curr, ancestor, target, path, n), path),
    decreases n,
{
    if n > 0 && n <= curr.len() && n <= ancestor.len() {
        lemma_attrs_diff_under(curr, ancestor, target, path, (n - 1) as nat);
    }
}

/// Faithfulness of paths when mounting: every request made while a node is
/// mounted at `path` is about a node at or below `path`, and each child is
/// addressed by the path of its parent extended by its identity.
pub proof fn law_add_paths<H, C, I>(
    node: Node<H, C, I>,
    parent: Option<H>,
    path: Seq<IdentView>,
    index: usize,
)
    ensures
        all_under(add_calls(node, parent, path, index), path),
    decreases node, 0nat,
{
    match node {
        Node::Tag(t) => match t.store {
            Some(h) => {
                lemma_attrs_add_under(t.attrs@, h, path, t.attrs.len() as nat);
                lemma_children_add_paths(t, h, path, t.children.len() as nat);
            },
            None => {},
        },
        Node::Text(_) => {},
        Node::Comp(c) => match c.snapshot {
            Snapshot::Rendered { rendered, .. } => law_add_paths(*rendered, parent, path, index),
            _ => {},
        },
    }
}

/// The requests that mount the children of a tag are about nodes below it.
pub proof fn lemma_children_add_paths<H, C, I>(
    t: Tag<H, C, I>,
    parent: H,
    path: Seq<IdentView>,
    n: nat,
)
    ensures
        all_under(children_add_calls(t, parent, path, n), path),
    decreases t, n,
{
    if n > 0 && n <= t.children.len() {
        lemma_children_add_paths(t, parent, path, (n - 1) as nat);
        let child = t.children[n - 1];
        law_add_paths(child.node, Some(parent), path.push(child.ident@), (n - 1) as usize);
        lemma_under_child(
            add_calls(child.node, Some(parent), path.push(child.ident@), (n - 1) as usize),
            path,
            child.ident@,
        );
    }
}

/// Faithfulness of paths when unmounting: every request made while a node
/// is unmounted at `path` is about a node at or below `path`.
pub proof fn law_remove_paths<H, C, I>(node: Node<H, C, I>, path: Seq<IdentView>)
    ensures
        all_under(remove_calls(node, path), path),
    decreases node, 0nat,
{
    match node {
        Node::Tag(t) => match t.store {
            Some(_) => {
                lemma_children_remove_paths(t, path, t.children.len() as nat);
            },
            None => {},
        },
        Node::Text(_) => {},
        Node::Comp(c) => match c.snapshot {
            Snapshot::Rendered { rendered, .. } => law_remove_paths(*rendered, path),
            _ => {},
        },
    }
}

/// The requests that unmount the children of a tag are about nodes below it.
pub proof fn lemma_children_remove_paths<H, C, I>(t: Tag<H, C, I>, path: Seq<IdentView>, n: nat)
    ensures
        all_under(children_remove_calls(t, path, n), path),
    decreases t, n,
{
    if n > 0 && n <= t.children.len() {
        lemma_children_remove_paths(t, path, (n - 1) as nat);
        let child = t.children[n - 1];
        law_remove_paths(child.node, path.push(child.ident@));
        lemma_under_child(remove_calls(child.node, path.push(child.ident@)), path, child.ident@);
    }
}

/// The requests that unmount what is left over are about nodes below the tag.
pub proof fn lemma_leftover_paths<H, C, I>(
    c: Seq<Child<H, C, I>>,
    a: Seq<Child<H, C, I>>,
    path: Seq<IdentView>,
    m: nat,
)
    ensures
        all_under(leftover_calls(c, a, path, m), path),
    decreases m,
{
    if m > 0 && m <= a.len() {
        lemma_leftover_paths(c, a, path, (m - 1) as nat);
        let gone = a[m - 1];
        law_remove_paths(gone.node, path.push(gone.ident@));
        lemma_under_child(remove_calls(gone.node, path.push(gone.ident@)), path, gone.ident@);
    }
}

/// Faithfulness of paths when reconciling: every request made while a node
/// is reconciled at `path` is about a node at or below `path`; a kept child
/// is addressed by the path of its parent extended by its identity, which is
/// the path that it was mounted under.
pub proof fn law_diff_paths<H, C: Comp>(
    curr: Node<H, C, C::Input>,
    ancestor: Node<H, C, C::Input>,
    parent: Option<H>,
    path: Seq<IdentView>,
    index: usize,
)
    ensures
        all_under(diff_calls(curr, ancestor, parent, path, index), path),
    decreases curr, 0nat,
{
    if !compatible(curr, ancestor) {
        law_remove_paths(ancestor, path);
        law_add_paths(curr, parent, path, index);
    } else {
        match (curr, ancestor) {
            (Node::Tag(c), Node::Tag(a)) => match c.store {
                Some(h) => {
                    lemma_attrs_diff_under(c.attrs@, a.attrs@, h, path, c.attrs.len() as nat);
                    lemma_children_diff_paths(c, a.children@, h, path, c.children.len() as nat);
                    lemma_leftover_paths(c.children@, a.children@, path, a.children.len() as nat);
                },
                None => {},
            },
            (Node::Text(_), Node::Text(_)) => {},
            (Node::Comp(c), Node::Comp(a)) => match (c.state, c.snapshot, a.snapshot) {
                (
                    Some(_),
                    Snapshot::Rendered { rendered, .. },
                    Snapshot::Rendered { rendered: last_rendered, .. },
                ) => {
                    law_diff_paths(*rendered, *last_rendered, parent, path, index);
                },
                _ => {},
            },
            _ => {},
        }
    }
}

/// The requests that reconcile the children of a tag are about nodes below
/// it.
pub proof fn lemma_children_diff_paths<H, C: Comp>(
    c: Tag<H, C, C::Input>,
    a: Seq<Child<H, C, C::Input>>,
    parent: H,
    path: Seq<IdentView>,
    n: nat,
)
    ensures
        all_under(children_diff_calls(c, a, parent, path, n), path),
    decreases c, n,
{
    if n > 0 && n <= c.children.len() {
        lemma_children_diff_paths(c, a, parent, path, (n - 1) as nat);
        let i = n - 1;
        let child = c.children[i];
        let child_path = path.push(child.ident@);
        match find_child(a, child.ident@) {
            Some(j) => {
                law_diff_paths(child.node, a[j].node, Some(parent), child_path, i as usize);
                assert(all_under(moved_calls(child.node, parent, child_path, i, j), child_path));
            },
            None => {
                law_add_paths(child.node, Some(parent), child_path, i as usize);
            },
        }
        lemma_under_child(child_diff_calls(c, a, parent, path, i), path, child.ident@);
    }
}

/// Bringing up to date a tree in which no component is stale asks nothing of
/// the driver.
pub proof fn law_settled_refresh_asks_nothing<H, C: Comp>(
    after: Node<H, C, C::Input>,
    before: Node<H, C, C::Input>,
    parent: Option<H>,
    path: Seq<IdentView>,
    index: usize,
)
    requires
        settled(before),
    ensures
        refresh_calls(after, before, parent, path, index) == Seq::<Call<H>>::empty(),
    decreases before, 0nat,
{
    match (after, before) {
        (Node::Tag(a), Node::Tag(b)) => match b.store {
            Some(h) => lemma_settled_children(a, b, h, path, b.children.len() as nat),
            None => {},
        },
        (Node::Comp(a), Node::Comp(b)) => match (a.snapshot, b.snapshot) {
            (
                Snapshot::Rendered { rendered, .. },
                Snapshot::Rendered { rendered: last_rendered, .. },
            ) => {
                law_settled_refresh_asks_nothing(*rendered, *last_rendered, parent, path, index);
            },
            _ => {},
        },
        _ => {},
    }
}

/// The children of a tag in which no component is stale ask nothing.
pub proof fn lemma_settled_children<H, C: Comp>(
    a: Tag<H, C, C::Input>,
    b: Tag<H, C, C::Input>,
    parent: H,
    path: Seq<IdentView>,
    n: nat,
)
    requires
        settled(Node::Tag(b)),
    ensures
        children_refresh_calls(a, b, parent, path, n) == Seq::<Call<H>>::empty(),
    decreases b, n,
{
    if n > 0 && n <= b.children.len() && n <= a.children.len() {
        lemma_settled_children(a, b, parent, path, (n - 1) as nat);
        law_settled_refresh_asks_nothing(
            a.children[n - 1].node,
            b.children[n - 1].node,
            Some(parent),
            path.push(b.children[n - 1].ident@),
            (n - 1) as usize,
        );
        assert(children_refresh_calls(a, b, parent, path, n) =~= Seq::<Call<H>>::empty());
    }
}

/// Every pair of attributes of a kept element is compared once, in the
/// list's order, fixed where the tree is written down or not: what the first
/// `n + 1` pairs ask is what the first `n` ask, then what the next pair
/// asks, which is one request at most.
pub proof fn law_attributes_compared_in_order<H>(
    curr: Seq<AttrListEntry>,
    ancestor: Seq<AttrListEntry>,
    target: H,
    path: Seq<IdentView>,
    n: nat,
)
    requires
        n < curr.len(),
        n < ancestor.len(),
    ensures
        attrs_diff_calls(curr, ancestor, target, path, n + 1) == attrs_diff_calls(
            curr,
            ancestor,
            target,
            path,
            n,
        ) + attr_diff_call(curr[n as int]@, ancestor[n as int]@, target, path),
        attr_diff_call(curr[n as int]@, ancestor[n as int]@, target, path).len() <= 1,
{
}

/// A kept tag takes over the handle of its ancestor and asks for its
/// attributes, then for its children, then for the ancestor's children that
/// are gone, and for nothing else.
pub proof fn law_kept_tag<H, C: Comp>(
    c: Tag<H, C, C::Input>,
    a: Tag<H, C, C::Input>,
    parent: Option<H>,
    path: Seq<IdentView>,
    index: usize,
)
    requires
        compatible(Node::Tag(c), Node::Tag(a)),
        carried(Node::Tag(c), Node::Tag(a)),
        a.store is Some,
    ensures
        c.store == a.store,
        diff_calls(Node::Tag(c), Node::Tag(a), parent, path, index) == attrs_diff_calls(
            c.attrs@,
            a.attrs@,
            a.store->0,
            path,
            c.attrs.len() as nat,
        ) + children_diff_calls(c, a.children@, a.store->0, path, c.children.len() as nat)
            + leftover_calls(c.children@, a.children@, path, a.children.len() as nat),
{
}

} // verus!
