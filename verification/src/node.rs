//! Nodes: tags, texts and components, and the children of a tag.
use crate::attr::{attr_names, AttrListEntry, AttrView};
use crate::key::Key;
use crate::path::{Ident, IdentView};
use vstd::prelude::*;

verus! {

/// What a tree describes, apart from what backs it and from what its
/// components have rendered.
pub enum NodeView<I> {
    Tag {
        tag: Seq<char>,
        is_static: bool,
        attrs: Seq<AttrView>,
        children: Seq<(IdentView, NodeView<I>)>,
    },
    Text { text: Seq<char>, is_static: bool },
    Comp { input: I },
}

/// A leaf that holds string content.
pub struct Text<H> {
    pub text: String,
    /// Whether the content is fixed where the tree is written down.
    pub is_static: bool,
    /// The handle of the backing resource, once mounted.
    pub store: Option<H>,
}

/// An element: a name, attributes and children.
pub struct Tag<H, C, I> {
    pub tag: String,
    /// Whether the name is fixed where the tree is written down.
    pub is_static: bool,
    pub attrs: Vec<AttrListEntry>,
    pub children: Vec<Child<H, C, I>>,
    /// The handle of the backing resource, once mounted.
    pub store: Option<H>,
}

/// A child of a tag, with its identity among its siblings.
pub struct Child<H, C, I> {
    pub ident: Ident,
    pub node: Node<H, C, I>,
}

/// What a component rendered last, with the state and the input that it
/// rendered from.
pub enum Snapshot<H, C, I> {
    NotRendered,
    Rendered { state: C, input: I, rendered: Box<Node<H, C, I>> },
    /// A later tree has taken the snapshot over.
    Taken,
}

/// A component in a tree: the input that its parent supplies and, once
/// mounted, its state and its snapshot.
pub struct CompNode<H, C, I> {
    pub input: I,
    pub state: Option<C>,
    pub snapshot: Snapshot<H, C, I>,
}

pub enum Node<H, C, I> {
    Tag(Tag<H, C, I>),
    Text(Text<H>),
    Comp(CompNode<H, C, I>),
}

/// The views of the attributes of a list.
pub open spec fn attrs_view(attrs: Seq<AttrListEntry>) -> Seq<AttrView> {
    attrs.map_values(|a: AttrListEntry| a@)
}

/// Whether no two of the children share an identity.
pub open spec fn siblings_unique<H, C, I>(children: Seq<Child<H, C, I>>) -> bool {
    forall|i: int, j: int|
        0 <= i < j < children.len() ==> (#[trigger] children[i]).ident@ != (
        #[trigger] children[j]).ident@
}

/// The position of the first child from `from` on with the identity `ident`,
/// the number of children where there is none.
pub open spec fn position_from<H, C, I>(
    children: Seq<Child<H, C, I>>,
    ident: IdentView,
    from: int,
) -> int
    decreases children.len() - from,
{
    if from < 0 || from >= children.len() {
        children.len() as int
    } else if children[from].ident@ == ident {
        from
    } else {
        position_from(children, ident, from + 1)
    }
}

/// The position of the first child with the identity `ident`.
pub open spec fn find_child<H, C, I>(children: Seq<Child<H, C, I>>, ident: IdentView) -> Option<
    int,
> {
    let p = position_from(children, ident, 0);
    if p < children.len() {
        Some(p)
    } else {
        None
    }
}

/// What `position_from` finds: the first child with that identity.
pub proof fn lemma_position_from<H, C, I>(
    children: Seq<Child<H, C, I>>,
    ident: IdentView,
    from: int,
)
    requires
        0 <= from <= children.len(),
    ensures
        from <= position_from(children, ident, from) <= children.len(),
        position_from(children, ident, from) < children.len() ==> children[position_from(
            children,
            ident,
            from,
        )].ident@ == ident,
        forall|j: int|
            from <= j < position_from(children, ident, from) ==> (#[trigger] children[j]).ident@
                != ident,
    decreases children.len() - from,
{
    if from < children.len() && children[from].ident@ != ident {
        lemma_position_from(children, ident, from + 1);
    }
}

/// Lists with the same attributes name the same attributes.
pub proof fn lemma_same_attrs_same_names(x: Seq<AttrListEntry>, y: Seq<AttrListEntry>)
    requires
        attrs_view(x) == attrs_view(y),
    ensures
        x.len() == y.len(),
        attr_names(x) == attr_names(y),
        forall|i: int| 0 <= i < x.len() ==> (#[trigger] x[i])@ == y[i]@,
{
    assert(x.len() == y.len()) by {
        assert(attrs_view(x).len() == x.len());
        assert(attrs_view(y).len() == y.len());
    }
    assert forall|i: int| 0 <= i < x.len() implies (#[trigger] x[i])@ == y[i]@ by {
        assert(attrs_view(x)[i] == x[i]@);
        assert(attrs_view(y)[i] == y[i]@);
    }
    assert(attr_names(x) =~= attr_names(y)) by {
        assert forall|i: int| 0 <= i < x.len() implies attr_names(x)[i] == attr_names(y)[i] by {
            assert(x[i]@ == y[i]@);
        }
    }
}

/// A child is found at or before any place that holds its identity.
pub proof fn lemma_found<H, C, I>(children: Seq<Child<H, C, I>>, ident: IdentView, at: int)
    requires
        0 <= at < children.len(),
        children[at].ident@ == ident,
    ensures
        find_child(children, ident) is Some,
        position_from(children, ident, 0) <= at,
{
    lemma_position_from(children, ident, 0);
}

/// Tags of one name, with the same attributes and with children that
/// describe the same under the same identities, describe the same.
pub proof fn lemma_same_content<H, C, I>(x: Tag<H, C, I>, y: Tag<H, C, I>)
    requires
        x.tag@ == y.tag@,
        x.is_static == y.is_static,
        attrs_view(x.attrs@) == attrs_view(y.attrs@),
        x.children.len() == y.children.len(),
        forall|j: int|
            0 <= j < x.children.len() ==> (#[trigger] x.children[j]).ident@
                == y.children[j].ident@ && x.children[j].node.content()
                == y.children[j].node.content(),
    ensures
        Node::Tag(x).content() == Node::Tag(y).content(),
{
    assert(Node::Tag(x).content()->Tag_children =~= Node::Tag(y).content()->Tag_children);
}

/// Which child an identity finds depends on the identities of the children
/// alone.
pub proof fn lemma_position_frame<H, C, I>(
    x: Seq<Child<H, C, I>>,
    y: Seq<Child<H, C, I>>,
    ident: IdentView,
    from: int,
)
    requires
        x.len() == y.len(),
        forall|j: int| 0 <= j < x.len() ==> (#[trigger] x[j]).ident@ == y[j].ident@,
    ensures
        position_from(x, ident, from) == position_from(y, ident, from),
    decreases x.len() - from,
{
    if 0 <= from < x.len() && x[from].ident@ != ident {
        lemma_position_frame(x, y, ident, from + 1);
    }
}

/// Among children of which no two share an identity, the identity of a child
/// finds that child.
pub proof fn lemma_position_unique<H, C, I>(children: Seq<Child<H, C, I>>, i: int)
    requires
        siblings_unique(children),
        0 <= i < children.len(),
    ensures
        position_from(children, children[i].ident@, 0) == i,
{
    lemma_position_from(children, children[i].ident@, 0);
    let p = position_from(children, children[i].ident@, 0);
    if p > i {
        assert(children[i].ident@ != children[i].ident@);
    }
    if p < i {
        assert(children[p].ident@ != children[i].ident@);
    }
}

impl<H, C, I> Node<H, C, I> {
    /// What the tree describes.
    pub open spec fn content(&self) -> NodeView<I>
        decreases self,
    {
        match self {
            Node::Tag(t) => NodeView::Tag {
                tag: t.tag@,
                is_static: t.is_static,
                attrs: attrs_view(t.attrs@),
                children: Seq::new(
                    t.children.len() as nat,
                    |i: int|
                        if 0 <= i < t.children.len() {
                            (t.children[i].ident@, t.children[i].node.content())
                        } else {
                            arbitrary()
                        },
                ),
            },
            Node::Text(x) => NodeView::Text { text: x.text@, is_static: x.is_static },
            Node::Comp(c) => NodeView::Comp { input: c.input },
        }
    }

    /// Whether some component stands in the tree.
    pub open spec fn has_comp(&self) -> bool
        decreases self,
    {
        match self {
            Node::Tag(t) => exists|i: int|
                0 <= i < t.children.len() && (#[trigger] t.children[i]).node.has_comp(),
            Node::Text(_) => false,
            Node::Comp(_) => true,
        }
    }

    /// Whether the tree is new: nothing backs it and no component in it has
    /// rendered.
    pub open spec fn fresh(&self) -> bool
        decreases self,
    {
        match self {
            Node::Tag(t) => t.store is None && forall|i: int|
                0 <= i < t.children.len() ==> (#[trigger] t.children[i]).node.fresh(),
            Node::Text(x) => x.store is None,
            Node::Comp(c) => c.state is None && c.snapshot is NotRendered,
        }
    }

    /// Whether no two siblings anywhere in the tree share an identity.
    pub open spec fn well_formed(&self) -> bool
        decreases self,
    {
        match self {
            Node::Tag(t) => siblings_unique(t.children@) && forall|i: int|
                0 <= i < t.children.len() ==> (#[trigger] t.children[i]).node.well_formed(),
            Node::Text(_) => true,
            Node::Comp(c) => match c.snapshot {
                Snapshot::Rendered { rendered, .. } => rendered.well_formed(),
                _ => true,
            },
        }
    }

    /// Whether the tree is mounted: a handle backs every tag and text, every
    /// component has its state and its snapshot, and the tree is well formed.
    pub open spec fn mounted(&self) -> bool
        decreases self,
    {
        match self {
            Node::Tag(t) => t.store is Some && siblings_unique(t.children@) && forall|i: int|
                0 <= i < t.children.len() ==> (#[trigger] t.children[i]).node.mounted(),
            Node::Text(x) => x.store is Some,
            Node::Comp(c) => c.state is Some && match c.snapshot {
                Snapshot::Rendered { rendered, .. } => rendered.mounted(),
                _ => false,
            },
        }
    }

    /// Whether every handle in the tree has been given up: no tag or text
    /// holds one, whatever its components have rendered.
    pub open spec fn released(&self) -> bool
        decreases self,
    {
        match self {
            Node::Tag(t) => t.store is None && forall|i: int|
                0 <= i < t.children.len() ==> (#[trigger] t.children[i]).node.released(),
            Node::Text(x) => x.store is None,
            Node::Comp(c) => match c.snapshot {
                Snapshot::Rendered { rendered, .. } => rendered.released(),
                _ => true,
            },
        }
    }

    /// Whether the tree is `before` with every handle given up and nothing
    /// else changed: what it describes, the states of its components and what
    /// their snapshots hold are those of `before`.
    pub open spec fn released_from(&self, before: &Self) -> bool
        decreases self,
    {
        match (*self, *before) {
            (Node::Tag(a), Node::Tag(b)) => {
                &&& a.store is None
                &&& a.tag == b.tag
                &&& a.is_static == b.is_static
                &&& a.attrs == b.attrs
                &&& a.children.len() == b.children.len()
                &&& forall|i: int|
                    0 <= i < a.children.len() ==> (#[trigger] a.children[i]).ident
                        == b.children[i].ident && a.children[i].node.released_from(
                        &b.children[i].node,
                    )
            },
            (Node::Text(a), Node::Text(b)) => a.store is None && a.text == b.text && a.is_static
                == b.is_static,
            (Node::Comp(a), Node::Comp(b)) => a.input == b.input && a.state == b.state && match (
                a.snapshot,
                b.snapshot,
            ) {
                (
                    Snapshot::Rendered { state, input, rendered },
                    Snapshot::Rendered { state: last, input: last_input, rendered: last_rendered },
                ) => state == last && input == last_input && rendered.released_from(
                    &*last_rendered,
                ),
                _ => a.snapshot == b.snapshot,
            },
            _ => false,
        }
    }

    /// The handle of what backs the node itself: for a component, of what
    /// backs the tree that it rendered.
    pub open spec fn root_handle(&self) -> Option<H>
        decreases self,
    {
        match self {
            Node::Tag(t) => t.store,
            Node::Text(x) => x.store,
            Node::Comp(c) => match c.snapshot {
                Snapshot::Rendered { rendered, .. } => rendered.root_handle(),
                _ => None,
            },
        }
    }

    /// A mounted node has a handle of its own.
    pub proof fn lemma_mounted_has_handle(&self)
        requires
            self.mounted(),
        ensures
            self.root_handle() is Some,
        decreases self,
    {
        match self {
            Node::Comp(c) => match c.snapshot {
                Snapshot::Rendered { rendered, .. } => rendered.lemma_mounted_has_handle(),
                _ => {},
            },
            _ => {},
        }
    }

    /// The handle of what backs the node itself.
    pub fn handle(&self) -> (r: Option<&H>)
        ensures
            crate::driver::deref_opt(r) == self.root_handle(),
        decreases self,
    {
        match self {
            Node::Tag(t) => t.store.as_ref(),
            Node::Text(x) => x.store.as_ref(),
            Node::Comp(c) => match &c.snapshot {
                Snapshot::Rendered { rendered, .. } => rendered.handle(),
                _ => None,
            },
        }
    }
}

/// Whether no two of the children share an identity.
pub fn unique<H, C, I>(children: &Vec<Child<H, C, I>>) -> (r: bool)
    ensures
        r == siblings_unique(children@),
{
    let mut i: usize = 0;
    while i < children.len()
        invariant
            0 <= i <= children.len(),
            forall|a: int, b: int|
                0 <= a < b < i ==> (#[trigger] children[a]).ident@ != (
                #[trigger] children[b]).ident@,
        decreases children.len() - i,
    {
        let mut j: usize = 0;
        while j < i
            invariant
                0 <= j <= i < children.len(),
                forall|a: int|
                    0 <= a < j ==> (#[trigger] children[a]).ident@ != children[i as int].ident@,
            decreases i - j,
        {
            if children[j].ident.same(&children[i].ident) {
                return false;
            }
            j += 1;
        }
        i += 1;
    }
    true
}

impl<H, C, I> Node<H, C, I> {
    /// Whether the tree is new.
    pub fn is_fresh(&self) -> (r: bool)
        ensures
            r == self.fresh(),
        decreases self,
    {
        match self {
            Node::Tag(t) => {
                if t.store.is_some() {
                    return false;
                }
                let mut i: usize = 0;
                while i < t.children.len()
                    invariant
                        0 <= i <= t.children.len(),
                        *self == Node::Tag(*t),
                        forall|j: int| 0 <= j < i ==> (#[trigger] t.children[j]).node.fresh(),
                    decreases t.children.len() - i,
                {
                    let child = &t.children[i];
                    assert(self->Tag_0 == *t);
                    if !child.node.is_fresh() {
                        return false;
                    }
                    i += 1;
                }
                true
            },
            Node::Text(x) => x.store.is_none(),
            Node::Comp(c) => {
                c.state.is_none() && match &c.snapshot {
                    Snapshot::NotRendered => true,
                    _ => false,
                }
            },
        }
    }

    /// Whether no two siblings anywhere in the tree share an identity.
    pub fn is_well_formed(&self) -> (r: bool)
        ensures
            r == self.well_formed(),
        decreases self,
    {
        match self {
            Node::Tag(t) => {
                if !unique(&t.children) {
                    return false;
                }
                let mut i: usize = 0;
                while i < t.children.len()
                    invariant
                        0 <= i <= t.children.len(),
                        *self == Node::Tag(*t),
                        forall|j: int|
                            0 <= j < i ==> (#[trigger] t.children[j]).node.well_formed(),
                    decreases t.children.len() - i,
                {
                    let child = &t.children[i];
                    assert(self->Tag_0 == *t);
                    if !child.node.is_well_formed() {
                        return false;
                    }
                    i += 1;
                }
                true
            },
            Node::Text(_) => true,
            Node::Comp(c) => match &c.snapshot {
                Snapshot::Rendered { rendered, .. } => rendered.is_well_formed(),
                _ => true,
            },
        }
    }

    /// Whether the tree is mounted.
    pub fn is_mounted(&self) -> (r: bool)
        ensures
            r == self.mounted(),
        decreases self,
    {
        match self {
            Node::Tag(t) => {
                if t.store.is_none() || !unique(&t.children) {
                    return false;
                }
                let mut i: usize = 0;
                while i < t.children.len()
                    invariant
                        0 <= i <= t.children.len(),
                        *self == Node::Tag(*t),
                        forall|j: int| 0 <= j < i ==> (#[trigger] t.children[j]).node.mounted(),
                    decreases t.children.len() - i,
                {
                    let child = &t.children[i];
                    assert(self->Tag_0 == *t);
                    if !child.node.is_mounted() {
                        return false;
                    }
                    i += 1;
                }
                true
            },
            Node::Text(x) => x.store.is_some(),
            Node::Comp(c) => {
                c.state.is_some() && match &c.snapshot {
                    Snapshot::Rendered { rendered, .. } => rendered.is_mounted(),
                    _ => false,
                }
            },
        }
    }
}

/// The position of the first child with the identity `ident`.
pub fn find<H, C, I>(children: &Vec<Child<H, C, I>>, ident: &Ident) -> (r: Option<usize>)
    ensures
        match r {
            Some(j) => find_child(children@, ident@) == Some(j as int) && j < children.len(),
            None => find_child(children@, ident@) is None,
        },
{
    let mut i: usize = 0;
    while i < children.len()
        invariant
            0 <= i <= children.len(),
            position_from(children@, ident@, 0) == position_from(children@, ident@, i as int),
        decreases children.len() - i,
    {
        if children[i].ident.same(ident) {
            return Some(i);
        }
        i += 1;
    }
    None
}

impl<H> Text<H> {
    /// A new text whose content is fixed where the tree is written down.
    pub fn new_static(text: &'static str) -> (r: Text<H>)
        ensures
            r.text@ == text@,
            r.is_static,
            r.store is None,
    {
        Text { text: text.to_owned(), is_static: true, store: None }
    }

    /// A new text whose content is computed when the tree is built.
    pub fn new_dyn(text: String) -> (r: Text<H>)
        ensures
            r.text == text,
            !r.is_static,
            r.store is None,
    {
        Text { text, is_static: false, store: None }
    }

    /// Whether the content is fixed where the tree is written down.
    pub fn is_static(&self) -> (r: bool)
        ensures
            r == self.is_static,
    {
        self.is_static
    }

    /// The content.
    pub fn get(&self) -> (r: &str)
        ensures
            r@ == self.text@,
    {
        self.text.as_str()
    }

    /// The handle of the backing resource, once mounted.
    pub fn driver_store(&self) -> (r: Option<&H>)
        ensures
            crate::driver::deref_opt(r) == self.store,
    {
        self.store.as_ref()
    }
}

impl<H, C, I> Tag<H, C, I> {
    /// A new element whose name is fixed where the tree is written down.
    pub fn new_static(
        tag: &'static str,
        attrs: Vec<AttrListEntry>,
        children: Vec<Child<H, C, I>>,
    ) -> (r: Tag<H, C, I>)
        ensures
            r.tag@ == tag@,
            r.is_static,
            r.attrs == attrs,
            r.children == children,
            r.store is None,
    {
        Tag { tag: tag.to_owned(), is_static: true, attrs, children, store: None }
    }

    /// A new element whose name is computed when the tree is built.
    pub fn new_dyn(tag: String, attrs: Vec<AttrListEntry>, children: Vec<Child<H, C, I>>) -> (r:
        Tag<H, C, I>)
        ensures
            r.tag == tag,
            !r.is_static,
            r.attrs == attrs,
            r.children == children,
            r.store is None,
    {
        Tag { tag, is_static: false, attrs, children, store: None }
    }

    /// Whether the name is fixed where the tree is written down.
    pub fn is_tag_static(&self) -> (r: bool)
        ensures
            r == self.is_static,
    {
        self.is_static
    }

    /// The name.
    pub fn tag(&self) -> (r: &str)
        ensures
            r@ == self.tag@,
    {
        self.tag.as_str()
    }

    /// The handle of the backing resource, once mounted.
    pub fn driver_store(&self) -> (r: Option<&H>)
        ensures
            crate::driver::deref_opt(r) == self.store,
    {
        self.store.as_ref()
    }
}

impl<H, C, I> CompNode<H, C, I> {
    /// A new component with the input that its parent supplies.
    pub fn new(input: I) -> (r: CompNode<H, C, I>)
        ensures
            r.input == input,
            r.state is None,
            r.snapshot is NotRendered,
            Node::Comp(r).fresh(),
            Node::Comp(r).well_formed(),
    {
        CompNode { input, state: None, snapshot: Snapshot::NotRendered }
    }

    /// The state of the component, once mounted.
    pub fn state(&self) -> (r: Option<&C>)
        ensures
            crate::driver::deref_opt(r) == self.state,
    {
        self.state.as_ref()
    }

    /// The tree that the component rendered last, while it holds one.
    pub fn rendered(&self) -> (r: Option<&Node<H, C, I>>)
        ensures
            match r {
                Some(n) => self.snapshot matches Snapshot::Rendered { rendered, .. } && *n
                    == *rendered,
                None => !(self.snapshot is Rendered),
            },
    {
        match &self.snapshot {
            Snapshot::Rendered { rendered, .. } => Some(&**rendered),
            _ => None,
        }
    }
}

/// The children and the number of children without a key that a builder
/// holds after `items` were added, in their order, to a builder that held
/// `children` and `non_keyed`.
pub open spec fn with_children<H, C, I>(
    children: Seq<Child<H, C, I>>,
    non_keyed: nat,
    items: Seq<(Option<Key>, Node<H, C, I>)>,
) -> (Seq<Child<H, C, I>>, nat)
    decreases items.len(),
{
    if items.len() == 0 {
        (children, non_keyed)
    } else {
        let (before, count) = with_children(children, non_keyed, items.drop_last());
        match items.last().0 {
            Some(key) => (
                before.push(Child { ident: Ident::Key(key), node: items.last().1 }),
                count,
            ),
            None => (
                before.push(Child { ident: Ident::Index(count as usize), node: items.last().1 }),
                count + 1,
            ),
        }
    }
}

/// Builds a tag child by child: a child without a key is given its position
/// among the children without a key as its identity.
pub struct NodeBuilder<H, C, I> {
    tag: Tag<H, C, I>,
    non_keyed: usize,
}

impl<H, C, I> NodeBuilder<H, C, I> {
    /// The tag as built so far.
    pub closed spec fn spec_tag(&self) -> Tag<H, C, I> {
        self.tag
    }

    /// The number of children without a key so far.
    pub closed spec fn spec_non_keyed(&self) -> usize {
        self.non_keyed
    }

    /// There are no more children without a key than children.
    #[verifier::type_invariant]
    spec fn inv(&self) -> bool {
        self.non_keyed <= self.tag.children.len()
    }

    /// A tag of the given name without attributes or children.
    pub fn new(ty: String) -> (r: NodeBuilder<H, C, I>)
        ensures
            r.spec_tag().tag == ty,
            !r.spec_tag().is_static,
            r.spec_tag().attrs@ == Seq::<AttrListEntry>::empty(),
            r.spec_tag().children@ == Seq::<Child<H, C, I>>::empty(),
            r.spec_tag().store is None,
            r.spec_non_keyed() == 0,
    {
        NodeBuilder { tag: Tag::new_dyn(ty, Vec::new(), Vec::new()), non_keyed: 0 }
    }

    /// Appends a child without a key.
    pub fn add_child(self, child: Node<H, C, I>) -> (r: NodeBuilder<H, C, I>)
        ensures
            r.spec_tag().children@ == self.spec_tag().children@.push(
                Child { ident: Ident::Index(self.spec_non_keyed()), node: child },
            ),
            r.spec_non_keyed() == self.spec_non_keyed() + 1,
            r.spec_tag().tag == self.spec_tag().tag,
            r.spec_tag().is_static == self.spec_tag().is_static,
            r.spec_tag().attrs == self.spec_tag().attrs,
            r.spec_tag().store == self.spec_tag().store,
    {
        proof {
            use_type_invariant(&self);
        }
        let NodeBuilder { mut tag, non_keyed } = self;
        tag.children.push(Child { ident: Ident::Index(non_keyed), node: child });
        let len = tag.children.len();
        assert(non_keyed < len);
        NodeBuilder { tag, non_keyed: non_keyed + 1 }
    }

    /// Appends a child with a key.
    pub fn add_keyed_child(self, key: Key, child: Node<H, C, I>) -> (r: NodeBuilder<H, C, I>)
        ensures
            r.spec_tag().children@ == self.spec_tag().children@.push(
                Child { ident: Ident::Key(key), node: child },
            ),
            r.spec_non_keyed() == self.spec_non_keyed(),
            r.spec_tag().tag == self.spec_tag().tag,
            r.spec_tag().is_static == self.spec_tag().is_static,
            r.spec_tag().attrs == self.spec_tag().attrs,
            r.spec_tag().store == self.spec_tag().store,
    {
        proof {
            use_type_invariant(&self);
        }
        let NodeBuilder { mut tag, non_keyed } = self;
        tag.children.push(Child { ident: Ident::Key(key), node: child });
        NodeBuilder { tag, non_keyed }
    }

    /// Appends the children in their order, each with its key or without one.
    pub fn add_children(self, children: Vec<(Option<Key>, Node<H, C, I>)>) -> (r: NodeBuilder<
        H,
        C,
        I,
    >)
        ensures
            (r.spec_tag().children@, r.spec_non_keyed() as nat) == with_children(
                self.spec_tag().children@,
                self.spec_non_keyed() as nat,
                children@,
            ),
            r.spec_tag().tag == self.spec_tag().tag,
            r.spec_tag().is_static == self.spec_tag().is_static,
            r.spec_tag().attrs == self.spec_tag().attrs,
            r.spec_tag().store == self.spec_tag().store,
    {
        let ghost start = self;
        let ghost items = children@;
        let mut this = self;
        assert(items.take(0) =~= Seq::empty());
        for item in it: children.into_iter()
            invariant
                it.seq() == items,
                (this.spec_tag().children@, this.spec_non_keyed() as nat) == with_children(
                    start.spec_tag().children@,
                    start.spec_non_keyed() as nat,
                    items.take(it.index() as int),
                ),
                this.spec_tag().tag == start.spec_tag().tag,
                this.spec_tag().is_static == start.spec_tag().is_static,
                this.spec_tag().attrs == start.spec_tag().attrs,
                this.spec_tag().store == start.spec_tag().store,
        {
            proof {
                let next = items.take(it.index() + 1);
                assert(next.drop_last() =~= items.take(it.index() as int));
                assert(next.last() == item);
            }
            let (key, child) = item;
            this = match key {
                Some(key) => this.add_keyed_child(key, child),
                None => this.add_child(child),
            };
        }
        assert(items.take(items.len() as int) =~= items);
        this
    }

    /// Appends the attributes in their order.
    pub fn add_attributes(self, attrs: Vec<AttrListEntry>) -> (r: NodeBuilder<H, C, I>)
        ensures
            r.spec_tag().attrs@ == self.spec_tag().attrs@ + attrs@,
            r.spec_non_keyed() == self.spec_non_keyed(),
            r.spec_tag().tag == self.spec_tag().tag,
            r.spec_tag().is_static == self.spec_tag().is_static,
            r.spec_tag().children == self.spec_tag().children,
            r.spec_tag().store == self.spec_tag().store,
    {
        let ghost start = self;
        let ghost items = attrs@;
        let mut this = self;
        assert(start.spec_tag().attrs@ + items.take(0) =~= start.spec_tag().attrs@);
        for attr in it: attrs.into_iter()
            invariant
                it.seq() == items,
                this.spec_tag().attrs@ == start.spec_tag().attrs@ + items.take(it.index() as int),
                this.spec_non_keyed() == start.spec_non_keyed(),
                this.spec_tag().tag == start.spec_tag().tag,
                this.spec_tag().is_static == start.spec_tag().is_static,
                this.spec_tag().children == start.spec_tag().children,
                this.spec_tag().store == start.spec_tag().store,
        {
            assert(items.take(it.index() + 1) =~= items.take(it.index() as int).push(attr));
            this = this.add_attribute(attr);
        }
        assert(items.take(items.len() as int) =~= items);
        this
    }

    /// Appends an attribute.
    pub fn add_attribute(self, attr: AttrListEntry) -> (r: NodeBuilder<H, C, I>)
        ensures
            r.spec_tag().attrs@ == self.spec_tag().attrs@.push(attr),
            r.spec_non_keyed() == self.spec_non_keyed(),
            r.spec_tag().tag == self.spec_tag().tag,
            r.spec_tag().is_static == self.spec_tag().is_static,
            r.spec_tag().children == self.spec_tag().children,
            r.spec_tag().store == self.spec_tag().store,
    {
        proof {
            use_type_invariant(&self);
        }
        let NodeBuilder { mut tag, non_keyed } = self;
        tag.attrs.push(attr);
        NodeBuilder { tag, non_keyed }
    }

    /// The tag that was built.
    pub fn build(self) -> (r: Node<H, C, I>)
        ensures
            r == Node::Tag(self.spec_tag()),
    {
        Node::Tag(self.tag)
    }
}

} // verus!
