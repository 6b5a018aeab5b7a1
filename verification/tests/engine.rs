use vdom::attr::{AttrDyn, AttrListEntry, AttrStr, AttrTrue, AttrValue};
use vdom::comp::{NoComp, NoInput};
use vdom::diff::{diff, diff_node, is_compatible};
use vdom::driver::{Asked, Driver, DriverCtx, Error};
use vdom::key::Key;
use vdom::mount::{remove, visit};
use vdom::node::{find, unique, Child, CompNode, Node, NodeBuilder, Tag, Text};
use vdom::path::{Ident, Path};

struct Recorder {
    next: u64,
    fail_at: Option<usize>,
    log: Vec<String>,
}

impl Recorder {
    fn new() -> Recorder {
        Recorder { next: 0, fail_at: None, log: Vec::new() }
    }

    fn failing_at(call: usize) -> Recorder {
        Recorder { next: 0, fail_at: Some(call), log: Vec::new() }
    }

    fn record(&mut self, line: String) -> Result<(), String> {
        let failed = self.fail_at == Some(self.log.len());
        self.log.push(line);
        if failed {
            Err("refused".to_string())
        } else {
            Ok(())
        }
    }
}

impl Driver for Recorder {
    type Handle = u64;
    type Err = String;

    // A name for proofs, never called when the program runs.
    fn asked(&self) -> Asked<u64> {
        unreachable!()
    }

    fn create_element(&mut self, path: &Path, tag: &str) -> Result<u64, String> {
        self.next += 1;
        let made = self.next;
        self.record(format!("element {} <{}> -> #{}", path.to_string(), tag, made))?;
        Ok(made)
    }

    fn create_text(&mut self, path: &Path, text: &str) -> Result<u64, String> {
        self.next += 1;
        let made = self.next;
        self.record(format!("text {} '{}' -> #{}", path.to_string(), text, made))?;
        Ok(made)
    }

    fn insert(
        &mut self,
        path: &Path,
        parent: Option<&u64>,
        child: &u64,
        index: usize,
    ) -> Result<(), String> {
        self.record(format!("insert {} #{} into {:?} at {}", path.to_string(), child, parent, index))
    }

    fn reorder(
        &mut self,
        path: &Path,
        parent: Option<&u64>,
        child: &u64,
        index: usize,
    ) -> Result<(), String> {
        self.record(format!("reorder {} #{} in {:?} to {}", path.to_string(), child, parent, index))
    }

    fn remove(&mut self, path: &Path, handle: u64) -> Result<(), String> {
        self.record(format!("remove {} #{}", path.to_string(), handle))
    }

    fn set_text(&mut self, path: &Path, target: &u64, text: &str) -> Result<(), String> {
        self.record(format!("set_text {} #{} '{}'", path.to_string(), target, text))
    }

    fn set_attribute(
        &mut self,
        path: &Path,
        target: &u64,
        name: &str,
        value: &str,
    ) -> Result<(), String> {
        self.record(format!("set_attribute {} #{} {}='{}'", path.to_string(), target, name, value))
    }

    fn remove_attribute(&mut self, path: &Path, target: &u64, name: &str) -> Result<(), String> {
        self.record(format!("remove_attribute {} #{} {}", path.to_string(), target, name))
    }
}

type Tree = Node<u64, NoComp, NoInput>;

fn root() -> Path {
    Path::new(None, Ident::Key(Key::Str("")))
}

fn text(content: &str) -> Tree {
    Node::Text(Text::new_dyn(content.to_string()))
}

fn keyed(key: &'static str, node: Tree) -> Child<u64, NoComp, NoInput> {
    Child { ident: Ident::Key(Key::Str(key)), node }
}

fn tag(name: &'static str, attrs: Vec<AttrListEntry>, children: Vec<Child<u64, NoComp, NoInput>>) -> Tree {
    Node::Tag(Tag::new_static(name, attrs, children))
}

fn log_of(ctx: &DriverCtx<Recorder>) -> Vec<String> {
    ctx.with(|d: &Recorder| d.log.clone())
}

fn mounted(mut node: Tree) -> (Tree, DriverCtx<Recorder>) {
    let mut ctx = DriverCtx::new(Recorder::new());
    assert!(node.is_fresh() && node.is_well_formed());
    visit(&mut node, None, &root(), 0, &mut ctx).unwrap();
    (node, ctx)
}

fn strings(lines: &[&str]) -> Vec<String> {
    lines.iter().map(|l| l.to_string()).collect()
}

fn list_abc() -> Tree {
    tag(
        "ul",
        Vec::new(),
        vec![keyed("a", text("1")), keyed("b", text("2")), keyed("c", text("3"))],
    )
}

#[test]
fn visit_mounts_a_text() {
    let (node, ctx) = mounted(Node::Text(Text::new_static("hi")));
    assert!(node.is_mounted());
    assert!(!node.is_fresh());
    assert_eq!(node.handle(), Some(&1));
    assert_eq!(log_of(&ctx), strings(&["text s 'hi' -> #1", "insert s #1 into None at 0"]));
}

#[test]
fn visit_builds_an_element_before_it_attaches_it() {
    let tree = tag(
        "div",
        vec![
            AttrListEntry::Str(AttrStr::new("class", "wrapper")),
            AttrListEntry::True(AttrTrue::new("hidden")),
            AttrListEntry::Dyn(AttrDyn::new("title", AttrValue::Null)),
        ],
        vec![
            Child { ident: Ident::Index(0), node: text("a") },
            keyed("k", tag("span", Vec::new(), Vec::new())),
        ],
    );
    let (node, ctx) = mounted(tree);
    assert!(node.is_mounted());
    assert_eq!(
        log_of(&ctx),
        strings(&[
            "element s <div> -> #1",
            "set_attribute s #1 class='wrapper'",
            "set_attribute s #1 hidden='hidden'",
            "text 0.s 'a' -> #2",
            "insert 0.s #2 into Some(1) at 0",
            "element sk.s <span> -> #3",
            "insert sk.s #3 into Some(1) at 1",
            "insert s #1 into None at 0",
        ])
    );
}

#[test]
fn noop_diff_asks_nothing_of_the_driver() {
    let (mut last, mut ctx) = mounted(tag(
        "div",
        vec![AttrListEntry::Str(AttrStr::new("class", "wrapper"))],
        vec![keyed("a", text("1")), Child { ident: Ident::Index(0), node: list_abc() }],
    ));
    let before = log_of(&ctx).len();
    let mut curr = tag(
        "div",
        vec![AttrListEntry::Dyn(AttrDyn::new("class", AttrValue::String("wrapper".to_string())))],
        vec![keyed("a", text("1")), Child { ident: Ident::Index(0), node: list_abc() }],
    );
    diff_node(&mut curr, &mut last, None, &root(), 0, &mut ctx).unwrap();
    assert_eq!(log_of(&ctx).len(), before);
    assert!(curr.is_mounted());
    assert_eq!(curr.handle(), Some(&1));
}

#[test]
fn diff_sets_the_text_that_changed() {
    let (mut last, mut ctx) = mounted(text("old"));
    let mut curr = text("new");
    diff_node(&mut curr, &mut last, None, &root(), 0, &mut ctx).unwrap();
    assert_eq!(log_of(&ctx)[2..].to_vec(), strings(&["set_text s #1 'new'"]));
    assert_eq!(curr.handle(), Some(&1));
    assert_eq!(last.handle(), None);
}

#[test]
fn diff_of_added_node_is_the_visit_of_that_node() {
    let (_, visited) = mounted(list_abc());
    let mut ctx = DriverCtx::new(Recorder::new());
    let mut curr = Some(list_abc());
    let mut none: Option<Tree> = None;
    diff(&mut curr, &mut none, None, &root(), 0, &mut ctx).unwrap();
    assert_eq!(log_of(&ctx), log_of(&visited));
    assert!(curr.unwrap().is_mounted());
}

#[test]
fn diff_of_removed_node_releases_every_store() {
    let (last, mut ctx) = mounted(tag(
        "div",
        Vec::new(),
        vec![keyed("list", list_abc()), keyed("t", text("x"))],
    ));
    let before = log_of(&ctx).len();
    let mut last = Some(last);
    let mut none: Option<Tree> = None;
    diff(&mut none, &mut last, None, &root(), 0, &mut ctx).unwrap();
    assert_eq!(
        log_of(&ctx)[before..].to_vec(),
        strings(&[
            "remove sa.slist.s #3",
            "remove sb.slist.s #4",
            "remove sc.slist.s #5",
            "remove slist.s #2",
            "remove st.s #6",
            "remove s #1",
        ])
    );
    let gone = last.unwrap();
    assert!(!gone.is_mounted());
    assert_eq!(gone.handle(), None);
    match gone {
        Node::Tag(t) => {
            assert!(t.driver_store().is_none());
            for child in t.children.iter() {
                assert_eq!(child.node.handle(), None);
            }
        }
        _ => unreachable!(),
    }
}

#[test]
fn diff_of_nothing_against_nothing_asks_nothing() {
    let mut ctx = DriverCtx::new(Recorder::new());
    let mut a: Option<Tree> = None;
    let mut b: Option<Tree> = None;
    assert!(diff(&mut a, &mut b, None, &root(), 0, &mut ctx).is_ok());
    assert!(log_of(&ctx).is_empty());
}

#[test]
fn keyed_reorder_only_moves_nodes() {
    let (mut last, mut ctx) = mounted(list_abc());
    let before = log_of(&ctx).len();
    let mut curr = tag(
        "ul",
        Vec::new(),
        vec![keyed("c", text("3")), keyed("a", text("1")), keyed("b", text("2"))],
    );
    diff_node(&mut curr, &mut last, None, &root(), 0, &mut ctx).unwrap();
    assert_eq!(
        log_of(&ctx)[before..].to_vec(),
        strings(&[
            "reorder sc.s #4 in Some(1) to 0",
            "reorder sa.s #2 in Some(1) to 1",
            "reorder sb.s #3 in Some(1) to 2",
        ])
    );
    assert!(curr.is_mounted());
}

#[test]
fn keyed_list_against_its_rotation_touches_positions_only() {
    let (mut last, mut ctx) = mounted(tag(
        "ul",
        Vec::new(),
        vec![keyed("c", text("3")), keyed("a", text("1")), keyed("b", text("2"))],
    ));
    let before = log_of(&ctx).len();
    let mut curr = list_abc();
    diff_node(&mut curr, &mut last, None, &root(), 0, &mut ctx).unwrap();
    let asked = log_of(&ctx)[before..].to_vec();
    assert_eq!(
        asked,
        strings(&[
            "reorder sa.s #3 in Some(1) to 0",
            "reorder sb.s #4 in Some(1) to 1",
            "reorder sc.s #2 in Some(1) to 2",
        ])
    );
    assert!(asked.iter().all(|line| line.starts_with("reorder ")));
}

#[test]
fn with_mut_reaches_the_driver() {
    let mut ctx = DriverCtx::new(Recorder::new());
    let seen = ctx.with_mut(|d: &mut Recorder| {
        d.next = 41;
        d.next + 1
    });
    assert_eq!(seen, 42);
    let mut node = text("x");
    visit(&mut node, None, &root(), 0, &mut ctx).unwrap();
    assert_eq!(node.handle(), Some(&42));
}

#[test]
fn keyed_children_are_added_and_removed_by_key() {
    let (mut last, mut ctx) = mounted(list_abc());
    let before = log_of(&ctx).len();
    let mut curr = tag(
        "ul",
        Vec::new(),
        vec![keyed("a", text("1")), keyed("d", text("4")), keyed("c", text("three"))],
    );
    diff_node(&mut curr, &mut last, None, &root(), 0, &mut ctx).unwrap();
    assert_eq!(
        log_of(&ctx)[before..].to_vec(),
        strings(&[
            "text sd.s '4' -> #5",
            "insert sd.s #5 into Some(1) at 1",
            "set_text sc.s #4 'three'",
            "remove sb.s #3",
        ])
    );
}

#[test]
fn diff_brings_attributes_up_to_date() {
    let (mut last, mut ctx) = mounted(tag(
        "input",
        vec![
            AttrListEntry::Dyn(AttrDyn::new("checked", AttrValue::from_bool(true))),
            AttrListEntry::Dyn(AttrDyn::new("title", AttrValue::from_static(Some("x")))),
            AttrListEntry::Dyn(AttrDyn::new("name", AttrValue::from_static(None))),
            AttrListEntry::Str(AttrStr::new("class", "a")),
        ],
        Vec::new(),
    ));
    let before = log_of(&ctx).len();
    assert_eq!(before, 5);
    let mut curr = tag(
        "input",
        vec![
            AttrListEntry::Dyn(AttrDyn::new("checked", AttrValue::from_bool(false))),
            AttrListEntry::Dyn(AttrDyn::new("title", AttrValue::from_static(None))),
            AttrListEntry::Dyn(AttrDyn::new("name", AttrValue::from_static(Some("y")))),
            AttrListEntry::Str(AttrStr::new("class", "a")),
        ],
        Vec::new(),
    );
    diff_node(&mut curr, &mut last, None, &root(), 0, &mut ctx).unwrap();
    assert_eq!(
        log_of(&ctx)[before..].to_vec(),
        strings(&[
            "remove_attribute s #1 checked",
            "remove_attribute s #1 title",
            "set_attribute s #1 name='y'",
        ])
    );
}

#[test]
fn incompatible_nodes_are_replaced() {
    let (mut last, mut ctx) = mounted(tag("div", Vec::new(), vec![keyed("a", text("1"))]));
    let before = log_of(&ctx).len();
    let mut curr = text("plain");
    assert!(!is_compatible(&curr, &last));
    diff_node(&mut curr, &mut last, None, &root(), 3, &mut ctx).unwrap();
    assert_eq!(
        log_of(&ctx)[before..].to_vec(),
        strings(&[
            "remove sa.s #2",
            "remove s #1",
            "text s 'plain' -> #3",
            "insert s #3 into None at 3",
        ])
    );
    let (mut last, mut ctx) = mounted(tag("div", Vec::new(), Vec::new()));
    let mut curr = tag("span", Vec::new(), Vec::new());
    diff_node(&mut curr, &mut last, None, &root(), 0, &mut ctx).unwrap();
    assert_eq!(
        log_of(&ctx)[2..].to_vec(),
        strings(&["remove s #1", "element s <span> -> #2", "insert s #2 into None at 0"])
    );
    let (mut last, mut ctx) =
        mounted(tag("div", vec![AttrListEntry::True(AttrTrue::new("a"))], Vec::new()));
    let mut curr = tag("div", vec![AttrListEntry::True(AttrTrue::new("b"))], Vec::new());
    assert!(!is_compatible(&curr, &last));
    diff_node(&mut curr, &mut last, None, &root(), 0, &mut ctx).unwrap();
    assert_eq!(log_of(&ctx).len(), 3 + 4);
}

#[test]
fn path_of_a_node_is_the_same_when_added_and_when_kept() {
    let make = |content: &str| {
        tag("div", Vec::new(), vec![keyed("ul", tag("ul", Vec::new(), vec![keyed("row-7", text(content))]))])
    };
    let (mut last, mut ctx) = mounted(make("one"));
    let added = log_of(&ctx);
    assert!(added.contains(&"text srow-7.sul.s 'one' -> #3".to_string()));
    let mut curr = make("two");
    diff_node(&mut curr, &mut last, None, &root(), 0, &mut ctx).unwrap();
    assert_eq!(log_of(&ctx)[added.len()..].to_vec(), strings(&["set_text srow-7.sul.s #3 'two'"]));
    let mut again = make("three");
    diff_node(&mut again, &mut curr, None, &root(), 0, &mut ctx).unwrap();
    assert_eq!(log_of(&ctx).last().unwrap(), "set_text srow-7.sul.s #3 'three'");
}

#[test]
fn first_failure_stops_the_traversal() {
    let mut ctx = DriverCtx::new(Recorder::failing_at(2));
    let mut tree = list_abc();
    let r = visit(&mut tree, None, &root(), 0, &mut ctx);
    match r {
        Err(Error::Driver(e)) => assert_eq!(e, "refused"),
        _ => panic!("the driver's failure is handed on"),
    }
    assert_eq!(log_of(&ctx).len(), 3);
    assert!(!tree.is_mounted());
}

#[test]
fn failure_while_reconciling_is_handed_on() {
    let mut ctx = DriverCtx::new(Recorder::failing_at(2));
    let mut last = text("a");
    visit(&mut last, None, &root(), 0, &mut ctx).unwrap();
    let mut curr = text("b");
    assert!(matches!(
        diff_node(&mut curr, &mut last, None, &root(), 0, &mut ctx),
        Err(Error::Driver(_))
    ));
    assert_eq!(log_of(&ctx).len(), 3);
}

#[test]
fn remove_unmounts_children_first() {
    let (mut tree, mut ctx) = mounted(list_abc());
    let before = log_of(&ctx).len();
    remove(&mut tree, &root(), &mut ctx).unwrap();
    assert_eq!(
        log_of(&ctx)[before..].to_vec(),
        strings(&["remove sa.s #2", "remove sb.s #3", "remove sc.s #4", "remove s #1"])
    );
}

#[test]
fn siblings_with_one_identity_are_not_well_formed() {
    let twice = tag("ul", Vec::new(), vec![keyed("a", text("1")), keyed("a", text("2"))]);
    assert!(!twice.is_well_formed());
    assert!(twice.is_fresh());
    let nested = tag("div", Vec::new(), vec![keyed("x", twice)]);
    assert!(!nested.is_well_formed());
    assert!(list_abc().is_well_formed());
    match list_abc() {
        Node::Tag(t) => {
            assert!(unique(&t.children));
            assert_eq!(find(&t.children, &Ident::Key(Key::Str("b"))), Some(1));
            assert_eq!(find(&t.children, &Ident::Key(Key::Str("z"))), None);
            assert_eq!(find(&t.children, &Ident::Index(1)), None);
        }
        _ => unreachable!(),
    }
}

#[test]
fn builder_numbers_children_without_a_key() {
    let built: Tree = NodeBuilder::new("ul".to_string())
        .add_child(text("a"))
        .add_keyed_child(Key::Str("k"), text("b"))
        .add_child(text("c"))
        .add_attribute(AttrListEntry::True(AttrTrue::new("hidden")))
        .build();
    match &built {
        Node::Tag(t) => {
            assert_eq!(t.tag(), "ul");
            assert!(!t.is_tag_static());
            assert_eq!(t.children.len(), 3);
            assert!(t.children[0].ident == Ident::Index(0));
            assert!(t.children[1].ident == Ident::Key(Key::Str("k")));
            assert!(t.children[2].ident == Ident::Index(1));
            assert_eq!(t.attrs.len(), 1);
        }
        _ => unreachable!(),
    }
    assert!(built.is_well_formed());
    assert!(built.is_fresh());
}

#[test]
fn identifiers_count_up_from_one() {
    let mut ctx = DriverCtx::new(Recorder::new());
    assert_eq!(ctx.next_id(), 1);
    assert_eq!(ctx.next_id(), 2);
    assert_eq!(ctx.try_next_id(), Some(3));
    assert_eq!(ctx.render_depth(), usize::MAX);
    ctx.set_render_depth(2);
    assert_eq!(ctx.render_depth(), 2);
    ctx.driver_mut().next = 10;
    assert_eq!(ctx.with(|d: &Recorder| d.next), 10);
}

#[test]
fn text_getters() {
    let fixed: Text<u64> = Text::new_static("a");
    assert!(fixed.is_static());
    assert_eq!(fixed.get(), "a");
    assert!(fixed.driver_store().is_none());
    let computed: Text<u64> = Text::new_dyn("b".to_string());
    assert!(!computed.is_static());
    assert_eq!(computed.get(), "b");
    let comp: CompNode<u64, NoComp, NoInput> = CompNode::new(NoInput);
    assert!(comp.state().is_none());
    assert!(comp.rendered().is_none());
}

#[test]
fn builder_takes_children_and_attributes_in_bulk() {
    let built: Tree = NodeBuilder::new("ul".to_string())
        .add_child(text("first"))
        .add_children(vec![
            (Some(Key::Str("k")), text("a")),
            (None, text("b")),
            (Some(Key::U64(2)), text("c")),
            (None, text("d")),
        ])
        .add_attributes(vec![
            AttrListEntry::True(AttrTrue::new("hidden")),
            AttrListEntry::Str(AttrStr::new("class", "wide")),
        ])
        .build();
    match &built {
        Node::Tag(t) => {
            assert_eq!(t.children.len(), 5);
            assert!(t.children[0].ident == Ident::Index(0));
            assert!(t.children[1].ident == Ident::Key(Key::Str("k")));
            assert!(t.children[2].ident == Ident::Index(1));
            assert!(t.children[3].ident == Ident::Key(Key::U64(2)));
            assert!(t.children[4].ident == Ident::Index(2));
            assert_eq!(t.attrs.len(), 2);
            assert_eq!(t.attrs[1].name(), "class");
        }
        _ => unreachable!(),
    }
    assert!(built.is_well_formed());
}

#[test]
fn nodes_come_from_their_parts() {
    let from_string: Tree = Node::from("hello".to_string());
    match &from_string {
        Node::Text(t) => {
            assert_eq!(t.get(), "hello");
            assert!(!t.is_static());
        }
        _ => unreachable!(),
    }
    let from_text: Tree = Node::from(Text::new_static("x"));
    assert!(matches!(from_text, Node::Text(_)));
    let from_tag: Tree = Node::from(Tag::new_dyn("p".to_string(), Vec::new(), Vec::new()));
    assert!(matches!(from_tag, Node::Tag(_)));
    let from_comp: Tree = Node::from(CompNode::new(NoInput));
    assert!(matches!(from_comp, Node::Comp(_)));
    let from_builder: Tree = Node::from(NodeBuilder::new("p".to_string()));
    assert!(matches!(from_builder, Node::Tag(_)));
}
