use std::cell::Cell;
use std::rc::Rc;
use vdom::comp::Comp;
use vdom::diff::diff_node;
use vdom::driver::{Asked, Driver, DriverCtx, Error, RenderError};
use vdom::key::Key;
use vdom::locate::{locate, update_state_at};
use vdom::mount::{remove, visit};
use vdom::node::{Child, CompNode, Node, NodeView, Tag, Text};
use vdom::path::{Ident, Path};
use vdom::refresh::refresh;

struct Log {
    next: u64,
    lines: Vec<String>,
}

impl Driver for Log {
    type Handle = u64;
    type Err = String;

    // A name for proofs, never called when the program runs.
    fn asked(&self) -> Asked<u64> {
        unreachable!()
    }

    fn create_element(&mut self, path: &Path, tag: &str) -> Result<u64, String> {
        self.next += 1;
        self.lines.push(format!("element {} <{}> -> #{}", path.to_string(), tag, self.next));
        Ok(self.next)
    }

    fn create_text(&mut self, path: &Path, text: &str) -> Result<u64, String> {
        self.next += 1;
        self.lines.push(format!("text {} '{}' -> #{}", path.to_string(), text, self.next));
        Ok(self.next)
    }

    fn insert(&mut self, path: &Path, parent: Option<&u64>, child: &u64, index: usize) -> Result<(), String> {
        self.lines.push(format!("insert {} #{} into {:?} at {}", path.to_string(), child, parent, index));
        Ok(())
    }

    fn reorder(&mut self, path: &Path, parent: Option<&u64>, child: &u64, index: usize) -> Result<(), String> {
        self.lines.push(format!("reorder {} #{} in {:?} to {}", path.to_string(), child, parent, index));
        Ok(())
    }

    fn remove(&mut self, path: &Path, handle: u64) -> Result<(), String> {
        self.lines.push(format!("remove {} #{}", path.to_string(), handle));
        Ok(())
    }

    fn set_text(&mut self, path: &Path, target: &u64, text: &str) -> Result<(), String> {
        self.lines.push(format!("set_text {} #{} '{}'", path.to_string(), target, text));
        Ok(())
    }

    fn set_attribute(&mut self, path: &Path, target: &u64, name: &str, value: &str) -> Result<(), String> {
        self.lines.push(format!("set_attribute {} #{} {}='{}'", path.to_string(), target, name, value));
        Ok(())
    }

    fn remove_attribute(&mut self, path: &Path, target: &u64, name: &str) -> Result<(), String> {
        self.lines.push(format!("remove_attribute {} #{} {}", path.to_string(), target, name));
        Ok(())
    }
}

/// What the parent supplies: a label, how deep to nest, and a counter of
/// renderings that the policy ignores.
#[derive(Clone)]
struct Input {
    label: String,
    nest: usize,
    twice: bool,
    renders: Rc<Cell<usize>>,
}

/// A component that shows its label and how often it was clicked.
#[derive(Clone, PartialEq, Eq)]
struct Counter {
    clicks: u32,
}

impl Comp for Counter {
    type Input = Input;

    // Names for proofs, never called when the program runs.
    fn new_spec(_input: &Input) -> Counter {
        unreachable!()
    }

    fn render_spec(&self, _input: &Input) -> NodeView<Input> {
        unreachable!()
    }

    fn rerender_spec(_last: &Counter, _curr: &Counter, _last_input: &Input, _curr_input: &Input) -> bool {
        unreachable!()
    }

    fn new(_input: &Input) -> Counter {
        Counter { clicks: 0 }
    }

    fn render<H>(&self, input: &Input) -> Node<H, Counter, Input> {
        input.renders.set(input.renders.get() + 1);
        let shown = Node::Text(Text::new_dyn(format!("{}:{}", input.label, self.clicks)));
        let mut children = vec![Child { ident: Ident::Key(Key::Str("label")), node: shown }];
        if input.twice {
            children.push(Child {
                ident: Ident::Key(Key::Str("label")),
                node: Node::Text(Text::new_static("again")),
            });
        }
        if input.nest > 0 {
            let inner = Input { nest: input.nest - 1, ..input.clone() };
            children.push(Child {
                ident: Ident::Key(Key::Str("inner")),
                node: Node::Comp(CompNode::new(inner)),
            });
        }
        Node::Tag(Tag::new_static("p", Vec::new(), children))
    }

    fn should_rerender(last: &Counter, curr: &Counter, last_input: &Input, curr_input: &Input) -> bool {
        last != curr || last_input.label != curr_input.label || last_input.nest != curr_input.nest
    }
}

type Tree = Node<u64, Counter, Input>;

fn root() -> Path {
    Path::new(None, Ident::Key(Key::Str("")))
}

fn comp(label: &str, nest: usize, renders: &Rc<Cell<usize>>) -> Tree {
    Node::Comp(CompNode::new(Input {
        label: label.to_string(),
        nest,
        twice: false,
        renders: renders.clone(),
    }))
}

fn lines(ctx: &DriverCtx<Log>) -> Vec<String> {
    ctx.with(|d: &Log| d.lines.clone())
}

fn start() -> DriverCtx<Log> {
    DriverCtx::new(Log { next: 0, lines: Vec::new() })
}

#[test]
fn component_renders_when_it_is_mounted() {
    let renders = Rc::new(Cell::new(0));
    let mut ctx = start();
    let mut tree = comp("a", 0, &renders);
    visit(&mut tree, None, &root(), 0, &mut ctx).unwrap();
    assert_eq!(renders.get(), 1);
    assert!(tree.is_mounted());
    assert_eq!(tree.handle(), Some(&1));
    assert_eq!(
        lines(&ctx),
        vec![
            "element s <p> -> #1".to_string(),
            "text slabel.s 'a:0' -> #2".to_string(),
            "insert slabel.s #2 into Some(1) at 0".to_string(),
            "insert s #1 into None at 0".to_string(),
        ]
    );
}

#[test]
fn component_with_equal_state_and_input_renders_once() {
    let renders = Rc::new(Cell::new(0));
    let mut ctx = start();
    let mut first = comp("a", 0, &renders);
    visit(&mut first, None, &root(), 0, &mut ctx).unwrap();
    assert_eq!(renders.get(), 1);
    let asked = lines(&ctx).len();
    let mut second = comp("a", 0, &renders);
    diff_node(&mut second, &mut first, None, &root(), 0, &mut ctx).unwrap();
    let mut third = comp("a", 0, &renders);
    diff_node(&mut third, &mut second, None, &root(), 0, &mut ctx).unwrap();
    assert_eq!(renders.get(), 1);
    assert_eq!(lines(&ctx).len(), asked);
    assert!(third.is_mounted());
    assert_eq!(third.handle(), Some(&1));
    match (&first, &second) {
        (Node::Comp(a), Node::Comp(b)) => {
            assert!(a.rendered().is_none());
            assert!(a.state().is_none());
            assert!(b.rendered().is_none());
        }
        _ => unreachable!(),
    }
}

#[test]
fn component_renders_again_when_its_input_changes() {
    let renders = Rc::new(Cell::new(0));
    let mut ctx = start();
    let mut first = comp("a", 0, &renders);
    visit(&mut first, None, &root(), 0, &mut ctx).unwrap();
    let asked = lines(&ctx).len();
    let mut second = comp("b", 0, &renders);
    diff_node(&mut second, &mut first, None, &root(), 0, &mut ctx).unwrap();
    assert_eq!(renders.get(), 2);
    assert_eq!(lines(&ctx)[asked..].to_vec(), vec!["set_text slabel.s #2 'b:0'".to_string()]);
}

#[test]
fn component_that_updates_itself_renders_again() {
    let renders = Rc::new(Cell::new(0));
    let mut ctx = start();
    let inner = comp("a", 0, &renders);
    let mut first: Tree = Node::Tag(Tag::new_static(
        "div",
        Vec::new(),
        vec![Child { ident: Ident::Key(Key::Str("c")), node: inner }],
    ));
    visit(&mut first, None, &root(), 0, &mut ctx).unwrap();
    let asked = lines(&ctx).len();
    let at = vec![Ident::Key(Key::Str("c"))];
    assert!(update_state_at(&mut first, &at, 0, |s: Counter| Counter { clicks: s.clicks + 1 }));
    assert!(first.is_mounted());
    assert!(!update_state_at(&mut first, &vec![Ident::Key(Key::Str("x"))], 0, |s: Counter| s));
    assert!(!update_state_at(&mut first, &Vec::new(), 0, |s: Counter| s));
    let mut second: Tree = Node::Tag(Tag::new_static(
        "div",
        Vec::new(),
        vec![Child { ident: Ident::Key(Key::Str("c")), node: comp("a", 0, &renders) }],
    ));
    diff_node(&mut second, &mut first, None, &root(), 0, &mut ctx).unwrap();
    assert_eq!(renders.get(), 2);
    assert_eq!(lines(&ctx)[asked..].to_vec(), vec!["set_text slabel.sc.s #3 'a:1'".to_string()]);
    let mut third: Tree = Node::Tag(Tag::new_static(
        "div",
        Vec::new(),
        vec![Child { ident: Ident::Key(Key::Str("c")), node: comp("a", 0, &renders) }],
    ));
    diff_node(&mut third, &mut second, None, &root(), 0, &mut ctx).unwrap();
    assert_eq!(renders.get(), 2);
    assert_eq!(lines(&ctx).len(), asked + 1);
}

#[test]
fn components_render_components() {
    let renders = Rc::new(Cell::new(0));
    let mut ctx = start();
    let mut tree = comp("n", 2, &renders);
    visit(&mut tree, None, &root(), 0, &mut ctx).unwrap();
    assert_eq!(renders.get(), 3);
    assert!(tree.is_mounted());
    let found = locate(&tree, &vec![Ident::Key(Key::Str("inner")), Ident::Key(Key::Str("label"))], 0);
    match found {
        Some(Node::Text(t)) => assert_eq!(t.get(), "n:0"),
        _ => panic!("the label of the inner component is found"),
    }
    assert!(locate(&tree, &vec![Ident::Key(Key::Str("nowhere"))], 0).is_none());
    assert!(matches!(locate(&tree, &Vec::new(), 0), Some(Node::Tag(_))));
    let before = lines(&ctx).len();
    remove(&mut tree, &root(), &mut ctx).unwrap();
    assert_eq!(lines(&ctx).len(), before + 6);
    assert_eq!(lines(&ctx).last().unwrap(), "remove s #1");
}

#[test]
fn components_nested_deeper_than_the_limit_are_refused() {
    let renders = Rc::new(Cell::new(0));
    let mut ctx = start();
    ctx.set_render_depth(2);
    let mut tree = comp("n", 2, &renders);
    assert!(matches!(
        visit(&mut tree, None, &root(), 0, &mut ctx),
        Err(Error::Render(RenderError::TooDeep))
    ));
    let mut ctx = start();
    ctx.set_render_depth(3);
    let mut tree = comp("n", 2, &renders);
    assert!(visit(&mut tree, None, &root(), 0, &mut ctx).is_ok());
    let mut ctx = start();
    ctx.set_render_depth(0);
    let mut tree = comp("n", 0, &renders);
    assert!(matches!(
        visit(&mut tree, None, &root(), 0, &mut ctx),
        Err(Error::Render(RenderError::TooDeep))
    ));
}

#[test]
fn component_that_renders_siblings_with_one_identity_is_refused() {
    let renders = Rc::new(Cell::new(0));
    let mut ctx = start();
    let mut tree: Tree = Node::Comp(CompNode::new(Input {
        label: "a".to_string(),
        nest: 0,
        twice: true,
        renders: renders.clone(),
    }));
    assert!(matches!(
        visit(&mut tree, None, &root(), 0, &mut ctx),
        Err(Error::Render(RenderError::Malformed))
    ));
    assert!(lines(&ctx).is_empty());
}

#[test]
fn component_against_a_tag_is_replaced() {
    let renders = Rc::new(Cell::new(0));
    let mut ctx = start();
    let mut first: Tree = Node::Text(Text::new_static("plain"));
    visit(&mut first, None, &root(), 0, &mut ctx).unwrap();
    let mut second = comp("a", 0, &renders);
    diff_node(&mut second, &mut first, None, &root(), 0, &mut ctx).unwrap();
    assert_eq!(renders.get(), 1);
    assert_eq!(lines(&ctx)[2], "remove s #1");
    assert_eq!(lines(&ctx).len(), 2 + 1 + 4);
    assert!(second.is_mounted());
}

#[test]
fn refresh_renders_stale_components_in_place() {
    let renders = Rc::new(Cell::new(0));
    let mut ctx = start();
    let mut tree: Tree = Node::Tag(Tag::new_static(
        "div",
        Vec::new(),
        vec![
            Child { ident: Ident::Key(Key::Str("c")), node: comp("a", 1, &renders) },
            Child { ident: Ident::Key(Key::Str("d")), node: comp("b", 0, &renders) },
        ],
    ));
    visit(&mut tree, None, &root(), 0, &mut ctx).unwrap();
    assert_eq!(renders.get(), 3);
    let asked = lines(&ctx).len();
    refresh(&mut tree, None, &root(), 0, &mut ctx).unwrap();
    assert_eq!(renders.get(), 3);
    assert_eq!(lines(&ctx).len(), asked);
    let inner = vec![Ident::Key(Key::Str("c")), Ident::Key(Key::Str("inner"))];
    assert!(update_state_at(&mut tree, &inner, 0, |s: Counter| Counter { clicks: s.clicks + 5 }));
    refresh(&mut tree, None, &root(), 0, &mut ctx).unwrap();
    assert_eq!(renders.get(), 4);
    assert_eq!(
        lines(&ctx)[asked..].to_vec(),
        vec!["set_text slabel.sinner.sc.s #5 'a:5'".to_string()]
    );
    assert!(tree.is_mounted());
    refresh(&mut tree, None, &root(), 0, &mut ctx).unwrap();
    assert_eq!(renders.get(), 4);
    assert_eq!(lines(&ctx).len(), asked + 1);
    let outer = vec![Ident::Key(Key::Str("c"))];
    assert!(update_state_at(&mut tree, &outer, 0, |s: Counter| Counter { clicks: s.clicks + 1 }));
    refresh(&mut tree, None, &root(), 0, &mut ctx).unwrap();
    assert_eq!(renders.get(), 5);
    assert_eq!(lines(&ctx).last().unwrap(), "set_text slabel.sc.s #3 'a:1'");
    assert_eq!(lines(&ctx).len(), asked + 2);
}

#[test]
fn rendering_again_is_held_to_the_limit_too() {
    let renders = Rc::new(Cell::new(0));
    let mut ctx = start();
    let mut first = comp("a", 0, &renders);
    visit(&mut first, None, &root(), 0, &mut ctx).unwrap();
    ctx.set_render_depth(0);
    let mut same = comp("a", 0, &renders);
    assert!(diff_node(&mut same, &mut first, None, &root(), 0, &mut ctx).is_ok());
    let mut changed = comp("b", 0, &renders);
    assert!(matches!(
        diff_node(&mut changed, &mut same, None, &root(), 0, &mut ctx),
        Err(Error::Render(RenderError::TooDeep))
    ));
    assert_eq!(renders.get(), 1);
}

#[test]
fn rendering_again_refuses_a_malformed_tree() {
    let renders = Rc::new(Cell::new(0));
    let mut ctx = start();
    let mut first = comp("a", 0, &renders);
    visit(&mut first, None, &root(), 0, &mut ctx).unwrap();
    let asked = lines(&ctx).len();
    let mut second: Tree = Node::Comp(CompNode::new(Input {
        label: "b".to_string(),
        nest: 0,
        twice: true,
        renders: renders.clone(),
    }));
    assert!(matches!(
        diff_node(&mut second, &mut first, None, &root(), 0, &mut ctx),
        Err(Error::Render(RenderError::Malformed))
    ));
    assert_eq!(lines(&ctx).len(), asked);
}
