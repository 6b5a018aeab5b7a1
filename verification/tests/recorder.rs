use vdom::comp::{changed, NoComp, NoInput};
use vdom::diff::{diff, diff_node, diff_rendered};
use vdom::driver::{Driver, DriverCtx, Error, RenderError};
use vdom::key::Key;
use vdom::mount::{accept_rendered, mount_rendered, remove, visit};
use vdom::node::{Child, CompNode, Node, Tag, Text};
use vdom::path::{Ident, Path};
use vdom::recorder::{Recorder, Refused, Request};

type Tree = Node<u64, NoComp, NoInput>;

fn top() -> Path {
    Path::new(None, Ident::Key(Key::Str("")))
}

fn row(key: &'static str, content: &str) -> Child<u64, NoComp, NoInput> {
    Child { ident: Ident::Key(Key::Str(key)), node: Node::Text(Text::new_dyn(content.to_string())) }
}

fn rows(items: &[(&'static str, &str)]) -> Tree {
    Node::Tag(Tag::new_static("ul", Vec::new(), items.iter().map(|(k, c)| row(k, c)).collect()))
}

#[test]
fn recorder_keeps_what_mounting_asks() {
    let mut ctx = DriverCtx::new(Recorder::new());
    let mut tree = rows(&[("a", "1")]);
    visit(&mut tree, None, &top(), 0, &mut ctx).unwrap();
    let kinds: Vec<String> = ctx.with(|d: &Recorder| {
        d.log
            .iter()
            .map(|r| match r {
                Request::CreateElement { path, tag, made } => {
                    format!("element {} {} {:?}", path.to_string(), tag, made)
                }
                Request::CreateText { path, text, made } => {
                    format!("text {} {} {:?}", path.to_string(), text, made)
                }
                Request::Insert { path, parent, child, index } => {
                    format!("insert {} {:?} {} {}", path.to_string(), parent, child, index)
                }
                _ => "other".to_string(),
            })
            .collect()
    });
    assert_eq!(
        kinds,
        vec![
            "element s ul Some(1)".to_string(),
            "text sa.s 1 Some(2)".to_string(),
            "insert sa.s Some(1) 2 0".to_string(),
            "insert s None 1 0".to_string(),
        ]
    );
}

#[test]
fn recorder_refuses_the_request_it_was_told_to() {
    let mut ctx = DriverCtx::new(Recorder::refusing_at(1));
    let mut tree = rows(&[("a", "1"), ("b", "2")]);
    let r = visit(&mut tree, None, &top(), 0, &mut ctx);
    assert!(matches!(r, Err(Error::Driver(Refused))));
    let log_len = ctx.with(|d: &Recorder| d.log.len());
    assert_eq!(log_len, 2);
    let last_made = ctx.with(|d: &Recorder| match &d.log[1] {
        Request::CreateText { made, .. } => *made,
        _ => Some(0),
    });
    assert_eq!(last_made, None);
}

#[test]
fn recorder_runs_out_of_handles() {
    let mut recorder = Recorder::new();
    recorder.made = u64::MAX - 1;
    assert_eq!(recorder.create_text(&top(), "a"), Ok(u64::MAX));
    assert_eq!(recorder.create_text(&top(), "b"), Err(Refused));
    assert_eq!(recorder.create_element(&top(), "p"), Err(Refused));
    assert!(recorder.insert(&top(), None, &1, 0).is_ok());
    assert_eq!(recorder.log.len(), 4);
}

#[test]
fn equal_rebuild_is_granted_and_asks_nothing() {
    let mut ctx = DriverCtx::new(Recorder::new());
    let mut last = rows(&[("a", "1"), ("b", "2")]);
    visit(&mut last, None, &top(), 0, &mut ctx).unwrap();
    let asked = ctx.with(|d: &Recorder| d.log.len());
    ctx.driver_mut().refuse_at = Some(asked);
    let mut curr = rows(&[("a", "1"), ("b", "2")]);
    assert!(diff_node(&mut curr, &mut last, None, &top(), 0, &mut ctx).is_ok());
    assert_eq!(ctx.with(|d: &Recorder| d.log.len()), asked);
    assert!(last.handle().is_none());
    assert!(!last.is_mounted());
    match &last {
        Node::Tag(t) => {
            assert!(t.children.iter().all(|c| c.node.handle().is_none()));
        }
        _ => unreachable!(),
    }
    let mut changed_tree = rows(&[("a", "one"), ("b", "2")]);
    assert!(matches!(
        diff_node(&mut changed_tree, &mut curr, None, &top(), 0, &mut ctx),
        Err(Error::Driver(Refused))
    ));
    assert_eq!(ctx.with(|d: &Recorder| d.log.len()), asked + 1);
}

#[test]
fn removing_through_diff_only_the_driver_can_fail() {
    let mut ctx = DriverCtx::new(Recorder::new());
    ctx.set_render_depth(0);
    let mut last = Some(rows(&[("a", "1")]));
    let mut none: Option<Tree> = None;
    diff(&mut last, &mut none, None, &top(), 0, &mut ctx).unwrap();
    let mut gone: Option<Tree> = None;
    assert!(diff(&mut gone, &mut last, None, &top(), 0, &mut ctx).is_ok());
    let removed = ctx.with(|d: &Recorder| {
        d.log.iter().filter(|r| matches!(r, Request::Remove { .. })).count()
    });
    assert_eq!(removed, 2);
    match last {
        Some(Node::Tag(t)) => {
            assert_eq!(t.tag(), "ul");
            assert_eq!(t.children.len(), 1);
            assert!(t.driver_store().is_none());
        }
        _ => unreachable!(),
    }
}

#[test]
fn remove_leaves_the_description() {
    let mut ctx = DriverCtx::new(Recorder::new());
    let mut tree = rows(&[("a", "1")]);
    visit(&mut tree, None, &top(), 0, &mut ctx).unwrap();
    remove(&mut tree, &top(), &mut ctx).unwrap();
    match &tree {
        Node::Tag(t) => match &t.children[0].node {
            Node::Text(x) => assert_eq!(x.get(), "1"),
            _ => unreachable!(),
        },
        _ => unreachable!(),
    }
}

#[test]
fn rendered_tree_is_accepted_when_new_and_well_formed() {
    let fine = rows(&[("a", "1"), ("b", "2")]);
    assert!(accept_rendered(&fine).is_ok());
    let twice = rows(&[("a", "1"), ("a", "2")]);
    assert!(accept_rendered(&twice).is_err());
    let mut ctx = DriverCtx::new(Recorder::new());
    let mut mounted = rows(&[("a", "1")]);
    visit(&mut mounted, None, &top(), 0, &mut ctx).unwrap();
    assert!(accept_rendered(&mounted).is_err());
}

#[test]
fn policy_to_start_from_is_inequality() {
    assert!(!changed(&1u8, &1u8, &"a", &"a"));
    assert!(changed(&1u8, &2u8, &"a", &"a"));
    assert!(changed(&1u8, &1u8, &"a", &"b"));
    assert!(changed(&1u8, &2u8, &"a", &"b"));
}

#[test]
fn malformed_rendering_is_a_fault_and_asks_nothing() {
    let mut ctx = DriverCtx::new(Recorder::new());
    let mut twice = rows(&[("a", "1"), ("a", "2")]);
    assert!(matches!(
        mount_rendered(&mut twice, None, &top(), 0, &mut ctx, 8),
        Err(Error::Render(RenderError::Malformed))
    ));
    assert!(twice.is_fresh());
    let mut last = rows(&[("a", "1")]);
    visit(&mut last, None, &top(), 0, &mut ctx).unwrap();
    let asked = ctx.with(|d: &Recorder| d.log.len());
    assert!(matches!(
        diff_rendered(&mut twice, &mut last, None, &top(), 0, &mut ctx, 8),
        Err(Error::Render(RenderError::Malformed))
    ));
    assert_eq!(ctx.with(|d: &Recorder| d.log.len()), asked);
    assert!(last.is_mounted());
    let mut fine = rows(&[("a", "one")]);
    assert!(diff_rendered(&mut fine, &mut last, None, &top(), 0, &mut ctx, 0).is_ok());
    assert!(fine.is_mounted());
    assert_eq!(ctx.with(|d: &Recorder| d.log.len()), asked + 1);
    let mut new = rows(&[("b", "2")]);
    assert!(mount_rendered(&mut new, None, &top(), 1, &mut ctx, 0).is_ok());
    assert!(new.is_mounted());
}

#[test]
fn component_keeps_its_snapshot_when_mounting_fails() {
    let mut ctx = DriverCtx::new(Recorder::refusing_at(0));
    let mut tree: Tree = Node::Comp(CompNode::new(NoInput));
    assert!(matches!(visit(&mut tree, None, &top(), 0, &mut ctx), Err(Error::Driver(Refused))));
    match &tree {
        Node::Comp(c) => {
            assert!(c.state().is_some());
            match c.rendered() {
                Some(Node::Text(t)) => {
                    assert_eq!(t.get(), "");
                    assert!(t.driver_store().is_none());
                }
                _ => panic!("the component holds what it rendered"),
            }
        }
        _ => unreachable!(),
    }
    assert_eq!(ctx.with(|d: &Recorder| d.log.len()), 1);
    let mut ctx = DriverCtx::new(Recorder::new());
    ctx.set_render_depth(0);
    let mut tree: Tree = Node::Comp(CompNode::new(NoInput));
    assert!(matches!(
        visit(&mut tree, None, &top(), 0, &mut ctx),
        Err(Error::Render(RenderError::TooDeep))
    ));
    assert!(tree.is_fresh());
    assert_eq!(ctx.with(|d: &Recorder| d.log.len()), 0);
}
