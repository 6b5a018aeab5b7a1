use vdom::attr::{AttrDyn, AttrListEntry, AttrValue};
use vdom::comp::{NoComp, NoInput};
use vdom::diff::diff_node;
use vdom::driver::{Asked, Driver, DriverCtx};
use vdom::key::Key;
use vdom::mount::{remove, visit};
use vdom::node::{Child, Node, Tag, Text};
use vdom::path::{Ident, Path};

/// A document in memory: what a driver for a real one would end up with.
struct Doc {
    kinds: Vec<String>,
    attrs: Vec<Vec<(String, String)>>,
    children: Vec<Vec<usize>>,
    parents: Vec<Option<usize>>,
    top: Vec<usize>,
}

impl Doc {
    fn new() -> Doc {
        Doc { kinds: Vec::new(), attrs: Vec::new(), children: Vec::new(), parents: Vec::new(), top: Vec::new() }
    }

    fn make(&mut self, kind: String) -> usize {
        self.kinds.push(kind);
        self.attrs.push(Vec::new());
        self.children.push(Vec::new());
        self.parents.push(None);
        self.kinds.len() - 1
    }

    fn siblings(&mut self, parent: Option<usize>) -> &mut Vec<usize> {
        match parent {
            Some(p) => &mut self.children[p],
            None => &mut self.top,
        }
    }

    fn detach(&mut self, node: usize) {
        let parent = self.parents[node];
        self.siblings(parent).retain(|n| *n != node);
    }

    fn place(&mut self, parent: Option<usize>, child: usize, index: usize) {
        let before = self.siblings(parent).get(index).copied();
        if before == Some(child) {
            return;
        }
        self.detach(child);
        let list = self.siblings(parent);
        let at = match before {
            Some(b) => list.iter().position(|n| *n == b).unwrap(),
            None => list.len(),
        };
        list.insert(at, child);
        self.parents[child] = parent;
    }

    fn show(&self, node: usize) -> String {
        let mut out = self.kinds[node].clone();
        for (name, value) in self.attrs[node].iter() {
            out.push_str(&format!("[{}={}]", name, value));
        }
        if !self.children[node].is_empty() {
            let inner: Vec<String> = self.children[node].iter().map(|c| self.show(*c)).collect();
            out.push_str(&format!("({})", inner.join(" ")));
        }
        out
    }

    fn show_all(&self) -> String {
        let inner: Vec<String> = self.top.iter().map(|c| self.show(*c)).collect();
        inner.join(" ")
    }
}

impl Driver for Doc {
    type Handle = usize;
    type Err = String;

    // A name for proofs, never called when the program runs.
    fn asked(&self) -> Asked<usize> {
        unreachable!()
    }

    fn create_element(&mut self, _path: &Path, tag: &str) -> Result<usize, String> {
        Ok(self.make(format!("<{}>", tag)))
    }

    fn create_text(&mut self, _path: &Path, text: &str) -> Result<usize, String> {
        Ok(self.make(format!("'{}'", text)))
    }

    fn insert(&mut self, _path: &Path, parent: Option<&usize>, child: &usize, index: usize) -> Result<(), String> {
        self.place(parent.copied(), *child, index);
        Ok(())
    }

    fn reorder(&mut self, _path: &Path, parent: Option<&usize>, child: &usize, index: usize) -> Result<(), String> {
        self.place(parent.copied(), *child, index);
        Ok(())
    }

    fn remove(&mut self, _path: &Path, handle: usize) -> Result<(), String> {
        self.detach(handle);
        self.parents[handle] = None;
        Ok(())
    }

    fn set_text(&mut self, _path: &Path, target: &usize, text: &str) -> Result<(), String> {
        self.kinds[*target] = format!("'{}'", text);
        Ok(())
    }

    fn set_attribute(&mut self, _path: &Path, target: &usize, name: &str, value: &str) -> Result<(), String> {
        self.attrs[*target].retain(|(n, _)| n != name);
        self.attrs[*target].push((name.to_string(), value.to_string()));
        Ok(())
    }

    fn remove_attribute(&mut self, _path: &Path, target: &usize, name: &str) -> Result<(), String> {
        self.attrs[*target].retain(|(n, _)| n != name);
        Ok(())
    }
}

type Tree = Node<usize, NoComp, NoInput>;

fn base() -> Path {
    Path::new(None, Ident::Key(Key::Str("")))
}

fn list(class: Option<&'static str>, rows: &[(&'static str, &str)]) -> Tree {
    let children = rows
        .iter()
        .map(|(key, content)| Child {
            ident: Ident::Key(Key::Str(key)),
            node: Node::Text(Text::new_dyn(content.to_string())),
        })
        .collect();
    let attrs = vec![AttrListEntry::Dyn(AttrDyn::new("class", AttrValue::from_static(class)))];
    Node::Tag(Tag::new_static("ul", attrs, children))
}

fn shown(ctx: &DriverCtx<Doc>) -> String {
    ctx.with(|d: &Doc| d.show_all())
}

#[test]
fn document_shows_the_mounted_tree() {
    let mut ctx = DriverCtx::new(Doc::new());
    let mut tree = list(Some("wide"), &[("a", "1"), ("b", "2"), ("c", "3")]);
    visit(&mut tree, None, &base(), 0, &mut ctx).unwrap();
    assert_eq!(shown(&ctx), "<ul>[class=wide]('1' '2' '3')");
}

#[test]
fn document_follows_a_reordering() {
    let mut ctx = DriverCtx::new(Doc::new());
    let mut last = list(None, &[("a", "1"), ("b", "2"), ("c", "3")]);
    visit(&mut last, None, &base(), 0, &mut ctx).unwrap();
    let mut curr = list(None, &[("c", "3"), ("a", "1"), ("b", "2")]);
    diff_node(&mut curr, &mut last, None, &base(), 0, &mut ctx).unwrap();
    assert_eq!(shown(&ctx), "<ul>('3' '1' '2')");
    let mut next = list(None, &[("b", "2"), ("c", "3"), ("a", "1")]);
    diff_node(&mut next, &mut curr, None, &base(), 0, &mut ctx).unwrap();
    assert_eq!(shown(&ctx), "<ul>('2' '3' '1')");
}

#[test]
fn document_follows_changes_of_content_and_attributes() {
    let mut ctx = DriverCtx::new(Doc::new());
    let mut last = list(Some("wide"), &[("a", "1"), ("b", "2")]);
    visit(&mut last, None, &base(), 0, &mut ctx).unwrap();
    let mut curr = list(None, &[("a", "one"), ("b", "2"), ("c", "3")]);
    diff_node(&mut curr, &mut last, None, &base(), 0, &mut ctx).unwrap();
    assert_eq!(shown(&ctx), "<ul>('one' '2' '3')");
    let mut next = list(Some("narrow"), &[("a", "one")]);
    diff_node(&mut next, &mut curr, None, &base(), 0, &mut ctx).unwrap();
    assert_eq!(shown(&ctx), "<ul>[class=narrow]('one')");
    remove(&mut next, &base(), &mut ctx).unwrap();
    assert_eq!(shown(&ctx), "");
}
