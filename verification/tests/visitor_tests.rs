use beet_rsx::rsx_node::RsxAttribute;
use beet_rsx::rsx_node::RsxBlock;
use beet_rsx::rsx_node::RsxComment;
use beet_rsx::rsx_node::RsxComponent;
use beet_rsx::rsx_node::RsxDoctype;
use beet_rsx::rsx_node::RsxElement;
use beet_rsx::rsx_node::RsxFragment;
use beet_rsx::rsx_node::RsxNode;
use beet_rsx::rsx_node::RsxText;
use beet_rsx::rsx_visitor::walk_node;
use beet_rsx::rsx_visitor::RsxVisitor;
use beet_rsx::rsx_visitor::VisitRsxOptions;

fn text(value: &str) -> RsxNode {
    RsxNode::Text(RsxText { value: value.to_string() })
}

fn fragment(nodes: Vec<RsxNode>) -> RsxNode {
    RsxNode::Fragment(RsxFragment { nodes })
}

fn block(initial: RsxNode) -> RsxNode {
    RsxNode::Block(RsxBlock { initial: Box::new(initial) })
}

fn element(tag: &str, attributes: Vec<RsxAttribute>, children: Vec<RsxNode>) -> RsxNode {
    let children = if children.len() == 1 {
        children.into_iter().next().unwrap()
    } else {
        fragment(children)
    };
    RsxNode::Element(RsxElement {
        tag: tag.to_string(),
        attributes,
        children: Box::new(children),
        self_closing: false,
    })
}

/// An element whose children always sit in a fragment, even a single
/// one, as a component's rendered root lays them out.
fn element_frag(tag: &str, children: Vec<RsxNode>) -> RsxNode {
    RsxNode::Element(RsxElement {
        tag: tag.to_string(),
        attributes: Vec::new(),
        children: Box::new(fragment(children)),
        self_closing: false,
    })
}

fn component(tag: &str, node: RsxNode, slot_children: RsxNode) -> RsxNode {
    RsxNode::Component(RsxComponent {
        tag: tag.to_string(),
        node: Box::new(node),
        slot_children: Box::new(slot_children),
    })
}

#[derive(Default)]
struct Counter {
    options: VisitRsxOptions,
    node: usize,
    doctype: usize,
    comment: usize,
    text: usize,
    block: usize,
    component: usize,
    element: usize,
    attribute: usize,
}

impl RsxVisitor for Counter {
    fn options(&self) -> VisitRsxOptions {
        self.options
    }
    fn visit_node(&mut self, _node: &RsxNode) {
        self.node += 1;
    }
    fn visit_doctype(&mut self, _doctype: &RsxDoctype) {
        self.doctype += 1;
    }
    fn visit_comment(&mut self, _comment: &RsxComment) {
        self.comment += 1;
    }
    fn visit_text(&mut self, _text: &RsxText) {
        self.text += 1;
    }
    fn visit_block(&mut self, _block: &RsxBlock) {
        self.block += 1;
    }
    fn visit_component(&mut self, _component: &RsxComponent) {
        self.component += 1;
    }
    fn visit_element(&mut self, _element: &RsxElement) {
        self.element += 1;
    }
    fn visit_attribute(&mut self, _attribute: &RsxAttribute) {
        self.attribute += 1;
    }
}

/// The tree of the counter test: a doctype, a comment, and a `div` with
/// one attribute holding text, a block, and a component whose rendered
/// root nests another component.
fn counter_tree() -> RsxNode {
    let child2 = component(
        "Child",
        fragment(vec![element_frag("div", vec![element("span", vec![], vec![])])]),
        fragment(vec![]),
    );
    let child1 = component(
        "Child",
        fragment(vec![element(
            "div",
            vec![],
            vec![element("span", vec![], vec![]), child2],
        )]),
        fragment(vec![]),
    );
    fragment(vec![
        RsxNode::Doctype(RsxDoctype {}),
        RsxNode::Comment(RsxComment { value: "comment".to_string() }),
        element(
            "div",
            vec![RsxAttribute::KeyValue { key: "class".to_string(), value: "test".to_string() }],
            vec![text("text"), block(text("7")), child1],
        ),
    ])
}

#[test]
fn test_visitor_counter() {
    let mut counter = Counter::default();
    let tree = counter_tree();
    walk_node(&mut counter, &tree);
    assert_eq!(counter.node, 22);
    assert_eq!(counter.doctype, 1);
    assert_eq!(counter.comment, 1);
    assert_eq!(counter.text, 2);
    assert_eq!(counter.block, 1);
    assert_eq!(counter.element, 5);
    assert_eq!(counter.attribute, 1);
    assert_eq!(counter.component, 2);
}

#[test]
fn test_visitor_no_element_children() {
    let mut counter = Counter {
        options: VisitRsxOptions::ignore_element_children(),
        ..Default::default()
    };
    let tree = element("div", vec![], vec![element("span", vec![], vec![])]);
    walk_node(&mut counter, &tree);
    assert_eq!(counter.element, 1);
}

#[test]
fn test_visitor_no_component_node() {
    let mut counter = Counter {
        options: VisitRsxOptions::ignore_component_node(),
        ..Default::default()
    };
    let child = component(
        "Child",
        fragment(vec![element("div", vec![], vec![])]),
        fragment(vec![element("span", vec![], vec![])]),
    );
    let tree = element("div", vec![], vec![child]);
    walk_node(&mut counter, &tree);
    assert_eq!(counter.component, 1);
    assert_eq!(counter.element, 2);
}

#[test]
fn visitor_skips_block_initial_when_asked() {
    let mut counter = Counter {
        options: VisitRsxOptions::ignore_block_node_initial(),
        ..Default::default()
    };
    let tree = fragment(vec![block(text("inside"))]);
    walk_node(&mut counter, &tree);
    assert_eq!(counter.block, 1);
    assert_eq!(counter.text, 0);
}

#[test]
fn visitor_ignore_all_stops_everywhere() {
    let mut counter = Counter { options: VisitRsxOptions::ignore_all(), ..Default::default() };
    let child = component(
        "Child",
        fragment(vec![element("div", vec![], vec![])]),
        fragment(vec![element("span", vec![], vec![])]),
    );
    let tree = fragment(vec![block(text("x")), element("div", vec![], vec![text("y")]), child]);
    walk_node(&mut counter, &tree);
    assert_eq!(counter.block, 1);
    assert_eq!(counter.element, 1);
    assert_eq!(counter.component, 1);
    assert_eq!(counter.text, 0);
}

use beet_rsx::rsx_visitor::walk_node_mut;
use beet_rsx::rsx_visitor::RsxVisitorMut;

/// A rewriting pass: upper-cases every text node in place.
struct UpperCaser;

impl RsxVisitorMut for UpperCaser {
    fn options(&self) -> VisitRsxOptions {
        VisitRsxOptions::default()
    }
    fn visit_text(&mut self, text: &mut RsxText) {
        text.value = text.value.to_uppercase();
    }
}

#[test]
fn mut_walk_rewrites_in_place() {
    let mut tree = fragment(vec![
        text("ab"),
        element("div", vec![], vec![text("cd"), block(text("ef"))]),
    ]);
    walk_node_mut(&mut UpperCaser, &mut tree);
    let mut collected = Vec::new();
    collect_text(&tree, &mut collected);
    assert_eq!(collected, vec!["AB", "CD", "EF"]);
}

fn collect_text(node: &RsxNode, out: &mut Vec<String>) {
    match node {
        RsxNode::Text(t) => out.push(t.value.clone()),
        RsxNode::Fragment(f) => {
            for n in &f.nodes {
                collect_text(n, out);
            }
        }
        RsxNode::Element(e) => collect_text(&e.children, out),
        RsxNode::Block(b) => collect_text(&b.initial, out),
        RsxNode::Component(c) => {
            collect_text(&c.node, out);
            collect_text(&c.slot_children, out);
        }
        _ => {}
    }
}
