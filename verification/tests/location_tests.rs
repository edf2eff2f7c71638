use beet_rsx::rsx_node::RsxBlock;
use beet_rsx::rsx_node::RsxElement;
use beet_rsx::rsx_node::RsxFragment;
use beet_rsx::rsx_node::RsxNode;
use beet_rsx::rsx_node::RsxNodeKind;
use beet_rsx::rsx_node::RsxText;
use beet_rsx::text_block_encoder::TextBlockEncoder;
use beet_rsx::tree_location::TreeLocation;
use beet_rsx::tree_location::TreeLocationVisitor;
use beet_rsx::tree_location_map::TreeLocationMap;

fn text(value: &str) -> RsxNode {
    RsxNode::Text(RsxText { value: value.to_string() })
}

fn fragment(nodes: Vec<RsxNode>) -> RsxNode {
    RsxNode::Fragment(RsxFragment { nodes })
}

fn block(initial: RsxNode) -> RsxNode {
    RsxNode::Block(RsxBlock { initial: Box::new(initial) })
}

fn element(tag: &str, children: Vec<RsxNode>) -> RsxNode {
    let children = if children.len() == 1 {
        children.into_iter().next().unwrap()
    } else {
        fragment(children)
    };
    RsxNode::Element(RsxElement {
        tag: tag.to_string(),
        attributes: Vec::new(),
        children: Box::new(children),
        self_closing: false,
    })
}

#[test]
fn csv() {
    let a = TreeLocation::new(4, 2, 3);
    let csv = a.to_csv();
    let b = TreeLocation::from_csv(&csv).unwrap();
    assert_eq!(a, b);
}

#[test]
fn csv_rejects_malformed() {
    assert!(TreeLocation::from_csv("").is_err());
    assert!(TreeLocation::from_csv("4,2").is_err());
    assert!(TreeLocation::from_csv("a,2,3").is_err());
    assert!(TreeLocation::from_csv("4294967296,2,3").is_err());
    // extra fields are ignored
    assert_eq!(TreeLocation::from_csv("1,2,3,9").unwrap(), TreeLocation::new(1, 2, 3));
}

#[test]
fn tree_location_works() {
    // a fragment-free single root: every visited node counts, and the
    // five elements land on even tree indices
    let tree = element(
        "div",
        vec![
            element("div", vec![element("div", vec![]), element("div", vec![])]),
            element("div", vec![]),
        ],
    );
    let visits = TreeLocationVisitor::visit(&tree);
    let elements: Vec<TreeLocation> = visits
        .iter()
        .filter(|v| v.1 == RsxNodeKind::Element)
        .map(|v| v.0)
        .collect();
    assert_eq!(elements.len(), 5);
    assert_eq!(elements[0], TreeLocation::new(0, 0, 0));
    assert_eq!(elements[1], TreeLocation::new(2, 0, 0));
    assert_eq!(elements[2], TreeLocation::new(4, 2, 0));
    assert_eq!(elements[3], TreeLocation::new(6, 2, 1));
    assert_eq!(elements[4], TreeLocation::new(8, 0, 1));
}

/// The tree of the collapse test: a root element whose children mix
/// text, dynamic blocks and one nested element.
fn collapse_tree() -> RsxNode {
    fragment(vec![element(
        "div",
        vec![
            text("The "),
            block(text("quick")),
            text(" and "),
            block(text("brown")),
            element("b", vec![text("fox")]),
            block(text("jumps over")),
            text("the lazy "),
            text(" dog"),
        ],
    )])
}

#[test]
fn tree_location_map_works() {
    let root = collapse_tree();
    let map = TreeLocationMap::from_node(&root);

    // test csv
    let csv = map.to_csv();
    let map2 = TreeLocationMap::from_csv(&csv).unwrap();
    assert_eq!(map2, map);

    assert_eq!(map.collapsed_elements.len(), 1);
    assert_eq!(map.collapsed_elements[0].0, 1);
    assert_eq!(
        map.collapsed_elements[0].1,
        TextBlockEncoder { parent_id: 1, split_positions: vec![vec![4, 5, 5], vec![10, 9]] }
    );
    // {quick}
    assert_eq!(map.rusty_locations[0], (4, TreeLocation::new(4, 1, 1)));
    // {brown}
    assert_eq!(map.rusty_locations[1], (7, TreeLocation::new(7, 1, 3)));
    // {jumps over}
    assert_eq!(map.rusty_locations[2], (11, TreeLocation::new(11, 1, 5)));
    assert_eq!(map.rusty_locations.len(), 3);
}

#[test]
fn empty_map_round_trips() {
    let map = TreeLocationMap { rusty_locations: Vec::new(), collapsed_elements: Vec::new() };
    let csv = map.to_csv();
    assert_eq!(csv, "_");
    let map2 = TreeLocationMap::from_csv(&csv).unwrap();
    assert_eq!(map2, map);
}

#[test]
fn encoder_csv_round_trips() {
    let enc = TextBlockEncoder { parent_id: 9, split_positions: vec![vec![1], vec![2, 30]] };
    let csv = enc.to_csv();
    assert_eq!(csv, "9,1-2.30");
    let back = TextBlockEncoder::from_csv(&csv).unwrap();
    assert_eq!(back, enc);
}

#[test]
fn encoder_csv_rejects_malformed() {
    assert!(TextBlockEncoder::from_csv("").is_err());
    assert!(TextBlockEncoder::from_csv("x,1.2").is_err());
    assert!(TextBlockEncoder::from_csv("5,1..2").is_err());
    // no runs at all is valid
    let empty = TextBlockEncoder::from_csv("5,").unwrap();
    assert_eq!(empty, TextBlockEncoder { parent_id: 5, split_positions: Vec::new() });
}

#[test]
fn map_csv_rejects_malformed() {
    assert!(TreeLocationMap::from_csv("").is_err());
    assert!(TreeLocationMap::from_csv("1*1,2,3").is_err());
    assert!(TreeLocationMap::from_csv("1*bad_").is_err());
}

#[test]
fn visit_mut_leaves_tree_alone() {
    let mut tree = collapse_tree();
    let before = TreeLocationVisitor::visit(&tree);
    let during = TreeLocationVisitor::visit_mut(&mut tree);
    let after = TreeLocationVisitor::visit(&tree);
    assert_eq!(before, during);
    assert_eq!(before, after);
}

#[test]
fn visitor_skip_element_children_locations() {
    let tree = element("div", vec![element("span", vec![])]);
    let visits = TreeLocationVisitor::visit_with_options(
        &tree,
        beet_rsx::rsx_visitor::VisitRsxOptions::ignore_element_children(),
    );
    assert_eq!(visits.len(), 1);
    assert_eq!(visits[0].0, TreeLocation::new(0, 0, 0));
    assert_eq!(visits[0].1, RsxNodeKind::Element);
}

use beet_rsx::decimal::u64_to_string;
use beet_rsx::rsx_visitor::VisitRsxOptions;
use beet_rsx::tree_location::TreeLocationVisitor as Tlv;

#[test]
fn decimal_rendering() {
    assert_eq!(u64_to_string(0), "0");
    assert_eq!(u64_to_string(42), "42");
    assert_eq!(u64_to_string(u64::MAX), "18446744073709551615");
}

#[test]
fn visitor_state_methods() {
    let mut v = Tlv::new(VisitRsxOptions::default());
    assert_eq!(v.current_location(), TreeLocation::new(0, 0, 0));
    // an element is visited: the counter moves, the child counter moves
    let el = element("div", vec![]);
    v.after_node(&el);
    assert_eq!(v.current_location(), TreeLocation::new(1, 0, 1));
    // entering its children: the element's own index becomes the parent
    v.before_children();
    assert_eq!(v.current_location(), TreeLocation::new(1, 0, 0));
    // a fragment is visited: the counter moves, the child counter stays
    let frag = fragment(vec![]);
    v.after_node(&frag);
    assert_eq!(v.current_location(), TreeLocation::new(2, 0, 0));
    // leaving the children restores the outer counters
    v.after_children();
    assert_eq!(v.current_location(), TreeLocation::new(2, 0, 1));
}

#[test]
fn visit_with_options_mut_matches_visit() {
    let mut tree = collapse_tree();
    let opts = VisitRsxOptions::ignore_block_node_initial();
    let a = Tlv::visit_with_options(&tree, opts);
    let b = Tlv::visit_with_options_mut(&mut tree, opts);
    assert_eq!(a, b);
}

#[test]
fn tree_indices_are_dense() {
    let visits = Tlv::visit(&collapse_tree());
    for (k, v) in visits.iter().enumerate() {
        assert_eq!(v.0.tree_idx as usize, k);
    }
}
