use beet_rsx::dom::DomTarget;
use beet_rsx::dom::DomTargetImpl;
use beet_rsx::error::ParseResult;
use beet_rsx::parse_rsx::self_closing_elements;
use beet_rsx::rsx_node::RsxNode;
use beet_rsx::rsx_node::RsxText;
use beet_rsx::tree_location::TreeLocation;

/// A render target that records every update it is asked to apply.
struct RecordingTarget {
    updates: Vec<String>,
}

impl DomTargetImpl for RecordingTarget {
    fn update_rsx_node(&mut self, node: RsxNode, loc: TreeLocation) -> ParseResult<()> {
        let text = match node {
            RsxNode::Text(t) => t.value,
            _ => "?".to_string(),
        };
        self.updates.push(format!("{}@{}", text, loc.to_csv()));
        Ok(())
    }

    fn render(&self) -> String {
        self.updates.join(";")
    }
}

#[test]
fn dom_target_slot() {
    let mut slot = DomTarget::new(RecordingTarget { updates: Vec::new() });
    let node = RsxNode::Text(RsxText { value: "hi".to_string() });
    slot.with().update_rsx_node(node, TreeLocation::new(1, 0, 0)).unwrap();
    assert_eq!(slot.with().render(), "hi@1,0,0");
    slot.set(RecordingTarget { updates: Vec::new() });
    assert_eq!(slot.with().render(), "");
}

#[test]
fn self_closing_element_list() {
    let els = self_closing_elements();
    assert_eq!(els.len(), 14);
    assert!(els.contains(&"br"));
    assert!(els.contains(&"img"));
    assert!(!els.contains(&"div"));
}
