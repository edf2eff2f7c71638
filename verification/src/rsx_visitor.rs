//! Depth-first traversal over the node tree.
//!
//! Walking trees like these is deceptively difficult.  The visitor pattern
//! handles the walking and lets implementers focus on the visiting: a
//! visitor supplies one hook per node variant, plus two element-scoped
//! hooks around an element's children.  The walk is depth-first and visits
//! a parent before its children.
//!
//! Visiting fragments independently is intentionally not supported: they
//! are by definition transparent, so depending on them is an antipattern.
//! The walk always descends through them.

use crate::rsx_node::RsxAttribute;
use crate::rsx_node::RsxBlock;
use crate::rsx_node::RsxComment;
use crate::rsx_node::RsxComponent;
use crate::rsx_node::RsxDoctype;
use crate::rsx_node::RsxElement;
use crate::rsx_node::RsxNode;
use crate::rsx_node::node_size;
use crate::rsx_node::node_size_list;
use crate::rsx_node::RsxText;
use vstd::prelude::*;

verus! {

/// Which relations a walk descends into.  Each switch suppresses one
/// relation independently; the default descends everywhere.  Fragments are
/// always fully descended into and never individually suppressible.
#[derive(Debug, Clone, Copy, PartialEq, Eq, Structural)]
pub struct VisitRsxOptions {
    /// Do not descend into a dynamic block's currently rendered subtree.
    pub ignore_block_node_initial: bool,
    /// Do not descend into an element's children.
    pub ignore_element_children: bool,
    /// Do not descend into a component's inner rendered root.
    pub ignore_component_node: bool,
    /// Do not descend into a component's slot children.
    pub ignore_component_slot_children: bool,
}

impl Default for VisitRsxOptions {
    /// Descend everywhere.
    fn default() -> (r: VisitRsxOptions)
        ensures
            r == (VisitRsxOptions {
                ignore_block_node_initial: false,
                ignore_element_children: false,
                ignore_component_node: false,
                ignore_component_slot_children: false,
            }),
    {
        VisitRsxOptions {
            ignore_block_node_initial: false,
            ignore_element_children: false,
            ignore_component_node: false,
            ignore_component_slot_children: false,
        }
    }
}

impl VisitRsxOptions {
    /// Visit nothing beyond direct children and fragments.
    pub fn ignore_all() -> (r: VisitRsxOptions)
        ensures
            r == (VisitRsxOptions {
                ignore_block_node_initial: true,
                ignore_element_children: true,
                ignore_component_node: true,
                ignore_component_slot_children: true,
            }),
    {
        VisitRsxOptions {
            ignore_block_node_initial: true,
            ignore_element_children: true,
            ignore_component_node: true,
            ignore_component_slot_children: true,
        }
    }

    /// Do not descend into dynamic blocks' rendered subtrees.
    pub fn ignore_block_node_initial() -> (r: VisitRsxOptions)
        ensures
            r == (VisitRsxOptions { ignore_block_node_initial: true, ..Self::spec_default() }),
    {
        VisitRsxOptions {
            ignore_block_node_initial: true,
            ignore_element_children: false,
            ignore_component_node: false,
            ignore_component_slot_children: false,
        }
    }

    /// Do not descend into elements' children.
    pub fn ignore_element_children() -> (r: VisitRsxOptions)
        ensures
            r == (VisitRsxOptions { ignore_element_children: true, ..Self::spec_default() }),
    {
        VisitRsxOptions {
            ignore_block_node_initial: false,
            ignore_element_children: true,
            ignore_component_node: false,
            ignore_component_slot_children: false,
        }
    }

    /// Do not descend into components at all: neither their inner root nor
    /// their slot children.
    pub fn ignore_component() -> (r: VisitRsxOptions)
        ensures
            r == (VisitRsxOptions {
                ignore_component_node: true,
                ignore_component_slot_children: true,
                ..Self::spec_default()
            }),
    {
        VisitRsxOptions {
            ignore_block_node_initial: false,
            ignore_element_children: false,
            ignore_component_node: true,
            ignore_component_slot_children: true,
        }
    }

    /// Do not descend into components' inner rendered roots.
    pub fn ignore_component_node() -> (r: VisitRsxOptions)
        ensures
            r == (VisitRsxOptions { ignore_component_node: true, ..Self::spec_default() }),
    {
        VisitRsxOptions {
            ignore_block_node_initial: false,
            ignore_element_children: false,
            ignore_component_node: true,
            ignore_component_slot_children: false,
        }
    }

    /// Do not descend into components' slot children.
    pub fn ignore_component_slot_children() -> (r: VisitRsxOptions)
        ensures
            r == (VisitRsxOptions { ignore_component_slot_children: true, ..Self::spec_default() }),
    {
        VisitRsxOptions {
            ignore_block_node_initial: false,
            ignore_element_children: false,
            ignore_component_node: false,
            ignore_component_slot_children: true,
        }
    }

    /// The default configuration: descend everywhere.
    pub open spec fn spec_default() -> VisitRsxOptions {
        VisitRsxOptions {
            ignore_block_node_initial: false,
            ignore_element_children: false,
            ignore_component_node: false,
            ignore_component_slot_children: false,
        }
    }
}

/// A depth-first visitor over shared references.
///
/// Implementers supply the `visit_*` hooks; the provided `walk_*` methods
/// do the walking, honouring the descent switches.  Parents are visited
/// before their children.
#[allow(unused_variables)]
pub trait RsxVisitor {
    /// The descent configuration of this visitor.
    fn options(&self) -> (r: VisitRsxOptions);

    /// Whether to skip dynamic blocks' rendered subtrees.
    fn ignore_block_node_initial(&self) -> (r: bool) {
        self.options().ignore_block_node_initial
    }

    /// Whether to skip elements' children.
    fn ignore_element_children(&self) -> (r: bool) {
        self.options().ignore_element_children
    }

    /// Whether to skip components' inner rendered roots.
    fn ignore_component_node(&self) -> (r: bool) {
        self.options().ignore_component_node
    }

    /// Whether to skip components' slot children.
    fn ignore_component_slot_children(&self) -> (r: bool) {
        self.options().ignore_component_slot_children
    }

    /// Called for every node visited, before its variant hook.
    fn visit_node(&mut self, node: &RsxNode) {
    }

    /// Called for every document-type marker visited.
    fn visit_doctype(&mut self, doctype: &RsxDoctype) {
    }

    /// Called for every comment visited.
    fn visit_comment(&mut self, comment: &RsxComment) {
    }

    /// Called for every text node visited.
    fn visit_text(&mut self, text: &RsxText) {
    }

    /// Called for every dynamic block visited.
    fn visit_block(&mut self, block: &RsxBlock) {
    }

    /// Called for every component visited.
    fn visit_component(&mut self, component: &RsxComponent) {
    }

    /// Called for every element visited.
    fn visit_element(&mut self, element: &RsxElement) {
    }

    /// Called for every attribute of every element visited.
    fn visit_attribute(&mut self, attribute: &RsxAttribute) {
    }

    /// Called before descending into an element's children.
    fn before_element_children(&mut self, element: &RsxElement) {
    }

    /// Called after leaving an element's children.
    fn after_element_children(&mut self, element: &RsxElement) {
    }

}

/// Walks `node` depth-first with `visitor`, visiting it and then its
/// descendants as the visitor's switches allow.
pub fn walk_node<V: RsxVisitor>(visitor: &mut V, node: &RsxNode)
    decreases *node,
{
    visitor.visit_node(node);
    match node {
        RsxNode::Doctype(doctype) => {
            visitor.visit_doctype(doctype);
        },
        RsxNode::Comment(comment) => visitor.visit_comment(comment),
        RsxNode::Text(text) => visitor.visit_text(text),
        RsxNode::Block(b) => {
            visitor.visit_block(b);
            if !visitor.ignore_block_node_initial() {
                walk_node(visitor, &b.initial);
            }
        },
        RsxNode::Fragment(fragment) => {
            let mut i: usize = 0;
            #[verifier::loop_isolation(false)]
            while i < fragment.nodes.len()
                decreases fragment.nodes@.len() - i,
            {
                proof {
                    assert(decreases_to!(*node => fragment.nodes@[i as int]));
                }
                walk_node(visitor, &fragment.nodes[i]);
                i += 1;
            }
        },
        RsxNode::Element(e) => {
            walk_element(visitor, e);
        },
        RsxNode::Component(c) => {
            walk_component(visitor, c);
        },
    }
}

/// Visits an element, its attributes, and (unless suppressed) its
/// children, bracketed by the element-scoped hooks.
pub fn walk_element<V: RsxVisitor>(visitor: &mut V, element: &RsxElement)
    decreases *element,
{
    visitor.visit_element(element);
    let mut i: usize = 0;
    #[verifier::loop_isolation(false)]
    while i < element.attributes.len()
        decreases element.attributes@.len() - i,
    {
        visitor.visit_attribute(&element.attributes[i]);
        i += 1;
    }
    if !visitor.ignore_element_children() {
        visitor.before_element_children(element);
        walk_node(visitor, &element.children);
        visitor.after_element_children(element);
    }
}

/// Visits a component and, as configured, its inner root and its slot
/// children.
pub fn walk_component<V: RsxVisitor>(visitor: &mut V, component: &RsxComponent)
    decreases *component,
{
    visitor.visit_component(component);
    if !visitor.ignore_component_node() {
        walk_node(visitor, &component.node);
    }
    if !visitor.ignore_component_slot_children() {
        walk_node(visitor, &component.slot_children);
    }
}

/// The mutable-access variant of [`RsxVisitor`], for in-place rewriting
/// passes.  The walk order and the descent switches are identical, but the
/// hooks receive mutable access.  A hook may rewrite what it is handed,
/// provided it does not grow the node count of the subtree it holds: that
/// bound is what keeps a rewriting walk finite.
#[allow(unused_variables)]
pub trait RsxVisitorMut {
    /// The descent configuration of this visitor.
    fn options(&self) -> (r: VisitRsxOptions);

    /// Whether to skip dynamic blocks' rendered subtrees.
    fn ignore_block_node_initial(&self) -> (r: bool) {
        self.options().ignore_block_node_initial
    }

    /// Whether to skip elements' children.
    fn ignore_element_children(&self) -> (r: bool) {
        self.options().ignore_element_children
    }

    /// Whether to skip components' inner rendered roots.
    fn ignore_component_node(&self) -> (r: bool) {
        self.options().ignore_component_node
    }

    /// Whether to skip components' slot children.
    fn ignore_component_slot_children(&self) -> (r: bool) {
        self.options().ignore_component_slot_children
    }

    /// Called for every node visited, before its variant hook.
    fn visit_node(&mut self, node: &mut RsxNode)
        ensures
            node_size(*final(node)) <= node_size(*old(node)),
    {
    }

    /// Called for every document-type marker visited.
    fn visit_doctype(&mut self, doctype: &mut RsxDoctype) {
    }

    /// Called for every comment visited.
    fn visit_comment(&mut self, comment: &mut RsxComment) {
    }

    /// Called for every text node visited.
    fn visit_text(&mut self, text: &mut RsxText) {
    }

    /// Called for every dynamic block visited.
    fn visit_block(&mut self, block: &mut RsxBlock)
        ensures
            node_size(*final(block).initial) <= node_size(*old(block).initial),
    {
    }

    /// Called for every component visited.
    fn visit_component(&mut self, component: &mut RsxComponent)
        ensures
            node_size(*final(component).node) <= node_size(*old(component).node),
            node_size(*final(component).slot_children) <= node_size(
                *old(component).slot_children,
            ),
    {
    }

    /// Called for every element visited.
    fn visit_element(&mut self, element: &mut RsxElement)
        ensures
            node_size(*final(element).children) <= node_size(*old(element).children),
    {
    }

    /// Called for every attribute of every element visited.
    fn visit_attribute(&mut self, attribute: &mut RsxAttribute) {
    }

    /// Called before descending into an element's children.
    fn before_element_children(&mut self, element: &mut RsxElement)
        ensures
            node_size(*final(element).children) <= node_size(*old(element).children),
    {
    }

    /// Called after leaving an element's children.
    fn after_element_children(&mut self, element: &mut RsxElement)
        ensures
            node_size(*final(element).children) <= node_size(*old(element).children),
    {
    }
}

/// One node of a list counts no more than the whole list.
proof fn lemma_node_size_list_bound(nodes: Seq<RsxNode>, i: int)
    requires
        0 <= i < nodes.len(),
    ensures
        node_size(nodes[i]) <= node_size_list(nodes),
    decreases nodes.len(),
{
    if i + 1 == nodes.len() {
        assert(nodes.last() == nodes[i]);
    } else {
        lemma_node_size_list_bound(nodes.drop_last(), i);
        assert(nodes.drop_last()[i] == nodes[i]);
    }
}

/// Replacing one node of a list with one no larger does not grow the list.
proof fn lemma_node_size_list_update(nodes: Seq<RsxNode>, i: int, x: RsxNode)
    requires
        0 <= i < nodes.len(),
        node_size(x) <= node_size(nodes[i]),
    ensures
        node_size_list(nodes.update(i, x)) <= node_size_list(nodes),
        nodes.update(i, x).len() == nodes.len(),
    decreases nodes.len(),
{
    let upd = nodes.update(i, x);
    if i + 1 == nodes.len() {
        assert(upd.drop_last() =~= nodes.drop_last());
        assert(upd.last() == x);
    } else {
        lemma_node_size_list_update(nodes.drop_last(), i, x);
        assert(upd.drop_last() =~= nodes.drop_last().update(i, x));
        assert(upd.last() == nodes.last());
    }
}

/// Walks `node` depth-first with a mutable-access visitor.  The hooks may
/// rewrite the tree in place; the walk never grows it.
pub fn walk_node_mut<V: RsxVisitorMut>(visitor: &mut V, node: &mut RsxNode)
    ensures
        node_size(*final(node)) <= node_size(*old(node)),
    decreases node_size(*old(node)), 0int,
{
    visitor.visit_node(node);
    match node {
        RsxNode::Doctype(doctype) => {
            visitor.visit_doctype(doctype);
        },
        RsxNode::Comment(comment) => visitor.visit_comment(comment),
        RsxNode::Text(text) => visitor.visit_text(text),
        RsxNode::Block(b) => {
            visitor.visit_block(b);
            if !visitor.ignore_block_node_initial() {
                walk_node_mut(visitor, &mut b.initial);
            }
        },
        RsxNode::Fragment(fragment) => {
            let ghost entry_list = fragment.nodes@;
            let mut i: usize = 0;
            #[verifier::loop_isolation(false)]
            while i < fragment.nodes.len()
                invariant
                    fragment.nodes@.len() == entry_list.len(),
                    node_size_list(fragment.nodes@) <= node_size_list(entry_list),
                decreases fragment.nodes@.len() - i,
            {
                let ghost pre_list = fragment.nodes@;
                proof {
                    lemma_node_size_list_bound(pre_list, i as int);
                }
                walk_node_mut(visitor, &mut fragment.nodes[i]);
                proof {
                    lemma_node_size_list_update(
                        pre_list,
                        i as int,
                        fragment.nodes@[i as int],
                    );
                    assert(fragment.nodes@ =~= pre_list.update(
                        i as int,
                        fragment.nodes@[i as int],
                    ));
                }
                i += 1;
            }
        },
        RsxNode::Element(e) => {
            walk_element_mut(visitor, e);
        },
        RsxNode::Component(c) => {
            walk_component_mut(visitor, c);
        },
    }
}

/// Visits an element mutably, its attributes, and (unless suppressed) its
/// children, bracketed by the element-scoped hooks.
pub fn walk_element_mut<V: RsxVisitorMut>(visitor: &mut V, element: &mut RsxElement)
    ensures
        node_size(*final(element).children) <= node_size(*old(element).children),
    decreases node_size(*old(element).children), 1int,
{
    visitor.visit_element(element);
    let mut i: usize = 0;
    #[verifier::loop_isolation(false)]
    while i < element.attributes.len()
        invariant
            node_size(*element.children) <= node_size(*old(element).children),
        decreases element.attributes@.len() - i,
    {
        visitor.visit_attribute(&mut element.attributes[i]);
        i += 1;
    }
    if !visitor.ignore_element_children() {
        visitor.before_element_children(element);
        walk_node_mut(visitor, &mut element.children);
        visitor.after_element_children(element);
    }
}

/// Visits a component mutably and, as configured, its inner root and its
/// slot children.
pub fn walk_component_mut<V: RsxVisitorMut>(visitor: &mut V, component: &mut RsxComponent)
    ensures
        node_size(*final(component).node) <= node_size(*old(component).node),
        node_size(*final(component).slot_children) <= node_size(
            *old(component).slot_children,
        ),
    decreases node_size(*old(component).node) + node_size(*old(component).slot_children), 1int,
{
    visitor.visit_component(component);
    if !visitor.ignore_component_node() {
        walk_node_mut(visitor, &mut component.node);
    }
    if !visitor.ignore_component_slot_children() {
        walk_node_mut(visitor, &mut component.slot_children);
    }
}

} // verus!
