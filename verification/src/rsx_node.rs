//! The node-tree data model of a parsed template.
//!
//! A template body parses into a rooted tree of the variants below.
//! Ownership is strictly hierarchical: a parent exclusively owns its
//! children, and no back-references exist in the tree.

use crate::strutil::string_push;
use vstd::prelude::*;

verus! {

/// A document-type marker node.
#[derive(Debug)]
pub struct RsxDoctype {}

/// A comment node.
#[derive(Debug)]
pub struct RsxComment {
    pub value: String,
}

/// A literal text node.
#[derive(Debug)]
pub struct RsxText {
    pub value: String,
}

/// A dynamic block: a placeholder whose content is produced by embedded
/// code.  `initial` holds the currently rendered subtree; the block itself
/// produces no output node, its initial content does.
#[derive(Debug)]
pub struct RsxBlock {
    pub initial: Box<RsxNode>,
}

/// An element: a tag, its ordered attributes, and one child subtree.  A
/// childless element holds an empty fragment; a single child stands alone;
/// several children stand in a fragment.
#[derive(Debug)]
pub struct RsxElement {
    pub tag: String,
    pub attributes: Vec<RsxAttribute>,
    pub children: Box<RsxNode>,
    pub self_closing: bool,
}

/// A named component reference wrapping a rendered root plus the slot
/// children supplied by the caller.
#[derive(Debug)]
pub struct RsxComponent {
    pub tag: String,
    pub node: Box<RsxNode>,
    pub slot_children: Box<RsxNode>,
}

/// A transparent ordered sequence of child nodes, never itself
/// addressable.
#[derive(Debug)]
pub struct RsxFragment {
    pub nodes: Vec<RsxNode>,
}

/// One node of a template tree.
#[derive(Debug)]
pub enum RsxNode {
    Doctype(RsxDoctype),
    Comment(RsxComment),
    Text(RsxText),
    Block(RsxBlock),
    Element(RsxElement),
    Component(RsxComponent),
    Fragment(RsxFragment),
}

/// One attribute of an element.
#[derive(Debug)]
pub enum RsxAttribute {
    /// A bare key.
    Key { key: String },
    /// A key with a literal value.
    KeyValue { key: String, value: String },
    /// A key whose value is produced by embedded code; `initial` holds the
    /// value it currently renders to.
    BlockValue { key: String, initial: String },
    /// A block of attributes produced by embedded code; `initial` holds
    /// the attributes it currently renders to.
    Block { initial: Vec<RsxAttribute> },
}

/// The variant of a node, without its contents.
#[derive(Debug, Clone, Copy, PartialEq, Eq, Structural)]
pub enum RsxNodeKind {
    Doctype,
    Comment,
    Text,
    Block,
    Element,
    Component,
    Fragment,
}

/// The variant of `node`.
pub open spec fn node_kind(node: RsxNode) -> RsxNodeKind {
    match node {
        RsxNode::Doctype(_) => RsxNodeKind::Doctype,
        RsxNode::Comment(_) => RsxNodeKind::Comment,
        RsxNode::Text(_) => RsxNodeKind::Text,
        RsxNode::Block(_) => RsxNodeKind::Block,
        RsxNode::Element(_) => RsxNodeKind::Element,
        RsxNode::Component(_) => RsxNodeKind::Component,
        RsxNode::Fragment(_) => RsxNodeKind::Fragment,
    }
}

/// Whether the node itself survives into the rendered output.  Blocks,
/// components and fragments do not: what they contain does.
pub open spec fn spec_is_html_node(node: RsxNode) -> bool {
    match node {
        RsxNode::Doctype(_) => true,
        RsxNode::Comment(_) => true,
        RsxNode::Text(_) => true,
        RsxNode::Element(_) => true,
        RsxNode::Block(_) => false,
        RsxNode::Component(_) => false,
        RsxNode::Fragment(_) => false,
    }
}

/// The direct child list of a `children` subtree: a fragment is its nodes,
/// anything else is a single child.
pub open spec fn direct_children(node: RsxNode) -> Seq<RsxNode> {
    match node {
        RsxNode::Fragment(f) => f.nodes@,
        _ => seq![node],
    }
}

/// The text this node renders to, as far as it is text: literal text, a
/// block's currently rendered content, a fragment's contents in order.
/// Elements, components, comments and doctype markers render no plain
/// text of their own.
pub open spec fn text_content(node: RsxNode) -> Seq<char>
    decreases node,
{
    match node {
        RsxNode::Text(t) => t.value@,
        RsxNode::Block(b) => text_content(*b.initial),
        RsxNode::Fragment(f) => text_content_list(f.nodes@),
        _ => Seq::<char>::empty(),
    }
}

/// The concatenated text of a node list.
pub open spec fn text_content_list(nodes: Seq<RsxNode>) -> Seq<char>
    decreases nodes,
{
    if nodes.len() == 0 {
        Seq::<char>::empty()
    } else {
        text_content_list(nodes.drop_last()) + text_content(nodes.last())
    }
}

/// The total number of nodes in the tree, the node itself included.
pub open spec fn node_size(node: RsxNode) -> nat
    decreases node,
{
    1 + match node {
        RsxNode::Block(b) => node_size(*b.initial),
        RsxNode::Element(e) => node_size(*e.children),
        RsxNode::Component(c) => node_size(*c.node) + node_size(*c.slot_children),
        RsxNode::Fragment(f) => node_size_list(f.nodes@),
        _ => 0,
    }
}

/// The total number of nodes in a node list.
pub open spec fn node_size_list(nodes: Seq<RsxNode>) -> nat
    decreases nodes,
{
    if nodes.len() == 0 {
        0
    } else {
        node_size_list(nodes.drop_last()) + node_size(nodes.last())
    }
}

impl RsxNode {
    /// The variant of this node.
    pub fn kind(&self) -> (r: RsxNodeKind)
        ensures
            r == node_kind(*self),
    {
        match self {
            RsxNode::Doctype(_) => RsxNodeKind::Doctype,
            RsxNode::Comment(_) => RsxNodeKind::Comment,
            RsxNode::Text(_) => RsxNodeKind::Text,
            RsxNode::Block(_) => RsxNodeKind::Block,
            RsxNode::Element(_) => RsxNodeKind::Element,
            RsxNode::Component(_) => RsxNodeKind::Component,
            RsxNode::Fragment(_) => RsxNodeKind::Fragment,
        }
    }

    /// Whether this node itself survives into the rendered output.
    pub fn is_html_node(&self) -> (r: bool)
        ensures
            r == spec_is_html_node(*self),
    {
        match self {
            RsxNode::Doctype(_) => true,
            RsxNode::Comment(_) => true,
            RsxNode::Text(_) => true,
            RsxNode::Element(_) => true,
            RsxNode::Block(_) => false,
            RsxNode::Component(_) => false,
            RsxNode::Fragment(_) => false,
        }
    }

    /// Whether the direct children of this subtree include a dynamic
    /// block.
    pub fn directly_contains_rust_node(&self) -> (r: bool)
        ensures
            r == spec_directly_contains_rust_node(*self),
    {
        match self {
            RsxNode::Block(_) => {
                proof {
                    assert(node_kind(direct_children(*self)[0]) == RsxNodeKind::Block);
                }
                true
            },
            RsxNode::Fragment(f) => {
                let mut i: usize = 0;
                #[verifier::loop_isolation(false)]
                while i < f.nodes.len()
                    invariant
                        i <= f.nodes@.len(),
                        forall|j: int|
                            0 <= j < i ==> #[trigger] node_kind(f.nodes@[j]) != RsxNodeKind::Block,
                    decreases f.nodes@.len() - i,
                {
                    if f.nodes[i].is_block() {
                        return true;
                    }
                    i += 1;
                }
                false
            },
            _ => {
                proof {
                    assert(direct_children(*self).len() == 1);
                    assert(node_kind(direct_children(*self)[0]) != RsxNodeKind::Block);
                }
                false
            },
        }
    }

    /// Whether this node is a dynamic block.
    pub fn is_block(&self) -> (r: bool)
        ensures
            r == (node_kind(*self) == RsxNodeKind::Block),
    {
        match self {
            RsxNode::Block(_) => true,
            _ => false,
        }
    }
}

/// Whether the direct children of a `children` subtree include a dynamic
/// block.
pub open spec fn spec_directly_contains_rust_node(node: RsxNode) -> bool {
    exists|j: int|
        0 <= j < direct_children(node).len() && #[trigger] node_kind(direct_children(node)[j])
            == RsxNodeKind::Block
}

/// Appends the rendered text of `node` to `out`.
pub fn push_text_content(out: &mut String, node: &RsxNode)
    ensures
        final(out)@ == old(out)@ + text_content(*node),
    decreases *node,
{
    match node {
        RsxNode::Text(t) => {
            let mut i: usize = 0;
            #[verifier::loop_isolation(false)]
            while i < t.value.as_str().unicode_len()
                invariant
                    i <= t.value@.len(),
                    out@ == old(out)@ + t.value@.subrange(0, i as int),
                decreases t.value@.len() - i,
            {
                string_push(out, t.value.as_str().get_char(i));
                proof {
                    assert(out@ =~= old(out)@ + t.value@.subrange(0, i + 1));
                }
                i += 1;
            }
            proof {
                assert(out@ =~= old(out)@ + t.value@);
            }
        },
        RsxNode::Block(b) => {
            push_text_content(out, &b.initial);
        },
        RsxNode::Fragment(f) => {
            let mut i: usize = 0;
            #[verifier::loop_isolation(false)]
            while i < f.nodes.len()
                invariant
                    i <= f.nodes@.len(),
                    out@ == old(out)@ + text_content_list(f.nodes@.subrange(0, i as int)),
                decreases f.nodes@.len() - i,
            {
                proof {
                    assert(decreases_to!(*node => f.nodes@[i as int]));
                }
                push_text_content(out, &f.nodes[i]);
                proof {
                    let pre = f.nodes@.subrange(0, i + 1);
                    assert(pre.drop_last() =~= f.nodes@.subrange(0, i as int));
                    assert(pre.last() == f.nodes@[i as int]);
                    assert(out@ =~= old(out)@ + text_content_list(pre));
                }
                i += 1;
            }
            proof {
                assert(f.nodes@.subrange(0, f.nodes@.len() as int) =~= f.nodes@);
            }
        },
        _ => {
            proof {
                assert(out@ =~= old(out)@ + text_content(*node));
            }
        },
    }
}

/// The rendered text of `node`.
pub fn text_content_of(node: &RsxNode) -> (r: String)
    ensures
        r@ == text_content(*node),
{
    let mut out = String::new();
    push_text_content(&mut out, node);
    proof {
        assert(out@ =~= text_content(*node));
    }
    out
}

} // verus!
