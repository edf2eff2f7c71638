//! Stable positions of nodes within one walked tree.

use crate::decimal::all_dec_digits;
use crate::decimal::dec_digits;
use crate::decimal::dec_value;
use crate::decimal::is_dec_digit;
use crate::decimal::is_u32_field;
use crate::decimal::lemma_dec_digits_are_digits;
use crate::decimal::lemma_dec_value_of_digits;
use crate::decimal::lemma_digits_no_char;
use crate::decimal::parse_u32_field;
use crate::decimal::push_dec_u64;
use crate::error::ParseError;
use crate::error::ParseResult;
use crate::rsx_node::node_kind;
use crate::rsx_node::spec_directly_contains_rust_node;
use crate::rsx_node::node_size;
use crate::rsx_node::node_size_list;
use crate::rsx_node::spec_is_html_node;
use crate::rsx_node::RsxNode;
use crate::rsx_node::RsxNodeKind;
use crate::rsx_visitor::VisitRsxOptions;
use crate::text_block_encoder::element_runs;
use crate::text_block_encoder::nat_runs;
use crate::text_block_encoder::TextBlockEncoder;
use crate::split::has_char;
use crate::split::join_char;
use crate::split::lemma_split_join;
use crate::split::split_char;
use crate::split::split_vec;
use crate::strutil::string_chars;
use crate::strutil::string_push;
use vstd::prelude::*;

verus! {

/// A sequence number assigned to every node visited during one depth-first
/// walk of one tree, starting at zero and dense in visit order.
pub type TreeIdx = u32;

/// An index distinguishing dynamic nodes of one tree.
pub type RustyIdx = u32;

/// The binding between a node of a template tree and its rendered output.
///
/// Elements can be found again by an identifier, but text nodes cannot, and
/// adjacent text nodes are collapsed when rendered.  These indices are
/// therefore *uncollapsed* indices; the collapsed-text encodings recorded in
/// a tree-location map re-expand the rendered text before they are used.
#[derive(Debug, Default, Copy, Clone, PartialEq, Eq, Structural, PartialOrd, Ord, Hash)]
pub struct TreeLocation {
    /// Incremented on every node visited in the walk, whether or not the
    /// node survives into the rendered output.
    pub tree_idx: TreeIdx,
    /// The tree index of this node's nearest enclosing element, or zero for
    /// top-level nodes.
    pub parent_idx: TreeIdx,
    /// The *uncollapsed* child index of this node under `parent_idx`,
    /// counting only output-producing siblings.
    pub child_idx: u32,
}

/// The comma-separated textual form of a location:
/// `tree_idx,parent_idx,child_idx`.
pub open spec fn tree_location_csv(loc: TreeLocation) -> Seq<char> {
    join_char(
        seq![
            dec_digits(loc.tree_idx as nat),
            dec_digits(loc.parent_idx as nat),
            dec_digits(loc.child_idx as nat),
        ],
        ',',
    )
}

/// Whether `s` decodes as a location: at least three comma-separated
/// fields, the first three being digit runs whose values fit in `u32`.
pub open spec fn tree_location_csv_valid(s: Seq<char>) -> bool {
    let parts = split_char(s, ',');
    parts.len() >= 3 && is_u32_field(parts[0]) && is_u32_field(parts[1]) && is_u32_field(parts[2])
}

/// The location a valid textual form decodes to.
pub open spec fn tree_location_of_csv(s: Seq<char>) -> TreeLocation {
    let parts = split_char(s, ',');
    TreeLocation {
        tree_idx: dec_value(parts[0]) as u32,
        parent_idx: dec_value(parts[1]) as u32,
        child_idx: dec_value(parts[2]) as u32,
    }
}

impl TreeLocation {
    /// Builds the location from its three indices.
    pub fn new(tree_idx: u32, parent_idx: u32, child_idx: u32) -> (r: TreeLocation)
        ensures
            r == (TreeLocation { tree_idx, parent_idx, child_idx }),
    {
        TreeLocation { tree_idx, parent_idx, child_idx }
    }

    /// Renders the location as `tree_idx,parent_idx,child_idx`.
    pub fn to_csv(&self) -> (r: String)
        ensures
            r@ == tree_location_csv(*self),
    {
        let mut s = String::new();
        push_dec_u64(&mut s, self.tree_idx as u64);
        string_push(&mut s, ',');
        push_dec_u64(&mut s, self.parent_idx as u64);
        string_push(&mut s, ',');
        push_dec_u64(&mut s, self.child_idx as u64);
        proof {
            lemma_join3(
                dec_digits(self.tree_idx as nat),
                dec_digits(self.parent_idx as nat),
                dec_digits(self.child_idx as nat),
                ',',
            );
            assert(s@ =~= tree_location_csv(*self));
        }
        s
    }

    /// Decodes `tree_idx,parent_idx,child_idx`.  Fields beyond the third
    /// are ignored; a missing field or a field that is not an in-range
    /// digit run is rejected, naming the field that failed.
    pub fn from_csv(csv: &str) -> (r: ParseResult<TreeLocation>)
        ensures
            tree_location_csv_valid(csv@) ==> r == Ok::<TreeLocation, ParseError>(
                tree_location_of_csv(csv@),
            ),
            !tree_location_csv_valid(csv@) ==> r is Err,
    {
        let chars = string_chars(csv);
        TreeLocation::from_chars(&chars)
    }

    /// As [`Self::from_csv`], over an already split-out character run.
    pub(crate) fn from_chars(chars: &Vec<char>) -> (r: ParseResult<TreeLocation>)
        ensures
            tree_location_csv_valid(chars@) ==> r == Ok::<TreeLocation, ParseError>(
                tree_location_of_csv(chars@),
            ),
            !tree_location_csv_valid(chars@) ==> r is Err,
    {
        let parts = split_vec(chars, ',');
        if parts.len() < 3 {
            return Err(ParseError::MissingField(String::from_str("tree location csv")));
        }
        proof {
            assert(parts.deep_view()[0] == parts@[0]@);
            assert(parts.deep_view()[1] == parts@[1]@);
            assert(parts.deep_view()[2] == parts@[2]@);
        }
        let tree_idx = match parse_u32_field(&parts[0]) {
            Some(n) => n,
            None => {
                return Err(ParseError::InvalidNumber(String::from_str("tree_idx")));
            },
        };
        let parent_idx = match parse_u32_field(&parts[1]) {
            Some(n) => n,
            None => {
                return Err(ParseError::InvalidNumber(String::from_str("parent_idx")));
            },
        };
        let child_idx = match parse_u32_field(&parts[2]) {
            Some(n) => n,
            None => {
                return Err(ParseError::InvalidNumber(String::from_str("child_idx")));
            },
        };
        Ok(TreeLocation { tree_idx, parent_idx, child_idx })
    }
}

/// A three-part join written out.
pub proof fn lemma_join3(a: Seq<char>, b: Seq<char>, c: Seq<char>, d: char)
    ensures
        join_char(seq![a, b, c], d) == a + seq![d] + b + seq![d] + c,
{
    let parts = seq![a, b, c];
    assert(parts.drop_first() =~= seq![b, c]);
    assert(seq![b, c].drop_first() =~= seq![c]);
    assert(join_char(seq![c], d) == c);
    assert(join_char(seq![b, c], d) == b + seq![d] + c);
    assert(join_char(parts, d) == a + seq![d] + (b + seq![d] + c));
    assert(a + seq![d] + (b + seq![d] + c) =~= a + seq![d] + b + seq![d] + c);
}

/// A location's textual form holds only digits and `','`.
pub proof fn lemma_tree_location_csv_chars(loc: TreeLocation, c: char)
    requires
        !is_dec_digit(c),
        c != ',',
    ensures
        !has_char(tree_location_csv(loc), c),
{
    let parts = seq![
        dec_digits(loc.tree_idx as nat),
        dec_digits(loc.parent_idx as nat),
        dec_digits(loc.child_idx as nat),
    ];
    assert forall|k: int| 0 <= k < parts.len() implies !has_char(#[trigger] parts[k], c) by {
        if k == 0 {
            lemma_digits_no_char(loc.tree_idx as nat, c);
        } else if k == 1 {
            lemma_digits_no_char(loc.parent_idx as nat, c);
        } else {
            assert(parts[k] == dec_digits(loc.child_idx as nat));
            lemma_digits_no_char(loc.child_idx as nat, c);
        }
    }
    crate::split::lemma_join_has_char(parts, ',', c);
}

/// Decoding inverts encoding: every location's textual form is valid and
/// decodes to the same location.
pub proof fn lemma_tree_location_round_trip(loc: TreeLocation)
    ensures
        tree_location_csv_valid(tree_location_csv(loc)),
        tree_location_of_csv(tree_location_csv(loc)) == loc,
{
    let a = dec_digits(loc.tree_idx as nat);
    let b = dec_digits(loc.parent_idx as nat);
    let c = dec_digits(loc.child_idx as nat);
    let parts = seq![a, b, c];
    lemma_dec_digits_are_digits(loc.tree_idx as nat);
    lemma_dec_digits_are_digits(loc.parent_idx as nat);
    lemma_dec_digits_are_digits(loc.child_idx as nat);
    lemma_dec_value_of_digits(loc.tree_idx as nat);
    lemma_dec_value_of_digits(loc.parent_idx as nat);
    lemma_dec_value_of_digits(loc.child_idx as nat);
    assert(!is_dec_digit(','));
    lemma_digits_no_char(loc.tree_idx as nat, ',');
    lemma_digits_no_char(loc.parent_idx as nat, ',');
    lemma_digits_no_char(loc.child_idx as nat, ',');
    assert forall|k: int| 0 <= k < parts.len() implies !has_char(#[trigger] parts[k], ',') by {
        if k == 0 {
        } else if k == 1 {
        } else {
            assert(parts[k] == c);
        }
    }
    lemma_split_join(parts, ',');
}

} // verus!

verus! {

/// One recorded visit: the location assigned and the variant of the node
/// it was assigned to.
pub type VisitedLocation = (TreeLocation, RsxNodeKind);

/// The location-annotated visit sequence of one node, as a function of the
/// walk state: the running counter, the nearest enclosing element's index,
/// and the child counter under it.  Returns the visits in order, the
/// counter afterwards, and the child counter afterwards.
pub open spec fn spec_visit_node(
    node: RsxNode,
    opts: VisitRsxOptions,
    counter: nat,
    parent: nat,
    child: nat,
) -> (Seq<(TreeLocation, RsxNode)>, nat, nat)
    decreases node, 0int,
{
    let loc = TreeLocation {
        tree_idx: counter as u32,
        parent_idx: parent as u32,
        child_idx: child as u32,
    };
    let v0 = seq![(loc, node)];
    let c1 = counter + 1;
    let ch1: nat = if spec_is_html_node(node) {
        child + 1
    } else {
        child
    };
    match node {
        RsxNode::Block(b) => {
            if opts.ignore_block_node_initial {
                (v0, c1, ch1)
            } else {
                let (v2, c2, ch2) = spec_visit_node(*b.initial, opts, c1, parent, ch1);
                (v0 + v2, c2, ch2)
            }
        },
        RsxNode::Fragment(f) => {
            let (v2, c2, ch2) = spec_visit_list(f.nodes@, 0, opts, c1, parent, ch1);
            (v0 + v2, c2, ch2)
        },
        RsxNode::Element(e) => {
            if opts.ignore_element_children {
                (v0, c1, ch1)
            } else {
                let (v2, c2, ch2) = spec_visit_node(*e.children, opts, c1, counter, 0);
                (v0 + v2, c2, ch1)
            }
        },
        RsxNode::Component(cm) => {
            let (v2, c2, ch2) = if !opts.ignore_component_node {
                spec_visit_node(*cm.node, opts, c1, parent, ch1)
            } else {
                (Seq::<(TreeLocation, RsxNode)>::empty(), c1, ch1)
            };
            let (v3, c3, ch3) = if !opts.ignore_component_slot_children {
                spec_visit_node(*cm.slot_children, opts, c2, parent, ch2)
            } else {
                (Seq::<(TreeLocation, RsxNode)>::empty(), c2, ch2)
            };
            (v0 + v2 + v3, c3, ch3)
        },
        _ => (v0, c1, ch1),
    }
}

/// The visit sequence of the tail of a node list, from index `i` on,
/// threading the counter and child counter left to right.
pub open spec fn spec_visit_list(
    nodes: Seq<RsxNode>,
    i: int,
    opts: VisitRsxOptions,
    counter: nat,
    parent: nat,
    child: nat,
) -> (Seq<(TreeLocation, RsxNode)>, nat, nat)
    decreases nodes, nodes.len() - i,
    when 0 <= i <= nodes.len()
{
    if i >= nodes.len() {
        (Seq::<(TreeLocation, RsxNode)>::empty(), counter, child)
    } else {
        let (v1, c1, ch1) = spec_visit_node(nodes[i], opts, counter, parent, child);
        let (v2, c2, ch2) = spec_visit_list(nodes, i + 1, opts, c1, parent, ch1);
        (v1 + v2, c2, ch2)
    }
}

/// The visits of one whole walk of `node`, counters seeded at zero.
pub open spec fn spec_visits(node: RsxNode, opts: VisitRsxOptions) -> Seq<
    (TreeLocation, RsxNode),
> {
    spec_visit_node(node, opts, 0, 0, 0).0
}

/// The visit sequence reduced to the variants of the visited nodes.
pub open spec fn visit_kinds(vs: Seq<(TreeLocation, RsxNode)>) -> Seq<VisitedLocation> {
    vs.map_values(|p: (TreeLocation, RsxNode)| (p.0, node_kind(p.1)))
}

/// Reducing to variants distributes over concatenation.
pub proof fn lemma_visit_kinds_concat(a: Seq<(TreeLocation, RsxNode)>, b: Seq<(TreeLocation, RsxNode)>)
    ensures
        visit_kinds(a + b) == visit_kinds(a) + visit_kinds(b),
{
    assert(visit_kinds(a + b) =~= visit_kinds(a) + visit_kinds(b));
}

/// The dynamic-node entries of a visit sequence: one `(tree index,
/// location)` pair per visited dynamic block, in visit order.
pub open spec fn rusty_of(vs: Seq<(TreeLocation, RsxNode)>) -> Seq<(u32, TreeLocation)>
    decreases vs.len(),
{
    if vs.len() == 0 {
        Seq::<(u32, TreeLocation)>::empty()
    } else {
        rusty_of(vs.drop_last()) + (if node_kind(vs.last().1) == RsxNodeKind::Block {
            seq![(vs.last().0.tree_idx, vs.last().0)]
        } else {
            Seq::<(u32, TreeLocation)>::empty()
        })
    }
}

/// The collapse entries of a visit sequence: one `(tree index, parent
/// index, runs)` triple per visited element whose direct children include
/// a dynamic block, in visit order.
pub open spec fn collapsed_of(vs: Seq<(TreeLocation, RsxNode)>) -> Seq<(u32, u32, Seq<Seq<nat>>)>
    decreases vs.len(),
{
    if vs.len() == 0 {
        Seq::<(u32, u32, Seq<Seq<nat>>)>::empty()
    } else {
        collapsed_of(vs.drop_last()) + (match vs.last().1 {
            RsxNode::Element(e) => {
                if spec_directly_contains_rust_node(*e.children) {
                    seq![(vs.last().0.tree_idx, vs.last().0.tree_idx, element_runs(e))]
                } else {
                    Seq::<(u32, u32, Seq<Seq<nat>>)>::empty()
                }
            },
            _ => Seq::<(u32, u32, Seq<Seq<nat>>)>::empty(),
        })
    }
}

/// The abstract content of recorded collapse entries.
pub open spec fn enc_entries(es: Seq<(u32, TextBlockEncoder)>) -> Seq<(u32, u32, Seq<Seq<nat>>)> {
    es.map_values(
        |e: (u32, TextBlockEncoder)|
            (e.0, e.1.parent_id, nat_runs(e.1.split_positions.deep_view())),
    )
}

/// Every recorded collapse entry is well formed and keyed by its own
/// parent index.
pub open spec fn collapsed_entries_wf(es: Seq<(u32, TextBlockEncoder)>) -> bool {
    forall|k: int|
        0 <= k < es.len() ==> crate::text_block_encoder::encoder_wf(#[trigger] es[k].1)
            && es[k].0 == es[k].1.parent_id
}

/// Extracting dynamic-node entries distributes over concatenation.
pub proof fn lemma_rusty_of_concat(a: Seq<(TreeLocation, RsxNode)>, b: Seq<(TreeLocation, RsxNode)>)
    ensures
        rusty_of(a + b) == rusty_of(a) + rusty_of(b),
    decreases b.len(),
{
    if b.len() == 0 {
        assert(a + b =~= a);
        assert(rusty_of(a) + rusty_of(b) =~= rusty_of(a));
    } else {
        lemma_rusty_of_concat(a, b.drop_last());
        assert((a + b).drop_last() =~= a + b.drop_last());
        assert((a + b).last() == b.last());
        assert(rusty_of(a) + rusty_of(b.drop_last()) + (if node_kind(b.last().1)
            == RsxNodeKind::Block {
            seq![(b.last().0.tree_idx, b.last().0)]
        } else {
            Seq::<(u32, TreeLocation)>::empty()
        }) =~= rusty_of(a) + rusty_of(b));
    }
}

/// Extracting collapse entries distributes over concatenation.
pub proof fn lemma_collapsed_of_concat(
    a: Seq<(TreeLocation, RsxNode)>,
    b: Seq<(TreeLocation, RsxNode)>,
)
    ensures
        collapsed_of(a + b) == collapsed_of(a) + collapsed_of(b),
    decreases b.len(),
{
    if b.len() == 0 {
        assert(a + b =~= a);
        assert(collapsed_of(a) + collapsed_of(b) =~= collapsed_of(a));
    } else {
        lemma_collapsed_of_concat(a, b.drop_last());
        assert((a + b).drop_last() =~= a + b.drop_last());
        assert((a + b).last() == b.last());
        assert(collapsed_of(a) + collapsed_of(b.drop_last()) + (match b.last().1 {
            RsxNode::Element(e) => {
                if spec_directly_contains_rust_node(*e.children) {
                    seq![(b.last().0.tree_idx, b.last().0.tree_idx, element_runs(e))]
                } else {
                    Seq::<(u32, u32, Seq<Seq<nat>>)>::empty()
                }
            },
            _ => Seq::<(u32, u32, Seq<Seq<nat>>)>::empty(),
        }) =~= collapsed_of(a) + collapsed_of(b));
    }
}

/// How the walk state moves: the counter advances by one per visit, every
/// walk visits at least its root and at most the whole subtree, and the
/// child counter never outruns the visit count.
pub proof fn lemma_spec_visit_node_bounds(
    node: RsxNode,
    opts: VisitRsxOptions,
    counter: nat,
    parent: nat,
    child: nat,
)
    ensures
        ({
            let (vs, c2, ch2) = spec_visit_node(node, opts, counter, parent, child);
            &&& c2 == counter + vs.len()
            &&& 1 <= vs.len() <= node_size(node)
            &&& child <= ch2 <= child + vs.len()
        }),
    decreases node, 0int,
{
    let (vs, c2, ch2) = spec_visit_node(node, opts, counter, parent, child);
    let c1 = counter + 1;
    let ch1: nat = if spec_is_html_node(node) {
        child + 1
    } else {
        child
    };
    match node {
        RsxNode::Block(b) => {
            if !opts.ignore_block_node_initial {
                lemma_spec_visit_node_bounds(*b.initial, opts, c1, parent, ch1);
            }
        },
        RsxNode::Fragment(f) => {
            lemma_spec_visit_list_bounds(f.nodes@, 0, opts, c1, parent, ch1);
            lemma_node_size_list_from_zero(f.nodes@);
        },
        RsxNode::Element(e) => {
            if !opts.ignore_element_children {
                lemma_spec_visit_node_bounds(*e.children, opts, c1, counter, 0);
            }
        },
        RsxNode::Component(cm) => {
            let (v2, c2a, ch2a) = if !opts.ignore_component_node {
                spec_visit_node(*cm.node, opts, c1, parent, ch1)
            } else {
                (Seq::<(TreeLocation, RsxNode)>::empty(), c1, ch1)
            };
            if !opts.ignore_component_node {
                lemma_spec_visit_node_bounds(*cm.node, opts, c1, parent, ch1);
            }
            if !opts.ignore_component_slot_children {
                lemma_spec_visit_node_bounds(*cm.slot_children, opts, c2a, parent, ch2a);
            }
        },
        _ => {},
    }
}

/// The list form of the walk-state bounds, for the tail from `i`.
pub proof fn lemma_spec_visit_list_bounds(
    nodes: Seq<RsxNode>,
    i: int,
    opts: VisitRsxOptions,
    counter: nat,
    parent: nat,
    child: nat,
)
    requires
        0 <= i <= nodes.len(),
    ensures
        ({
            let (vs, c2, ch2) = spec_visit_list(nodes, i, opts, counter, parent, child);
            &&& c2 == counter + vs.len()
            &&& vs.len() <= node_size_list_from(nodes, i)
            &&& child <= ch2 <= child + vs.len()
        }),
    decreases nodes, nodes.len() - i,
{
    if i < nodes.len() {
        let (v1, c1, ch1) = spec_visit_node(nodes[i], opts, counter, parent, child);
        lemma_spec_visit_node_bounds(nodes[i], opts, counter, parent, child);
        lemma_spec_visit_list_bounds(nodes, i + 1, opts, c1, parent, ch1);
    }
}

/// The number of nodes in the tail of a list from index `i`.
pub open spec fn node_size_list_from(nodes: Seq<RsxNode>, i: int) -> nat
    decreases nodes.len() - i,
    when 0 <= i <= nodes.len()
{
    if i >= nodes.len() {
        0
    } else {
        node_size(nodes[i]) + node_size_list_from(nodes, i + 1)
    }
}

/// The tail count from the start is the whole list's count.
pub proof fn lemma_node_size_list_from_zero(nodes: Seq<RsxNode>)
    ensures
        node_size_list_from(nodes, 0) == node_size_list(nodes),
    decreases nodes.len(),
{
    if nodes.len() > 0 {
        lemma_node_size_list_from_zero(nodes.drop_last());
        lemma_node_size_from_drop(nodes, 0);
    }
}

/// Dropping the last node takes exactly its count out of any tail sum.
proof fn lemma_node_size_from_drop(nodes: Seq<RsxNode>, i: int)
    requires
        nodes.len() >= 1,
        0 <= i <= nodes.len() - 1,
    ensures
        node_size_list_from(nodes, i) == node_size_list_from(nodes.drop_last(), i) + node_size(
            nodes.last(),
        ),
    decreases nodes.len() - i,
{
    if i == nodes.len() - 1 {
        assert(node_size_list_from(nodes, i + 1) == 0);
        assert(node_size_list_from(nodes.drop_last(), i) == 0);
        assert(nodes[i] == nodes.last());
    } else {
        lemma_node_size_from_drop(nodes, i + 1);
        assert(nodes.drop_last()[i] == nodes[i]);
    }
}

} // verus!

verus! {

/// The last entry of a stack, or zero when it is empty.
pub open spec fn last_or_zero(s: Seq<u32>) -> u32 {
    if s.len() > 0 {
        s.last()
    } else {
        0u32
    }
}

/// Assigns every visited node its [`TreeLocation`] during one depth-first
/// walk and records the visits in order.
///
/// The parent stack is a breadcrumb trail of the enclosing elements' tree
/// indices (the walk is depth-first); the child stack carries the running
/// child counter under each of them; the counter increments once per node
/// visited.
#[derive(Debug)]
pub struct TreeLocationVisitor {
    /// Stack of enclosing elements' tree indices, seeded with the root
    /// sentinel.
    pub parent_idxs: Vec<u32>,
    /// Stack of child counters, parallel to `parent_idxs`: pushed when
    /// entering an element's children, incremented after each
    /// output-producing node.
    pub child_idxs: Vec<u32>,
    /// Counter incremented on every node visited.
    pub tree_idx_incr: u32,
    /// The descent configuration of this walk.
    pub options: VisitRsxOptions,
    /// The visits recorded so far, in walk order.
    pub visits: Vec<VisitedLocation>,
    /// One entry per visited dynamic block: its location, keyed by its
    /// tree index.
    pub rusty_locations: Vec<(u32, TreeLocation)>,
    /// One entry per visited element whose direct children include a
    /// dynamic block: its collapse encoding, keyed by its tree index.
    pub collapsed_elements: Vec<(u32, TextBlockEncoder)>,
}

impl TreeLocationVisitor {
    /// Both stacks are seeded and no recorded counter outruns the walk
    /// counter.
    pub open spec fn wf(self) -> bool {
        &&& self.parent_idxs@.len() >= 1
        &&& self.child_idxs@.len() >= 1
        &&& forall|i: int|
            0 <= i < self.child_idxs@.len() ==> #[trigger] self.child_idxs@[i]
                <= self.tree_idx_incr
        &&& forall|i: int|
            0 <= i < self.parent_idxs@.len() ==> #[trigger] self.parent_idxs@[i]
                <= self.tree_idx_incr
    }

    /// The enclosing element index the next visit will record.
    pub open spec fn spec_parent_top(self) -> nat {
        last_or_zero(self.parent_idxs@) as nat
    }

    /// The child counter the next visit will record.
    pub open spec fn spec_child_top(self) -> nat {
        last_or_zero(self.child_idxs@) as nat
    }

    pub fn new(options: VisitRsxOptions) -> (r: TreeLocationVisitor)
        ensures
            r.wf(),
            r.parent_idxs@ == seq![0u32],
            r.child_idxs@ == seq![0u32],
            r.tree_idx_incr == 0,
            r.options == options,
            r.visits@ == Seq::<VisitedLocation>::empty(),
            r.rusty_locations@ == Seq::<(u32, TreeLocation)>::empty(),
            r.collapsed_elements@ == Seq::<(u32, TextBlockEncoder)>::empty(),
    {
        let mut parent_idxs: Vec<u32> = Vec::new();
        parent_idxs.push(0);
        let mut child_idxs: Vec<u32> = Vec::new();
        child_idxs.push(0);
        let r = TreeLocationVisitor {
            parent_idxs,
            child_idxs,
            tree_idx_incr: 0,
            options,
            visits: Vec::new(),
            rusty_locations: Vec::new(),
            collapsed_elements: Vec::new(),
        };
        proof {
            assert(r.parent_idxs@ =~= seq![0u32]);
            assert(r.child_idxs@ =~= seq![0u32]);
        }
        r
    }

    /// The location the next visited node will receive: the walk counter,
    /// and the tops of the two stacks (or zero where a stack is empty).
    pub fn current_location(&self) -> (r: TreeLocation)
        ensures
            r == (TreeLocation {
                tree_idx: self.tree_idx_incr,
                parent_idx: last_or_zero(self.parent_idxs@),
                child_idx: last_or_zero(self.child_idxs@),
            }),
    {
        let parent_idx = if self.parent_idxs.len() > 0 {
            self.parent_idxs[self.parent_idxs.len() - 1]
        } else {
            0
        };
        let child_idx = if self.child_idxs.len() > 0 {
            self.child_idxs[self.child_idxs.len() - 1]
        } else {
            0
        };
        TreeLocation { tree_idx: self.tree_idx_incr, parent_idx, child_idx }
    }

    /// Advances the state past one visited node: the counter always moves
    /// on; the child counter on top of the stack moves on only for a node
    /// that survives into the rendered output.
    pub fn after_node(&mut self, node: &RsxNode)
        requires
            old(self).tree_idx_incr < u32::MAX,
            spec_is_html_node(*node) && old(self).child_idxs@.len() >= 1 ==> old(
                self,
            ).child_idxs@.last() < u32::MAX,
        ensures
            final(self).tree_idx_incr == old(self).tree_idx_incr + 1,
            final(self).parent_idxs@ == old(self).parent_idxs@,
            final(self).options == old(self).options,
            final(self).visits@ == old(self).visits@,
            final(self).rusty_locations@ == old(self).rusty_locations@,
            final(self).collapsed_elements@ == old(self).collapsed_elements@,
            final(self).child_idxs@ == if spec_is_html_node(*node) && old(
                self,
            ).child_idxs@.len() >= 1 {
                old(self).child_idxs@.update(
                    old(self).child_idxs@.len() - 1,
                    (old(self).child_idxs@.last() + 1) as u32,
                )
            } else {
                old(self).child_idxs@
            },
    {
        self.tree_idx_incr += 1;
        if node.is_html_node() {
            let n = self.child_idxs.len();
            if n > 0 {
                let v = self.child_idxs[n - 1];
                self.child_idxs[n - 1] = v + 1;
            }
        }
        proof {
            if !(spec_is_html_node(*node) && old(self).child_idxs@.len() >= 1) {
                assert(self.child_idxs@ =~= old(self).child_idxs@);
            }
        }
    }

    /// Enters an element's children.  This runs directly after the
    /// element's own visit, so the element's index is exactly the counter
    /// minus one; it goes on the parent stack, with a fresh child counter.
    pub fn before_children(&mut self)
        requires
            old(self).tree_idx_incr >= 1,
        ensures
            final(self).parent_idxs@ == old(self).parent_idxs@.push(
                (old(self).tree_idx_incr - 1) as u32,
            ),
            final(self).child_idxs@ == old(self).child_idxs@.push(0u32),
            final(self).tree_idx_incr == old(self).tree_idx_incr,
            final(self).options == old(self).options,
            final(self).visits@ == old(self).visits@,
            final(self).rusty_locations@ == old(self).rusty_locations@,
            final(self).collapsed_elements@ == old(self).collapsed_elements@,
    {
        self.parent_idxs.push(self.tree_idx_incr - 1);
        self.child_idxs.push(0);
    }

    /// Leaves an element's children, restoring both stacks.
    pub fn after_children(&mut self)
        ensures
            final(self).parent_idxs@ == if old(self).parent_idxs@.len() > 0 {
                old(self).parent_idxs@.drop_last()
            } else {
                old(self).parent_idxs@
            },
            final(self).child_idxs@ == if old(self).child_idxs@.len() > 0 {
                old(self).child_idxs@.drop_last()
            } else {
                old(self).child_idxs@
            },
            final(self).tree_idx_incr == old(self).tree_idx_incr,
            final(self).options == old(self).options,
            final(self).visits@ == old(self).visits@,
            final(self).rusty_locations@ == old(self).rusty_locations@,
            final(self).collapsed_elements@ == old(self).collapsed_elements@,
    {
        let _ = self.parent_idxs.pop();
        let _ = self.child_idxs.pop();
        proof {
            if old(self).parent_idxs@.len() == 0 {
                assert(self.parent_idxs@ =~= old(self).parent_idxs@);
            }
            if old(self).child_idxs@.len() == 0 {
                assert(self.child_idxs@ =~= old(self).child_idxs@);
            }
        }
    }
}

} // verus!

verus! {

impl TreeLocationVisitor {
    /// Walks `node` depth-first, recording one located visit per node, as
    /// the descent switches allow.  The recorded visits, the counter and
    /// the child counter all advance exactly as the spec-level walk says.
    /// Records one visit: the location for `node`, its variant, its
    /// dynamic-node entry if it is a block, its collapse entry if it is a
    /// collapsible element; then advances the counter and child counter.
    fn record_visit(&mut self, node: &RsxNode)
        requires
            old(self).wf(),
            collapsed_entries_wf(old(self).collapsed_elements@),
            old(self).tree_idx_incr < u32::MAX,
        ensures
            final(self).wf(),
            collapsed_entries_wf(final(self).collapsed_elements@),
            final(self).options == old(self).options,
            final(self).parent_idxs@ == old(self).parent_idxs@,
            final(self).tree_idx_incr == old(self).tree_idx_incr + 1,
            ({
                let loc = TreeLocation {
                    tree_idx: old(self).tree_idx_incr,
                    parent_idx: last_or_zero(old(self).parent_idxs@),
                    child_idx: last_or_zero(old(self).child_idxs@),
                };
                let v0 = seq![(loc, *node)];
                let ch1: nat = if spec_is_html_node(*node) {
                    old(self).spec_child_top() + 1
                } else {
                    old(self).spec_child_top()
                };
                &&& final(self).visits@ == old(self).visits@ + visit_kinds(v0)
                &&& final(self).rusty_locations@ == old(self).rusty_locations@ + rusty_of(v0)
                &&& enc_entries(final(self).collapsed_elements@) == enc_entries(
                    old(self).collapsed_elements@,
                ) + collapsed_of(v0)
                &&& final(self).child_idxs@ == old(self).child_idxs@.update(
                    old(self).child_idxs@.len() - 1,
                    ch1 as u32,
                )
                &&& final(self).spec_child_top() == ch1
            }),
    {
        let ghost loc0 = TreeLocation {
            tree_idx: old(self).tree_idx_incr,
            parent_idx: last_or_zero(old(self).parent_idxs@),
            child_idx: last_or_zero(old(self).child_idxs@),
        };
        let ghost v0 = seq![(loc0, *node)];
        let loc = self.current_location();
        self.visits.push((loc, node.kind()));
        proof {
            assert(v0.drop_last() =~= Seq::<(TreeLocation, RsxNode)>::empty());
            assert(v0.last() == (loc0, *node));
            assert(rusty_of(Seq::<(TreeLocation, RsxNode)>::empty()) == Seq::<(
                u32,
                TreeLocation,
            )>::empty());
            assert(collapsed_of(Seq::<(TreeLocation, RsxNode)>::empty()) == Seq::<(
                u32,
                u32,
                Seq<Seq<nat>>,
            )>::empty());
            assert(visit_kinds(v0) =~= seq![(loc0, node_kind(*node))]);
            assert(self.visits@ =~= old(self).visits@ + visit_kinds(v0));
        }
        match node {
            RsxNode::Block(_) => {
                self.rusty_locations.push((loc.tree_idx, loc));
                proof {
                    assert(rusty_of(v0) =~= seq![(loc0.tree_idx, loc0)]);
                    assert(self.rusty_locations@ =~= old(self).rusty_locations@ + rusty_of(v0));
                    assert(collapsed_of(v0) =~= Seq::<(u32, u32, Seq<Seq<nat>>)>::empty());
                    assert(enc_entries(self.collapsed_elements@) =~= enc_entries(
                        old(self).collapsed_elements@,
                    ) + collapsed_of(v0));
                }
            },
            RsxNode::Element(e) => {
                proof {
                    assert(rusty_of(v0) =~= Seq::<(u32, TreeLocation)>::empty());
                    assert(self.rusty_locations@ =~= old(self).rusty_locations@ + rusty_of(v0));
                }
                if e.children.directly_contains_rust_node() {
                    let enc = TextBlockEncoder::encode(loc.tree_idx, e);
                    let ghost pre = self.collapsed_elements@;
                    self.collapsed_elements.push((loc.tree_idx, enc));
                    proof {
                        assert(collapsed_of(v0) =~= seq![
                            (loc0.tree_idx, loc0.tree_idx, element_runs(*e)),
                        ]);
                        assert(enc_entries(self.collapsed_elements@) =~= enc_entries(pre).push(
                            (loc0.tree_idx, enc.parent_id, nat_runs(
                                enc.split_positions.deep_view(),
                            )),
                        ));
                        assert(enc_entries(self.collapsed_elements@) =~= enc_entries(
                            old(self).collapsed_elements@,
                        ) + collapsed_of(v0));
                        assert forall|k: int|
                            0 <= k < self.collapsed_elements@.len() implies
                            crate::text_block_encoder::encoder_wf(
                            #[trigger] self.collapsed_elements@[k].1,
                        ) && self.collapsed_elements@[k].0
                            == self.collapsed_elements@[k].1.parent_id by {
                            if k < pre.len() {
                                assert(self.collapsed_elements@[k] == pre[k]);
                            }
                        }
                    }
                } else {
                    proof {
                        assert(collapsed_of(v0) =~= Seq::<(u32, u32, Seq<Seq<nat>>)>::empty());
                        assert(enc_entries(self.collapsed_elements@) =~= enc_entries(
                            old(self).collapsed_elements@,
                        ) + collapsed_of(v0));
                    }
                }
            },
            _ => {
                proof {
                    assert(rusty_of(v0) =~= Seq::<(u32, TreeLocation)>::empty());
                    assert(self.rusty_locations@ =~= old(self).rusty_locations@ + rusty_of(v0));
                    assert(collapsed_of(v0) =~= Seq::<(u32, u32, Seq<Seq<nat>>)>::empty());
                    assert(enc_entries(self.collapsed_elements@) =~= enc_entries(
                        old(self).collapsed_elements@,
                    ) + collapsed_of(v0));
                }
            },
        }
        self.after_node(node);
        proof {
            if !(spec_is_html_node(*node)) {
                assert(self.child_idxs@ =~= old(self).child_idxs@.update(
                    old(self).child_idxs@.len() - 1,
                    self.spec_child_top() as u32,
                ));
            }
        }
    }

    /// Walks `node` depth-first, recording one located visit per node as
    /// the descent switches allow, one dynamic-node entry per dynamic
    /// block, and one collapse entry per element whose direct children
    /// include a dynamic block.  The recorded data, the counter and the
    /// child counter all advance exactly as the spec-level walk says.
    pub(crate) fn walk_node_loc(&mut self, node: &RsxNode)
        requires
            old(self).wf(),
            collapsed_entries_wf(old(self).collapsed_elements@),
            old(self).tree_idx_incr as nat + node_size(*node) <= u32::MAX as nat,
        ensures
            final(self).wf(),
            final(self).options == old(self).options,
            final(self).parent_idxs@ == old(self).parent_idxs@,
            final(self).child_idxs@.len() == old(self).child_idxs@.len(),
            collapsed_entries_wf(final(self).collapsed_elements@),
            ({
                let (vs, c2, ch2) = spec_visit_node(
                    *node,
                    old(self).options,
                    old(self).tree_idx_incr as nat,
                    old(self).spec_parent_top(),
                    old(self).spec_child_top(),
                );
                &&& final(self).visits@ == old(self).visits@ + visit_kinds(vs)
                &&& final(self).rusty_locations@ == old(self).rusty_locations@ + rusty_of(vs)
                &&& enc_entries(final(self).collapsed_elements@) == enc_entries(
                    old(self).collapsed_elements@,
                ) + collapsed_of(vs)
                &&& final(self).tree_idx_incr as nat == c2
                &&& final(self).child_idxs@ == old(self).child_idxs@.update(
                    old(self).child_idxs@.len() - 1,
                    ch2 as u32,
                )
            }),
        decreases *node, 1int,
    {
        match node {
            RsxNode::Block(_) => self.walk_block_loc(node),
            RsxNode::Element(_) => self.walk_element_loc(node),
            RsxNode::Component(_) => self.walk_component_loc(node),
            RsxNode::Fragment(_) => self.walk_fragment_loc(node),
            _ => self.walk_leaf_loc(node),
        }
    }

    /// The walk of a node with no descendants to visit.
    fn walk_leaf_loc(&mut self, node: &RsxNode)
        requires
            !(*node matches RsxNode::Block(_)),
            !(*node matches RsxNode::Element(_)),
            !(*node matches RsxNode::Component(_)),
            !(*node matches RsxNode::Fragment(_)),
            old(self).wf(),
            collapsed_entries_wf(old(self).collapsed_elements@),
            old(self).tree_idx_incr as nat + node_size(*node) <= u32::MAX as nat,
        ensures
            final(self).wf(),
            final(self).options == old(self).options,
            final(self).parent_idxs@ == old(self).parent_idxs@,
            final(self).child_idxs@.len() == old(self).child_idxs@.len(),
            collapsed_entries_wf(final(self).collapsed_elements@),
            ({
                let (vs, c2, ch2) = spec_visit_node(
                    *node,
                    old(self).options,
                    old(self).tree_idx_incr as nat,
                    old(self).spec_parent_top(),
                    old(self).spec_child_top(),
                );
                &&& final(self).visits@ == old(self).visits@ + visit_kinds(vs)
                &&& final(self).rusty_locations@ == old(self).rusty_locations@ + rusty_of(vs)
                &&& enc_entries(final(self).collapsed_elements@) == enc_entries(
                    old(self).collapsed_elements@,
                ) + collapsed_of(vs)
                &&& final(self).tree_idx_incr as nat == c2
                &&& final(self).child_idxs@ == old(self).child_idxs@.update(
                    old(self).child_idxs@.len() - 1,
                    ch2 as u32,
                )
            }),
        decreases *node, 0int,
    {
        let ghost opts = old(self).options;
        let ghost counter0 = old(self).tree_idx_incr as nat;
        let ghost parent0 = old(self).spec_parent_top();
        let ghost child0 = old(self).spec_child_top();
        proof {
            lemma_spec_visit_node_bounds(*node, opts, counter0, parent0, child0);
        }
        let ghost loc = TreeLocation {
            tree_idx: old(self).tree_idx_incr,
            parent_idx: last_or_zero(old(self).parent_idxs@),
            child_idx: last_or_zero(old(self).child_idxs@),
        };
        self.record_visit(node);
        let ghost v0 = seq![(loc, *node)];
        let ghost stack1 = self.child_idxs@;
        let ghost ch1 = self.spec_child_top();
        let ghost base_rusty = self.rusty_locations@;
        let ghost base_encs = enc_entries(self.collapsed_elements@);
    }

    /// The walk of a dynamic block: its own visit, then (unless
    /// suppressed) its currently rendered subtree.
    fn walk_block_loc(&mut self, node: &RsxNode)
        requires
            *node matches RsxNode::Block(_),
            old(self).wf(),
            collapsed_entries_wf(old(self).collapsed_elements@),
            old(self).tree_idx_incr as nat + node_size(*node) <= u32::MAX as nat,
        ensures
            final(self).wf(),
            final(self).options == old(self).options,
            final(self).parent_idxs@ == old(self).parent_idxs@,
            final(self).child_idxs@.len() == old(self).child_idxs@.len(),
            collapsed_entries_wf(final(self).collapsed_elements@),
            ({
                let (vs, c2, ch2) = spec_visit_node(
                    *node,
                    old(self).options,
                    old(self).tree_idx_incr as nat,
                    old(self).spec_parent_top(),
                    old(self).spec_child_top(),
                );
                &&& final(self).visits@ == old(self).visits@ + visit_kinds(vs)
                &&& final(self).rusty_locations@ == old(self).rusty_locations@ + rusty_of(vs)
                &&& enc_entries(final(self).collapsed_elements@) == enc_entries(
                    old(self).collapsed_elements@,
                ) + collapsed_of(vs)
                &&& final(self).tree_idx_incr as nat == c2
                &&& final(self).child_idxs@ == old(self).child_idxs@.update(
                    old(self).child_idxs@.len() - 1,
                    ch2 as u32,
                )
            }),
        decreases *node, 0int,
    {
        let ghost opts = old(self).options;
        let ghost counter0 = old(self).tree_idx_incr as nat;
        let ghost parent0 = old(self).spec_parent_top();
        let ghost child0 = old(self).spec_child_top();
        proof {
            lemma_spec_visit_node_bounds(*node, opts, counter0, parent0, child0);
        }
        let ghost loc = TreeLocation {
            tree_idx: old(self).tree_idx_incr,
            parent_idx: last_or_zero(old(self).parent_idxs@),
            child_idx: last_or_zero(old(self).child_idxs@),
        };
        self.record_visit(node);
        let ghost v0 = seq![(loc, *node)];
        let ghost stack1 = self.child_idxs@;
        let ghost ch1 = self.spec_child_top();
        let ghost base_rusty = self.rusty_locations@;
        let ghost base_encs = enc_entries(self.collapsed_elements@);
        match node {
            RsxNode::Block(b) => {
                if !self.options.ignore_block_node_initial {
                    self.walk_node_loc(&b.initial);
                    proof {
                        let (v2, c2, ch2) = spec_visit_node(
                            *b.initial,
                            opts,
                            counter0 + 1,
                            parent0,
                            ch1,
                        );
                        lemma_visit_kinds_concat(v0, v2);
                        lemma_rusty_of_concat(v0, v2);
                        lemma_collapsed_of_concat(v0, v2);
                        assert(self.visits@ =~= old(self).visits@ + visit_kinds(v0 + v2));
                        assert(self.rusty_locations@ =~= old(self).rusty_locations@ + rusty_of(
                            v0 + v2,
                        ));
                        assert(enc_entries(self.collapsed_elements@) =~= enc_entries(
                            old(self).collapsed_elements@,
                        ) + collapsed_of(v0 + v2));
                        assert(self.child_idxs@ =~= old(self).child_idxs@.update(
                            old(self).child_idxs@.len() - 1,
                            ch2 as u32,
                        ));
                    }
                }
            },
            _ => {
                proof {
                    assert(false);
                }
            },
        }
    }

    /// The walk of an element: its own visit, then (unless suppressed)
    /// its children under a fresh parent entry.
    fn walk_element_loc(&mut self, node: &RsxNode)
        requires
            *node matches RsxNode::Element(_),
            old(self).wf(),
            collapsed_entries_wf(old(self).collapsed_elements@),
            old(self).tree_idx_incr as nat + node_size(*node) <= u32::MAX as nat,
        ensures
            final(self).wf(),
            final(self).options == old(self).options,
            final(self).parent_idxs@ == old(self).parent_idxs@,
            final(self).child_idxs@.len() == old(self).child_idxs@.len(),
            collapsed_entries_wf(final(self).collapsed_elements@),
            ({
                let (vs, c2, ch2) = spec_visit_node(
                    *node,
                    old(self).options,
                    old(self).tree_idx_incr as nat,
                    old(self).spec_parent_top(),
                    old(self).spec_child_top(),
                );
                &&& final(self).visits@ == old(self).visits@ + visit_kinds(vs)
                &&& final(self).rusty_locations@ == old(self).rusty_locations@ + rusty_of(vs)
                &&& enc_entries(final(self).collapsed_elements@) == enc_entries(
                    old(self).collapsed_elements@,
                ) + collapsed_of(vs)
                &&& final(self).tree_idx_incr as nat == c2
                &&& final(self).child_idxs@ == old(self).child_idxs@.update(
                    old(self).child_idxs@.len() - 1,
                    ch2 as u32,
                )
            }),
        decreases *node, 0int,
    {
        let ghost opts = old(self).options;
        let ghost counter0 = old(self).tree_idx_incr as nat;
        let ghost parent0 = old(self).spec_parent_top();
        let ghost child0 = old(self).spec_child_top();
        proof {
            lemma_spec_visit_node_bounds(*node, opts, counter0, parent0, child0);
        }
        let ghost loc = TreeLocation {
            tree_idx: old(self).tree_idx_incr,
            parent_idx: last_or_zero(old(self).parent_idxs@),
            child_idx: last_or_zero(old(self).child_idxs@),
        };
        self.record_visit(node);
        let ghost v0 = seq![(loc, *node)];
        let ghost stack1 = self.child_idxs@;
        let ghost ch1 = self.spec_child_top();
        let ghost base_rusty = self.rusty_locations@;
        let ghost base_encs = enc_entries(self.collapsed_elements@);
        match node {
            RsxNode::Element(e) => {
                if !self.options.ignore_element_children {
                    self.before_children();
                    self.walk_node_loc(&e.children);
                    self.after_children();
                    proof {
                        let (v2, c2, ch2x) = spec_visit_node(
                            *e.children,
                            opts,
                            counter0 + 1,
                            counter0,
                            0,
                        );
                        lemma_visit_kinds_concat(v0, v2);
                        lemma_rusty_of_concat(v0, v2);
                        lemma_collapsed_of_concat(v0, v2);
                        assert(self.parent_idxs@ =~= old(self).parent_idxs@);
                        assert(self.child_idxs@ =~= stack1);
                        assert(self.visits@ =~= old(self).visits@ + visit_kinds(v0 + v2));
                        assert(self.rusty_locations@ =~= old(self).rusty_locations@ + rusty_of(
                            v0 + v2,
                        ));
                        assert(enc_entries(self.collapsed_elements@) =~= enc_entries(
                            old(self).collapsed_elements@,
                        ) + collapsed_of(v0 + v2));
                    }
                }
            },
            _ => {
                proof {
                    assert(false);
                }
            },
        }
    }

    /// The walk of a component: its own visit, then, as configured, its
    /// inner rendered root and its slot children.
    fn walk_component_loc(&mut self, node: &RsxNode)
        requires
            *node matches RsxNode::Component(_),
            old(self).wf(),
            collapsed_entries_wf(old(self).collapsed_elements@),
            old(self).tree_idx_incr as nat + node_size(*node) <= u32::MAX as nat,
        ensures
            final(self).wf(),
            final(self).options == old(self).options,
            final(self).parent_idxs@ == old(self).parent_idxs@,
            final(self).child_idxs@.len() == old(self).child_idxs@.len(),
            collapsed_entries_wf(final(self).collapsed_elements@),
            ({
                let (vs, c2, ch2) = spec_visit_node(
                    *node,
                    old(self).options,
                    old(self).tree_idx_incr as nat,
                    old(self).spec_parent_top(),
                    old(self).spec_child_top(),
                );
                &&& final(self).visits@ == old(self).visits@ + visit_kinds(vs)
                &&& final(self).rusty_locations@ == old(self).rusty_locations@ + rusty_of(vs)
                &&& enc_entries(final(self).collapsed_elements@) == enc_entries(
                    old(self).collapsed_elements@,
                ) + collapsed_of(vs)
                &&& final(self).tree_idx_incr as nat == c2
                &&& final(self).child_idxs@ == old(self).child_idxs@.update(
                    old(self).child_idxs@.len() - 1,
                    ch2 as u32,
                )
            }),
        decreases *node, 0int,
    {
        let ghost opts = old(self).options;
        let ghost counter0 = old(self).tree_idx_incr as nat;
        let ghost parent0 = old(self).spec_parent_top();
        let ghost child0 = old(self).spec_child_top();
        proof {
            lemma_spec_visit_node_bounds(*node, opts, counter0, parent0, child0);
        }
        let ghost loc = TreeLocation {
            tree_idx: old(self).tree_idx_incr,
            parent_idx: last_or_zero(old(self).parent_idxs@),
            child_idx: last_or_zero(old(self).child_idxs@),
        };
        self.record_visit(node);
        let ghost v0 = seq![(loc, *node)];
        let ghost stack1 = self.child_idxs@;
        let ghost ch1 = self.spec_child_top();
        let ghost base_rusty = self.rusty_locations@;
        let ghost base_encs = enc_entries(self.collapsed_elements@);
        match node {
            RsxNode::Component(cm) => {
                let ghost cres = spec_visit_node(*cm.node, opts, counter0 + 1, parent0, ch1);
                proof {
                    if !opts.ignore_component_node {
                        lemma_spec_visit_node_bounds(
                            *cm.node,
                            opts,
                            counter0 + 1,
                            parent0,
                            ch1,
                        );
                    }
                }
                if !self.options.ignore_component_node {
                    self.walk_node_loc(&cm.node);
                }
                let ghost mid_visits = self.visits@;
                let ghost mid_rusty = self.rusty_locations@;
                let ghost mid_encs = enc_entries(self.collapsed_elements@);
                if !self.options.ignore_component_slot_children {
                    self.walk_node_loc(&cm.slot_children);
                }
                proof {
                    let (v2, c2s, ch2s) = if !opts.ignore_component_node {
                        cres
                    } else {
                        (Seq::<(TreeLocation, RsxNode)>::empty(), counter0 + 1, ch1)
                    };
                    let (v3, c3s, ch3s) = if !opts.ignore_component_slot_children {
                        spec_visit_node(*cm.slot_children, opts, c2s, parent0, ch2s)
                    } else {
                        (Seq::<(TreeLocation, RsxNode)>::empty(), c2s, ch2s)
                    };
                    if opts.ignore_component_node {
                        assert(mid_visits =~= old(self).visits@ + visit_kinds(v0 + v2)) by {
                            lemma_visit_kinds_concat(v0, v2);
                            assert(v0 + v2 =~= v0);
                        }
                        assert(mid_rusty =~= old(self).rusty_locations@ + rusty_of(v0 + v2))
                            by {
                            lemma_rusty_of_concat(v0, v2);
                            assert(v0 + v2 =~= v0);
                        }
                        assert(mid_encs =~= enc_entries(old(self).collapsed_elements@)
                            + collapsed_of(v0 + v2)) by {
                            lemma_collapsed_of_concat(v0, v2);
                            assert(v0 + v2 =~= v0);
                        }
                        assert(stack1 =~= old(self).child_idxs@.update(
                            old(self).child_idxs@.len() - 1,
                            ch2s as u32,
                        ));
                    } else {
                        lemma_visit_kinds_concat(v0, v2);
                        lemma_rusty_of_concat(v0, v2);
                        lemma_collapsed_of_concat(v0, v2);
                        assert(mid_visits =~= old(self).visits@ + visit_kinds(v0 + v2));
                        assert(mid_rusty =~= old(self).rusty_locations@ + rusty_of(v0 + v2));
                        assert(mid_encs =~= enc_entries(old(self).collapsed_elements@)
                            + collapsed_of(v0 + v2));
                    }
                    lemma_visit_kinds_concat(v0 + v2, v3);
                    lemma_rusty_of_concat(v0 + v2, v3);
                    lemma_collapsed_of_concat(v0 + v2, v3);
                    assert(self.visits@ =~= old(self).visits@ + visit_kinds(v0 + v2 + v3));
                    assert(self.rusty_locations@ =~= old(self).rusty_locations@ + rusty_of(
                        v0 + v2 + v3,
                    ));
                    assert(enc_entries(self.collapsed_elements@) =~= enc_entries(
                        old(self).collapsed_elements@,
                    ) + collapsed_of(v0 + v2 + v3));
                    assert(self.child_idxs@ =~= old(self).child_idxs@.update(
                        old(self).child_idxs@.len() - 1,
                        ch3s as u32,
                    ));
                }
            },
            _ => {
                proof {
                    assert(false);
                }
            },
        }
    }

    /// The walk of a fragment: its own visit, then all its nodes in
    /// order.  Fragments are transparent: their nodes are visited under
    /// the same parent entry.
    #[verifier::rlimit(100)]
    fn walk_fragment_loc(&mut self, node: &RsxNode)
        requires
            *node matches RsxNode::Fragment(_),
            old(self).wf(),
            collapsed_entries_wf(old(self).collapsed_elements@),
            old(self).tree_idx_incr as nat + node_size(*node) <= u32::MAX as nat,
        ensures
            final(self).wf(),
            final(self).options == old(self).options,
            final(self).parent_idxs@ == old(self).parent_idxs@,
            final(self).child_idxs@.len() == old(self).child_idxs@.len(),
            collapsed_entries_wf(final(self).collapsed_elements@),
            ({
                let (vs, c2, ch2) = spec_visit_node(
                    *node,
                    old(self).options,
                    old(self).tree_idx_incr as nat,
                    old(self).spec_parent_top(),
                    old(self).spec_child_top(),
                );
                &&& final(self).visits@ == old(self).visits@ + visit_kinds(vs)
                &&& final(self).rusty_locations@ == old(self).rusty_locations@ + rusty_of(vs)
                &&& enc_entries(final(self).collapsed_elements@) == enc_entries(
                    old(self).collapsed_elements@,
                ) + collapsed_of(vs)
                &&& final(self).tree_idx_incr as nat == c2
                &&& final(self).child_idxs@ == old(self).child_idxs@.update(
                    old(self).child_idxs@.len() - 1,
                    ch2 as u32,
                )
            }),
        decreases *node, 0int,
    {
        let ghost opts = old(self).options;
        let ghost counter0 = old(self).tree_idx_incr as nat;
        let ghost parent0 = old(self).spec_parent_top();
        let ghost child0 = old(self).spec_child_top();
        proof {
            lemma_spec_visit_node_bounds(*node, opts, counter0, parent0, child0);
        }
        let ghost loc = TreeLocation {
            tree_idx: old(self).tree_idx_incr,
            parent_idx: last_or_zero(old(self).parent_idxs@),
            child_idx: last_or_zero(old(self).child_idxs@),
        };
        self.record_visit(node);
        let ghost v0 = seq![(loc, *node)];
        let ghost stack1 = self.child_idxs@;
        let ghost ch1 = self.spec_child_top();
        let ghost base_rusty = self.rusty_locations@;
        let ghost base_encs = enc_entries(self.collapsed_elements@);
        match node {
            RsxNode::Fragment(f) => {
                let ghost base_visits = self.visits@;
                let ghost listfull = spec_visit_list(
                    f.nodes@,
                    0,
                    opts,
                    counter0 + 1,
                    parent0,
                    ch1,
                );
                proof {
                    lemma_node_size_list_from_zero(f.nodes@);
                }
                let mut i: usize = 0;
                #[verifier::loop_isolation(false)]
                while i < f.nodes.len()
                    invariant
                        0 <= i <= f.nodes@.len(),
                        self.wf(),
                        self.options == opts,
                        self.parent_idxs@ == old(self).parent_idxs@,
                        self.child_idxs@.len() == old(self).child_idxs@.len(),
                        collapsed_entries_wf(self.collapsed_elements@),
                        self.child_idxs@ == old(self).child_idxs@.update(
                            old(self).child_idxs@.len() - 1,
                            last_or_zero(self.child_idxs@),
                        ),
                        self.tree_idx_incr as nat + node_size_list_from(f.nodes@, i as int)
                            <= counter0 + node_size(*node),
                        ({
                            let rest = spec_visit_list(
                                f.nodes@,
                                i as int,
                                opts,
                                self.tree_idx_incr as nat,
                                parent0,
                                self.spec_child_top(),
                            );
                            &&& listfull.1 == rest.1
                            &&& listfull.2 == rest.2
                            &&& base_visits + visit_kinds(listfull.0) == self.visits@
                                + visit_kinds(rest.0)
                            &&& base_rusty + rusty_of(listfull.0) == self.rusty_locations@
                                + rusty_of(rest.0)
                            &&& base_encs + collapsed_of(listfull.0) == enc_entries(
                                self.collapsed_elements@,
                            ) + collapsed_of(rest.0)
                        }),
                    decreases f.nodes@.len() - i,
                {
                    let ghost pre_counter = self.tree_idx_incr as nat;
                    let ghost pre_child = self.spec_child_top();
                    let ghost pre_visits = self.visits@;
                    let ghost pre_rusty = self.rusty_locations@;
                    let ghost pre_encs = enc_entries(self.collapsed_elements@);
                    proof {
                        assert(decreases_to!(*node => f.nodes@[i as int]));
                        lemma_spec_visit_node_bounds(
                            f.nodes@[i as int],
                            opts,
                            pre_counter,
                            parent0,
                            pre_child,
                        );
                    }
                    self.walk_node_loc(&f.nodes[i]);
                    proof {
                        let (v1, c1x, ch1x) = spec_visit_node(
                            f.nodes@[i as int],
                            opts,
                            pre_counter,
                            parent0,
                            pre_child,
                        );
                        let rest_pre = spec_visit_list(
                            f.nodes@,
                            i as int,
                            opts,
                            pre_counter,
                            parent0,
                            pre_child,
                        );
                        let rest_post = spec_visit_list(
                            f.nodes@,
                            i + 1,
                            opts,
                            c1x,
                            parent0,
                            ch1x,
                        );
                        assert(rest_pre.0 == v1 + rest_post.0);
                        lemma_visit_kinds_concat(v1, rest_post.0);
                        lemma_rusty_of_concat(v1, rest_post.0);
                        lemma_collapsed_of_concat(v1, rest_post.0);
                        assert(pre_visits + visit_kinds(rest_pre.0) =~= self.visits@
                            + visit_kinds(rest_post.0));
                        assert(base_visits + visit_kinds(listfull.0) == self.visits@
                            + visit_kinds(rest_post.0));
                        assert(pre_rusty + rusty_of(rest_pre.0) =~= self.rusty_locations@
                            + rusty_of(rest_post.0));
                        assert(base_rusty + rusty_of(listfull.0) == self.rusty_locations@
                            + rusty_of(rest_post.0));
                        assert(pre_encs + collapsed_of(rest_pre.0) =~= enc_entries(
                            self.collapsed_elements@,
                        ) + collapsed_of(rest_post.0));
                        assert(base_encs + collapsed_of(listfull.0) == enc_entries(
                            self.collapsed_elements@,
                        ) + collapsed_of(rest_post.0));
                        assert(self.child_idxs@ =~= old(self).child_idxs@.update(
                            old(self).child_idxs@.len() - 1,
                            last_or_zero(self.child_idxs@),
                        ));
                    }
                    i += 1;
                }
                proof {
                    let rest = spec_visit_list(
                        f.nodes@,
                        f.nodes@.len() as int,
                        opts,
                        self.tree_idx_incr as nat,
                        parent0,
                        self.spec_child_top(),
                    );
                    assert(rest.0 == Seq::<(TreeLocation, RsxNode)>::empty());
                    assert(visit_kinds(rest.0) =~= Seq::<VisitedLocation>::empty());
                    assert(rusty_of(rest.0) =~= Seq::<(u32, TreeLocation)>::empty());
                    assert(collapsed_of(rest.0) =~= Seq::<(u32, u32, Seq<Seq<nat>>)>::empty());
                    assert(base_visits + visit_kinds(listfull.0) =~= self.visits@);
                    assert(base_rusty + rusty_of(listfull.0) =~= self.rusty_locations@);
                    assert(base_encs + collapsed_of(listfull.0) =~= enc_entries(
                        self.collapsed_elements@,
                    ));
                    lemma_visit_kinds_concat(v0, listfull.0);
                    lemma_rusty_of_concat(v0, listfull.0);
                    lemma_collapsed_of_concat(v0, listfull.0);
                    assert(self.visits@ =~= old(self).visits@ + visit_kinds(v0 + listfull.0));
                    assert(self.rusty_locations@ =~= old(self).rusty_locations@ + rusty_of(
                        v0 + listfull.0,
                    ));
                    assert(enc_entries(self.collapsed_elements@) =~= enc_entries(
                        old(self).collapsed_elements@,
                    ) + collapsed_of(v0 + listfull.0));
                }
            },
            _ => {
                proof {
                    assert(false);
                }
            },
        }
    }

    /// Walks `node` with the given descent switches, returning the
    /// location and variant of every visited node, in visit order.
    pub fn visit_with_options(node: &RsxNode, options: VisitRsxOptions) -> (r: Vec<
        VisitedLocation,
    >)
        requires
            node_size(*node) <= u32::MAX,
        ensures
            r@ == visit_kinds(spec_visit_node(*node, options, 0, 0, 0).0),
    {
        let mut v = TreeLocationVisitor::new(options);
        v.walk_node_loc(node);
        proof {
            assert(v.visits@ =~= visit_kinds(spec_visit_node(*node, options, 0, 0, 0).0));
        }
        v.visits
    }

    /// Walks `node` with the default switches (descend everywhere),
    /// returning the location and variant of every visited node.
    pub fn visit(node: &RsxNode) -> (r: Vec<VisitedLocation>)
        requires
            node_size(*node) <= u32::MAX,
        ensures
            r@ == visit_kinds(spec_visits(*node, VisitRsxOptions::spec_default())),
    {
        TreeLocationVisitor::visit_with_options(node, VisitRsxOptions::default())
    }

    /// As [`Self::visit`], for a caller that holds the tree mutably during
    /// a rewriting pass.  The tree is left untouched.
    pub fn visit_mut(node: &mut RsxNode) -> (r: Vec<VisitedLocation>)
        requires
            node_size(*old(node)) <= u32::MAX,
        ensures
            *final(node) == *old(node),
            r@ == visit_kinds(spec_visits(*old(node), VisitRsxOptions::spec_default())),
    {
        TreeLocationVisitor::visit(&*node)
    }

    /// As [`Self::visit_with_options`], for a caller that holds the tree
    /// mutably during a rewriting pass.  The tree is left untouched.
    pub fn visit_with_options_mut(node: &mut RsxNode, options: VisitRsxOptions) -> (r: Vec<
        VisitedLocation,
    >)
        requires
            node_size(*old(node)) <= u32::MAX,
        ensures
            *final(node) == *old(node),
            r@ == visit_kinds(spec_visit_node(*old(node), options, 0, 0, 0).0),
    {
        TreeLocationVisitor::visit_with_options(&*node, options)
    }
}

} // verus!

verus! {

/// A walk configured to skip element children visits an element root and
/// none of its descendants: its one visit is the root itself.
pub proof fn lemma_skip_element_children(
    node: RsxNode,
    opts: VisitRsxOptions,
    counter: nat,
    parent: nat,
    child: nat,
)
    requires
        node matches RsxNode::Element(_),
        opts.ignore_element_children,
    ensures
        spec_visit_node(node, opts, counter, parent, child).0 == seq![
            (
                TreeLocation {
                    tree_idx: counter as u32,
                    parent_idx: parent as u32,
                    child_idx: child as u32,
                },
                node,
            ),
        ],
{
}

/// The suppression switches are independent: a walk configured to skip a
/// component's inner rendered root still visits the component and then
/// its slot children, exactly as if only they stood beneath it.
pub proof fn lemma_skip_component_node_keeps_slot_children(
    node: RsxNode,
    opts: VisitRsxOptions,
    counter: nat,
    parent: nat,
    child: nat,
)
    requires
        node matches RsxNode::Component(_),
        opts.ignore_component_node,
        !opts.ignore_component_slot_children,
    ensures
        spec_visit_node(node, opts, counter, parent, child).0 == seq![
            (
                TreeLocation {
                    tree_idx: counter as u32,
                    parent_idx: parent as u32,
                    child_idx: child as u32,
                },
                node,
            ),
        ] + spec_visit_node(
            *node->Component_0.slot_children,
            opts,
            counter + 1,
            parent,
            child,
        ).0,
{
}

} // verus!

verus! {

/// Tree indices are dense and monotone: the walk assigns the `k`-th
/// visited node the tree index `counter + k`, whatever the tree's shape
/// and whatever the descent switches suppress.
pub proof fn lemma_visit_indices_dense(
    node: RsxNode,
    opts: VisitRsxOptions,
    counter: nat,
    parent: nat,
    child: nat,
)
    requires
        counter + node_size(node) <= u32::MAX,
    ensures
        forall|k: int|
            0 <= k < spec_visit_node(node, opts, counter, parent, child).0.len()
                ==> (#[trigger] spec_visit_node(node, opts, counter, parent, child).0[k]).0.tree_idx
                == counter + k,
    decreases node, 0int,
{
    let (vs, c2, ch2) = spec_visit_node(node, opts, counter, parent, child);
    lemma_spec_visit_node_bounds(node, opts, counter, parent, child);
    let loc = TreeLocation {
        tree_idx: counter as u32,
        parent_idx: parent as u32,
        child_idx: child as u32,
    };
    let v0 = seq![(loc, node)];
    let c1 = counter + 1;
    let ch1: nat = if spec_is_html_node(node) {
        child + 1
    } else {
        child
    };
    match node {
        RsxNode::Block(b) => {
            if !opts.ignore_block_node_initial {
                let (v2, c2x, ch2x) = spec_visit_node(*b.initial, opts, c1, parent, ch1);
                lemma_spec_visit_node_bounds(*b.initial, opts, c1, parent, ch1);
                lemma_visit_indices_dense(*b.initial, opts, c1, parent, ch1);
                assert forall|k: int| 0 <= k < vs.len() implies (#[trigger] vs[k]).0.tree_idx
                    == counter + k by {
                    if k >= 1 {
                        assert(vs[k] == v2[k - 1]);
                    }
                }
            }
        },
        RsxNode::Fragment(f) => {
            lemma_node_size_list_from_zero(f.nodes@);
            let (v2, c2x, ch2x) = spec_visit_list(f.nodes@, 0, opts, c1, parent, ch1);
            lemma_visit_list_indices_dense(f.nodes@, 0, opts, c1, parent, ch1);
            assert forall|k: int| 0 <= k < vs.len() implies (#[trigger] vs[k]).0.tree_idx
                == counter + k by {
                if k >= 1 {
                    assert(vs[k] == v2[k - 1]);
                }
            }
        },
        RsxNode::Element(e) => {
            if !opts.ignore_element_children {
                let (v2, c2x, ch2x) = spec_visit_node(*e.children, opts, c1, counter, 0);
                lemma_spec_visit_node_bounds(*e.children, opts, c1, counter, 0);
                lemma_visit_indices_dense(*e.children, opts, c1, counter, 0);
                assert forall|k: int| 0 <= k < vs.len() implies (#[trigger] vs[k]).0.tree_idx
                    == counter + k by {
                    if k >= 1 {
                        assert(vs[k] == v2[k - 1]);
                    }
                }
            }
        },
        RsxNode::Component(cm) => {
            let (v2, c2a, ch2a) = if !opts.ignore_component_node {
                spec_visit_node(*cm.node, opts, c1, parent, ch1)
            } else {
                (Seq::<(TreeLocation, RsxNode)>::empty(), c1, ch1)
            };
            let (v3, c3a, ch3a) = if !opts.ignore_component_slot_children {
                spec_visit_node(*cm.slot_children, opts, c2a, parent, ch2a)
            } else {
                (Seq::<(TreeLocation, RsxNode)>::empty(), c2a, ch2a)
            };
            if !opts.ignore_component_node {
                lemma_spec_visit_node_bounds(*cm.node, opts, c1, parent, ch1);
                lemma_visit_indices_dense(*cm.node, opts, c1, parent, ch1);
            }
            if !opts.ignore_component_slot_children {
                lemma_spec_visit_node_bounds(*cm.slot_children, opts, c2a, parent, ch2a);
                lemma_visit_indices_dense(*cm.slot_children, opts, c2a, parent, ch2a);
            }
            assert forall|k: int| 0 <= k < vs.len() implies (#[trigger] vs[k]).0.tree_idx
                == counter + k by {
                assert(vs == v0 + v2 + v3);
                if k >= 1 && k < 1 + v2.len() {
                    assert(vs[k] == v2[k - 1]);
                } else if k >= 1 + v2.len() {
                    assert(vs[k] == v3[k - 1 - v2.len()]);
                }
            }
        },
        _ => {},
    }
}

/// The list form of density, for the tail from `i`.
proof fn lemma_visit_list_indices_dense(
    nodes: Seq<RsxNode>,
    i: int,
    opts: VisitRsxOptions,
    counter: nat,
    parent: nat,
    child: nat,
)
    requires
        0 <= i <= nodes.len(),
        counter + node_size_list_from(nodes, i) <= u32::MAX,
    ensures
        forall|k: int|
            0 <= k < spec_visit_list(nodes, i, opts, counter, parent, child).0.len()
                ==> (#[trigger] spec_visit_list(nodes, i, opts, counter, parent, child).0[k]).0.tree_idx
                == counter + k,
    decreases nodes, nodes.len() - i,
{
    if i < nodes.len() {
        let (v1, c1x, ch1x) = spec_visit_node(nodes[i], opts, counter, parent, child);
        lemma_spec_visit_node_bounds(nodes[i], opts, counter, parent, child);
        lemma_visit_indices_dense(nodes[i], opts, counter, parent, child);
        lemma_spec_visit_list_bounds(nodes, i + 1, opts, c1x, parent, ch1x);
        lemma_visit_list_indices_dense(nodes, i + 1, opts, c1x, parent, ch1x);
    }
}

} // verus!

verus! {

/// Whether visit `k` of `vs` points at a legitimate parent: the
/// enclosing context's own parent index, or an element visited strictly
/// earlier in `vs`.
pub open spec fn parent_accounted(
    vs: Seq<(TreeLocation, RsxNode)>,
    k: int,
    parent: nat,
) -> bool {
    vs[k].0.parent_idx == parent as u32 || exists|j: int|
        0 <= j < k && node_kind((#[trigger] vs[j]).1) == RsxNodeKind::Element
            && vs[j].0.tree_idx == vs[k].0.parent_idx
}

/// Every recorded parent index is the surrounding context's parent — zero
/// at the root — or the tree index of an element visited strictly earlier
/// in the same walk.
pub proof fn lemma_parent_indices(
    node: RsxNode,
    opts: VisitRsxOptions,
    counter: nat,
    parent: nat,
    child: nat,
)
    requires
        counter + node_size(node) <= u32::MAX,
    ensures
        forall|k: int|
            0 <= k < spec_visit_node(node, opts, counter, parent, child).0.len()
                ==> parent_accounted(
                spec_visit_node(node, opts, counter, parent, child).0,
                k,
                parent,
            ),
    decreases node, 0int,
{
    let (vs, c2, ch2) = spec_visit_node(node, opts, counter, parent, child);
    lemma_spec_visit_node_bounds(node, opts, counter, parent, child);
    let loc = TreeLocation {
        tree_idx: counter as u32,
        parent_idx: parent as u32,
        child_idx: child as u32,
    };
    let v0 = seq![(loc, node)];
    let c1 = counter + 1;
    let ch1: nat = if spec_is_html_node(node) {
        child + 1
    } else {
        child
    };
    match node {
        RsxNode::Block(b) => {
            if !opts.ignore_block_node_initial {
                let (v2, c2x, ch2x) = spec_visit_node(*b.initial, opts, c1, parent, ch1);
                lemma_parent_indices(*b.initial, opts, c1, parent, ch1);
                assert forall|k: int| 0 <= k < vs.len() implies parent_accounted(
                    vs,
                    k,
                    parent,
                ) by {
                    if k >= 1 {
                        assert(vs[k] == v2[k - 1]);
                        lemma_accounted_shift(v2, vs, 1, k - 1, parent);
                    }
                }
            }
        },
        RsxNode::Fragment(f) => {
            lemma_node_size_list_from_zero(f.nodes@);
            let (v2, c2x, ch2x) = spec_visit_list(f.nodes@, 0, opts, c1, parent, ch1);
            lemma_parent_indices_list(f.nodes@, 0, opts, c1, parent, ch1);
            assert forall|k: int| 0 <= k < vs.len() implies parent_accounted(vs, k, parent) by {
                if k >= 1 {
                    assert(vs[k] == v2[k - 1]);
                    lemma_accounted_shift(v2, vs, 1, k - 1, parent);
                }
            }
        },
        RsxNode::Element(e) => {
            if !opts.ignore_element_children {
                let (v2, c2x, ch2x) = spec_visit_node(*e.children, opts, c1, counter, 0);
                lemma_parent_indices(*e.children, opts, c1, counter, 0);
                assert forall|k: int| 0 <= k < vs.len() implies parent_accounted(
                    vs,
                    k,
                    parent,
                ) by {
                    if k >= 1 {
                        assert(vs[k] == v2[k - 1]);
                        assert(parent_accounted(v2, k - 1, counter));
                        if v2[k - 1].0.parent_idx == counter as u32 {
                            // the enclosing element itself, visited first
                            assert(node_kind(vs[0].1) == RsxNodeKind::Element);
                            assert(vs[0].0.tree_idx == vs[k].0.parent_idx);
                        } else {
                            lemma_accounted_shift(v2, vs, 1, k - 1, counter);
                        }
                    }
                }
            }
        },
        RsxNode::Component(cm) => {
            let (v2, c2a, ch2a) = if !opts.ignore_component_node {
                spec_visit_node(*cm.node, opts, c1, parent, ch1)
            } else {
                (Seq::<(TreeLocation, RsxNode)>::empty(), c1, ch1)
            };
            let (v3, c3a, ch3a) = if !opts.ignore_component_slot_children {
                spec_visit_node(*cm.slot_children, opts, c2a, parent, ch2a)
            } else {
                (Seq::<(TreeLocation, RsxNode)>::empty(), c2a, ch2a)
            };
            if !opts.ignore_component_node {
                lemma_spec_visit_node_bounds(*cm.node, opts, c1, parent, ch1);
                lemma_parent_indices(*cm.node, opts, c1, parent, ch1);
            }
            if !opts.ignore_component_slot_children {
                lemma_parent_indices(*cm.slot_children, opts, c2a, parent, ch2a);
            }
            assert forall|k: int| 0 <= k < vs.len() implies parent_accounted(vs, k, parent) by {
                assert(vs == v0 + v2 + v3);
                if k >= 1 && k < 1 + v2.len() {
                    assert(vs[k] == v2[k - 1]);
                    lemma_accounted_shift(v2, vs, 1, k - 1, parent);
                } else if k >= 1 + v2.len() {
                    assert(vs[k] == v3[k - 1 - v2.len()]);
                    lemma_accounted_shift(v3, vs, 1 + v2.len() as int, k - 1 - v2.len() as int, parent);
                }
            }
        },
        _ => {},
    }
}

/// The list form of the parent-index law, for the tail from `i`.
proof fn lemma_parent_indices_list(
    nodes: Seq<RsxNode>,
    i: int,
    opts: VisitRsxOptions,
    counter: nat,
    parent: nat,
    child: nat,
)
    requires
        0 <= i <= nodes.len(),
        counter + node_size_list_from(nodes, i) <= u32::MAX,
    ensures
        forall|k: int|
            0 <= k < spec_visit_list(nodes, i, opts, counter, parent, child).0.len()
                ==> parent_accounted(
                spec_visit_list(nodes, i, opts, counter, parent, child).0,
                k,
                parent,
            ),
    decreases nodes, nodes.len() - i,
{
    if i < nodes.len() {
        let (vs, c2, ch2) = spec_visit_list(nodes, i, opts, counter, parent, child);
        let (v1, c1x, ch1x) = spec_visit_node(nodes[i], opts, counter, parent, child);
        let (vr, crx, chrx) = spec_visit_list(nodes, i + 1, opts, c1x, parent, ch1x);
        lemma_spec_visit_node_bounds(nodes[i], opts, counter, parent, child);
        lemma_parent_indices(nodes[i], opts, counter, parent, child);
        lemma_spec_visit_list_bounds(nodes, i + 1, opts, c1x, parent, ch1x);
        lemma_parent_indices_list(nodes, i + 1, opts, c1x, parent, ch1x);
        assert forall|k: int| 0 <= k < vs.len() implies parent_accounted(vs, k, parent) by {
            assert(vs == v1 + vr);
            if k < v1.len() {
                assert(vs[k] == v1[k]);
                lemma_accounted_shift(v1, vs, 0, k, parent);
            } else {
                assert(vs[k] == vr[k - v1.len()]);
                lemma_accounted_shift(vr, vs, v1.len() as int, k - v1.len() as int, parent);
            }
        }
    }
}

/// A parent accounted for within a segment stays accounted for when the
/// segment stands at `off` inside a larger visit sequence.
proof fn lemma_accounted_shift(
    seg: Seq<(TreeLocation, RsxNode)>,
    whole: Seq<(TreeLocation, RsxNode)>,
    off: int,
    k: int,
    parent: nat,
)
    requires
        0 <= k < seg.len(),
        0 <= off,
        off + seg.len() <= whole.len(),
        forall|j: int| 0 <= j < seg.len() ==> #[trigger] whole[off + j] == seg[j],
        parent_accounted(seg, k, parent),
    ensures
        parent_accounted(whole, off + k, parent),
{
    if seg[k].0.parent_idx == parent as u32 {
        assert(whole[off + k] == seg[k]);
    } else {
        let j = choose|j: int|
            0 <= j < k && node_kind((#[trigger] seg[j]).1) == RsxNodeKind::Element
                && seg[j].0.tree_idx == seg[k].0.parent_idx;
        assert(whole[off + j] == seg[j]);
        assert(whole[off + k] == seg[k]);
        assert(node_kind(whole[off + j].1) == RsxNodeKind::Element);
    }
}

} // verus!
