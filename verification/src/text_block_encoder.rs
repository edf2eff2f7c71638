//! Collapse encodings for runs of adjacent text-producing children.
//!
//! When a tree is rendered, adjacent text-producing children of one
//! element (literal text, and the currently rendered content of dynamic
//! blocks) merge into a single output text node.  The encoder records, per
//! merged run, the successive split lengths needed to cut the rendered
//! text back into the original children's contributions: the character
//! count of every contribution except the last.

use crate::decimal::dec_digits;
use crate::decimal::dec_value;
use crate::decimal::is_dec_digit;
use crate::decimal::is_usize_field;
use crate::decimal::lemma_dec_digits_are_digits;
use crate::decimal::lemma_dec_value_of_digits;
use crate::decimal::lemma_digits_no_char;
use crate::decimal::parse_usize_field;
use crate::decimal::push_dec_u64;
use crate::error::ParseError;
use crate::error::ParseResult;
use crate::rsx_node::direct_children;
use crate::rsx_node::node_kind;
use crate::rsx_node::text_content;
use crate::rsx_node::text_content_of;
use crate::rsx_node::RsxElement;
use crate::rsx_node::RsxNode;
use crate::rsx_node::RsxNodeKind;
use crate::split::has_char;
use crate::split::join_char;
use crate::split::join_prefix;
use crate::split::lemma_join_has_char;
use crate::split::lemma_join_prefix_full;
use crate::split::lemma_join_prefix_step;
use crate::split::lemma_split_join;
use crate::split::split_char;
use crate::split::split_vec;
use crate::strutil::string_chars;
use crate::strutil::string_push;
use crate::tree_location::TreeIdx;
use vstd::prelude::*;

verus! {

/// The collapse encoding of one parent element: per merged run under it,
/// the successive split lengths of the run's contributions (all but the
/// last).
#[derive(Debug, PartialEq, Eq)]
pub struct TextBlockEncoder {
    /// The tree index of the parent element the runs sit under.
    pub parent_id: TreeIdx,
    /// One entry per merged run, in order; each entry holds at least one
    /// split length.
    pub split_positions: Vec<Vec<usize>>,
}

/// Whether this node contributes text to a merged run: literal text and
/// dynamic blocks do, everything else breaks a run.
pub open spec fn is_text_producing(node: RsxNode) -> bool {
    node_kind(node) == RsxNodeKind::Text || node_kind(node) == RsxNodeKind::Block
}

/// The index just past the run of text-producing children starting at
/// `i`: the first index at or after `i` that is out of range or not
/// text-producing.
pub open spec fn run_end(children: Seq<RsxNode>, i: int) -> int
    decreases children.len() - i,
    when 0 <= i <= children.len()
{
    if i >= children.len() {
        children.len() as int
    } else if !is_text_producing(children[i]) {
        i
    } else {
        run_end(children, i + 1)
    }
}

/// What `run_end` returns: the end of the maximal text-producing run.
pub proof fn lemma_run_end(children: Seq<RsxNode>, i: int)
    requires
        0 <= i <= children.len(),
    ensures
        i <= run_end(children, i) <= children.len(),
        run_end(children, i) < children.len() ==> !is_text_producing(
            children[run_end(children, i)],
        ),
        forall|k: int| i <= k < run_end(children, i) ==> is_text_producing(#[trigger] children[k]),
    decreases children.len() - i,
{
    if i < children.len() && is_text_producing(children[i]) {
        lemma_run_end(children, i + 1);
    }
}

/// The character counts of the contributions of children `[a, b)`.
pub open spec fn run_lens(children: Seq<RsxNode>, a: int, b: int) -> Seq<nat> {
    Seq::new((b - a) as nat, |k: int| text_content(children[a + k]).len())
}

/// The recorded runs among children from index `i` on: every maximal run
/// of two or more adjacent text-producing children yields one entry, the
/// lengths of its contributions except the last.
pub open spec fn runs_from(children: Seq<RsxNode>, i: int) -> Seq<Seq<nat>>
    decreases children.len() - i,
    when 0 <= i <= children.len()
    via runs_from_decreases
{
    if i >= children.len() {
        Seq::<Seq<nat>>::empty()
    } else if !is_text_producing(children[i]) {
        runs_from(children, i + 1)
    } else {
        let j = run_end(children, i);
        let rest = runs_from(children, j);
        if j - i >= 2 {
            seq![run_lens(children, i, j - 1)] + rest
        } else {
            rest
        }
    }
}

#[via_fn]
proof fn runs_from_decreases(children: Seq<RsxNode>, i: int) {
    if 0 <= i < children.len() && is_text_producing(children[i]) {
        lemma_run_end(children, i);
        assert(run_end(children, i) == run_end(children, i + 1));
    }
}

/// The runs recorded for an element: those of the direct children of its
/// `children` subtree.
pub open spec fn element_runs(element: RsxElement) -> Seq<Seq<nat>> {
    runs_from(direct_children(*element.children), 0)
}

/// One recorded run as spec-level counts.
pub open spec fn run_view(r: Seq<usize>) -> Seq<nat> {
    r.map_values(|x: usize| x as nat)
}

/// The recorded runs as spec-level counts.
pub open spec fn nat_runs(runs: Seq<Seq<usize>>) -> Seq<Seq<nat>> {
    runs.map_values(|r: Seq<usize>| run_view(r))
}

/// Every recorded run holds at least one split length.
pub open spec fn encoder_wf(e: TextBlockEncoder) -> bool {
    forall|k: int|
        0 <= k < e.split_positions@.len() ==> #[trigger] e.split_positions@[k]@.len() >= 1
}

/// The number of direct children of a `children` subtree.
fn direct_child_count(node: &RsxNode) -> (n: usize)
    ensures
        n == direct_children(*node).len(),
{
    match node {
        RsxNode::Fragment(f) => f.nodes.len(),
        _ => 1,
    }
}

/// The direct child of a `children` subtree at `i`.
fn direct_child_at(node: &RsxNode, i: usize) -> (r: &RsxNode)
    requires
        i < direct_children(*node).len(),
    ensures
        *r == direct_children(*node)[i as int],
{
    match node {
        RsxNode::Fragment(f) => &f.nodes[i],
        _ => node,
    }
}

/// Whether this node contributes text to a merged run.
fn is_text_producing_node(node: &RsxNode) -> (r: bool)
    ensures
        r == is_text_producing(*node),
{
    match node {
        RsxNode::Text(_) => true,
        RsxNode::Block(_) => true,
        _ => false,
    }
}

/// The character count of the text this node renders to.
fn text_char_len(node: &RsxNode) -> (n: usize)
    ensures
        n == text_content(*node).len(),
{
    let tc = text_content_of(node);
    tc.as_str().unicode_len()
}

impl TextBlockEncoder {
    /// Inspects the *uncollapsed* direct children of `element` and records
    /// one entry per merged run: for every maximal run of two or more
    /// adjacent text-producing children, the split lengths of each
    /// contribution except the last.
    pub fn encode(parent_id: TreeIdx, element: &RsxElement) -> (r: TextBlockEncoder)
        ensures
            r.parent_id == parent_id,
            nat_runs(r.split_positions.deep_view()) == element_runs(*element),
            encoder_wf(r),
    {
        let children: &RsxNode = &element.children;
        let n = direct_child_count(children);
        let ghost cs = direct_children(*children);
        let mut runs: Vec<Vec<usize>> = Vec::new();
        let mut i: usize = 0;
        #[verifier::loop_isolation(false)]
        while i < n
            invariant
                0 <= i <= n,
                runs_from(cs, 0) == nat_runs(runs.deep_view()) + runs_from(cs, i as int),
                forall|k: int| 0 <= k < runs@.len() ==> #[trigger] runs@[k]@.len() >= 1,
            decreases n - i,
        {
            if !is_text_producing_node(direct_child_at(children, i)) {
                i += 1;
            } else {
                proof {
                    lemma_run_end(cs, i as int);
                }
                let mut j: usize = i + 1;
                #[verifier::loop_isolation(false)]
                while j < n && is_text_producing_node(direct_child_at(children, j))
                    invariant
                        i < j <= n,
                        run_end(cs, i as int) == run_end(cs, j as int),
                        forall|k: int| i <= k < j ==> is_text_producing(#[trigger] cs[k]),
                    decreases n - j,
                {
                    j += 1;
                }
                proof {
                    assert(run_end(cs, j as int) == j);
                }
                if j - i >= 2 {
                    let mut lens: Vec<usize> = Vec::new();
                    let mut k: usize = i;
                    #[verifier::loop_isolation(false)]
                    while k < j - 1
                        invariant
                            i <= k <= j - 1,
                            lens@.len() == k - i,
                            run_view(lens@) =~= run_lens(cs, i as int, k as int),
                        decreases j - k,
                    {
                        let ghost pre_lens = lens@;
                        lens.push(text_char_len(direct_child_at(children, k)));
                        proof {
                            assert forall|m: int| 0 <= m < lens@.len() implies run_view(
                                lens@,
                            )[m] == run_lens(cs, i as int, k + 1)[m] by {
                                assert(run_view(lens@)[m] == lens@[m] as nat);
                                if m < pre_lens.len() {
                                    assert(lens@[m] == pre_lens[m]);
                                    assert(run_view(pre_lens)[m] == pre_lens[m] as nat);
                                    assert(run_view(pre_lens)[m] == run_lens(
                                        cs,
                                        i as int,
                                        k as int,
                                    )[m]);
                                } else {
                                    assert(lens@[m] == text_content(cs[k as int]).len());
                                }
                            }
                            assert(run_view(lens@) =~= run_lens(cs, i as int, k + 1));
                        }
                        k += 1;
                    }
                    let ghost pre = runs.deep_view();
                    runs.push(lens);
                    proof {
                        assert(runs.deep_view() =~~= pre.push(lens@));
                        assert(nat_runs(runs.deep_view()) =~~= nat_runs(pre) + seq![
                            run_lens(cs, i as int, j - 1),
                        ]);
                        assert(runs_from(cs, i as int) == seq![run_lens(cs, i as int, j - 1)]
                            + runs_from(cs, j as int));
                        assert(runs_from(cs, 0) =~~= nat_runs(runs.deep_view()) + runs_from(
                            cs,
                            j as int,
                        ));
                    }
                } else {
                    proof {
                        assert(runs_from(cs, i as int) == runs_from(cs, j as int));
                    }
                }
                i = j;
            }
        }
        proof {
            assert(runs_from(cs, n as int) =~= Seq::<Seq<nat>>::empty());
            assert(nat_runs(runs.deep_view()) =~~= runs_from(cs, 0));
        }
        TextBlockEncoder { parent_id, split_positions: runs }
    }
}

} // verus!

verus! {

/// The digit runs of one recorded run's split lengths.
pub open spec fn digits_of_run(r: Seq<nat>) -> Seq<Seq<char>> {
    r.map_values(|x: nat| dec_digits(x))
}

/// One recorded run's textual form: split lengths joined by `'.'`.
pub open spec fn run_csv(r: Seq<nat>) -> Seq<char> {
    join_char(digits_of_run(r), '.')
}

/// The textual forms of all recorded runs.
pub open spec fn csvs_of_runs(runs: Seq<Seq<nat>>) -> Seq<Seq<char>> {
    runs.map_values(|r: Seq<nat>| run_csv(r))
}

/// The runs section: run texts joined by `'-'` (empty for no runs).
pub open spec fn runs_csv(runs: Seq<Seq<nat>>) -> Seq<char> {
    join_char(csvs_of_runs(runs), '-')
}

/// The whole textual form: `parent_id,` then the runs section.
pub open spec fn encoder_csv(parent: nat, runs: Seq<Seq<nat>>) -> Seq<char> {
    dec_digits(parent) + seq![','] + runs_csv(runs)
}

/// One run's portion decodes as split lengths between `'.'`s.
pub open spec fn run_part_valid(r: Seq<char>) -> bool {
    forall|b: int| 0 <= b < split_char(r, '.').len() ==> is_usize_field(#[trigger] split_char(r, '.')[b])
}

/// The runs section decodes when empty or when every `'-'`-separated run
/// portion does.
pub open spec fn runs_part_valid(p: Seq<char>) -> bool {
    p.len() == 0 || forall|a: int|
        0 <= a < split_char(p, '-').len() ==> run_part_valid(#[trigger] split_char(p, '-')[a])
}

/// Whether `s` decodes as an encoder: a `u32` parent field before the
/// first comma, then a decodable runs section.
pub open spec fn encoder_csv_valid(s: Seq<char>) -> bool {
    let parts = split_char(s, ',');
    parts.len() >= 2 && crate::decimal::is_u32_field(parts[0]) && runs_part_valid(parts[1])
}

/// The split lengths one run portion decodes to.
pub open spec fn decode_run(r: Seq<char>) -> Seq<nat> {
    split_char(r, '.').map_values(|f: Seq<char>| dec_value(f))
}

/// The runs a runs section decodes to.
pub open spec fn decode_runs(p: Seq<char>) -> Seq<Seq<nat>> {
    if p.len() == 0 {
        Seq::<Seq<nat>>::empty()
    } else {
        split_char(p, '-').map_values(|r: Seq<char>| decode_run(r))
    }
}

/// The parent index a valid textual form decodes to.
pub open spec fn decoded_parent(s: Seq<char>) -> u32 {
    dec_value(split_char(s, ',')[0]) as u32
}

/// The runs a valid textual form decodes to.
pub open spec fn decoded_runs(s: Seq<char>) -> Seq<Seq<nat>> {
    decode_runs(split_char(s, ',')[1])
}

impl TextBlockEncoder {
    /// Renders the encoder as `parent_id,` followed by the runs joined by
    /// `'-'`, each run's split lengths joined by `'.'`.
    pub fn to_csv(&self) -> (r: String)
        ensures
            r@ == encoder_csv(self.parent_id as nat, nat_runs(self.split_positions.deep_view())),
    {
        let mut s = String::new();
        push_dec_u64(&mut s, self.parent_id as u64);
        string_push(&mut s, ',');
        let ghost base = s@;
        let ghost allruns = nat_runs(self.split_positions.deep_view());
        let ghost rparts = csvs_of_runs(allruns);
        let mut k: usize = 0;
        #[verifier::loop_isolation(false)]
        while k < self.split_positions.len()
            invariant
                k <= self.split_positions@.len(),
                s@ == base + join_prefix(rparts, k as int, '-'),
            decreases self.split_positions@.len() - k,
        {
            let ghost run_base = if k > 0 {
                s@ + seq!['-']
            } else {
                s@
            };
            if k > 0 {
                string_push(&mut s, '-');
            }
            let run = &self.split_positions[k];
            let ghost run_nat = allruns[k as int];
            let ghost fparts = digits_of_run(run_nat);
            proof {
                assert(run_nat == run_view(run@));
            }
            let mut m: usize = 0;
            #[verifier::loop_isolation(false)]
            while m < run.len()
                invariant
                    m <= run@.len(),
                    run_nat == run_view(run@),
                    s@ == run_base + join_prefix(fparts, m as int, '.'),
                decreases run@.len() - m,
            {
                if m > 0 {
                    string_push(&mut s, '.');
                }
                push_dec_u64(&mut s, run[m] as u64);
                proof {
                    assert(run_view(run@)[m as int] == run@[m as int] as nat);
                    assert(fparts[m as int] == dec_digits(run@[m as int] as nat));
                    lemma_join_prefix_step(fparts, m as int, '.');
                    assert(s@ =~= run_base + join_prefix(fparts, m + 1, '.'));
                }
                m += 1;
            }
            proof {
                lemma_join_prefix_full(fparts, '.');
                assert(fparts.subrange(0, fparts.len() as int) =~= fparts);
                assert(s@ =~= run_base + run_csv(run_nat));
                lemma_join_prefix_step(rparts, k as int, '-');
                assert(rparts[k as int] == run_csv(run_nat));
                assert(s@ =~= base + join_prefix(rparts, k + 1, '-'));
            }
            k += 1;
        }
        proof {
            lemma_join_prefix_full(rparts, '-');
            assert(rparts.subrange(0, rparts.len() as int) =~= rparts);
            assert(s@ =~= encoder_csv(
                self.parent_id as nat,
                nat_runs(self.split_positions.deep_view()),
            ));
        }
        s
    }

    /// Decodes the textual form.  Portions beyond the second
    /// comma-separated field are ignored; a missing section or a split
    /// length that is not an in-range digit run is rejected, naming what
    /// failed.
    pub fn from_csv(csv: &str) -> (r: ParseResult<TextBlockEncoder>)
        ensures
            encoder_csv_valid(csv@) ==> match r {
                Ok(e) => {
                    &&& e.parent_id == decoded_parent(csv@)
                    &&& nat_runs(e.split_positions.deep_view()) == decoded_runs(csv@)
                    &&& encoder_wf(e)
                },
                Err(_) => false,
            },
            !encoder_csv_valid(csv@) ==> r is Err,
    {
        let chars = string_chars(csv);
        TextBlockEncoder::from_chars(&chars)
    }

    /// As [`Self::from_csv`], over an already split-out character run.
    pub(crate) fn from_chars(chars: &Vec<char>) -> (r: ParseResult<TextBlockEncoder>)
        ensures
            encoder_csv_valid(chars@) ==> match r {
                Ok(e) => {
                    &&& e.parent_id == decoded_parent(chars@)
                    &&& nat_runs(e.split_positions.deep_view()) == decoded_runs(chars@)
                    &&& encoder_wf(e)
                },
                Err(_) => false,
            },
            !encoder_csv_valid(chars@) ==> r is Err,
    {
        let parts = split_vec(chars, ',');
        if parts.len() < 2 {
            return Err(ParseError::MissingField(String::from_str("text block csv")));
        }
        proof {
            assert(parts.deep_view()[0] == parts@[0]@);
            assert(parts.deep_view()[1] == parts@[1]@);
            assert(split_char(chars@, ',')[0] == parts@[0]@);
            assert(split_char(chars@, ',')[1] == parts@[1]@);
        }
        let parent_id = match crate::decimal::parse_u32_field(&parts[0]) {
            Some(n) => n,
            None => {
                proof {
                    assert(!encoder_csv_valid(chars@));
                }
                return Err(ParseError::InvalidNumber(String::from_str("parent_id")));
            },
        };
        if parts[1].len() == 0 {
            let r = TextBlockEncoder { parent_id, split_positions: Vec::new() };
            proof {
                assert(nat_runs(r.split_positions.deep_view()) =~= decoded_runs(chars@));
            }
            return Ok(r);
        }
        let rs = split_vec(&parts[1], '-');
        let mut split_positions: Vec<Vec<usize>> = Vec::new();
        let ghost rseq = split_char(parts@[1]@, '-');
        let mut a: usize = 0;
        #[verifier::loop_isolation(false)]
        while a < rs.len()
            invariant
                a <= rs@.len(),
                rs.deep_view() == rseq,
                split_positions@.len() == a,
                forall|x: int|
                    0 <= x < a ==> run_part_valid(#[trigger] rseq[x]) && nat_runs(
                        split_positions.deep_view(),
                    )[x] == decode_run(rseq[x]) && split_positions@[x]@.len() >= 1,
            decreases rs@.len() - a,
        {
            let fields = split_vec(&rs[a], '.');
            let ghost fseq = split_char(rseq[a as int], '.');
            proof {
                assert(rs.deep_view()[a as int] == rs@[a as int]@);
                crate::split::lemma_split_from_pieces(rseq[a as int], 0, '.');
            }
            let mut run: Vec<usize> = Vec::new();
            let mut b: usize = 0;
            #[verifier::loop_isolation(false)]
            while b < fields.len()
                invariant
                    b <= fields@.len(),
                    fields.deep_view() == fseq,
                    run@.len() == b,
                    forall|y: int|
                        0 <= y < b ==> is_usize_field(#[trigger] fseq[y]) && run@[y] as nat
                            == dec_value(fseq[y]),
                decreases fields@.len() - b,
            {
                proof {
                    assert(fields.deep_view()[b as int] == fields@[b as int]@);
                }
                let v = match parse_usize_field(&fields[b]) {
                    Some(n) => n,
                    None => {
                        proof {
                            assert(!run_part_valid(rseq[a as int]));
                            assert(parts@[1]@.len() > 0);
                            assert(!runs_part_valid(parts@[1]@));
                            assert(!encoder_csv_valid(chars@));
                        }
                        return Err(ParseError::InvalidNumber(String::from_str("split position")));
                    },
                };
                run.push(v);
                b += 1;
            }
            let ghost pre = split_positions.deep_view();
            split_positions.push(run);
            proof {
                assert(split_positions.deep_view() =~~= pre.push(run@));
                assert(run_view(run@) =~= decode_run(rseq[a as int]));
                assert(fseq.len() >= 1);
                assert forall|x: int| 0 <= x < a + 1 implies run_part_valid(#[trigger] rseq[x])
                    && nat_runs(split_positions.deep_view())[x] == decode_run(rseq[x])
                    && split_positions@[x]@.len() >= 1 by {
                    if x < a {
                        assert(split_positions.deep_view()[x] == pre[x]);
                    }
                }
            }
            a += 1;
        }
        let r = TextBlockEncoder { parent_id, split_positions };
        proof {
            assert forall|k: int| 0 <= k < r.split_positions@.len() implies #[trigger] r
                .split_positions@[k]@.len() >= 1 by {
                assert(run_part_valid(rseq[k]));
            }
            assert(runs_part_valid(parts@[1]@));
            assert(encoder_csv_valid(chars@));
            assert(nat_runs(r.split_positions.deep_view()) =~= decoded_runs(chars@));
        }
        Ok(r)
    }
}

/// Decoding inverts encoding: for every parent index and every run list
/// whose runs are non-empty and whose split lengths are machine-sized,
/// the textual form is valid and decodes to the same values.
pub proof fn lemma_text_block_encoder_round_trip(parent: u32, runs: Seq<Seq<nat>>)
    requires
        forall|k: int| 0 <= k < runs.len() ==> #[trigger] runs[k].len() >= 1,
        forall|k: int, m: int|
            0 <= k < runs.len() && 0 <= m < runs[k].len() ==> #[trigger] runs[k][m] <= usize::MAX,
    ensures
        encoder_csv_valid(encoder_csv(parent as nat, runs)),
        decoded_parent(encoder_csv(parent as nat, runs)) == parent,
        decoded_runs(encoder_csv(parent as nat, runs)) == runs,
{
    let s = encoder_csv(parent as nat, runs);
    let pd = dec_digits(parent as nat);
    let rsec = runs_csv(runs);
    lemma_dec_digits_are_digits(parent as nat);
    lemma_dec_value_of_digits(parent as nat);
    lemma_digits_no_char(parent as nat, ',');
    // no digit run and no run text contains ',' or '-' outside its role
    assert forall|k: int| 0 <= k < runs.len() implies !has_char(#[trigger] csvs_of_runs(runs)[k], ',')
        && !has_char(csvs_of_runs(runs)[k], '-') by {
        lemma_run_csv_chars(runs[k], ',');
        lemma_run_csv_chars(runs[k], '-');
    }
    lemma_join_has_char(csvs_of_runs(runs), '-', ',');
    assert(!has_char(rsec, ','));
    // the comma split yields exactly [parent digits, runs section]
    lemma_split_join(seq![pd, rsec], ',');
    assert(join_char(seq![pd, rsec], ',') =~= s) by {
        assert(seq![pd, rsec].drop_first() =~= seq![rsec]);
        assert(join_char(seq![rsec], ',') == rsec);
    }
    assert(split_char(s, ',') == seq![pd, rsec]);
    assert(split_char(s, ',')[0] == pd);
    assert(split_char(s, ',')[1] == rsec);
    if runs.len() == 0 {
        assert(csvs_of_runs(runs) =~= Seq::<Seq<char>>::empty());
        assert(rsec =~= Seq::<char>::empty());
        assert(decode_runs(rsec) =~= runs);
    } else {
        lemma_split_join(csvs_of_runs(runs), '-');
        assert(split_char(rsec, '-') == csvs_of_runs(runs));
        assert(rsec.len() > 0) by {
            assert(csvs_of_runs(runs)[0] == run_csv(runs[0]));
            lemma_run_csv_len(runs[0]);
            if runs.len() == 1 {
                assert(rsec == run_csv(runs[0]));
            } else {
                assert(rsec == csvs_of_runs(runs)[0] + seq!['-'] + join_char(
                    csvs_of_runs(runs).drop_first(),
                    '-',
                ));
            }
        }
        assert forall|a: int| 0 <= a < runs.len() implies run_part_valid(
            #[trigger] split_char(rsec, '-')[a],
        ) && decode_run(split_char(rsec, '-')[a]) == runs[a] by {
            lemma_run_round_trip(runs[a]);
        }
        assert(decode_runs(rsec) =~= runs);
    }
}

/// A run's textual form holds only digits and `'.'`.
pub proof fn lemma_run_csv_chars(r: Seq<nat>, c: char)
    requires
        !is_dec_digit(c),
        c != '.',
    ensures
        !has_char(run_csv(r), c),
{
    assert forall|b: int| 0 <= b < digits_of_run(r).len() implies !has_char(
        #[trigger] digits_of_run(r)[b],
        c,
    ) by {
        lemma_digits_no_char(r[b], c);
    }
    lemma_join_has_char(digits_of_run(r), '.', c);
}

/// An encoder's textual form holds only digits, `','`, `'.'` and `'-'`.
pub proof fn lemma_encoder_csv_chars(parent: nat, runs: Seq<Seq<nat>>, c: char)
    requires
        !is_dec_digit(c),
        c != ',',
        c != '.',
        c != '-',
    ensures
        !has_char(encoder_csv(parent, runs), c),
{
    lemma_digits_no_char(parent, c);
    assert forall|k: int| 0 <= k < csvs_of_runs(runs).len() implies !has_char(
        #[trigger] csvs_of_runs(runs)[k],
        c,
    ) by {
        lemma_run_csv_chars(runs[k], c);
    }
    lemma_join_has_char(csvs_of_runs(runs), '-', c);
    crate::split::lemma_has_char_concat(dec_digits(parent), seq![','], c);
    crate::split::lemma_has_char_concat(dec_digits(parent) + seq![','], runs_csv(runs), c);
    assert(!has_char(seq![','], c)) by {
        if has_char(seq![','], c) {
            let j = choose|j: int| 0 <= j < 1 && seq![','][j] == c;
        }
    }
}

/// A non-empty run renders to a non-empty text.
proof fn lemma_run_csv_len(r: Seq<nat>)
    requires
        r.len() >= 1,
    ensures
        run_csv(r).len() >= 1,
{
    lemma_dec_digits_are_digits(r[0]);
    assert(digits_of_run(r)[0] == dec_digits(r[0]));
    if r.len() == 1 {
        assert(run_csv(r) == dec_digits(r[0]));
    } else {
        assert(run_csv(r) == digits_of_run(r)[0] + seq!['.'] + join_char(
            digits_of_run(r).drop_first(),
            '.',
        ));
    }
}

/// One run's textual form splits and parses back to its split lengths.
proof fn lemma_run_round_trip(r: Seq<nat>)
    requires
        r.len() >= 1,
        forall|m: int| 0 <= m < r.len() ==> #[trigger] r[m] <= usize::MAX,
    ensures
        run_part_valid(run_csv(r)),
        decode_run(run_csv(r)) == r,
{
    assert forall|b: int| 0 <= b < digits_of_run(r).len() implies !has_char(
        #[trigger] digits_of_run(r)[b],
        '.',
    ) by {
        lemma_digits_no_char(r[b], '.');
    }
    lemma_split_join(digits_of_run(r), '.');
    assert(split_char(run_csv(r), '.') == digits_of_run(r));
    assert forall|b: int| 0 <= b < digits_of_run(r).len() implies is_usize_field(
        #[trigger] split_char(run_csv(r), '.')[b],
    ) && dec_value(split_char(run_csv(r), '.')[b]) == r[b] by {
        lemma_dec_digits_are_digits(r[b]);
        lemma_dec_value_of_digits(r[b]);
        assert(split_char(run_csv(r), '.')[b] == dec_digits(r[b]));
    }
    assert(decode_run(run_csv(r)) =~= r);
}

} // verus!
