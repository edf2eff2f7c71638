//! The per-render map of dynamic positions and collapse encodings.
//!
//! This map is rebuilt on every render; after a reload it is what a
//! reconciler uses to find where dynamic content must be patched into the
//! previously rendered tree.
//!
//! Delimiter reference: `','`, `'-'` and `'.'` are used inside the
//! location and collapse texts; `'*'` separates a key from its value;
//! `';'` separates entries; `'_'` separates the two sections.

use crate::decimal::dec_digits;
use crate::decimal::dec_value;
use crate::decimal::is_dec_digit;
use crate::decimal::is_u32_field;
use crate::decimal::lemma_dec_digits_are_digits;
use crate::decimal::lemma_dec_value_of_digits;
use crate::decimal::lemma_digits_no_char;
use crate::decimal::parse_u32_field;
use crate::decimal::push_dec_u64;
use crate::error::ParseError;
use crate::error::ParseResult;
use crate::rsx_node::node_size;
use crate::rsx_node::RsxNode;
use crate::rsx_visitor::VisitRsxOptions;
use crate::split::has_char;
use crate::split::join_char;
use crate::split::join_prefix;
use crate::split::lemma_join_has_char;
use crate::split::lemma_join_prefix_full;
use crate::split::lemma_join_prefix_step;
use crate::split::lemma_split_join;
use crate::split::split_char;
use crate::split::split_vec;
use crate::strutil::string_chars;
use crate::strutil::string_push;
use crate::text_block_encoder::decoded_parent;
use crate::text_block_encoder::decoded_runs;
use crate::text_block_encoder::encoder_csv;
use crate::text_block_encoder::encoder_csv_valid;
use crate::text_block_encoder::encoder_wf;
use crate::text_block_encoder::nat_runs;
use crate::text_block_encoder::TextBlockEncoder;
use crate::tree_location::collapsed_entries_wf;
use crate::tree_location::collapsed_of;
use crate::tree_location::enc_entries;
use crate::tree_location::rusty_of;
use crate::tree_location::spec_visits;
use crate::tree_location::tree_location_csv;
use crate::tree_location::tree_location_csv_valid;
use crate::tree_location::tree_location_of_csv;
use crate::tree_location::TreeIdx;
use crate::tree_location::TreeLocation;
use crate::tree_location::TreeLocationVisitor;
use vstd::prelude::*;

verus! {

/// For one rendered tree: the location of every dynamic block, keyed by
/// its tree index, and the collapse encoding of every element whose
/// direct children include a dynamic block, keyed by the element's tree
/// index.  Entries appear in visit order, so keys are unique.
#[derive(Debug, PartialEq)]
pub struct TreeLocationMap {
    /// The location of each dynamic block, keyed by its tree index.
    pub rusty_locations: Vec<(TreeIdx, TreeLocation)>,
    /// The collapse encoding of each collapsible element, keyed by the
    /// element's own tree index.
    pub collapsed_elements: Vec<(TreeIdx, TextBlockEncoder)>,
}

/// One dynamic-node entry's textual form: `key*location`.
pub open spec fn rusty_entry_csv(e: (u32, TreeLocation)) -> Seq<char> {
    dec_digits(e.0 as nat) + seq!['*'] + tree_location_csv(e.1)
}

/// The textual forms of the dynamic-node entries.
pub open spec fn rusty_entry_csvs(es: Seq<(u32, TreeLocation)>) -> Seq<Seq<char>> {
    es.map_values(|e: (u32, TreeLocation)| rusty_entry_csv(e))
}

/// One collapse entry's textual form: `key*encoder`.
pub open spec fn collapsed_entry_csv(e: (u32, TextBlockEncoder)) -> Seq<char> {
    dec_digits(e.0 as nat) + seq!['*'] + encoder_csv(
        e.1.parent_id as nat,
        nat_runs(e.1.split_positions.deep_view()),
    )
}

/// The textual forms of the collapse entries.
pub open spec fn collapsed_entry_csvs(es: Seq<(u32, TextBlockEncoder)>) -> Seq<Seq<char>> {
    es.map_values(|e: (u32, TextBlockEncoder)| collapsed_entry_csv(e))
}

/// The whole map's textual form: the two sections, entries joined by
/// `';'` within each, joined by one `'_'`.
pub open spec fn map_csv(m: TreeLocationMap) -> Seq<char> {
    join_char(rusty_entry_csvs(m.rusty_locations@), ';') + seq!['_'] + join_char(
        collapsed_entry_csvs(m.collapsed_elements@),
        ';',
    )
}

/// Whether one dynamic-node entry decodes: a `u32` key, one `'*'`, and a
/// location text.
pub open spec fn rusty_entry_valid(e: Seq<char>) -> bool {
    let parts = split_char(e, '*');
    parts.len() >= 2 && is_u32_field(parts[0]) && tree_location_csv_valid(parts[1])
}

/// Whether the dynamic-node section decodes: empty, or every entry does.
pub open spec fn rusty_section_valid(p: Seq<char>) -> bool {
    p.len() == 0 || forall|a: int|
        0 <= a < split_char(p, ';').len() ==> rusty_entry_valid(#[trigger] split_char(p, ';')[a])
}

/// The dynamic-node entries a section decodes to.
pub open spec fn decode_rusty_entry(e: Seq<char>) -> (u32, TreeLocation) {
    (
        dec_value(split_char(e, '*')[0]) as u32,
        tree_location_of_csv(split_char(e, '*')[1]),
    )
}

/// The decoded dynamic-node section.
pub open spec fn decode_rusty_section(p: Seq<char>) -> Seq<(u32, TreeLocation)> {
    if p.len() == 0 {
        Seq::<(u32, TreeLocation)>::empty()
    } else {
        split_char(p, ';').map_values(|e: Seq<char>| decode_rusty_entry(e))
    }
}

/// Whether one collapse entry decodes: a `u32` key, one `'*'`, and an
/// encoder text.
pub open spec fn collapsed_entry_valid(e: Seq<char>) -> bool {
    let parts = split_char(e, '*');
    parts.len() >= 2 && is_u32_field(parts[0]) && encoder_csv_valid(parts[1])
}

/// Whether the collapse section decodes: empty, or every entry does.
pub open spec fn collapsed_section_valid(p: Seq<char>) -> bool {
    p.len() == 0 || forall|a: int|
        0 <= a < split_char(p, ';').len() ==> collapsed_entry_valid(
            #[trigger] split_char(p, ';')[a],
        )
}

/// The abstract content one collapse entry decodes to.
pub open spec fn decode_collapsed_entry(e: Seq<char>) -> (u32, u32, Seq<Seq<nat>>) {
    (
        dec_value(split_char(e, '*')[0]) as u32,
        decoded_parent(split_char(e, '*')[1]) as u32,
        decoded_runs(split_char(e, '*')[1]),
    )
}

/// The decoded collapse section.
pub open spec fn decode_collapsed_section(p: Seq<char>) -> Seq<(u32, u32, Seq<Seq<nat>>)> {
    if p.len() == 0 {
        Seq::<(u32, u32, Seq<Seq<nat>>)>::empty()
    } else {
        split_char(p, ';').map_values(|e: Seq<char>| decode_collapsed_entry(e))
    }
}

/// Whether a whole textual form decodes: two `'_'`-separated sections,
/// each decodable.
pub open spec fn map_csv_valid(s: Seq<char>) -> bool {
    let parts = split_char(s, '_');
    parts.len() >= 2 && rusty_section_valid(parts[0]) && collapsed_section_valid(parts[1])
}

/// Every stored collapse encoder holds only non-empty runs.
pub open spec fn collapsed_encoders_wf(es: Seq<(u32, TextBlockEncoder)>) -> bool {
    forall|k: int| 0 <= k < es.len() ==> encoder_wf(#[trigger] es[k].1)
}

impl TreeLocationMap {
    /// Walks `node` once with the default descent switches and collects,
    /// for every dynamic block, its location keyed by tree index, and for
    /// every element whose direct children include a dynamic block, its
    /// collapse encoding keyed by the element's tree index.
    pub fn from_node(node: &RsxNode) -> (r: TreeLocationMap)
        requires
            node_size(*node) <= u32::MAX,
        ensures
            r.rusty_locations@ == rusty_of(spec_visits(*node, VisitRsxOptions::spec_default())),
            enc_entries(r.collapsed_elements@) == collapsed_of(
                spec_visits(*node, VisitRsxOptions::spec_default()),
            ),
            collapsed_entries_wf(r.collapsed_elements@),
    {
        let mut v = TreeLocationVisitor::new(VisitRsxOptions::default());
        v.walk_node_loc(node);
        proof {
            assert(v.rusty_locations@ =~= rusty_of(
                spec_visits(*node, VisitRsxOptions::spec_default()),
            ));
            assert(enc_entries(v.collapsed_elements@) =~= collapsed_of(
                spec_visits(*node, VisitRsxOptions::spec_default()),
            ));
        }
        TreeLocationMap {
            rusty_locations: v.rusty_locations,
            collapsed_elements: v.collapsed_elements,
        }
    }

    /// Renders the map: the dynamic-node entries, one `'_'`, then the
    /// collapse entries; entries as `key*value` joined by `';'`.
    pub fn to_csv(&self) -> (r: String)
        ensures
            r@ == map_csv(*self),
    {
        let mut s = String::new();
        let ghost rparts = rusty_entry_csvs(self.rusty_locations@);
        let mut k: usize = 0;
        #[verifier::loop_isolation(false)]
        while k < self.rusty_locations.len()
            invariant
                k <= self.rusty_locations@.len(),
                s@ == join_prefix(rparts, k as int, ';'),
            decreases self.rusty_locations@.len() - k,
        {
            let ghost entry_base = if k > 0 {
                s@ + seq![';']
            } else {
                s@
            };
            if k > 0 {
                string_push(&mut s, ';');
            }
            let key = self.rusty_locations[k].0;
            push_dec_u64(&mut s, key as u64);
            string_push(&mut s, '*');
            let loc_csv = self.rusty_locations[k].1.to_csv();
            s.append(loc_csv.as_str());
            proof {
                lemma_join_prefix_step(rparts, k as int, ';');
                assert(rparts[k as int] == rusty_entry_csv(self.rusty_locations@[k as int]));
                assert(s@ =~= join_prefix(rparts, k + 1, ';'));
            }
            k += 1;
        }
        proof {
            lemma_join_prefix_full(rparts, ';');
            assert(rparts.subrange(0, rparts.len() as int) =~= rparts);
        }
        string_push(&mut s, '_');
        let ghost base = s@;
        let ghost cparts = collapsed_entry_csvs(self.collapsed_elements@);
        let mut k2: usize = 0;
        #[verifier::loop_isolation(false)]
        while k2 < self.collapsed_elements.len()
            invariant
                k2 <= self.collapsed_elements@.len(),
                s@ == base + join_prefix(cparts, k2 as int, ';'),
            decreases self.collapsed_elements@.len() - k2,
        {
            if k2 > 0 {
                string_push(&mut s, ';');
            }
            let key = self.collapsed_elements[k2].0;
            push_dec_u64(&mut s, key as u64);
            string_push(&mut s, '*');
            let enc_csv = self.collapsed_elements[k2].1.to_csv();
            s.append(enc_csv.as_str());
            proof {
                lemma_join_prefix_step(cparts, k2 as int, ';');
                assert(cparts[k2 as int] == collapsed_entry_csv(
                    self.collapsed_elements@[k2 as int],
                ));
                assert(s@ =~= base + join_prefix(cparts, k2 + 1, ';'));
            }
            k2 += 1;
        }
        proof {
            lemma_join_prefix_full(cparts, ';');
            assert(cparts.subrange(0, cparts.len() as int) =~= cparts);
            assert(s@ =~= map_csv(*self));
        }
        s
    }
}

} // verus!

verus! {

impl TreeLocationMap {
    /// Decodes the textual form: two `'_'`-separated sections of
    /// `key*value` entries joined by `';'`.  A missing section, key or
    /// value, or a field that does not parse, is rejected naming what
    /// failed; sections beyond the second are ignored.
    pub fn from_csv(csv: &str) -> (r: ParseResult<TreeLocationMap>)
        ensures
            map_csv_valid(csv@) ==> match r {
                Ok(m) => {
                    &&& m.rusty_locations@ == decode_rusty_section(split_char(csv@, '_')[0])
                    &&& enc_entries(m.collapsed_elements@) == decode_collapsed_section(
                        split_char(csv@, '_')[1],
                    )
                    &&& collapsed_encoders_wf(m.collapsed_elements@)
                },
                Err(_) => false,
            },
            !map_csv_valid(csv@) ==> r is Err,
    {
        let chars = string_chars(csv);
        let sections = split_vec(&chars, '_');
        if sections.len() < 2 {
            return Err(ParseError::MissingField(String::from_str("text encoders")));
        }
        proof {
            assert(sections.deep_view()[0] == sections@[0]@);
            assert(sections.deep_view()[1] == sections@[1]@);
        }
        let mut rusty_locations: Vec<(u32, TreeLocation)> = Vec::new();
        if sections[0].len() > 0 {
            let entries = split_vec(&sections[0], ';');
            let ghost eseq = split_char(sections@[0]@, ';');
            let mut a: usize = 0;
            #[verifier::loop_isolation(false)]
            while a < entries.len()
                invariant
                    a <= entries@.len(),
                    entries.deep_view() == eseq,
                    rusty_locations@.len() == a,
                    forall|x: int|
                        0 <= x < a ==> rusty_entry_valid(#[trigger] eseq[x])
                            && rusty_locations@[x] == decode_rusty_entry(eseq[x]),
                decreases entries@.len() - a,
            {
                proof {
                    assert(entries.deep_view()[a as int] == entries@[a as int]@);
                }
                let halves = split_vec(&entries[a], '*');
                let ghost hseq = split_char(eseq[a as int], '*');
                if halves.len() < 2 {
                    proof {
                        assert(!rusty_entry_valid(eseq[a as int]));
                    }
                    return Err(ParseError::MissingField(String::from_str("value")));
                }
                proof {
                    assert(halves.deep_view()[0] == halves@[0]@);
                    assert(halves.deep_view()[1] == halves@[1]@);
                }
                let key = match parse_u32_field(&halves[0]) {
                    Some(n) => n,
                    None => {
                        proof {
                            assert(!rusty_entry_valid(eseq[a as int]));
                        }
                        return Err(ParseError::InvalidNumber(String::from_str("key")));
                    },
                };
                let loc = match TreeLocation::from_chars(&halves[1]) {
                    Ok(loc) => loc,
                    Err(e) => {
                        proof {
                            assert(!rusty_entry_valid(eseq[a as int]));
                        }
                        return Err(e);
                    },
                };
                rusty_locations.push((key, loc));
                a += 1;
            }
        }
        let mut collapsed_elements: Vec<(u32, TextBlockEncoder)> = Vec::new();
        if sections[1].len() > 0 {
            let entries = split_vec(&sections[1], ';');
            let ghost eseq = split_char(sections@[1]@, ';');
            let mut a: usize = 0;
            #[verifier::loop_isolation(false)]
            while a < entries.len()
                invariant
                    a <= entries@.len(),
                    entries.deep_view() == eseq,
                    collapsed_elements@.len() == a,
                    collapsed_encoders_wf(collapsed_elements@),
                    forall|x: int|
                        0 <= x < a ==> collapsed_entry_valid(#[trigger] eseq[x]) && enc_entries(
                            collapsed_elements@,
                        )[x] == decode_collapsed_entry(eseq[x]),
                decreases entries@.len() - a,
            {
                proof {
                    assert(entries.deep_view()[a as int] == entries@[a as int]@);
                }
                let halves = split_vec(&entries[a], '*');
                let ghost hseq = split_char(eseq[a as int], '*');
                if halves.len() < 2 {
                    proof {
                        assert(!collapsed_entry_valid(eseq[a as int]));
                    }
                    return Err(ParseError::MissingField(String::from_str("value")));
                }
                proof {
                    assert(halves.deep_view()[0] == halves@[0]@);
                    assert(halves.deep_view()[1] == halves@[1]@);
                }
                let key = match parse_u32_field(&halves[0]) {
                    Some(n) => n,
                    None => {
                        proof {
                            assert(!collapsed_entry_valid(eseq[a as int]));
                        }
                        return Err(ParseError::InvalidNumber(String::from_str("key")));
                    },
                };
                let enc = match TextBlockEncoder::from_chars(&halves[1]) {
                    Ok(enc) => enc,
                    Err(e) => {
                        proof {
                            assert(!collapsed_entry_valid(eseq[a as int]));
                        }
                        return Err(e);
                    },
                };
                let ghost pre = collapsed_elements@;
                collapsed_elements.push((key, enc));
                proof {
                    assert forall|x: int|
                        0 <= x < a + 1 implies collapsed_entry_valid(#[trigger] eseq[x])
                        && enc_entries(collapsed_elements@)[x] == decode_collapsed_entry(eseq[x]) by {
                        if x < a {
                            assert(collapsed_elements@[x] == pre[x]);
                            assert(enc_entries(collapsed_elements@)[x] == enc_entries(pre)[x]);
                        }
                    }
                    assert forall|x: int| 0 <= x < collapsed_elements@.len() implies encoder_wf(
                        #[trigger] collapsed_elements@[x].1,
                    ) by {
                        if x < a {
                            assert(collapsed_elements@[x] == pre[x]);
                            assert(encoder_wf(pre[x].1));
                        }
                    }
                }
                a += 1;
            }
        }
        let r = TreeLocationMap { rusty_locations, collapsed_elements };
        proof {
            if sections@[0]@.len() == 0 {
                assert(r.rusty_locations@ =~= decode_rusty_section(split_char(csv@, '_')[0]));
            } else {
                assert(r.rusty_locations@ =~= decode_rusty_section(split_char(csv@, '_')[0]));
            }
            assert(enc_entries(r.collapsed_elements@) =~= decode_collapsed_section(
                split_char(csv@, '_')[1],
            ));
            assert(map_csv_valid(csv@));
        }
        Ok(r)
    }
}

/// A dynamic-node entry's text holds only digits, `','` and `'*'`.
proof fn lemma_rusty_entry_chars(e: (u32, TreeLocation), c: char)
    requires
        !is_dec_digit(c),
        c != ',',
        c != '*',
    ensures
        !has_char(rusty_entry_csv(e), c),
{
    lemma_digits_no_char(e.0 as nat, c);
    crate::tree_location::lemma_tree_location_csv_chars(e.1, c);
    crate::split::lemma_has_char_concat(dec_digits(e.0 as nat), seq!['*'], c);
    crate::split::lemma_has_char_concat(
        dec_digits(e.0 as nat) + seq!['*'],
        tree_location_csv(e.1),
        c,
    );
    assert(!has_char(seq!['*'], c)) by {
        if has_char(seq!['*'], c) {
            let j = choose|j: int| 0 <= j < 1 && seq!['*'][j] == c;
        }
    }
}

/// A collapse entry's text holds only digits, `','`, `'.'`, `'-'` and
/// `'*'`.
proof fn lemma_collapsed_entry_chars(e: (u32, TextBlockEncoder), c: char)
    requires
        !is_dec_digit(c),
        c != ',',
        c != '.',
        c != '-',
        c != '*',
    ensures
        !has_char(collapsed_entry_csv(e), c),
{
    lemma_digits_no_char(e.0 as nat, c);
    crate::text_block_encoder::lemma_encoder_csv_chars(
        e.1.parent_id as nat,
        nat_runs(e.1.split_positions.deep_view()),
        c,
    );
    crate::split::lemma_has_char_concat(dec_digits(e.0 as nat), seq!['*'], c);
    crate::split::lemma_has_char_concat(
        dec_digits(e.0 as nat) + seq!['*'],
        encoder_csv(e.1.parent_id as nat, nat_runs(e.1.split_positions.deep_view())),
        c,
    );
    assert(!has_char(seq!['*'], c)) by {
        if has_char(seq!['*'], c) {
            let j = choose|j: int| 0 <= j < 1 && seq!['*'][j] == c;
        }
    }
}

} // verus!

verus! {

/// Decoding inverts encoding: every map whose collapse encoders hold only
/// non-empty runs renders to a valid textual form that decodes back to
/// the same entries.
pub proof fn lemma_tree_location_map_round_trip(m: TreeLocationMap)
    requires
        collapsed_encoders_wf(m.collapsed_elements@),
    ensures
        map_csv_valid(map_csv(m)),
        decode_rusty_section(split_char(map_csv(m), '_')[0]) == m.rusty_locations@,
        decode_collapsed_section(split_char(map_csv(m), '_')[1]) == enc_entries(
            m.collapsed_elements@,
        ),
{
    let s = map_csv(m);
    let rparts = rusty_entry_csvs(m.rusty_locations@);
    let cparts = collapsed_entry_csvs(m.collapsed_elements@);
    let rsec = join_char(rparts, ';');
    let csec = join_char(cparts, ';');
    // neither section contains the section separator
    assert forall|k: int| 0 <= k < rparts.len() implies !has_char(#[trigger] rparts[k], '_') by {
        lemma_rusty_entry_chars(m.rusty_locations@[k], '_');
    }
    assert forall|k: int| 0 <= k < cparts.len() implies !has_char(#[trigger] cparts[k], '_') by {
        lemma_collapsed_entry_chars(m.collapsed_elements@[k], '_');
    }
    lemma_join_has_char(rparts, ';', '_');
    lemma_join_has_char(cparts, ';', '_');
    lemma_split_join(seq![rsec, csec], '_');
    assert(join_char(seq![rsec, csec], '_') =~= s) by {
        assert(seq![rsec, csec].drop_first() =~= seq![csec]);
        assert(join_char(seq![csec], '_') == csec);
    }
    assert(split_char(s, '_') == seq![rsec, csec]);
    assert(split_char(s, '_')[0] == rsec);
    assert(split_char(s, '_')[1] == csec);
    lemma_rusty_section_round_trip(m.rusty_locations@);
    lemma_collapsed_section_round_trip(m.collapsed_elements@);
}

/// The dynamic-node section decodes back to its entries.
proof fn lemma_rusty_section_round_trip(es: Seq<(u32, TreeLocation)>)
    ensures
        rusty_section_valid(join_char(rusty_entry_csvs(es), ';')),
        decode_rusty_section(join_char(rusty_entry_csvs(es), ';')) == es,
{
    let parts = rusty_entry_csvs(es);
    let sec = join_char(parts, ';');
    if es.len() == 0 {
        assert(parts =~= Seq::<Seq<char>>::empty());
        assert(sec =~= Seq::<char>::empty());
        assert(decode_rusty_section(sec) =~= es);
    } else {
        assert forall|k: int| 0 <= k < parts.len() implies !has_char(#[trigger] parts[k], ';') by {
            lemma_rusty_entry_chars(es[k], ';');
        }
        lemma_split_join(parts, ';');
        assert(sec.len() > 0) by {
            lemma_rusty_entry_len(es[0]);
            assert(parts[0] == rusty_entry_csv(es[0]));
            if es.len() == 1 {
                assert(sec == parts[0]);
            } else {
                assert(sec == parts[0] + seq![';'] + join_char(parts.drop_first(), ';'));
            }
        }
        assert forall|a: int| 0 <= a < split_char(sec, ';').len() implies rusty_entry_valid(
            #[trigger] split_char(sec, ';')[a],
        ) && decode_rusty_entry(split_char(sec, ';')[a]) == es[a] by {
            assert(split_char(sec, ';')[a] == rusty_entry_csv(es[a]));
            lemma_rusty_entry_round_trip(es[a]);
        }
        assert(decode_rusty_section(sec) =~= es);
    }
}

/// One dynamic-node entry decodes back to itself.
proof fn lemma_rusty_entry_round_trip(e: (u32, TreeLocation))
    ensures
        rusty_entry_valid(rusty_entry_csv(e)),
        decode_rusty_entry(rusty_entry_csv(e)) == e,
{
    let kd = dec_digits(e.0 as nat);
    let vcsv = tree_location_csv(e.1);
    lemma_dec_digits_are_digits(e.0 as nat);
    lemma_dec_value_of_digits(e.0 as nat);
    lemma_digits_no_char(e.0 as nat, '*');
    crate::tree_location::lemma_tree_location_csv_chars(e.1, '*');
    lemma_split_join(seq![kd, vcsv], '*');
    assert(join_char(seq![kd, vcsv], '*') =~= rusty_entry_csv(e)) by {
        assert(seq![kd, vcsv].drop_first() =~= seq![vcsv]);
        assert(join_char(seq![vcsv], '*') == vcsv);
    }
    assert(split_char(rusty_entry_csv(e), '*') == seq![kd, vcsv]);
    assert(split_char(rusty_entry_csv(e), '*')[0] == kd);
    assert(split_char(rusty_entry_csv(e), '*')[1] == vcsv);
    crate::tree_location::lemma_tree_location_round_trip(e.1);
}

/// A dynamic-node entry's text is never empty.
proof fn lemma_rusty_entry_len(e: (u32, TreeLocation))
    ensures
        rusty_entry_csv(e).len() >= 1,
{
    lemma_dec_digits_are_digits(e.0 as nat);
}

/// The collapse section decodes back to its entries' abstract content.
proof fn lemma_collapsed_section_round_trip(es: Seq<(u32, TextBlockEncoder)>)
    requires
        collapsed_encoders_wf(es),
    ensures
        collapsed_section_valid(join_char(collapsed_entry_csvs(es), ';')),
        decode_collapsed_section(join_char(collapsed_entry_csvs(es), ';')) == enc_entries(es),
{
    let parts = collapsed_entry_csvs(es);
    let sec = join_char(parts, ';');
    if es.len() == 0 {
        assert(parts =~= Seq::<Seq<char>>::empty());
        assert(sec =~= Seq::<char>::empty());
        assert(decode_collapsed_section(sec) =~= enc_entries(es));
    } else {
        assert forall|k: int| 0 <= k < parts.len() implies !has_char(#[trigger] parts[k], ';') by {
            lemma_collapsed_entry_chars(es[k], ';');
        }
        lemma_split_join(parts, ';');
        assert(sec.len() > 0) by {
            lemma_collapsed_entry_len(es[0]);
            assert(parts[0] == collapsed_entry_csv(es[0]));
            if es.len() == 1 {
                assert(sec == parts[0]);
            } else {
                assert(sec == parts[0] + seq![';'] + join_char(parts.drop_first(), ';'));
            }
        }
        assert forall|a: int| 0 <= a < split_char(sec, ';').len() implies collapsed_entry_valid(
            #[trigger] split_char(sec, ';')[a],
        ) && decode_collapsed_entry(split_char(sec, ';')[a]) == enc_entries(es)[a] by {
            assert(split_char(sec, ';')[a] == collapsed_entry_csv(es[a]));
            lemma_collapsed_entry_round_trip(es[a]);
        }
        assert(decode_collapsed_section(sec) =~= enc_entries(es));
    }
}

/// One collapse entry decodes back to its abstract content.
proof fn lemma_collapsed_entry_round_trip(e: (u32, TextBlockEncoder))
    requires
        encoder_wf(e.1),
    ensures
        collapsed_entry_valid(collapsed_entry_csv(e)),
        decode_collapsed_entry(collapsed_entry_csv(e)) == (
            e.0,
            e.1.parent_id,
            nat_runs(e.1.split_positions.deep_view()),
        ),
{
    let kd = dec_digits(e.0 as nat);
    let runs = nat_runs(e.1.split_positions.deep_view());
    let vcsv = encoder_csv(e.1.parent_id as nat, runs);
    lemma_dec_digits_are_digits(e.0 as nat);
    lemma_dec_value_of_digits(e.0 as nat);
    lemma_digits_no_char(e.0 as nat, '*');
    crate::text_block_encoder::lemma_encoder_csv_chars(e.1.parent_id as nat, runs, '*');
    lemma_split_join(seq![kd, vcsv], '*');
    assert(join_char(seq![kd, vcsv], '*') =~= collapsed_entry_csv(e)) by {
        assert(seq![kd, vcsv].drop_first() =~= seq![vcsv]);
        assert(join_char(seq![vcsv], '*') == vcsv);
    }
    assert(split_char(collapsed_entry_csv(e), '*') == seq![kd, vcsv]);
    assert(split_char(collapsed_entry_csv(e), '*')[0] == kd);
    assert(split_char(collapsed_entry_csv(e), '*')[1] == vcsv);
    assert forall|k: int| 0 <= k < runs.len() implies #[trigger] runs[k].len() >= 1 by {
        assert(runs[k] == crate::text_block_encoder::run_view(
            e.1.split_positions.deep_view()[k],
        ));
        assert(e.1.split_positions.deep_view()[k] == e.1.split_positions@[k]@);
    }
    assert forall|k: int, mm: int|
        0 <= k < runs.len() && 0 <= mm < runs[k].len() implies #[trigger] runs[k][mm]
        <= usize::MAX by {
        assert(runs[k] == crate::text_block_encoder::run_view(
            e.1.split_positions.deep_view()[k],
        ));
        assert(e.1.split_positions.deep_view()[k] == e.1.split_positions@[k]@);
        assert(runs[k][mm] == e.1.split_positions@[k]@[mm] as nat);
    }
    crate::text_block_encoder::lemma_text_block_encoder_round_trip(e.1.parent_id, runs);
}

/// A collapse entry's text is never empty.
proof fn lemma_collapsed_entry_len(e: (u32, TextBlockEncoder))
    ensures
        collapsed_entry_csv(e).len() >= 1,
{
    lemma_dec_digits_are_digits(e.0 as nat);
}

} // verus!
