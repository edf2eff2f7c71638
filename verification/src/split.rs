//! Delimiter-based splitting and joining of character sequences.
//!
//! Every textual form in this crate nests joins with distinct delimiter
//! classes (`','`, `'.'`, `'-'`, `'*'`, `';'`, `'_'`).  This module defines
//! one spec-level `split` and `join`, executable versions proved against
//! them, and the inversion lemma the round-trip proofs rest on: splitting a
//! join recovers the parts whenever no part contains the delimiter.

use vstd::prelude::*;

verus! {

/// The index of the first occurrence of `d` in `s` at or after `i`, or
/// `s.len()` when there is none.
pub open spec fn find_from(s: Seq<char>, i: int, d: char) -> int
    decreases s.len() - i,
{
    if i < 0 || i >= s.len() {
        s.len() as int
    } else if s[i] == d {
        i
    } else {
        find_from(s, i + 1, d)
    }
}

/// What `find_from` returns: the first occurrence, within bounds.
pub proof fn lemma_find_from(s: Seq<char>, i: int, d: char)
    requires
        0 <= i <= s.len(),
    ensures
        i <= find_from(s, i, d) <= s.len(),
        find_from(s, i, d) < s.len() ==> s[find_from(s, i, d)] == d,
        forall|j: int| i <= j < find_from(s, i, d) ==> s[j] != d,
    decreases s.len() - i,
{
    if i < s.len() && s[i] != d {
        lemma_find_from(s, i + 1, d);
    }
}

/// Where the first occurrence is known, `find_from` returns it.
pub proof fn lemma_find_from_exact(s: Seq<char>, i: int, d: char, f: int)
    requires
        0 <= i <= f < s.len(),
        s[f] == d,
        forall|j: int| i <= j < f ==> s[j] != d,
    ensures
        find_from(s, i, d) == f,
    decreases f - i,
{
    if i < f {
        lemma_find_from_exact(s, i + 1, d, f);
    }
}

/// Whether `s` contains `d` anywhere.
pub open spec fn has_char(s: Seq<char>, d: char) -> bool {
    exists|j: int| 0 <= j < s.len() && s[j] == d
}

/// The pieces of `s[i..]` between occurrences of `d`, in order.  An input
/// without `d` yields a single piece; every occurrence of `d` separates two
/// pieces, either of which may be empty.
pub open spec fn split_from(s: Seq<char>, i: int, d: char) -> Seq<Seq<char>>
    decreases s.len() - i,
    when 0 <= i <= s.len()
    via split_from_decreases
{
    let f = find_from(s, i, d);
    if f >= s.len() {
        seq![s.subrange(i, s.len() as int)]
    } else {
        seq![s.subrange(i, f)] + split_from(s, f + 1, d)
    }
}

#[via_fn]
proof fn split_from_decreases(s: Seq<char>, i: int, d: char) {
    lemma_find_from(s, i, d);
}

/// Splitting the whole of `s` on `d`.
pub open spec fn split_char(s: Seq<char>, d: char) -> Seq<Seq<char>> {
    split_from(s, 0, d)
}

/// A split always yields at least one piece, and no piece contains the
/// delimiter.
pub proof fn lemma_split_from_pieces(s: Seq<char>, i: int, d: char)
    requires
        0 <= i <= s.len(),
    ensures
        split_from(s, i, d).len() >= 1,
        forall|k: int|
            0 <= k < split_from(s, i, d).len() ==> !has_char(
                #[trigger] split_from(s, i, d)[k],
                d,
            ),
    decreases s.len() - i,
{
    lemma_find_from(s, i, d);
    let f = find_from(s, i, d);
    if f < s.len() {
        lemma_split_from_pieces(s, f + 1, d);
        assert forall|k: int| 0 <= k < split_from(s, i, d).len() implies !has_char(
            #[trigger] split_from(s, i, d)[k],
            d,
        ) by {
            if k == 0 {
                assert(!has_char(s.subrange(i, f), d));
            } else {
                assert(split_from(s, i, d)[k] == split_from(s, f + 1, d)[k - 1]);
            }
        }
    } else {
        assert(!has_char(s.subrange(i, s.len() as int), d));
    }
}

/// A concatenation contains a character exactly where one part does.
pub proof fn lemma_has_char_concat(a: Seq<char>, b: Seq<char>, c: char)
    ensures
        has_char(a + b, c) <==> has_char(a, c) || has_char(b, c),
{
    if has_char(a + b, c) {
        let j = choose|j: int| 0 <= j < (a + b).len() && (a + b)[j] == c;
        if j < a.len() {
            assert(a[j] == c);
        } else {
            assert(b[j - a.len()] == c);
        }
    }
    if has_char(a, c) {
        let j = choose|j: int| 0 <= j < a.len() && a[j] == c;
        assert((a + b)[j] == c);
    }
    if has_char(b, c) {
        let j = choose|j: int| 0 <= j < b.len() && b[j] == c;
        assert((a + b)[a.len() + j] == c);
    }
}

/// The parts joined with one `d` between consecutive parts.
pub open spec fn join_char(parts: Seq<Seq<char>>, d: char) -> Seq<char>
    decreases parts.len(),
{
    if parts.len() == 0 {
        Seq::<char>::empty()
    } else if parts.len() == 1 {
        parts[0]
    } else {
        parts[0] + seq![d] + join_char(parts.drop_first(), d)
    }
}

/// When no part contains `d` (and `c` differs from `d`), the join contains
/// `c` exactly where some part does.
pub proof fn lemma_join_has_char(parts: Seq<Seq<char>>, d: char, c: char)
    requires
        c != d,
    ensures
        has_char(join_char(parts, d), c) <==> exists|k: int|
            0 <= k < parts.len() && has_char(#[trigger] parts[k], c),
    decreases parts.len(),
{
    if parts.len() <= 1 {
        if parts.len() == 1 {
            assert(join_char(parts, d) == parts[0]);
        }
    } else {
        lemma_join_has_char(parts.drop_first(), d, c);
        let rest = join_char(parts.drop_first(), d);
        let whole = parts[0] + seq![d] + rest;
        assert(join_char(parts, d) == whole);
        if has_char(whole, c) {
            let j = choose|j: int| 0 <= j < whole.len() && whole[j] == c;
            if j < parts[0].len() {
                assert(has_char(parts[0], c));
            } else if j == parts[0].len() {
                assert(whole[j] == d);
            } else {
                assert(whole[j] == rest[j - parts[0].len() - 1]);
                assert(has_char(rest, c));
                let k = choose|k: int|
                    0 <= k < parts.drop_first().len() && has_char(
                        #[trigger] parts.drop_first()[k],
                        c,
                    );
                assert(parts.drop_first()[k] == parts[k + 1]);
                assert(has_char(parts[k + 1], c));
            }
        }
        if exists|k: int| 0 <= k < parts.len() && has_char(#[trigger] parts[k], c) {
            let k = choose|k: int| 0 <= k < parts.len() && has_char(#[trigger] parts[k], c);
            if k == 0 {
                let j = choose|j: int| 0 <= j < parts[0].len() && parts[0][j] == c;
                assert(whole[j] == c);
            } else {
                assert(parts.drop_first()[k - 1] == parts[k]);
                assert(has_char(rest, c));
                let j = choose|j: int| 0 <= j < rest.len() && rest[j] == c;
                assert(whole[parts[0].len() + 1 + j] == c);
            }
        }
    }
}

/// Splitting a join on its own delimiter recovers the parts, provided no
/// part contains the delimiter.
pub proof fn lemma_split_join(parts: Seq<Seq<char>>, d: char)
    requires
        parts.len() >= 1,
        forall|k: int| 0 <= k < parts.len() ==> !has_char(#[trigger] parts[k], d),
    ensures
        split_char(join_char(parts, d), d) == parts,
    decreases parts.len(),
{
    let s = join_char(parts, d);
    if parts.len() == 1 {
        assert(s == parts[0]);
        lemma_find_from(s, 0, d);
        if find_from(s, 0, d) < s.len() {
            assert(has_char(parts[0], d));
        }
        assert(split_char(s, d) =~= seq![s.subrange(0, s.len() as int)]);
        assert(s.subrange(0, s.len() as int) =~= parts[0]);
        assert(split_char(s, d) =~= parts);
    } else {
        let rest = join_char(parts.drop_first(), d);
        assert(s == parts[0] + seq![d] + rest);
        let p0 = parts[0].len() as int;
        assert(s[p0] == d);
        lemma_find_from(s, 0, d);
        let f = find_from(s, 0, d);
        assert forall|j: int| 0 <= j < p0 implies s[j] != d by {
            assert(s[j] == parts[0][j]);
        }
        assert(f == p0) by {
            if f < p0 {
                assert(s[f] == d);
            }
            if f > p0 {
                assert(s[p0] != d);
            }
        }
        lemma_split_join(parts.drop_first(), d);
        assert(s.subrange(0, p0) =~= parts[0]);
        assert(s.subrange(p0 + 1, s.len() as int) =~= rest);
        lemma_split_from_shift(s, p0 + 1, rest, d);
        assert(split_char(s, d) == seq![parts[0]] + split_from(s, p0 + 1, d));
        assert(split_from(s, p0 + 1, d) == split_char(rest, d));
        assert(split_char(s, d) =~= parts);
    }
}

/// Splitting a suffix in place equals splitting that suffix on its own.
proof fn lemma_split_from_shift(s: Seq<char>, i: int, suffix: Seq<char>, d: char)
    requires
        0 <= i <= s.len(),
        suffix == s.subrange(i, s.len() as int),
    ensures
        split_from(s, i, d) == split_char(suffix, d),
    decreases s.len() - i,
{
    lemma_find_from(s, i, d);
    lemma_find_from(suffix, 0, d);
    let f = find_from(s, i, d);
    let fs = find_from(suffix, 0, d);
    assert forall|j: int| 0 <= j < suffix.len() implies suffix[j] == s[i + j] by {}
    assert(f - i == fs) by {
        if f - i < fs {
            assert(suffix[f - i] == s[f]);
        } else if f - i > fs {
            assert(s[i + fs] == suffix[fs]);
        }
    }
    if f >= s.len() {
        assert(split_from(s, i, d) =~= seq![s.subrange(i, s.len() as int)]);
        assert(split_char(suffix, d) =~= seq![suffix.subrange(0, suffix.len() as int)]);
        assert(suffix.subrange(0, suffix.len() as int) =~= s.subrange(i, s.len() as int));
    } else {
        lemma_split_from_shift(s, f + 1, s.subrange(f + 1, s.len() as int), d);
        let tail = s.subrange(f + 1, s.len() as int);
        lemma_split_from_shift(suffix, fs + 1, suffix.subrange(fs + 1, suffix.len() as int), d);
        assert(suffix.subrange(fs + 1, suffix.len() as int) =~= tail);
        assert(s.subrange(i, f) =~= suffix.subrange(0, fs));
        assert(split_from(s, i, d) == seq![s.subrange(i, f)] + split_char(tail, d));
        assert(split_char(suffix, d) == seq![suffix.subrange(0, fs)] + split_char(tail, d));
    }
}

/// Finds the first occurrence of `d` in `s` at or after `i`.
pub fn find_char_from(s: &Vec<char>, i: usize, d: char) -> (r: usize)
    requires
        i <= s@.len(),
    ensures
        r == find_from(s@, i as int, d),
{
    let mut j: usize = i;
    loop
        invariant
            i <= j <= s@.len(),
            find_from(s@, i as int, d) == find_from(s@, j as int, d),
        decreases s@.len() - j,
    {
        if j == s.len() {
            return j;
        }
        if s[j] == d {
            return j;
        }
        j += 1;
    }
}

/// Splits `s` on `d`, returning the pieces in order.
pub fn split_vec(s: &Vec<char>, d: char) -> (r: Vec<Vec<char>>)
    ensures
        r.deep_view() == split_char(s@, d),
{
    let mut pieces: Vec<Vec<char>> = Vec::new();
    let mut start: usize = 0;
    loop
        invariant
            start <= s@.len(),
            split_char(s@, d) =~~= pieces.deep_view() + split_from(s@, start as int, d),
        decreases s@.len() - start + 1,
    {
        let f = find_char_from(s, start, d);
        proof {
            lemma_find_from(s@, start as int, d);
        }
        let mut piece: Vec<char> = Vec::new();
        let mut k: usize = start;
        while k < f
            invariant
                start <= k <= f <= s@.len(),
                piece@ == s@.subrange(start as int, k as int),
            decreases f - k,
        {
            piece.push(s[k]);
            proof {
                assert(piece@ =~= s@.subrange(start as int, k + 1));
            }
            k += 1;
        }
        proof {
            lemma_find_from(s@, start as int, d);
        }
        let ghost prev = pieces.deep_view();
        pieces.push(piece);
        proof {
            assert(pieces.deep_view() =~~= prev.push(piece@));
        }
        if f == s.len() {
            proof {
                assert(piece@ =~= s@.subrange(start as int, s@.len() as int));
                assert(split_from(s@, start as int, d) =~= seq![piece@]);
                assert(split_char(s@, d) =~~= pieces.deep_view());
            }
            return pieces;
        }
        proof {
            assert(split_from(s@, start as int, d) =~= seq![piece@] + split_from(
                s@,
                f + 1,
                d,
            ));
        }
        start = f + 1;
    }
}

/// Appends the pieces to `out`, with one `d` between consecutive pieces.
pub fn join_push(out: &mut String, parts: &Vec<Vec<char>>, d: char)
    ensures
        final(out)@ == old(out)@ + join_char(parts.deep_view(), d),
{
    let mut k: usize = 0;
    while k < parts.len()
        invariant
            k <= parts@.len(),
            out@ == old(out)@ + join_prefix(parts.deep_view(), k as int, d),
        decreases parts@.len() - k,
    {
        if k > 0 {
            crate::strutil::string_push(out, d);
        }
        let part = &parts[k];
        let mut j: usize = 0;
        while j < part.len()
            invariant
                j <= part@.len(),
                parts@[k as int]@ == part@,
                k < parts@.len(),
                out@ == old(out)@ + join_prefix(parts.deep_view(), k as int, d) + (if k > 0 {
                    seq![d]
                } else {
                    Seq::<char>::empty()
                }) + part@.subrange(0, j as int),
            decreases part@.len() - j,
        {
            crate::strutil::string_push(out, part[j]);
            proof {
                assert(part@.subrange(0, j + 1) =~= part@.subrange(0, j as int).push(
                    part@[j as int],
                ));
            }
            j += 1;
        }
        proof {
            assert(part@.subrange(0, part@.len() as int) =~= part@);
            lemma_join_prefix_step(parts.deep_view(), k as int, d);
            assert(out@ =~= old(out)@ + join_prefix(parts.deep_view(), k + 1, d));
        }
        k += 1;
    }
    proof {
        lemma_join_prefix_full(parts.deep_view(), d);
    }
}

/// The join of the first `k` parts.
pub open spec fn join_prefix(parts: Seq<Seq<char>>, k: int, d: char) -> Seq<char> {
    join_char(parts.subrange(0, k), d)
}

/// Extending a prefix join by one part appends a delimiter (except at the
/// start) and that part.
pub proof fn lemma_join_prefix_step(parts: Seq<Seq<char>>, k: int, d: char)
    requires
        0 <= k < parts.len(),
    ensures
        join_prefix(parts, k + 1, d) == if k == 0 {
            parts[0]
        } else {
            join_prefix(parts, k, d) + seq![d] + parts[k]
        },
    decreases k,
{
    if k == 0 {
        assert(parts.subrange(0, 1) =~= seq![parts[0]]);
        assert(join_char(seq![parts[0]], d) == parts[0]);
        assert(join_prefix(parts, 1, d) =~= parts[0]);
    } else if k == 1 {
        assert(parts.subrange(0, 2).drop_first() =~= seq![parts[1]]);
        assert(parts.subrange(0, 2)[0] == parts[0]);
        assert(parts.subrange(0, 1) =~= seq![parts[0]]);
        assert(join_char(seq![parts[1]], d) == parts[1]);
        assert(join_char(parts.subrange(0, 2), d) == parts[0] + seq![d] + parts[1]);
        assert(join_prefix(parts, 2, d) =~= join_prefix(parts, 1, d) + seq![d] + parts[1]);
    } else {
        lemma_join_prefix_step(parts.drop_first(), k - 1, d);
        assert(parts.subrange(0, k + 1).drop_first() =~= parts.drop_first().subrange(0, k));
        assert(parts.subrange(0, k).drop_first() =~= parts.drop_first().subrange(0, k - 1));
        assert(parts.subrange(0, k + 1)[0] == parts[0]);
        assert(parts.subrange(0, k)[0] == parts[0]);
        assert(parts.drop_first()[k - 1] == parts[k]);
        assert(join_char(parts.subrange(0, k + 1), d) == parts[0] + seq![d] + join_char(
            parts.drop_first().subrange(0, k),
            d,
        ));
        assert(join_char(parts.subrange(0, k), d) == parts[0] + seq![d] + join_char(
            parts.drop_first().subrange(0, k - 1),
            d,
        ));
        assert(join_prefix(parts, k + 1, d) =~= join_prefix(parts, k, d) + seq![d] + parts[k]);
    }
}

/// The full-prefix join is the join itself.
pub proof fn lemma_join_prefix_full(parts: Seq<Seq<char>>, d: char)
    ensures
        join_prefix(parts, parts.len() as int, d) == join_char(parts, d),
{
    assert(parts.subrange(0, parts.len() as int) =~= parts);
}

} // verus!
