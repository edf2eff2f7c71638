//! Content-aware hashing of a code source.
//!
//! The hash decides whether a source file changed in a way that forces a
//! rebuild.  Ordinary tokens are mixed in text for text, with cosmetic
//! spacing and source positions normalized away; grouping constructs are
//! recursed into.  A template-macro invocation is special-cased: inside
//! its body only the value-affecting parts are mixed in — embedded
//! expression blocks, their order, and the identifiers assigned to
//! attributes — while element tag names, attribute key names, literal
//! values and the invocation's position contribute nothing.  So renaming
//! a tag or rewording literal text reloads without a rebuild, while
//! changing an embedded expression forces one.

use crate::error::ParseError;
use crate::error::ParseResult;
use crate::strutil::string_push;
use crate::tokens::rust_tokens_of;
use crate::tokens::parse_rust_tokens;
use crate::tokens::Delim;
use crate::tokens::Tok;
use vstd::prelude::*;

verus! {

/// The name of the template macro the hasher special-cases.
pub open spec fn rsx_name() -> Seq<char> {
    seq!['r', 's', 'x']
}

/// The separator mixed in after each token's text, so that adjacent
/// texts cannot run together.
pub open spec fn sig_sep() -> char {
    '\u{0}'
}

/// The inner tokens of a grouping construct (empty for other tokens).
pub open spec fn group_inner(t: Tok) -> Seq<Tok> {
    match t {
        Tok::Group { inner, .. } => inner@,
        _ => Seq::<Tok>::empty(),
    }
}

/// The text an ordinary token contributes (groups contribute through
/// their contents instead).
pub open spec fn tok_plain_text(t: Tok) -> Seq<char> {
    match t {
        Tok::Ident { text, .. } => text@,
        Tok::Punct { ch, .. } => seq![ch],
        Tok::Literal { text, .. } => text@,
        Tok::Group { .. } => Seq::<char>::empty(),
    }
}

/// Whether tokens `i`, `i+1`, `i+2` form an invocation of the macro
/// named `mac`: the name, a `'!'`, and a delimited body.
pub open spec fn is_macro_invocation_at(toks: Seq<Tok>, i: int, mac: Seq<char>) -> bool {
    &&& 0 <= i
    &&& i + 2 < toks.len()
    &&& match toks[i] {
        Tok::Ident { text, .. } => text@ == mac,
        _ => false,
    }
    &&& match toks[i + 1] {
        Tok::Punct { ch, .. } => ch == '!',
        _ => false,
    }
    &&& toks[i + 2] matches Tok::Group { .. }
}

/// The significant text of ordinary code from token `i` on: token texts
/// in order, each followed by the separator; groups recursed into
/// (their delimiters contribute nothing); a template-macro invocation
/// contributes its body's significant text only.
pub open spec fn walk_sig(toks: Seq<Tok>, i: int) -> Seq<char>
    decreases toks, toks.len() - i,
    when 0 <= i <= toks.len()
{
    if i >= toks.len() {
        Seq::<char>::empty()
    } else if is_macro_invocation_at(toks, i, rsx_name()) {
        rsx_body_sig(group_inner(toks[i + 2]), 0, false) + walk_sig(toks, i + 3)
    } else if toks[i] matches Tok::Group { .. } {
        walk_sig(group_inner(toks[i]), 0) + walk_sig(toks, i + 1)
    } else {
        tok_plain_text(toks[i]) + seq![sig_sep()] + walk_sig(toks, i + 1)
    }
}

/// The significant text of a template-macro body from token `i` on.
/// `after_eq` says whether the previous token was the `'='` of an
/// attribute assignment.  Braced regions are embedded expressions and
/// contribute their full code text; other groups are recursed into with
/// body rules; an identifier contributes only as an attribute's assigned
/// value; punctuation and literals contribute nothing.
pub open spec fn rsx_body_sig(toks: Seq<Tok>, i: int, after_eq: bool) -> Seq<char>
    decreases toks, toks.len() - i,
    when 0 <= i <= toks.len()
{
    if i >= toks.len() {
        Seq::<char>::empty()
    } else {
        match toks[i] {
            Tok::Group { delim, .. } => (if delim == Delim::Brace {
                walk_sig(group_inner(toks[i]), 0)
            } else {
                rsx_body_sig(group_inner(toks[i]), 0, false)
            }) + rsx_body_sig(toks, i + 1, false),
            Tok::Ident { text, .. } => (if after_eq {
                text@ + seq![sig_sep()]
            } else {
                Seq::<char>::empty()
            }) + rsx_body_sig(toks, i + 1, false),
            Tok::Punct { ch, .. } => rsx_body_sig(toks, i + 1, ch == '='),
            Tok::Literal { .. } => rsx_body_sig(toks, i + 1, false),
        }
    }
}

/// The hash of a character sequence, as the underlying 64-bit hash
/// function computes it.
pub uninterp spec fn rapid_hash_of(s: Seq<char>) -> u64;

/// Relies on `rapidhash::v3::rapidhash_v3`: a deterministic 64-bit hash
/// of the bytes alone, with a fixed default seed, identical on every
/// machine and in every process.
#[verifier::external_body]
fn rapid_hash(s: &str) -> (r: u64)
    ensures
        r == rapid_hash_of(s@),
{
    rapidhash::v3::rapidhash_v3(s.as_bytes())
}

/// Whether a file name carries the code extension.
pub open spec fn is_rust_file(name: Seq<char>) -> bool {
    name.len() >= 3 && name.subrange(name.len() - 3, name.len() as int) == seq!['.', 'r', 's']
}

/// Whether this identifier text is the template macro's name.
fn is_rsx_text(text: &String) -> (r: bool)
    ensures
        r == (text@ == rsx_name()),
{
    let s = text.as_str();
    let n: usize = s.unicode_len();
    if n != 3 {
        proof {
            assert(text@ != rsx_name());
        }
        return false;
    }
    let r = s.get_char(0) == 'r' && s.get_char(1) == 's' && s.get_char(2) == 'x';
    proof {
        if r {
            assert(text@ =~= rsx_name());
        } else {
            assert(text@ != rsx_name());
        }
    }
    r
}

/// Whether an invocation of the template macro starts at token `i`.
fn is_rsx_at(tokens: &Vec<Tok>, i: usize) -> (r: bool)
    requires
        i <= tokens@.len(),
    ensures
        r == is_macro_invocation_at(tokens@, i as int, rsx_name()),
{
    if tokens.len() < 3 || i > tokens.len() - 3 {
        return false;
    }
    let name_ok = match &tokens[i] {
        Tok::Ident { text, .. } => is_rsx_text(text),
        _ => false,
    };
    if !name_ok {
        return false;
    }
    let bang_ok = match &tokens[i + 1] {
        Tok::Punct { ch, .. } => *ch == '!',
        _ => false,
    };
    if !bang_ok {
        return false;
    }
    match &tokens[i + 2] {
        Tok::Group { .. } => true,
        _ => false,
    }
}

/// Determines whether a rebuild is required, by hashing the semantically
/// relevant tokens of one source.  Text accumulates in `sig`; `finish`
/// hashes it.
#[derive(Debug)]
pub struct HashRsxFile {
    /// The significant text mixed in so far.
    pub sig: String,
}

impl HashRsxFile {
    /// A hasher with nothing mixed in yet.
    pub fn new() -> (r: HashRsxFile)
        ensures
            r.sig@ == Seq::<char>::empty(),
    {
        HashRsxFile { sig: String::new() }
    }

    /// Mixes in the significant text of ordinary code tokens, recursing
    /// into groups and special-casing template-macro invocations.
    pub fn walk_tokens(&mut self, tokens: &Vec<Tok>)
        ensures
            final(self).sig@ == old(self).sig@ + walk_sig(tokens@, 0),
        decreases tokens@,
    {
        let mut i: usize = 0;
        #[verifier::loop_isolation(false)]
        while i < tokens.len()
            invariant
                i <= tokens@.len(),
                self.sig@ + walk_sig(tokens@, i as int) == old(self).sig@ + walk_sig(
                    tokens@,
                    0,
                ),
            decreases tokens@.len() - i,
        {
            if is_rsx_at(tokens, i) {
                match &tokens[i + 2] {
                    Tok::Group { inner, .. } => {
                        proof {
                            assert(decreases_to!(tokens@ => tokens@[i + 2]));
                            assert(decreases_to!(tokens@ => inner@));
                        }
                        self.hash_rsx_body(inner);
                        proof {
                            assert(self.sig@ + walk_sig(tokens@, i + 3) =~= old(self).sig@
                                + walk_sig(tokens@, 0));
                        }
                    },
                    _ => {
                        proof {
                            assert(false);
                        }
                    },
                }
                i += 3;
            } else {
                match &tokens[i] {
                    Tok::Group { inner, .. } => {
                        proof {
                            assert(decreases_to!(tokens@ => tokens@[i as int]));
                            assert(decreases_to!(tokens@ => inner@));
                        }
                        self.walk_tokens(inner);
                        proof {
                            assert(group_inner(tokens@[i as int]) == inner@);
                            assert(self.sig@ + walk_sig(tokens@, i + 1) =~= old(self).sig@
                                + walk_sig(tokens@, 0));
                        }
                    },
                    Tok::Ident { text, .. } => {
                        self.sig.append(text.as_str());
                        string_push(&mut self.sig, '\u{0}');
                        proof {
                            assert(self.sig@ + walk_sig(tokens@, i + 1) =~= old(self).sig@
                                + walk_sig(tokens@, 0));
                        }
                    },
                    Tok::Punct { ch, .. } => {
                        string_push(&mut self.sig, *ch);
                        string_push(&mut self.sig, '\u{0}');
                        proof {
                            assert(tok_plain_text(tokens@[i as int]) =~= seq![*ch]);
                            assert(self.sig@ + walk_sig(tokens@, i + 1) =~= old(self).sig@
                                + walk_sig(tokens@, 0));
                        }
                    },
                    Tok::Literal { text, .. } => {
                        self.sig.append(text.as_str());
                        string_push(&mut self.sig, '\u{0}');
                        proof {
                            assert(self.sig@ + walk_sig(tokens@, i + 1) =~= old(self).sig@
                                + walk_sig(tokens@, 0));
                        }
                    },
                }
                i += 1;
            }
        }
        proof {
            assert(walk_sig(tokens@, tokens@.len() as int) == Seq::<char>::empty());
            assert(final(self).sig@ =~= old(self).sig@ + walk_sig(tokens@, 0));
        }
    }

    /// Mixes in the significant text of a template-macro body: embedded
    /// expression blocks, their order, and attribute-assigned
    /// identifiers; nothing else.
    pub fn hash_rsx_body(&mut self, tokens: &Vec<Tok>)
        ensures
            final(self).sig@ == old(self).sig@ + rsx_body_sig(tokens@, 0, false),
        decreases tokens@,
    {
        let mut i: usize = 0;
        let mut after_eq = false;
        #[verifier::loop_isolation(false)]
        while i < tokens.len()
            invariant
                i <= tokens@.len(),
                i == 0 ==> after_eq == false,
                self.sig@ + rsx_body_sig(tokens@, i as int, after_eq) == old(self).sig@
                    + rsx_body_sig(tokens@, 0, false),
            decreases tokens@.len() - i,
        {
            match &tokens[i] {
                Tok::Group { delim, inner, .. } => {
                    proof {
                        assert(decreases_to!(tokens@ => tokens@[i as int]));
                        assert(decreases_to!(tokens@ => inner@));
                        assert(group_inner(tokens@[i as int]) == inner@);
                    }
                    if *delim == Delim::Brace {
                        self.walk_tokens(inner);
                    } else {
                        self.hash_rsx_body(inner);
                    }
                    after_eq = false;
                    proof {
                        assert(self.sig@ + rsx_body_sig(tokens@, i + 1, false) =~= old(
                            self,
                        ).sig@ + rsx_body_sig(tokens@, 0, false));
                    }
                },
                Tok::Ident { text, .. } => {
                    if after_eq {
                        self.sig.append(text.as_str());
                        string_push(&mut self.sig, '\u{0}');
                    }
                    after_eq = false;
                    proof {
                        assert(self.sig@ + rsx_body_sig(tokens@, i + 1, false) =~= old(
                            self,
                        ).sig@ + rsx_body_sig(tokens@, 0, false));
                    }
                },
                Tok::Punct { ch, .. } => {
                    after_eq = *ch == '=';
                    proof {
                        assert(self.sig@ + rsx_body_sig(tokens@, i + 1, after_eq) =~= old(
                            self,
                        ).sig@ + rsx_body_sig(tokens@, 0, false));
                    }
                },
                Tok::Literal { .. } => {
                    after_eq = false;
                    proof {
                        assert(self.sig@ + rsx_body_sig(tokens@, i + 1, false) =~= old(
                            self,
                        ).sig@ + rsx_body_sig(tokens@, 0, false));
                    }
                },
            }
            i += 1;
        }
        proof {
            assert(rsx_body_sig(tokens@, tokens@.len() as int, after_eq) == Seq::<
                char,
            >::empty());
            assert(final(self).sig@ =~= old(self).sig@ + rsx_body_sig(tokens@, 0, false));
        }
    }

    /// The hash of everything mixed in so far.
    pub fn finish(&self) -> (r: u64)
        ensures
            r == rapid_hash_of(self.sig@),
    {
        rapid_hash(self.sig.as_str())
    }

    /// The hash of one token tree's significant text.
    pub fn hash_tokens(tokens: &Vec<Tok>) -> (r: u64)
        ensures
            r == rapid_hash_of(walk_sig(tokens@, 0)),
    {
        let mut h = HashRsxFile::new();
        h.walk_tokens(tokens);
        proof {
            assert(h.sig@ =~= walk_sig(tokens@, 0));
        }
        h.finish()
    }

    /// Hashes one source unit.  A file with the code extension is parsed
    /// and hashed by its significant tokens — a parse failure is
    /// surfaced, never ignored; any other file is hashed as its raw
    /// text.
    pub fn file_to_hash(file_name: &str, source: &str) -> (r: ParseResult<u64>)
        ensures
            !is_rust_file(file_name@) ==> r == Ok::<u64, ParseError>(rapid_hash_of(source@)),
            is_rust_file(file_name@) ==> match rust_tokens_of(source@) {
                Some(toks) => r == Ok::<u64, ParseError>(rapid_hash_of(walk_sig(toks, 0))),
                None => r is Err,
            },
    {
        if Self::has_rust_extension(file_name) {
            match parse_rust_tokens(source) {
                Ok(tokens) => Ok(Self::hash_tokens(&tokens)),
                Err(e) => Err(e),
            }
        } else {
            Ok(rapid_hash(source))
        }
    }

    /// Whether the file name carries the code extension.
    pub fn has_rust_extension(file_name: &str) -> (r: bool)
        ensures
            r == is_rust_file(file_name@),
    {
        let n: usize = file_name.unicode_len();
        if n < 3 {
            return false;
        }
        let r = file_name.get_char(n - 3) == '.' && file_name.get_char(n - 2) == 'r'
            && file_name.get_char(n - 1) == 's';
        proof {
            if r {
                assert(file_name@.subrange(file_name@.len() - 3, file_name@.len() as int)
                    =~= seq!['.', 'r', 's']);
            } else {
                if file_name@.subrange(file_name@.len() - 3, file_name@.len() as int) == seq![
                    '.',
                    'r',
                    's',
                ] {
                    assert(file_name@.subrange(
                        file_name@.len() - 3,
                        file_name@.len() as int,
                    )[0] == '.');
                    assert(file_name@.subrange(
                        file_name@.len() - 3,
                        file_name@.len() as int,
                    )[1] == 'r');
                    assert(file_name@.subrange(
                        file_name@.len() - 3,
                        file_name@.len() as int,
                    )[2] == 's');
                }
            }
        }
        r
    }
}

} // verus!

verus! {

/// Whether two tokens are the same except for source positions: same
/// variant, same text, same delimiter, and the same contents up to
/// positions.
pub open spec fn tok_eq_mod_span(a: Tok, b: Tok) -> bool
    decreases a,
{
    match a {
        Tok::Ident { text: ta, .. } => match b {
            Tok::Ident { text: tb, .. } => ta@ == tb@,
            _ => false,
        },
        Tok::Punct { ch: ca, .. } => match b {
            Tok::Punct { ch: cb, .. } => ca == cb,
            _ => false,
        },
        Tok::Literal { text: ta, .. } => match b {
            Tok::Literal { text: tb, .. } => ta@ == tb@,
            _ => false,
        },
        Tok::Group { delim: da, inner: ia, .. } => match b {
            Tok::Group { delim: db, inner: ib, .. } => da == db && toks_eq_mod_span(ia@, ib@),
            _ => false,
        },
    }
}

/// Whether two token lists are the same except for source positions.
pub open spec fn toks_eq_mod_span(a: Seq<Tok>, b: Seq<Tok>) -> bool
    decreases a,
{
    a.len() == b.len() && forall|j: int|
        0 <= j < a.len() ==> tok_eq_mod_span(#[trigger] a[j], #[trigger] b[j])
}

/// Moving tokens around in the source never changes the significant
/// text: two sources whose tokens differ only in their positions — a
/// template-macro invocation's position among them — contribute the same
/// text and therefore the same hash.
pub proof fn lemma_walk_sig_ignores_spans(a: Seq<Tok>, b: Seq<Tok>, i: int)
    requires
        toks_eq_mod_span(a, b),
        0 <= i <= a.len(),
    ensures
        walk_sig(a, i) == walk_sig(b, i),
        rapid_hash_of(walk_sig(a, i)) == rapid_hash_of(walk_sig(b, i)),
    decreases a, a.len() - i, 1int,
{
    if i < a.len() {
        assert(tok_eq_mod_span(a[i], b[i]));
        if is_macro_invocation_at(a, i, rsx_name()) || is_macro_invocation_at(b, i, rsx_name()) {
            assert(tok_eq_mod_span(a[i + 1], b[i + 1]));
            assert(tok_eq_mod_span(a[i + 2], b[i + 2]));
            assert(is_macro_invocation_at(a, i, rsx_name()) == is_macro_invocation_at(
                b,
                i,
                rsx_name(),
            ));
            assert(decreases_to!(a => a[i + 2]));
            lemma_rsx_body_sig_ignores_spans(group_inner(a[i + 2]), group_inner(b[i + 2]), 0, false);
            lemma_walk_sig_ignores_spans(a, b, i + 3);
        } else {
            match a[i] {
                Tok::Group { .. } => {
                    assert(decreases_to!(a => a[i]));
                    lemma_walk_sig_ignores_spans(group_inner(a[i]), group_inner(b[i]), 0);
                    lemma_walk_sig_ignores_spans(a, b, i + 1);
                },
                _ => {
                    assert(tok_plain_text(a[i]) == tok_plain_text(b[i]));
                    lemma_walk_sig_ignores_spans(a, b, i + 1);
                },
            }
        }
    }
}

/// The body form of position insensitivity.
pub proof fn lemma_rsx_body_sig_ignores_spans(a: Seq<Tok>, b: Seq<Tok>, i: int, after_eq: bool)
    requires
        toks_eq_mod_span(a, b),
        0 <= i <= a.len(),
    ensures
        rsx_body_sig(a, i, after_eq) == rsx_body_sig(b, i, after_eq),
    decreases a, a.len() - i, 0int,
{
    if i < a.len() {
        assert(tok_eq_mod_span(a[i], b[i]));
        match a[i] {
            Tok::Group { delim, .. } => {
                assert(decreases_to!(a => a[i]));
                if delim == Delim::Brace {
                    lemma_walk_sig_ignores_spans(group_inner(a[i]), group_inner(b[i]), 0);
                } else {
                    lemma_rsx_body_sig_ignores_spans(group_inner(a[i]), group_inner(b[i]), 0, false);
                }
                lemma_rsx_body_sig_ignores_spans(a, b, i + 1, false);
            },
            Tok::Ident { .. } => {
                lemma_rsx_body_sig_ignores_spans(a, b, i + 1, false);
            },
            Tok::Punct { ch, .. } => {
                lemma_rsx_body_sig_ignores_spans(a, b, i + 1, ch == '=');
            },
            Tok::Literal { .. } => {
                lemma_rsx_body_sig_ignores_spans(a, b, i + 1, false);
            },
        }
    }
}

/// Whether two template-macro bodies differ only in parts the hash
/// deliberately excludes: element tag names (identifiers not assigned to
/// an attribute), literal values, and source positions.  Embedded
/// expressions (braced regions) must match up to positions; attribute
/// punctuation and attribute-assigned identifiers must match exactly.
pub open spec fn body_similar(a: Seq<Tok>, b: Seq<Tok>, i: int, after_eq: bool) -> bool
    decreases a, a.len() - i,
    when 0 <= i <= a.len()
{
    a.len() == b.len() && (i >= a.len() || {
        match a[i] {
            Tok::Ident { text: ta, .. } => match b[i] {
                Tok::Ident { text: tb, .. } => (after_eq ==> ta@ == tb@) && body_similar(
                    a,
                    b,
                    i + 1,
                    false,
                ),
                _ => false,
            },
            Tok::Punct { ch: ca, .. } => match b[i] {
                Tok::Punct { ch: cb, .. } => ca == cb && body_similar(a, b, i + 1, ca == '='),
                _ => false,
            },
            Tok::Literal { .. } => match b[i] {
                Tok::Literal { .. } => body_similar(a, b, i + 1, false),
                _ => false,
            },
            Tok::Group { delim: da, .. } => match b[i] {
                Tok::Group { delim: db, .. } => da == db && (if da == Delim::Brace {
                    toks_eq_mod_span(group_inner(a[i]), group_inner(b[i]))
                } else {
                    body_similar(group_inner(a[i]), group_inner(b[i]), 0, false)
                }) && body_similar(a, b, i + 1, false),
                _ => false,
            },
        }
    })
}

/// Template bodies that differ only in excluded parts — tag names,
/// attribute key names, literal values, positions — contribute the same
/// significant text, and therefore the same hash.
pub proof fn lemma_rsx_body_sig_ignores_statics(a: Seq<Tok>, b: Seq<Tok>, i: int, after_eq: bool)
    requires
        body_similar(a, b, i, after_eq),
        0 <= i <= a.len(),
    ensures
        rsx_body_sig(a, i, after_eq) == rsx_body_sig(b, i, after_eq),
        rapid_hash_of(rsx_body_sig(a, i, after_eq)) == rapid_hash_of(rsx_body_sig(b, i, after_eq)),
    decreases a, a.len() - i,
{
    if i < a.len() {
        match a[i] {
            Tok::Group { delim, .. } => {
                assert(decreases_to!(a => a[i]));
                if delim == Delim::Brace {
                    lemma_walk_sig_ignores_spans(group_inner(a[i]), group_inner(b[i]), 0);
                } else {
                    lemma_rsx_body_sig_ignores_statics(
                        group_inner(a[i]),
                        group_inner(b[i]),
                        0,
                        false,
                    );
                }
                lemma_rsx_body_sig_ignores_statics(a, b, i + 1, false);
            },
            Tok::Ident { .. } => {
                lemma_rsx_body_sig_ignores_statics(a, b, i + 1, false);
            },
            Tok::Punct { ch, .. } => {
                lemma_rsx_body_sig_ignores_statics(a, b, i + 1, ch == '=');
            },
            Tok::Literal { .. } => {
                lemma_rsx_body_sig_ignores_statics(a, b, i + 1, false);
            },
        }
    }
}

/// The attribute-assignment flag after scanning tokens `[i, len)`,
/// starting from `f`.
pub open spec fn after_eq_end(toks: Seq<Tok>, i: int, f: bool) -> bool
    decreases toks.len() - i,
    when 0 <= i <= toks.len()
{
    if i >= toks.len() {
        f
    } else {
        match toks[i] {
            Tok::Punct { ch, .. } => after_eq_end(toks, i + 1, ch == '='),
            _ => after_eq_end(toks, i + 1, false),
        }
    }
}

/// Scanning a suffix in place equals scanning it on its own.
proof fn lemma_rsx_body_sig_shift(a: Seq<Tok>, b: Seq<Tok>, j: int, f: bool)
    requires
        0 <= j <= b.len(),
    ensures
        rsx_body_sig(a + b, a.len() + j, f) == rsx_body_sig(b, j, f),
    decreases b.len() - j,
{
    if j < b.len() {
        assert((a + b)[a.len() + j] == b[j]);
        match b[j] {
            Tok::Group { .. } => {
                lemma_rsx_body_sig_shift(a, b, j + 1, false);
            },
            Tok::Ident { .. } => {
                lemma_rsx_body_sig_shift(a, b, j + 1, false);
            },
            Tok::Punct { ch, .. } => {
                lemma_rsx_body_sig_shift(a, b, j + 1, ch == '=');
            },
            Tok::Literal { .. } => {
                lemma_rsx_body_sig_shift(a, b, j + 1, false);
            },
        }
    }
}

/// A body scan splits at any boundary: the prefix's text, then the
/// suffix's text under the flag the prefix ends with.
proof fn lemma_rsx_body_sig_concat(a: Seq<Tok>, b: Seq<Tok>, i: int, f: bool)
    requires
        0 <= i <= a.len(),
    ensures
        rsx_body_sig(a + b, i, f) == rsx_body_sig(a, i, f) + rsx_body_sig(
            b,
            0,
            after_eq_end(a, i, f),
        ),
    decreases a.len() - i,
{
    if i == a.len() {
        lemma_rsx_body_sig_shift(a, b, 0, f);
    } else {
        assert((a + b)[i] == a[i]);
        match a[i] {
            Tok::Group { .. } => {
                lemma_rsx_body_sig_concat(a, b, i + 1, false);
                assert(group_inner((a + b)[i]) == group_inner(a[i]));
                assert(rsx_body_sig(a + b, i, f) =~= rsx_body_sig(a, i, f) + rsx_body_sig(
                    b,
                    0,
                    after_eq_end(a, i, f),
                ));
            },
            Tok::Ident { .. } => {
                lemma_rsx_body_sig_concat(a, b, i + 1, false);
                assert(rsx_body_sig(a + b, i, f) =~= rsx_body_sig(a, i, f) + rsx_body_sig(
                    b,
                    0,
                    after_eq_end(a, i, f),
                ));
            },
            Tok::Punct { ch, .. } => {
                lemma_rsx_body_sig_concat(a, b, i + 1, ch == '=');
                assert(rsx_body_sig(a + b, i, f) =~= rsx_body_sig(a, i, f) + rsx_body_sig(
                    b,
                    0,
                    after_eq_end(a, i, f),
                ));
            },
            Tok::Literal { .. } => {
                lemma_rsx_body_sig_concat(a, b, i + 1, false);
                assert(rsx_body_sig(a + b, i, f) =~= rsx_body_sig(a, i, f) + rsx_body_sig(
                    b,
                    0,
                    after_eq_end(a, i, f),
                ));
            },
        }
    }
}

/// Wrapping a template body in one more element — `<tag>` before it,
/// `</tag>` after it, any tag names, any positions — changes neither
/// which embedded expressions exist nor their order, and therefore not
/// the significant text nor the hash.
pub proof fn lemma_rsx_body_sig_ignores_wrapper(
    body: Seq<Tok>,
    lt1: Tok,
    open_tag: Tok,
    gt1: Tok,
    lt2: Tok,
    slash: Tok,
    close_tag: Tok,
    gt2: Tok,
)
    requires
        lt1 matches Tok::Punct { ch, .. } && ch == '<',
        gt1 matches Tok::Punct { ch, .. } && ch == '>',
        lt2 matches Tok::Punct { ch, .. } && ch == '<',
        slash matches Tok::Punct { ch, .. } && ch == '/',
        gt2 matches Tok::Punct { ch, .. } && ch == '>',
        open_tag matches Tok::Ident { .. },
        close_tag matches Tok::Ident { .. },
    ensures
        rsx_body_sig(
            seq![lt1, open_tag, gt1] + body + seq![lt2, slash, close_tag, gt2],
            0,
            false,
        ) == rsx_body_sig(body, 0, false),
        rapid_hash_of(
            rsx_body_sig(
                seq![lt1, open_tag, gt1] + body + seq![lt2, slash, close_tag, gt2],
                0,
                false,
            ),
        ) == rapid_hash_of(rsx_body_sig(body, 0, false)),
{
    let front = seq![lt1, open_tag, gt1];
    let back = seq![lt2, slash, close_tag, gt2];
    let whole = front + body + back;
    assert(whole =~= front + (body + back));
    lemma_rsx_body_sig_concat(front, body + back, 0, false);
    assert(rsx_body_sig(front, 0, false) =~= Seq::<char>::empty()) by {
        assert(front[0] == lt1);
        assert(front[1] == open_tag);
        assert(front[2] == gt1);
        assert(rsx_body_sig(front, 3, false) == Seq::<char>::empty());
        assert(rsx_body_sig(front, 2, false) =~= Seq::<char>::empty());
        assert(rsx_body_sig(front, 1, false) =~= Seq::<char>::empty());
    }
    assert(after_eq_end(front, 0, false) == false) by {
        assert(front[0] == lt1);
        assert(front[1] == open_tag);
        assert(front[2] == gt1);
        assert(after_eq_end(front, 3, false) == false);
        assert(after_eq_end(front, 2, false) == false);
        assert(after_eq_end(front, 1, false) == false);
    }
    lemma_rsx_body_sig_concat(body, back, 0, false);
    assert(rsx_body_sig(back, 0, after_eq_end(body, 0, false)) =~= Seq::<char>::empty()) by {
        let f0 = after_eq_end(body, 0, false);
        assert(back[0] == lt2);
        assert(back[1] == slash);
        assert(back[2] == close_tag);
        assert(back[3] == gt2);
        assert(rsx_body_sig(back, 4, false) == Seq::<char>::empty());
        assert(rsx_body_sig(back, 3, false) =~= Seq::<char>::empty());
        assert(rsx_body_sig(back, 2, false) =~= Seq::<char>::empty());
        assert(rsx_body_sig(back, 1, false) =~= Seq::<char>::empty());
        assert(rsx_body_sig(back, 0, f0) =~= Seq::<char>::empty());
    }
    assert(rsx_body_sig(whole, 0, false) =~= rsx_body_sig(body, 0, false));
}

} // verus!

verus! {

/// Whether two sources differ only in what the hash deliberately
/// excludes: all source positions, and inside template-macro invocation
/// bodies the statics that [`body_similar`] frees.  Outside invocation
/// bodies the tokens must match text for text; invocations must stand at
/// the same places.
pub open spec fn files_similar(a: Seq<Tok>, b: Seq<Tok>, i: int) -> bool
    decreases a, a.len() - i,
    when 0 <= i <= a.len()
{
    a.len() == b.len() && (i >= a.len() || {
        if is_macro_invocation_at(a, i, rsx_name()) || is_macro_invocation_at(b, i, rsx_name()) {
            &&& is_macro_invocation_at(a, i, rsx_name())
            &&& is_macro_invocation_at(b, i, rsx_name())
            &&& group_inner(a[i + 2]).len() == group_inner(b[i + 2]).len()
            &&& body_similar(group_inner(a[i + 2]), group_inner(b[i + 2]), 0, false)
            &&& files_similar(a, b, i + 3)
        } else {
            match a[i] {
                Tok::Group { .. } => match b[i] {
                    Tok::Group { .. } => {
                        &&& group_inner(a[i]).len() == group_inner(b[i]).len()
                        &&& files_similar(group_inner(a[i]), group_inner(b[i]), 0)
                        &&& files_similar(a, b, i + 1)
                    },
                    _ => false,
                },
                Tok::Ident { text: ta, .. } => match b[i] {
                    Tok::Ident { text: tb, .. } => ta@ == tb@ && files_similar(a, b, i + 1),
                    _ => false,
                },
                Tok::Punct { ch: ca, .. } => match b[i] {
                    Tok::Punct { ch: cb, .. } => ca == cb && files_similar(a, b, i + 1),
                    _ => false,
                },
                Tok::Literal { text: ta, .. } => match b[i] {
                    Tok::Literal { text: tb, .. } => ta@ == tb@ && files_similar(a, b, i + 1),
                    _ => false,
                },
            }
        }
    })
}

/// Two sources that differ only in excluded parts — positions anywhere,
/// and tag names, attribute key names and literal values inside
/// template-macro bodies — mix in the same significant text and hash the
/// same.
pub proof fn lemma_walk_sig_ignores_statics(a: Seq<Tok>, b: Seq<Tok>, i: int)
    requires
        files_similar(a, b, i),
        0 <= i <= a.len(),
    ensures
        walk_sig(a, i) == walk_sig(b, i),
        rapid_hash_of(walk_sig(a, i)) == rapid_hash_of(walk_sig(b, i)),
    decreases a, a.len() - i,
{
    if i < a.len() {
        if is_macro_invocation_at(a, i, rsx_name()) {
            lemma_rsx_body_sig_ignores_statics(
                group_inner(a[i + 2]),
                group_inner(b[i + 2]),
                0,
                false,
            );
            lemma_walk_sig_ignores_statics(a, b, i + 3);
        } else {
            match a[i] {
                Tok::Group { .. } => {
                    assert(decreases_to!(a => a[i]));
                    lemma_walk_sig_ignores_statics(group_inner(a[i]), group_inner(b[i]), 0);
                    lemma_walk_sig_ignores_statics(a, b, i + 1);
                },
                _ => {
                    assert(tok_plain_text(a[i]) == tok_plain_text(b[i]));
                    lemma_walk_sig_ignores_statics(a, b, i + 1);
                },
            }
        }
    }
}

} // verus!
