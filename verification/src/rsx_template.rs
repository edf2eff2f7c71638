//! Template extraction: finding template-macro invocations in source
//! tokens and building the location-keyed template map.

use crate::decimal::all_dec_digits;
use crate::decimal::dec_digits;
use crate::decimal::dec_value;
use crate::decimal::push_dec_u64;
use crate::error::ParseError;
use crate::error::ParseResult;
use crate::hash_file::group_inner;
use crate::hash_file::is_macro_invocation_at;
use crate::hash_file::is_rust_file;
use crate::hash_file::HashRsxFile;
use crate::split::find_from;
use crate::strutil::string_chars;
use crate::strutil::string_push;
use crate::tokens::parse_rust_tokens;
use crate::tokens::rust_tokens_of;
use crate::tokens::spec_col;
use crate::tokens::spec_line;
use crate::tokens::Delim;
use crate::tokens::Tok;
use vstd::prelude::*;

verus! {

/// The source position of one template-macro invocation: the file, and
/// the line (1-based) and column (0-based) of the first token of the
/// macro's argument body (of the body's delimiter, when the body is
/// empty).
#[derive(Debug)]
pub struct RsxMacroLocation {
    pub file: String,
    pub line: u32,
    pub col: u32,
}

impl RsxMacroLocation {
    /// Builds the location from its parts.
    pub fn new(file: &str, line: u32, col: u32) -> (r: RsxMacroLocation)
        ensures
            r.file@ == file@,
            r.line == line,
            r.col == col,
    {
        RsxMacroLocation { file: file.to_owned(), line, col }
    }
}

/// One extracted template: the normalized token text of a template-macro
/// body.  Cosmetic spacing and in-body positions are normalized away;
/// the body's own position is the map key.  A template is immutable and
/// replaced wholesale whenever its source file changes.
#[derive(Debug)]
pub struct Template {
    pub text: String,
}

/// The opening character of a delimiter (none when invisible).
pub open spec fn delim_open(d: Delim) -> Seq<char> {
    match d {
        Delim::Paren => seq!['('],
        Delim::Brace => seq!['{'],
        Delim::Bracket => seq!['['],
        Delim::Invisible => Seq::<char>::empty(),
    }
}

/// The closing character of a delimiter (none when invisible).
pub open spec fn delim_close(d: Delim) -> Seq<char> {
    match d {
        Delim::Paren => seq![')'],
        Delim::Brace => seq!['}'],
        Delim::Bracket => seq![']'],
        Delim::Invisible => Seq::<char>::empty(),
    }
}

/// The canonical text of tokens from index `i` on: token texts in order,
/// one space between adjacent tokens, groups rendered inside their
/// delimiters.
pub open spec fn tokens_text(toks: Seq<Tok>, i: int) -> Seq<char>
    decreases toks, toks.len() - i,
    when 0 <= i <= toks.len()
{
    if i >= toks.len() {
        Seq::<char>::empty()
    } else {
        let t = match toks[i] {
            Tok::Ident { text, .. } => text@,
            Tok::Punct { ch, .. } => seq![ch],
            Tok::Literal { text, .. } => text@,
            Tok::Group { delim, .. } => delim_open(delim) + tokens_text(group_inner(toks[i]), 0)
                + delim_close(delim),
        };
        t + (if i + 1 < toks.len() {
            seq![' ']
        } else {
            Seq::<char>::empty()
        }) + tokens_text(toks, i + 1)
    }
}

/// One found invocation, before the file name is attached: the line and
/// column of its body, and the body's canonical text.
pub type RawTemplate = (u32, u32, Seq<char>);

/// The invocations found among tokens from index `i` on, in source
/// order, outer invocations before the nested ones inside their bodies.
pub open spec fn extract_from(toks: Seq<Tok>, i: int, mac: Seq<char>) -> Seq<RawTemplate>
    decreases toks, toks.len() - i,
    when 0 <= i <= toks.len()
{
    if i >= toks.len() {
        Seq::<RawTemplate>::empty()
    } else if is_macro_invocation_at(toks, i, mac) {
        let inner = group_inner(toks[i + 2]);
        let entry = (
            template_line(toks[i + 2]),
            template_col(toks[i + 2]),
            tokens_text(inner, 0),
        );
        seq![entry] + extract_from(inner, 0, mac) + extract_from(toks, i + 3, mac)
    } else if toks[i] matches Tok::Group { .. } {
        extract_from(group_inner(toks[i]), 0, mac) + extract_from(toks, i + 1, mac)
    } else {
        extract_from(toks, i + 1, mac)
    }
}

/// The line recorded for an invocation whose body is this group: the
/// first body token's line, or the group's own when the body is empty.
pub open spec fn template_line(g: Tok) -> u32 {
    if group_inner(g).len() > 0 {
        spec_line(group_inner(g)[0])
    } else {
        spec_line(g)
    }
}

/// The column recorded for an invocation whose body is this group.
pub open spec fn template_col(g: Tok) -> u32 {
    if group_inner(g).len() > 0 {
        spec_col(group_inner(g)[0])
    } else {
        spec_col(g)
    }
}

/// The abstract content of extracted entries: file, line, column, text.
pub type TemplateEntryView = (Seq<char>, u32, u32, Seq<char>);

/// The abstract content of a stored entry list.
pub open spec fn entries_view(es: Seq<(RsxMacroLocation, Template)>) -> Seq<TemplateEntryView> {
    es.map_values(
        |e: (RsxMacroLocation, Template)| (e.0.file@, e.0.line, e.0.col, e.1.text@),
    )
}

/// Raw found invocations with a file name attached.
pub open spec fn with_file(file: Seq<char>, raw: Seq<RawTemplate>) -> Seq<TemplateEntryView> {
    raw.map_values(|r: RawTemplate| (file, r.0, r.1, r.2))
}

/// Appends the canonical text of tokens from `i` on.
fn push_tokens_text(out: &mut String, toks: &Vec<Tok>)
    ensures
        final(out)@ == old(out)@ + tokens_text(toks@, 0),
    decreases toks@,
{
    let mut i: usize = 0;
    #[verifier::loop_isolation(false)]
    while i < toks.len()
        invariant
            i <= toks@.len(),
            out@ + tokens_text(toks@, i as int) == old(out)@ + tokens_text(toks@, 0),
        decreases toks@.len() - i,
    {
        match &toks[i] {
            Tok::Ident { text, .. } => {
                out.append(text.as_str());
            },
            Tok::Punct { ch, .. } => {
                string_push(out, *ch);
            },
            Tok::Literal { text, .. } => {
                out.append(text.as_str());
            },
            Tok::Group { delim, inner, .. } => {
                proof {
                    assert(decreases_to!(toks@ => toks@[i as int]));
                    assert(decreases_to!(toks@ => inner@));
                    assert(group_inner(toks@[i as int]) == inner@);
                }
                match delim {
                    Delim::Paren => string_push(out, '('),
                    Delim::Brace => string_push(out, '{'),
                    Delim::Bracket => string_push(out, '['),
                    Delim::Invisible => (),
                }
                push_tokens_text(out, inner);
                match delim {
                    Delim::Paren => string_push(out, ')'),
                    Delim::Brace => string_push(out, '}'),
                    Delim::Bracket => string_push(out, ']'),
                    Delim::Invisible => (),
                }
            },
        }
        if i + 1 < toks.len() {
            string_push(out, ' ');
        }
        proof {
            assert(out@ + tokens_text(toks@, i + 1) =~= old(out)@ + tokens_text(toks@, 0));
        }
        i += 1;
    }
    proof {
        assert(tokens_text(toks@, toks@.len() as int) == Seq::<char>::empty());
        assert(final(out)@ =~= old(out)@ + tokens_text(toks@, 0));
    }
}

impl Template {
    /// The normalized template of one invocation body.
    pub fn from_tokens(toks: &Vec<Tok>) -> (r: Template)
        ensures
            r.text@ == tokens_text(toks@, 0),
    {
        let mut text = String::new();
        push_tokens_text(&mut text, toks);
        proof {
            assert(text@ =~= tokens_text(toks@, 0));
        }
        Template { text }
    }
}

/// Walks a source's token tree top-down and collects every invocation of
/// the configured template macro: its location (from the span of the
/// macro's argument tokens, matching the behavior of the macro itself)
/// and its normalized template.
#[derive(Debug)]
pub struct RsxSynVisitor {
    /// The file the walked tokens came from.
    pub file: String,
    /// The invocations found so far, in source order.
    pub templates: Vec<(RsxMacroLocation, Template)>,
    /// The name of the template macro to look for.
    pub mac: String,
}

impl RsxSynVisitor {
    /// A visitor for `file`, looking for invocations of `mac`.
    pub fn new(file: &str, mac: &str) -> (r: RsxSynVisitor)
        ensures
            r.file@ == file@,
            r.mac@ == mac@,
            r.templates@.len() == 0,
    {
        RsxSynVisitor { file: file.to_owned(), templates: Vec::new(), mac: mac.to_owned() }
    }

    /// Whether an invocation of the configured macro starts at token `i`.
    fn is_invocation_at(&self, tokens: &Vec<Tok>, i: usize) -> (r: bool)
        requires
            i <= tokens@.len(),
        ensures
            r == is_macro_invocation_at(tokens@, i as int, self.mac@),
    {
        if tokens.len() < 3 || i > tokens.len() - 3 {
            return false;
        }
        let name_ok = match &tokens[i] {
            Tok::Ident { text, .. } => *text == self.mac,
            _ => false,
        };
        if !name_ok {
            return false;
        }
        let bang_ok = match &tokens[i + 1] {
            Tok::Punct { ch, .. } => *ch == '!',
            _ => false,
        };
        if !bang_ok {
            return false;
        }
        match &tokens[i + 2] {
            Tok::Group { .. } => true,
            _ => false,
        }
    }

    /// Collects every invocation of the configured macro among these
    /// tokens, outer invocations before the nested ones inside their
    /// bodies.
    pub fn visit_tokens(&mut self, tokens: &Vec<Tok>)
        ensures
            final(self).file@ == old(self).file@,
            final(self).mac@ == old(self).mac@,
            entries_view(final(self).templates@) == entries_view(old(self).templates@)
                + with_file(
                old(self).file@,
                extract_from(tokens@, 0, old(self).mac@),
            ),
        decreases tokens@,
    {
        let ghost file0 = self.file@;
        let ghost mac0 = self.mac@;
        let mut i: usize = 0;
        #[verifier::loop_isolation(false)]
        while i < tokens.len()
            invariant
                i <= tokens@.len(),
                self.file@ == file0,
                self.mac@ == mac0,
                entries_view(self.templates@) + with_file(
                    file0,
                    extract_from(tokens@, i as int, mac0),
                ) == entries_view(old(self).templates@) + with_file(
                    file0,
                    extract_from(tokens@, 0, mac0),
                ),
            decreases tokens@.len() - i,
        {
            if self.is_invocation_at(tokens, i) {
                match &tokens[i + 2] {
                    Tok::Group { inner, .. } => {
                        proof {
                            assert(decreases_to!(tokens@ => tokens@[i + 2]));
                            assert(decreases_to!(tokens@ => inner@));
                            assert(group_inner(tokens@[i + 2]) == inner@);
                        }
                        let g = &tokens[i + 2];
                        let (line, col) = if inner.len() > 0 {
                            (inner[0].line(), inner[0].col())
                        } else {
                            (g.line(), g.col())
                        };
                        let loc = RsxMacroLocation::new(self.file.as_str(), line, col);
                        let tpl = Template::from_tokens(inner);
                        let ghost pre = self.templates@;
                        self.templates.push((loc, tpl));
                        proof {
                            assert(entries_view(self.templates@) =~= entries_view(pre).push(
                                (file0, line, col, tpl.text@),
                            ));
                        }
                        self.visit_tokens(inner);
                        proof {
                            let entry = (
                                template_line(tokens@[i + 2]),
                                template_col(tokens@[i + 2]),
                                tokens_text(inner@, 0),
                            );
                            assert(extract_from(tokens@, i as int, mac0) == seq![entry]
                                + extract_from(inner@, 0, mac0) + extract_from(
                                tokens@,
                                i + 3,
                                mac0,
                            ));
                            assert(entries_view(self.templates@) + with_file(
                                file0,
                                extract_from(tokens@, i + 3, mac0),
                            ) =~= entries_view(old(self).templates@) + with_file(
                                file0,
                                extract_from(tokens@, 0, mac0),
                            ));
                        }
                        i += 3;
                    },
                    _ => {
                        proof {
                            assert(false);
                        }
                        i += 3;
                    },
                }
            } else {
                match &tokens[i] {
                    Tok::Group { inner, .. } => {
                        proof {
                            assert(decreases_to!(tokens@ => tokens@[i as int]));
                            assert(decreases_to!(tokens@ => inner@));
                            assert(group_inner(tokens@[i as int]) == inner@);
                        }
                        self.visit_tokens(inner);
                        proof {
                            assert(entries_view(self.templates@) + with_file(
                                file0,
                                extract_from(tokens@, i + 1, mac0),
                            ) =~= entries_view(old(self).templates@) + with_file(
                                file0,
                                extract_from(tokens@, 0, mac0),
                            ));
                        }
                    },
                    _ => {
                        proof {
                            assert(extract_from(tokens@, i as int, mac0) == extract_from(
                                tokens@,
                                i + 1,
                                mac0,
                            ));
                        }
                    },
                }
                i += 1;
            }
        }
        proof {
            assert(extract_from(tokens@, tokens@.len() as int, mac0) == Seq::<
                RawTemplate,
            >::empty());
            assert(with_file(file0, Seq::<RawTemplate>::empty()) =~= Seq::<
                TemplateEntryView,
            >::empty());
            assert(entries_view(final(self).templates@) =~= entries_view(old(self).templates@)
                + with_file(file0, extract_from(tokens@, 0, mac0)));
        }
    }
}

} // verus!

verus! {

/// The persisted form of one entry: the file name's character count, the
/// file name, the line, the column, the template text's character count,
/// and the text, space-separated, ending in one newline.  The counts make
/// arbitrary file names and template texts safe to carry verbatim.
pub open spec fn entry_text(e: TemplateEntryView) -> Seq<char> {
    dec_digits(e.0.len()) + seq![' '] + e.0 + seq![' '] + dec_digits(e.1 as nat) + seq![' ']
        + dec_digits(e.2 as nat) + seq![' '] + dec_digits(e.3.len()) + seq![' '] + e.3 + seq![
        '\n',
    ]
}

/// The persisted entries from index `i` on, concatenated.
pub open spec fn entries_text(es: Seq<TemplateEntryView>, i: int) -> Seq<char>
    decreases es.len() - i,
    when 0 <= i <= es.len()
{
    if i >= es.len() {
        Seq::<char>::empty()
    } else {
        entry_text(es[i]) + entries_text(es, i + 1)
    }
}

/// The persisted form of a whole template map: the entry count on its
/// own line, then one line per entry.
pub open spec fn template_map_text(es: Seq<TemplateEntryView>) -> Seq<char> {
    dec_digits(es.len()) + seq!['\n'] + entries_text(es, 0)
}

/// Reads a number field ending in `d`: `None` unless the characters from
/// `pos` to the first `d` form a digit run whose value fits in `u64`.
/// Returns the value and the position after the delimiter.
pub open spec fn take_num(s: Seq<char>, pos: int, d: char) -> Option<(nat, int)> {
    if !(0 <= pos <= s.len()) {
        None
    } else {
        let e = find_from(s, pos, d);
        let fld = s.subrange(pos, e);
        if e < s.len() && fld.len() >= 1 && all_dec_digits(fld) && dec_value(fld) <= u64::MAX {
            Some((dec_value(fld), e + 1))
        } else {
            None
        }
    }
}

/// Parses one persisted entry at `pos`: `None` when any field is absent,
/// out of range, or not followed by its delimiter.  Returns the entry and
/// the position after its newline.
pub open spec fn parse_entry(s: Seq<char>, pos: int) -> Option<(TemplateEntryView, int)> {
    match take_num(s, pos, ' ') {
        None => None,
        Some((flen, p1)) => if flen > usize::MAX || p1 + flen > s.len() {
            None
        } else {
            let file = s.subrange(p1, p1 + flen);
            let p2 = p1 + flen;
            if !(p2 < s.len() && s[p2] == ' ') {
                None
            } else {
                match take_num(s, p2 + 1, ' ') {
                    None => None,
                    Some((line, p3)) => if line > u32::MAX {
                        None
                    } else {
                        match take_num(s, p3, ' ') {
                            None => None,
                            Some((col, p4)) => if col > u32::MAX {
                                None
                            } else {
                                match take_num(s, p4, ' ') {
                                    None => None,
                                    Some((tlen, p5)) => if tlen > usize::MAX || p5 + tlen
                                        > s.len() {
                                        None
                                    } else {
                                        let text = s.subrange(p5, p5 + tlen);
                                        let p6 = p5 + tlen;
                                        if !(p6 < s.len() && s[p6] == '\n') {
                                            None
                                        } else {
                                            Some(
                                                (
                                                    (file, line as u32, col as u32, text),
                                                    p6 + 1,
                                                ),
                                            )
                                        }
                                    },
                                }
                            },
                        }
                    },
                }
            }
        },
    }
}

/// Parses `k` consecutive entries from `pos`.
pub open spec fn parse_entries(s: Seq<char>, pos: int, k: nat) -> Option<(
    Seq<TemplateEntryView>,
    int,
)>
    decreases k,
{
    if !(0 <= pos <= s.len()) {
        None
    } else if k == 0 {
        Some((Seq::<TemplateEntryView>::empty(), pos))
    } else {
        match parse_entry(s, pos) {
            None => None,
            Some((e, p)) => match parse_entries(s, p, (k - 1) as nat) {
                None => None,
                Some((es, p2)) => Some((seq![e] + es, p2)),
            },
        }
    }
}

/// Parses a whole persisted map: the count line, that many entries, and
/// nothing after them.
pub open spec fn parse_template_map(s: Seq<char>) -> Option<Seq<TemplateEntryView>> {
    match take_num(s, 0, '\n') {
        None => None,
        Some((count, pos)) => match parse_entries(s, pos, count) {
            None => None,
            Some((es, end)) => if end == s.len() {
                Some(es)
            } else {
                None
            },
        },
    }
}

} // verus!

verus! {

/// Copies `s[a..b]` into a fresh vector.
fn copy_range(s: &Vec<char>, a: usize, b: usize) -> (r: Vec<char>)
    requires
        a <= b <= s@.len(),
    ensures
        r@ == s@.subrange(a as int, b as int),
{
    let mut r: Vec<char> = Vec::new();
    let mut k: usize = a;
    #[verifier::loop_isolation(false)]
    while k < b
        invariant
            a <= k <= b,
            r@ == s@.subrange(a as int, k as int),
        decreases b - k,
    {
        r.push(s[k]);
        proof {
            assert(r@ =~= s@.subrange(a as int, k + 1));
        }
        k += 1;
    }
    r
}

/// Reads a number field ending in `d`.
fn read_num(s: &Vec<char>, pos: usize, d: char) -> (r: Option<(u64, usize)>)
    requires
        pos <= s@.len(),
    ensures
        match r {
            Some((n, p)) => take_num(s@, pos as int, d) == Some((n as nat, p as int)),
            None => take_num(s@, pos as int, d) is None,
        },
{
    let f = crate::split::find_char_from(s, pos, d);
    proof {
        crate::split::lemma_find_from(s@, pos as int, d);
    }
    if f == s.len() {
        return None;
    }
    let fld = copy_range(s, pos, f);
    match crate::decimal::parse_dec_u64(&fld) {
        Some(n) => Some((n, f + 1)),
        None => None,
    }
}

/// One source unit handed to the builder: where it came from and what it
/// holds.
#[derive(Debug)]
pub struct SourceFile {
    /// The path the unit was read from.
    pub path: String,
    /// The unit's full text.
    pub content: String,
}

/// The abstract content of one source unit.
pub open spec fn file_view(f: SourceFile) -> (Seq<char>, Seq<char>) {
    (f.path@, f.content@)
}

/// The entries one source unit contributes: none for a non-code unit,
/// its invocations for a code unit, nothing for one that fails to parse.
pub open spec fn file_entries(name: Seq<char>, src: Seq<char>) -> Option<Seq<TemplateEntryView>> {
    if !is_rust_file(name) {
        Some(Seq::<TemplateEntryView>::empty())
    } else {
        match rust_tokens_of(src) {
            Some(t) => Some(with_file(name, extract_from(t, 0, crate::hash_file::rsx_name()))),
            None => None,
        }
    }
}

/// The entries a list of source units contributes, in unit order; `None`
/// as soon as one code unit fails to parse.
pub open spec fn files_entries(fs: Seq<SourceFile>, i: int) -> Option<Seq<TemplateEntryView>>
    decreases fs.len() - i,
    when 0 <= i <= fs.len()
{
    if i >= fs.len() {
        Some(Seq::<TemplateEntryView>::empty())
    } else {
        match file_entries(fs[i].path@, fs[i].content@) {
            None => None,
            Some(es) => match files_entries(fs, i + 1) {
                None => None,
                Some(rest) => Some(es + rest),
            },
        }
    }
}

/// Whether entry contents are machine-sized: entry and text counts that
/// the persisted form can carry.
pub open spec fn entries_bounded(es: Seq<TemplateEntryView>) -> bool {
    es.len() <= u64::MAX && forall|k: int|
        0 <= k < es.len() ==> (#[trigger] es[k]).0.len() <= usize::MAX && es[k].3.len()
            <= usize::MAX
}

/// The template map of one project: every extracted template, keyed by
/// the location of its invocation.  Rebuilt fresh on every extraction
/// pass and persisted as the authoritative cache of what the templates
/// currently look like.
#[derive(Debug)]
pub struct RsxTemplateMap {
    /// The extracted entries, in extraction order.
    pub entries: Vec<(RsxMacroLocation, Template)>,
}

impl RsxTemplateMap {
    /// The number of templates in the map.
    pub fn len(&self) -> (r: usize)
        ensures
            r == self.entries@.len(),
    {
        self.entries.len()
    }

    /// Appends one entry's persisted line.
    fn push_entry_text(out: &mut String, loc: &RsxMacroLocation, tpl: &Template)
        ensures
            final(out)@ == old(out)@ + entry_text((loc.file@, loc.line, loc.col, tpl.text@)),
            loc.file@.len() <= usize::MAX,
            tpl.text@.len() <= usize::MAX,
    {
        let ghost base = out@;
        let flen: usize = loc.file.as_str().unicode_len();
        push_dec_u64(out, flen as u64);
        string_push(out, ' ');
        let ghost s1 = base + dec_digits(loc.file@.len()) + seq![' '];
        proof {
            assert(out@ =~= s1);
        }
        out.append(loc.file.as_str());
        string_push(out, ' ');
        let ghost s2 = s1 + loc.file@ + seq![' '];
        proof {
            assert(out@ =~= s2);
        }
        push_dec_u64(out, loc.line as u64);
        string_push(out, ' ');
        push_dec_u64(out, loc.col as u64);
        string_push(out, ' ');
        let ghost s3 = s2 + dec_digits(loc.line as nat) + seq![' '] + dec_digits(loc.col as nat)
            + seq![' '];
        proof {
            assert(out@ =~= s3);
        }
        let tlen: usize = tpl.text.as_str().unicode_len();
        push_dec_u64(out, tlen as u64);
        string_push(out, ' ');
        out.append(tpl.text.as_str());
        string_push(out, '\n');
        proof {
            assert(out@ =~= s3 + dec_digits(tpl.text@.len()) + seq![' '] + tpl.text@ + seq![
                '\n',
            ]);
            assert(out@ =~= base + entry_text((loc.file@, loc.line, loc.col, tpl.text@)));
        }
    }

    /// Renders the map in its persisted form: the entry count, then one
    /// line per entry.
    pub fn to_text(&self) -> (r: String)
        ensures
            r@ == template_map_text(entries_view(self.entries@)),
            entries_bounded(entries_view(self.entries@)),
    {
        let ghost views = entries_view(self.entries@);
        let mut s = String::new();
        push_dec_u64(&mut s, self.entries.len() as u64);
        string_push(&mut s, '\n');
        let mut k: usize = 0;
        #[verifier::loop_isolation(false)]
        while k < self.entries.len()
            invariant
                k <= self.entries@.len(),
                s@ + entries_text(views, k as int) == template_map_text(views),
                forall|j: int|
                    0 <= j < k ==> (#[trigger] views[j]).0.len() <= usize::MAX && views[j].3.len()
                        <= usize::MAX,
            decreases self.entries@.len() - k,
        {
            let entry = &self.entries[k];
            let ghost pre = s@;
            Self::push_entry_text(&mut s, &entry.0, &entry.1);
            proof {
                assert(views[k as int] == (
                    entry.0.file@,
                    entry.0.line,
                    entry.0.col,
                    entry.1.text@,
                ));
                assert(s@ + entries_text(views, k + 1) =~= pre + entries_text(views, k as int));
            }
            k += 1;
        }
        proof {
            assert(entries_text(views, views.len() as int) == Seq::<char>::empty());
            assert(s@ =~= template_map_text(views));
        }
        s
    }

    /// Reads one persisted entry at `pos`.
    fn read_entry(s: &Vec<char>, pos: usize) -> (r: Option<(RsxMacroLocation, Template, usize)>)
        requires
            pos <= s@.len(),
        ensures
            match r {
                Some((loc, tpl, p)) => parse_entry(s@, pos as int) == Some(
                    ((loc.file@, loc.line, loc.col, tpl.text@), p as int),
                ) && p <= s@.len(),
                None => parse_entry(s@, pos as int) is None,
            },
    {
        let (flen64, p1) = match read_num(s, pos, ' ') {
            Some(x) => x,
            None => {
                return None;
            },
        };
        if flen64 > (s.len() - p1) as u64 {
            return None;
        }
        let flen: usize = flen64 as usize;
        let file_chars = copy_range(s, p1, p1 + flen);
        let p2: usize = p1 + flen;
        if !(p2 < s.len() && s[p2] == ' ') {
            return None;
        }
        let (line64, p3) = match read_num(s, p2 + 1, ' ') {
            Some(x) => x,
            None => {
                return None;
            },
        };
        if line64 > u32::MAX as u64 {
            return None;
        }
        let (col64, p4) = match read_num(s, p3, ' ') {
            Some(x) => x,
            None => {
                return None;
            },
        };
        if col64 > u32::MAX as u64 {
            return None;
        }
        let (tlen64, p5) = match read_num(s, p4, ' ') {
            Some(x) => x,
            None => {
                return None;
            },
        };
        if tlen64 > (s.len() - p5) as u64 {
            return None;
        }
        let tlen: usize = tlen64 as usize;
        let text_chars = copy_range(s, p5, p5 + tlen);
        let p6: usize = p5 + tlen;
        if !(p6 < s.len() && s[p6] == '\n') {
            return None;
        }
        let file = crate::strutil::chars_to_string(&file_chars);
        let text = crate::strutil::chars_to_string(&text_chars);
        let loc = RsxMacroLocation { file, line: line64 as u32, col: col64 as u32 };
        let tpl = Template { text };
        Some((loc, tpl, p6 + 1))
    }

    /// Parses the persisted form back into a map: the count line, that
    /// many entries, nothing after them.  A malformed field or a missing
    /// portion is rejected.
    pub fn from_text(text: &str) -> (r: ParseResult<RsxTemplateMap>)
        ensures
            match parse_template_map(text@) {
                Some(views) => match r {
                    Ok(m) => entries_view(m.entries@) == views,
                    Err(_) => false,
                },
                None => r is Err,
            },
    {
        let chars = string_chars(text);
        let (count, start) = match read_num(&chars, 0, '\n') {
            Some(x) => x,
            None => {
                return Err(ParseError::MissingField(String::from_str("template count")));
            },
        };
        let mut entries: Vec<(RsxMacroLocation, Template)> = Vec::new();
        let mut pos: usize = start;
        let mut j: u64 = 0;
        #[verifier::loop_isolation(false)]
        while j < count
            invariant
                j <= count,
                pos <= chars@.len(),
                entries@.len() == j,
                parse_entries(chars@, start as int, count as nat) == (match parse_entries(
                    chars@,
                    pos as int,
                    (count - j) as nat,
                ) {
                    Some((vs, e)) => Some((entries_view(entries@) + vs, e)),
                    None => None::<(Seq<TemplateEntryView>, int)>,
                }),
            decreases count - j,
        {
            let (loc, tpl, p) = match Self::read_entry(&chars, pos) {
                Some(x) => x,
                None => {
                    return Err(ParseError::MissingField(String::from_str("template entry")));
                },
            };
            let ghost pre = entries@;
            entries.push((loc, tpl));
            proof {
                assert(entries_view(entries@) =~= entries_view(pre).push(
                    (loc.file@, loc.line, loc.col, tpl.text@),
                ));
                let sub = parse_entries(chars@, p as int, (count - j - 1) as nat);
                match sub {
                    Some((vs, e)) => {
                        assert(entries_view(entries@) + vs =~= entries_view(pre) + (seq![
                            (loc.file@, loc.line, loc.col, tpl.text@),
                        ] + vs));
                    },
                    None => {},
                }
            }
            pos = p;
            j += 1;
        }
        if pos != chars.len() {
            return Err(ParseError::Syntax(String::from_str("unexpected trailing text")));
        }
        let r = RsxTemplateMap { entries };
        proof {
            assert(parse_entries(chars@, pos as int, 0) == Some(
                (Seq::<TemplateEntryView>::empty(), pos as int),
            ));
            assert(entries_view(r.entries@) + Seq::<TemplateEntryView>::empty()
                =~= entries_view(r.entries@));
        }
        Ok(r)
    }
}

} // verus!

verus! {

/// A digit run followed by its delimiter reads back as its value.
proof fn lemma_take_num_at(s: Seq<char>, pos: int, d: char, n: nat)
    requires
        !crate::decimal::is_dec_digit(d),
        n <= u64::MAX,
        0 <= pos,
        pos + dec_digits(n).len() < s.len(),
        s.subrange(pos, pos + dec_digits(n).len() as int) == dec_digits(n),
        s[pos + dec_digits(n).len() as int] == d,
    ensures
        take_num(s, pos, d) == Some((n, pos + dec_digits(n).len() + 1)),
{
    let dn = dec_digits(n);
    crate::decimal::lemma_dec_digits_are_digits(n);
    crate::decimal::lemma_dec_value_of_digits(n);
    assert forall|j: int| pos <= j < pos + dn.len() implies s[j] != d by {
        assert(s[j] == s.subrange(pos, pos + dn.len() as int)[j - pos]);
        assert(crate::decimal::is_dec_digit(dn[j - pos]));
    }
    crate::split::lemma_find_from_exact(s, pos, d, pos + dn.len() as int);
}

/// One persisted entry parses back to itself, wherever it stands.
#[verifier::rlimit(100)]
proof fn lemma_parse_entry_at(s: Seq<char>, pos: int, e: TemplateEntryView)
    requires
        e.0.len() <= usize::MAX,
        e.3.len() <= usize::MAX,
        0 <= pos,
        pos + entry_text(e).len() <= s.len(),
        s.subrange(pos, pos + entry_text(e).len()) == entry_text(e),
    ensures
        parse_entry(s, pos) == Some((e, pos + entry_text(e).len())),
{
    let t = entry_text(e);
    let d1 = dec_digits(e.0.len());
    let d2 = dec_digits(e.1 as nat);
    let d3 = dec_digits(e.2 as nat);
    let d4 = dec_digits(e.3.len());
    crate::decimal::lemma_dec_digits_are_digits(e.0.len());
    crate::decimal::lemma_dec_digits_are_digits(e.1 as nat);
    crate::decimal::lemma_dec_digits_are_digits(e.2 as nat);
    crate::decimal::lemma_dec_digits_are_digits(e.3.len());
    crate::decimal::lemma_dec_value_of_digits(e.0.len());
    crate::decimal::lemma_dec_value_of_digits(e.1 as nat);
    crate::decimal::lemma_dec_value_of_digits(e.2 as nat);
    crate::decimal::lemma_dec_value_of_digits(e.3.len());
    let a1 = d1.len() as int;
    let a2 = a1 + 1;
    let a3 = a2 + e.0.len() as int;
    let a4 = a3 + 1;
    let a5 = a4 + d2.len() as int;
    let a6 = a5 + 1;
    let a7 = a6 + d3.len() as int;
    let a8 = a7 + 1;
    let a9 = a8 + d4.len() as int;
    let a10 = a9 + 1;
    let a11 = a10 + e.3.len() as int;
    let a12 = a11 + 1;
    assert(t.len() == a12);
    assert forall|j: int| 0 <= j < t.len() implies s[pos + j] == t[j] by {
        assert(s.subrange(pos, pos + t.len() as int)[j] == s[pos + j]);
    }
    // the count field of the file name
    assert forall|j: int| 0 <= j < a1 implies t[j] == d1[j] by {}
    assert(t[a1] == ' ');
    assert(s.subrange(pos, pos + a1) =~= d1);
    lemma_take_num_at(s, pos, ' ', e.0.len());
    assert(take_num(s, pos, ' ') == Some((e.0.len(), pos + a2)));
    // the file name itself
    assert forall|j: int| 0 <= j < e.0.len() implies t[a2 + j] == e.0[j] by {}
    assert(s.subrange(pos + a2, pos + a3) =~= e.0);
    assert(t[a3] == ' ');
    assert(s[pos + a3] == ' ');
    // the line
    assert forall|j: int| 0 <= j < d2.len() implies t[a4 + j] == d2[j] by {}
    assert(t[a5] == ' ');
    assert(s.subrange(pos + a4, pos + a5) =~= d2);
    lemma_take_num_at(s, pos + a4, ' ', e.1 as nat);
    assert(take_num(s, pos + a4, ' ') == Some((e.1 as nat, pos + a6)));
    // the column
    assert forall|j: int| 0 <= j < d3.len() implies t[a6 + j] == d3[j] by {}
    assert(t[a7] == ' ');
    assert(s.subrange(pos + a6, pos + a7) =~= d3);
    lemma_take_num_at(s, pos + a6, ' ', e.2 as nat);
    assert(take_num(s, pos + a6, ' ') == Some((e.2 as nat, pos + a8)));
    // the count field of the template text
    assert forall|j: int| 0 <= j < d4.len() implies t[a8 + j] == d4[j] by {}
    assert(t[a9] == ' ');
    assert(s.subrange(pos + a8, pos + a9) =~= d4);
    lemma_take_num_at(s, pos + a8, ' ', e.3.len());
    assert(take_num(s, pos + a8, ' ') == Some((e.3.len(), pos + a10)));
    // the template text and the closing newline
    assert forall|j: int| 0 <= j < e.3.len() implies t[a10 + j] == e.3[j] by {}
    assert(s.subrange(pos + a10, pos + a11) =~= e.3);
    assert(t[a11] == '\n');
    assert(s[pos + a11] == '\n');
}

/// Consecutive persisted entries parse back to themselves.
proof fn lemma_parse_entries_at(s: Seq<char>, es: Seq<TemplateEntryView>, i: int, pos: int)
    requires
        entries_bounded(es),
        0 <= i <= es.len(),
        0 <= pos <= s.len(),
        s.subrange(pos, s.len() as int) == entries_text(es, i),
    ensures
        parse_entries(s, pos, (es.len() - i) as nat) == Some(
            (es.subrange(i, es.len() as int), s.len() as int),
        ),
    decreases es.len() - i,
{
    if i == es.len() {
        assert(entries_text(es, i) == Seq::<char>::empty());
        assert(s.len() - pos == 0);
        assert(es.subrange(i, es.len() as int) =~= Seq::<TemplateEntryView>::empty());
    } else {
        let t = entry_text(es[i]);
        let rest = entries_text(es, i + 1);
        assert(entries_text(es, i) == t + rest);
        assert(pos + t.len() <= s.len());
        assert(s.subrange(pos, pos + t.len() as int) =~= t) by {
            assert forall|j: int| 0 <= j < t.len() implies s.subrange(
                pos,
                pos + t.len() as int,
            )[j] == t[j] by {
                assert(s[pos + j] == s.subrange(pos, s.len() as int)[j]);
                assert((t + rest)[j] == t[j]);
            }
        }
        lemma_parse_entry_at(s, pos, es[i]);
        assert(s.subrange(pos + t.len() as int, s.len() as int) =~= rest) by {
            assert forall|j: int| 0 <= j < rest.len() implies s.subrange(
                pos + t.len() as int,
                s.len() as int,
            )[j] == rest[j] by {
                assert(s[pos + t.len() + j] == s.subrange(pos, s.len() as int)[t.len() + j]);
                assert((t + rest)[t.len() + j] == rest[j]);
            }
        }
        lemma_parse_entries_at(s, es, i + 1, pos + t.len() as int);
        assert(seq![es[i]] + es.subrange(i + 1, es.len() as int) =~= es.subrange(
            i,
            es.len() as int,
        ));
    }
}

/// Parsing inverts rendering: every machine-sized entry list's persisted
/// form parses back to the same entries.
pub proof fn lemma_template_map_round_trip(es: Seq<TemplateEntryView>)
    requires
        entries_bounded(es),
    ensures
        parse_template_map(template_map_text(es)) == Some(es),
{
    let s = template_map_text(es);
    let cd = dec_digits(es.len());
    crate::decimal::lemma_dec_digits_are_digits(es.len());
    crate::decimal::lemma_dec_value_of_digits(es.len());
    crate::decimal::lemma_digits_no_char(es.len(), '\n');
    let body = entries_text(es, 0);
    assert(s == cd + seq!['\n'] + body);
    assert(s[cd.len() as int] == '\n');
    assert forall|j: int| 0 <= j < cd.len() implies s[j] != '\n' by {
        assert(s[j] == cd[j]);
        assert(crate::decimal::is_dec_digit(cd[j]));
    }
    crate::split::lemma_find_from_exact(s, 0, '\n', cd.len() as int);
    assert(s.subrange(0, cd.len() as int) =~= cd);
    assert(take_num(s, 0, '\n') == Some((es.len(), cd.len() as int + 1)));
    assert(s.subrange(cd.len() as int + 1, s.len() as int) =~= body);
    lemma_parse_entries_at(s, es, 0, cd.len() as int + 1);
    assert(es.subrange(0, es.len() as int) =~= es);
}

} // verus!

verus! {

/// Builds the template map of a project: every source file under a
/// source root is scanned for template-macro invocations, and the result
/// is rendered for persisting to a destination path.  Listing the files
/// and writing the result are the caller's concern; this builder turns
/// their contents into the map and its persisted text.
#[derive(Debug)]
pub struct BuildRsxTemplateMap {
    /// Re-parse the rendered text and re-render it as a self-check that
    /// the persisted form round-trips.
    pub pretty: bool,
    /// The source root the file list was gathered from.
    pub src: String,
    /// Where the rendered map is to be persisted.
    pub dst: String,
}

/// The default destination of the persisted map.
pub open spec fn spec_default_templates_dst() -> Seq<char> {
    "target/rsx-templates.txt"@
}

impl BuildRsxTemplateMap {
    /// The default destination of the persisted map.
    pub fn default_templates_dst() -> (r: &'static str)
        ensures
            r@ == spec_default_templates_dst(),
    {
        "target/rsx-templates.txt"
    }

    /// A builder for `src`, persisting to the default destination,
    /// pretty-checked.
    pub fn new(src: &str) -> (r: BuildRsxTemplateMap)
        ensures
            r.pretty,
            r.src@ == src@,
            r.dst@ == spec_default_templates_dst(),
    {
        Self::new_with_dst(src, Self::default_templates_dst())
    }

    /// A builder for `src`, persisting to `dst`, pretty-checked.
    pub fn new_with_dst(src: &str, dst: &str) -> (r: BuildRsxTemplateMap)
        ensures
            r.pretty,
            r.src@ == src@,
            r.dst@ == dst@,
    {
        BuildRsxTemplateMap { pretty: true, src: src.to_owned(), dst: dst.to_owned() }
    }

    /// The template-macro invocations of one source unit.  A unit without
    /// the code extension contributes nothing; a code unit that fails to
    /// parse is an error, never skipped.
    pub fn file_templates(&self, path: &str, source: &str) -> (r: ParseResult<
        Vec<(RsxMacroLocation, Template)>,
    >)
        ensures
            match file_entries(path@, source@) {
                Some(views) => match r {
                    Ok(v) => entries_view(v@) == views,
                    Err(_) => false,
                },
                None => r is Err,
            },
    {
        if HashRsxFile::has_rust_extension(path) {
            match parse_rust_tokens(source) {
                Ok(tokens) => {
                    let mut visitor = RsxSynVisitor::new(path, "rsx");
                    proof {
                        reveal_strlit("rsx");
                        assert(visitor.mac@ =~= crate::hash_file::rsx_name());
                        assert(entries_view(visitor.templates@) =~= Seq::<
                            TemplateEntryView,
                        >::empty());
                    }
                    visitor.visit_tokens(&tokens);
                    proof {
                        assert(entries_view(visitor.templates@) =~= with_file(
                            path@,
                            extract_from(tokens@, 0, crate::hash_file::rsx_name()),
                        ));
                    }
                    Ok(visitor.templates)
                },
                Err(e) => Err(e),
            }
        } else {
            let r: Vec<(RsxMacroLocation, Template)> = Vec::new();
            proof {
                assert(entries_view(r@) =~= Seq::<TemplateEntryView>::empty());
            }
            Ok(r)
        }
    }

    /// Folds the invocations of every source unit, in unit order, into
    /// one map.  Fails on the first code unit that does not parse.
    pub fn build(&self, files: &Vec<SourceFile>) -> (r: ParseResult<RsxTemplateMap>)
        ensures
            match files_entries(files@, 0) {
                Some(views) => match r {
                    Ok(m) => entries_view(m.entries@) == views,
                    Err(_) => false,
                },
                None => r is Err,
            },
    {
        let mut entries: Vec<(RsxMacroLocation, Template)> = Vec::new();
        let mut i: usize = 0;
        proof {
            assert(entries_view(entries@) =~= Seq::<TemplateEntryView>::empty());
        }
        #[verifier::loop_isolation(false)]
        while i < files.len()
            invariant
                i <= files@.len(),
                files_entries(files@, 0) == (match files_entries(files@, i as int) {
                    Some(rest) => Some(entries_view(entries@) + rest),
                    None => None::<Seq<TemplateEntryView>>,
                }),
            decreases files@.len() - i,
        {
            let file = &files[i];
            let mut found = match self.file_templates(file.path.as_str(), file.content.as_str()) {
                Ok(v) => v,
                Err(e) => {
                    return Err(e);
                },
            };
            let ghost found_views = entries_view(found@);
            let ghost pre = entries@;
            #[verifier::loop_isolation(false)]
            while found.len() > 0
                invariant
                    entries_view(entries@) + entries_view(found@) == entries_view(pre)
                        + found_views,
                decreases found@.len(),
            {
                let ghost f_pre = found@;
                let item = found.remove(0);
                let ghost e_pre = entries@;
                entries.push(item);
                proof {
                    assert(found@ =~= f_pre.drop_first());
                    assert(entries_view(entries@) =~= entries_view(e_pre).push(
                        (item.0.file@, item.0.line, item.0.col, item.1.text@),
                    ));
                    assert(entries_view(f_pre) =~= seq![
                        (item.0.file@, item.0.line, item.0.col, item.1.text@),
                    ] + entries_view(found@));
                    assert(entries_view(entries@) + entries_view(found@) =~= entries_view(
                        e_pre,
                    ) + entries_view(f_pre));
                }
            }
            proof {
                assert(entries_view(found@) =~= Seq::<TemplateEntryView>::empty());
                assert(entries_view(entries@) =~= entries_view(pre) + found_views);
            }
            i += 1;
        }
        proof {
            assert(files_entries(files@, files@.len() as int) == Some(
                Seq::<TemplateEntryView>::empty(),
            ));
            assert(entries_view(entries@) + Seq::<TemplateEntryView>::empty() =~= entries_view(
                entries@,
            ));
        }
        Ok(RsxTemplateMap { entries })
    }

    /// Builds the map from the given source units and renders its
    /// persisted text.  With the pretty self-check on, the rendered text
    /// is re-parsed and re-rendered; the round trip cannot fail, and the
    /// text is the same either way.
    pub fn build_text(&self, files: &Vec<SourceFile>) -> (r: ParseResult<String>)
        ensures
            match files_entries(files@, 0) {
                Some(views) => match r {
                    Ok(text) => text@ == template_map_text(views),
                    Err(_) => false,
                },
                None => r is Err,
            },
    {
        let map = match self.build(files) {
            Ok(m) => m,
            Err(e) => {
                return Err(e);
            },
        };
        let text = map.to_text();
        if self.pretty {
            proof {
                lemma_template_map_round_trip(entries_view(map.entries@));
            }
            match RsxTemplateMap::from_text(text.as_str()) {
                Ok(reparsed) => Ok(reparsed.to_text()),
                Err(e) => Err(e),
            }
        } else {
            Ok(text)
        }
    }
}

} // verus!

verus! {

/// Partial maps fold: the entries of two file lists run back to back are
/// the entries of the first followed by the entries of the second, and a
/// parse failure on either side fails the whole.  Extraction passes over
/// disjoint file sets therefore merge by plain concatenation, whichever
/// pass ran first.
pub proof fn lemma_files_entries_concat(fs1: Seq<SourceFile>, fs2: Seq<SourceFile>)
    ensures
        files_entries(fs1 + fs2, 0) == (match (files_entries(fs1, 0), files_entries(fs2, 0)) {
            (Some(a), Some(b)) => Some(a + b),
            _ => None::<Seq<TemplateEntryView>>,
        }),
{
    lemma_files_entries_concat_from(fs1, fs2, 0);
}

/// The concatenation law from any index of the first list.
proof fn lemma_files_entries_concat_from(fs1: Seq<SourceFile>, fs2: Seq<SourceFile>, i: int)
    requires
        0 <= i <= fs1.len(),
    ensures
        files_entries(fs1 + fs2, i) == (match (files_entries(fs1, i), files_entries(fs2, 0)) {
            (Some(a), Some(b)) => Some(a + b),
            _ => None::<Seq<TemplateEntryView>>,
        }),
    decreases fs1.len() - i,
{
    let whole = fs1 + fs2;
    if i == fs1.len() {
        assert(files_entries(fs1, i) == Some(Seq::<TemplateEntryView>::empty()));
        lemma_files_entries_shift(fs1, fs2, 0);
        match files_entries(fs2, 0) {
            Some(b) => {
                assert(Seq::<TemplateEntryView>::empty() + b =~= b);
            },
            None => {},
        }
    } else {
        assert(whole[i] == fs1[i]);
        lemma_files_entries_concat_from(fs1, fs2, i + 1);
        match (file_entries(fs1[i].path@, fs1[i].content@),
            files_entries(fs1, i + 1),
            files_entries(fs2, 0)) {
            (Some(es), Some(a), Some(b)) => {
                assert(files_entries(fs1, i) == Some(es + a));
                assert(files_entries(whole, i) == Some(es + (a + b)));
                assert(es + (a + b) =~= (es + a) + b);
            },
            _ => {},
        }
    }
}

/// A suffix of a concatenation holding only the second list's units
/// contributes the second list's entries.
proof fn lemma_files_entries_shift(fs1: Seq<SourceFile>, fs2: Seq<SourceFile>, j: int)
    requires
        0 <= j <= fs2.len(),
    ensures
        files_entries(fs1 + fs2, fs1.len() + j) == files_entries(fs2, j),
    decreases fs2.len() - j,
{
    if j < fs2.len() {
        assert((fs1 + fs2)[fs1.len() + j] == fs2[j]);
        lemma_files_entries_shift(fs1, fs2, j + 1);
    }
}

} // verus!
