//! The token-tree model of a code source, and the trusted bridge that
//! produces it from a parsed file.
//!
//! Hashing and template extraction work on this tree: ordinary tokens
//! carry their text and source position, grouping constructs carry their
//! delimiter and their inner tokens.

use crate::error::ParseError;
use vstd::prelude::*;

verus! {

/// The delimiter of a grouping construct.
#[derive(Debug, Clone, Copy, PartialEq, Eq, Structural)]
pub enum Delim {
    /// `( ... )`
    Paren,
    /// `{ ... }`
    Brace,
    /// `[ ... ]`
    Bracket,
    /// An invisible delimiter, as macro expansion can produce.
    Invisible,
}

/// One token of a code source.  `line` is 1-based and `col` 0-based, as
/// the positions of a template-macro invocation are counted everywhere in
/// this crate.
#[derive(Debug)]
pub enum Tok {
    /// A word: a keyword, a name, or a lone piece of markup text.
    Ident { text: String, line: u32, col: u32 },
    /// One punctuation character.
    Punct { ch: char, line: u32, col: u32 },
    /// A literal, carried as its source text.
    Literal { text: String, line: u32, col: u32 },
    /// A parenthesized, braced or bracketed region.
    Group { delim: Delim, line: u32, col: u32, inner: Vec<Tok> },
}

impl Tok {
    /// The line this token starts on, 1-based.
    pub fn line(&self) -> (r: u32)
        ensures
            r == spec_line(*self),
    {
        match self {
            Tok::Ident { line, .. } => *line,
            Tok::Punct { line, .. } => *line,
            Tok::Literal { line, .. } => *line,
            Tok::Group { line, .. } => *line,
        }
    }

    /// The column this token starts at, 0-based.
    pub fn col(&self) -> (r: u32)
        ensures
            r == spec_col(*self),
    {
        match self {
            Tok::Ident { col, .. } => *col,
            Tok::Punct { col, .. } => *col,
            Tok::Literal { col, .. } => *col,
            Tok::Group { col, .. } => *col,
        }
    }
}

/// The line a token starts on.
pub open spec fn spec_line(t: Tok) -> u32 {
    match t {
        Tok::Ident { line, .. } => line,
        Tok::Punct { line, .. } => line,
        Tok::Literal { line, .. } => line,
        Tok::Group { line, .. } => line,
    }
}

/// The column a token starts at.
pub open spec fn spec_col(t: Tok) -> u32 {
    match t {
        Tok::Ident { col, .. } => col,
        Tok::Punct { col, .. } => col,
        Tok::Literal { col, .. } => col,
        Tok::Group { col, .. } => col,
    }
}

/// The token tree a code source parses to, or nothing when it is not
/// syntactically valid code.  Parsing is a function of the source text
/// alone: positions come from the text itself.
pub uninterp spec fn rust_tokens_of(source: Seq<char>) -> Option<Seq<Tok>>;

/// Relies on `proc_macro2::Delimiter`: tells its four variants apart.
#[verifier::external_type_specification]
#[verifier::external_body]
pub struct ExDelimiter(proc_macro2::Delimiter);

/// Relies on `proc_macro2::TokenStream`: carried opaquely between the
/// parse and the per-token conversion.
#[verifier::external_type_specification]
#[verifier::external_body]
pub struct ExTokenStream(proc_macro2::TokenStream);

/// Relies on `proc_macro2::TokenTree`: carried opaquely into the
/// per-token conversion.
#[verifier::external_type_specification]
#[verifier::external_body]
pub struct ExTokenTree(proc_macro2::TokenTree);

/// Relies on `proc_macro2::Delimiter`'s four variants: converted one for
/// one to this crate's [`Delim`].
#[verifier::external_body]
fn convert_delim(d: proc_macro2::Delimiter) -> Delim {
    match d {
        proc_macro2::Delimiter::Parenthesis => Delim::Paren,
        proc_macro2::Delimiter::Brace => Delim::Brace,
        proc_macro2::Delimiter::Bracket => Delim::Bracket,
        proc_macro2::Delimiter::None => Delim::Invisible,
    }
}

/// Relies on `proc_macro2::TokenTree`'s four variants, its `span` (with
/// line and column as the crate documents them), `Ident::to_string`,
/// `Punct::as_char`, `Literal::to_string`, `Group::delimiter` and
/// `Group::stream`: each tree converts one for one to a [`Tok`].
#[verifier::external_body]
fn convert_tree(t: proc_macro2::TokenTree) -> Tok {
    let start = t.span().start();
    let (line, col) = (start.line as u32, start.column as u32);
    match t {
        proc_macro2::TokenTree::Group(g) => {
            let delim = convert_delim(g.delimiter());
            Tok::Group { delim, line, col, inner: convert_stream(g.stream()) }
        },
        proc_macro2::TokenTree::Ident(i) => Tok::Ident { text: i.to_string(), line, col },
        proc_macro2::TokenTree::Punct(p) => Tok::Punct { ch: p.as_char(), line, col },
        proc_macro2::TokenTree::Literal(l) => Tok::Literal { text: l.to_string(), line, col },
    }
}

/// Relies on `proc_macro2::TokenStream::into_iter`: the trees in order,
/// each converted one for one.
#[verifier::external_body]
fn convert_stream(ts: proc_macro2::TokenStream) -> Vec<Tok> {
    ts.into_iter().map(convert_tree).collect()
}

/// Relies on `syn::parse_file` (accepts exactly syntactically valid Rust
/// source, deterministically) and `quote::ToTokens::to_token_stream` on
/// the parsed file: the result is the source's token tree, converted one
/// for one, with positions resolved against the source text.
#[verifier::external_body]
pub fn parse_rust_tokens(source: &str) -> (r: Result<Vec<Tok>, ParseError>)
    ensures
        match r {
            Ok(v) => rust_tokens_of(source@) == Some(v@),
            Err(_) => rust_tokens_of(source@) is None,
        },
{
    match syn::parse_file(source) {
        Ok(file) => Ok(convert_stream(quote::ToTokens::to_token_stream(&file))),
        Err(e) => Err(ParseError::Syntax(e.to_string())),
    }
}

} // verus!
