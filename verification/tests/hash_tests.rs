use beet_rsx::hash_file::HashRsxFile;
use beet_rsx::tokens::Delim;
use beet_rsx::tokens::Tok;

fn ident(text: &str) -> Tok {
    Tok::Ident { text: text.to_string(), line: 1, col: 0 }
}

fn ident_at(text: &str, line: u32, col: u32) -> Tok {
    Tok::Ident { text: text.to_string(), line, col }
}

fn punct(ch: char) -> Tok {
    Tok::Punct { ch, line: 1, col: 0 }
}

fn lit(text: &str) -> Tok {
    Tok::Literal { text: text.to_string(), line: 1, col: 0 }
}

fn brace(inner: Vec<Tok>) -> Tok {
    Tok::Group { delim: Delim::Brace, line: 1, col: 0, inner }
}

/// `rsx!{ ...body... }`
fn rsx_call(body: Vec<Tok>) -> Vec<Tok> {
    vec![ident("rsx"), punct('!'), brace(body)]
}

/// `<name/>`
fn self_closed(name: &str) -> Vec<Tok> {
    vec![punct('<'), ident(name), punct('/'), punct('>')]
}

/// `<name>`
fn open_tag(name: &str) -> Vec<Tok> {
    vec![punct('<'), ident(name), punct('>')]
}

/// `</name>`
fn close_tag(name: &str) -> Vec<Tok> {
    vec![punct('<'), punct('/'), ident(name), punct('>')]
}

fn cat(parts: Vec<Vec<Tok>>) -> Vec<Tok> {
    let mut out = Vec::new();
    for p in parts {
        out.extend(p);
    }
    out
}

fn hash(tokens: Vec<Tok>) -> u64 {
    let mut hasher = HashRsxFile::new();
    hasher.walk_tokens(&tokens);
    hasher.finish()
}

#[test]
fn hash_file_works() {
    // ignore element names
    assert_eq!(
        hash(rsx_call(self_closed("el1"))),
        hash(rsx_call(self_closed("el2")))
    );
    // ignore literals
    let key_lit = vec![punct('<'), ident("el"), ident("key"), punct('='), lit("\"lit\""), punct('/'), punct('>')];
    let key_num = vec![punct('<'), ident("el"), ident("key"), punct('='), lit("28"), punct('/'), punct('>')];
    assert_eq!(hash(rsx_call(key_lit)), hash(rsx_call(key_num)));
    // ignore attr keys
    let foo_block = vec![punct('<'), ident("el"), ident("foo"), punct('='), brace(vec![lit("7")]), punct('/'), punct('>')];
    let bar_block = vec![punct('<'), ident("el"), ident("bar"), punct('='), brace(vec![lit("7")]), punct('>')];
    assert_eq!(hash(rsx_call(foo_block)), hash(rsx_call(bar_block)));
    // ignore html location - block
    let flat = cat(vec![open_tag("el"), vec![brace(vec![lit("7")])], close_tag("el")]);
    let nested = cat(vec![
        open_tag("el"),
        open_tag("el"),
        vec![brace(vec![lit("7")])],
        close_tag("el"),
        close_tag("el"),
    ]);
    assert_eq!(hash(rsx_call(flat)), hash(rsx_call(nested)));
    // ignore html location - component
    let comp_flat = cat(vec![open_tag("el"), open_tag("Component"), close_tag("el")]);
    let comp_nested = cat(vec![
        open_tag("el"),
        open_tag("el"),
        open_tag("Component"),
        close_tag("el"),
        close_tag("el"),
    ]);
    assert_eq!(hash(rsx_call(comp_flat)), hash(rsx_call(comp_nested)));
    // hash external pre
    let pre_foo = cat(vec![
        vec![ident("let"), ident("foo"), punct('=')],
        rsx_call(self_closed("el")),
    ]);
    let pre_bar = cat(vec![
        vec![ident("let"), ident("bar"), punct('=')],
        rsx_call(self_closed("el")),
    ]);
    assert_ne!(hash(pre_foo), hash(pre_bar));
    // hash external post
    let post_foo = cat(vec![rsx_call(self_closed("el")), vec![ident("foo")]]);
    let post_bar = cat(vec![rsx_call(self_closed("el")), vec![ident("bar")]]);
    assert_ne!(hash(post_foo), hash(post_bar));
    // hash order
    let seven_eight = cat(vec![
        open_tag("el"),
        vec![brace(vec![lit("7")]), brace(vec![lit("8")])],
        close_tag("el"),
    ]);
    let eight_seven = cat(vec![
        open_tag("el"),
        vec![brace(vec![lit("8")]), brace(vec![lit("7")])],
        close_tag("el"),
    ]);
    assert_ne!(hash(rsx_call(seven_eight)), hash(rsx_call(eight_seven)));
    // hash attr idents
    let foo_bar = vec![punct('<'), ident("el"), ident("foo"), punct('='), ident("bar"), punct('/'), punct('>')];
    let foo_bazz = vec![punct('<'), ident("el"), ident("foo"), punct('='), ident("bazz"), punct('>')];
    assert_ne!(hash(rsx_call(foo_bar)), hash(rsx_call(foo_bazz)));
    // hash attr blocks
    let attr7 = vec![punct('<'), ident("el"), brace(vec![lit("7")]), punct('/'), punct('>')];
    let attr8 = vec![punct('<'), ident("el"), brace(vec![lit("8")]), punct('>')];
    assert_ne!(hash(rsx_call(attr7)), hash(rsx_call(attr8)));
    // hash node blocks
    let node7 = cat(vec![open_tag("el"), vec![brace(vec![lit("7")])], close_tag("el")]);
    let node8 = cat(vec![open_tag("el"), vec![brace(vec![lit("8")])], close_tag("el")]);
    assert_ne!(hash(rsx_call(node7)), hash(rsx_call(node8)));
    // visits nested
    assert_ne!(hash(vec![brace(vec![ident("v1")])]), hash(vec![brace(vec![ident("v2")])]));
    assert_eq!(
        hash(vec![brace(rsx_call(self_closed("el1")))]),
        hash(vec![brace(rsx_call(self_closed("el2")))])
    );
}

#[test]
fn hash_ignores_source_positions() {
    let a = vec![ident_at("fn", 1, 0), ident_at("main", 1, 3)];
    let b = vec![ident_at("fn", 7, 4), ident_at("main", 9, 2)];
    assert_eq!(hash(a), hash(b));
}

#[test]
fn file_to_hash_raw_for_non_code() {
    let a = HashRsxFile::file_to_hash("notes.txt", "hello").unwrap();
    let b = HashRsxFile::file_to_hash("notes.txt", "hello").unwrap();
    let c = HashRsxFile::file_to_hash("notes.txt", "other").unwrap();
    assert_eq!(a, b);
    assert_ne!(a, c);
}

#[test]
fn file_to_hash_parses_code() {
    let ok = HashRsxFile::file_to_hash("lib.rs", "fn main() {}");
    assert!(ok.is_ok());
    // cosmetic whitespace does not change the hash of code
    let spaced = HashRsxFile::file_to_hash("lib.rs", "\n\nfn  main( ) { }").unwrap();
    assert_eq!(ok.unwrap(), spaced);
}

#[test]
fn file_to_hash_rejects_bad_code() {
    let bad = HashRsxFile::file_to_hash("lib.rs", "fn {");
    assert!(bad.is_err());
}
