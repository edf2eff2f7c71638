use beet_rsx::rsx_template::BuildRsxTemplateMap;
use beet_rsx::rsx_template::RsxTemplateMap;
use beet_rsx::rsx_template::SourceFile;

fn source_file(path: &str, content: &str) -> SourceFile {
    SourceFile { path: path.to_string(), content: content.to_string() }
}

#[test]
fn extracts_one_invocation() {
    let builder = BuildRsxTemplateMap::new("src");
    let templates = builder
        .file_templates("src/a.rs", "fn main() { let a = rsx!{<div>hello</div>}; }")
        .unwrap();
    assert_eq!(templates.len(), 1);
    assert_eq!(templates[0].0.file, "src/a.rs");
    assert_eq!(templates[0].0.line, 1);
    assert_eq!(templates[0].1.text, "< div > hello < / div >");
}

#[test]
fn non_code_files_contribute_nothing() {
    let builder = BuildRsxTemplateMap::new("src");
    let templates = builder.file_templates("readme.md", "rsx!{<div/>}").unwrap();
    assert_eq!(templates.len(), 0);
}

#[test]
fn parse_failure_is_an_error() {
    let builder = BuildRsxTemplateMap::new("src");
    assert!(builder.file_templates("src/a.rs", "fn {").is_err());
}

#[test]
fn nested_invocations_are_both_extracted() {
    let builder = BuildRsxTemplateMap::new("src");
    let templates = builder
        .file_templates("src/a.rs", "fn f() { let a = rsx!{<div>{rsx!{<b/>}}</div>}; }")
        .unwrap();
    assert_eq!(templates.len(), 2);
}

#[test]
fn mod_works() {
    // four invocations across several source units yield a map of four,
    // whatever file they sit in
    let files = vec![
        source_file(
            "site/a.rs",
            "fn a() { rsx!{<div/>} }\nfn b() { let x = rsx!{<span>text</span>}; }",
        ),
        source_file("site/readme.md", "rsx!{<ignored/>}"),
        source_file(
            "site/b.rs",
            "fn c() { rsx!{<el1 key=value/>} }\nfn d() { rsx!{<el2>{expr}</el2>} }",
        ),
    ];
    let builder = BuildRsxTemplateMap::new("site");
    let map = builder.build(&files).unwrap();
    assert_eq!(map.len(), 4);
    let text = builder.build_text(&files).unwrap();
    let reparsed = RsxTemplateMap::from_text(&text).unwrap();
    assert_eq!(reparsed.len(), 4);
}

#[test]
fn persisted_map_round_trips() {
    let files = vec![source_file(
        "dir with space/odd name.rs",
        "fn a() { rsx!{<div attr=\"text with spaces\"/>} }",
    )];
    let builder = BuildRsxTemplateMap::new_with_dst("dir with space", "out.txt");
    let map = builder.build(&files).unwrap();
    let text = map.to_text();
    let back = RsxTemplateMap::from_text(&text).unwrap();
    assert_eq!(back.len(), map.len());
    assert_eq!(back.entries[0].0.file, map.entries[0].0.file);
    assert_eq!(back.entries[0].0.line, map.entries[0].0.line);
    assert_eq!(back.entries[0].0.col, map.entries[0].0.col);
    assert_eq!(back.entries[0].1.text, map.entries[0].1.text);
    assert_eq!(back.to_text(), text);
}

#[test]
fn persisted_map_rejects_malformed() {
    assert!(RsxTemplateMap::from_text("").is_err());
    assert!(RsxTemplateMap::from_text("1\n").is_err());
    assert!(RsxTemplateMap::from_text("0\nextra").is_err());
    let empty = RsxTemplateMap::from_text("0\n").unwrap();
    assert_eq!(empty.len(), 0);
}

#[test]
fn builder_defaults() {
    let builder = BuildRsxTemplateMap::new("some/src");
    assert!(builder.pretty);
    assert_eq!(builder.src, "some/src");
    assert_eq!(builder.dst, "target/rsx-templates.txt");
}

#[test]
fn partial_maps_merge_by_concatenation() {
    let first = vec![source_file("a.rs", "fn a() { rsx!{<div/>} }")];
    let second = vec![source_file("b.rs", "fn b() { rsx!{<span/>} }")];
    let mut both = Vec::new();
    both.extend(first.iter().map(|f| source_file(&f.path, &f.content)));
    both.extend(second.iter().map(|f| source_file(&f.path, &f.content)));
    let builder = BuildRsxTemplateMap::new("src");
    let a = builder.build(&first).unwrap();
    let b = builder.build(&second).unwrap();
    let merged = builder.build(&both).unwrap();
    assert_eq!(merged.len(), a.len() + b.len());
    assert_eq!(merged.entries[0].0.file, a.entries[0].0.file);
    assert_eq!(merged.entries[1].0.file, b.entries[0].0.file);
}
