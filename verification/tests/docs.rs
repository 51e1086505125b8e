use asmdoc::docs::{find_link, Docs, Markdown, Visibility};
use asmdoc::text::file_name_of;

fn text(s: &str) -> Box<Docs> {
    Box::new(Docs::Text(s.to_string()))
}

fn no_links() -> Vec<(String, String)> {
    Vec::new()
}

fn md(docs: &Docs) -> String {
    docs.to::<Markdown>(&no_links())
}

#[test]
fn visibility_words() {
    assert_eq!(Visibility::Global.to_string(), "global");
    assert_eq!(Visibility::Private.to_string(), "private");
    assert_eq!(Visibility::External.to_string(), "external");
}

#[test]
fn only_collections_without_entries_are_empty() {
    assert!(Docs::Paragraphs(vec![]).is_empty());
    assert!(Docs::List(vec![]).is_empty());
    assert!(Docs::CellLines(vec![]).is_empty());
    assert!(Docs::Concat(vec![]).is_empty());
    assert!(Docs::Table { header: vec![text("h")], rows: vec![] }.is_empty());
    assert!(!Docs::Table { header: vec![], rows: vec![vec![]] }.is_empty());
    assert!(!Docs::Paragraphs(vec![text("")]).is_empty());
    assert!(!Docs::List(vec![text("x")]).is_empty());
    assert!(!Docs::CellLines(vec![text("x")]).is_empty());
    assert!(!Docs::Concat(vec![text("x")]).is_empty());
    assert!(!Docs::Text(String::new()).is_empty());
    assert!(!Docs::InlineCode(String::new()).is_empty());
    assert!(!Docs::Define { name: String::new() }.is_empty());
    assert!(!Docs::Macro { name: String::new(), arg_count: 0 }.is_empty());
    assert!(!Docs::ResolveFile(String::new()).is_empty());
    assert!(!Docs::File {
        path: String::new(),
        symbols: Box::new(Docs::List(vec![])),
        defines: Box::new(Docs::List(vec![])),
        macros: Box::new(Docs::List(vec![])),
    }
    .is_empty());
}

#[test]
fn leaves_in_markdown() {
    assert_eq!(md(&Docs::Text("plain | text".to_string())), "plain | text");
    assert_eq!(md(&Docs::InlineCode("mov".to_string())), "`mov`");
    assert_eq!(md(&Docs::Define { name: "LIMIT".to_string() }), "`LIMIT`");
}

#[test]
fn macro_argument_count_in_markdown() {
    let show = |n: usize| md(&Docs::Macro { name: "$m".to_string(), arg_count: n });
    assert_eq!(show(0), "`$m` (0 arguments)");
    assert_eq!(show(1), "`$m` (1 argument)");
    assert_eq!(show(2), "`$m` (2 arguments)");
    assert_eq!(show(10), "`$m` (10 arguments)");
    assert_eq!(show(1234567890), "`$m` (1234567890 arguments)");
    assert_eq!(show(usize::MAX), format!("`$m` ({} arguments)", usize::MAX));
}

#[test]
fn collections_in_markdown() {
    assert_eq!(md(&Docs::Paragraphs(vec![text("a"), text("b")])), "- a\n\n- b\n\n");
    assert_eq!(md(&Docs::List(vec![text("a"), text("b")])), "- a\n- b\n");
    assert_eq!(md(&Docs::CellLines(vec![text("a"), text("b"), text("c")])), "a<br>b<br>c");
    assert_eq!(md(&Docs::Concat(vec![text("a"), text("b")])), "ab");
    assert_eq!(md(&Docs::List(vec![])), "");
    assert_eq!(md(&Docs::CellLines(vec![text("only")])), "only");
}

#[test]
fn table_in_markdown() {
    let table = Docs::Table {
        header: vec![text("A"), text("B")],
        rows: vec![vec![text("1"), text("2")], vec![text("3")], vec![]],
    };
    assert_eq!(md(&table), "\n| A |B |\n| --- |--- |\n| 1 |2 |\n| 3 |\n| \n");
    let bare = Docs::Table { header: vec![], rows: vec![] };
    assert_eq!(md(&bare), "\n| \n| \n");
}

#[test]
fn nested_text_with_line_breaks_is_not_indented() {
    let docs = Docs::List(vec![Box::new(Docs::Concat(vec![text("a\nb"), text("\n\nc")]))]);
    assert_eq!(md(&docs), "- a\nb\n\nc\n");
}

#[test]
fn reference_shows_the_file_name_and_links_to_the_target() {
    let links = vec![
        ("src/a.nasm".to_string(), "a.md".to_string()),
        ("src/b.nasm".to_string(), "out/b.md".to_string()),
        ("src/a.nasm".to_string(), "later.md".to_string()),
    ];
    let reference = Docs::ResolveFile("src/b.nasm".to_string());
    assert!(reference.is_showable(&links));
    assert_eq!(reference.to::<Markdown>(&links), "[b.nasm](out/b.md)");
    let first = Docs::ResolveFile("src/a.nasm".to_string());
    assert_eq!(first.to::<Markdown>(&links), "[a.nasm](a.md)");
    assert_eq!(find_link(&links, &"src/a.nasm".to_string()), Some(&"a.md".to_string()));
    assert_eq!(find_link(&links, &"a.nasm".to_string()), None);
}

#[test]
fn unresolved_references_are_found_anywhere_in_a_tree() {
    let links = vec![("a".to_string(), "a.md".to_string())];
    let known = || Box::new(Docs::ResolveFile("a".to_string()));
    let unknown = || Box::new(Docs::ResolveFile("b".to_string()));
    assert!(Docs::List(vec![known(), text("x")]).is_showable(&links));
    assert!(!Docs::List(vec![known(), unknown()]).is_showable(&links));
    assert!(!Docs::Concat(vec![unknown()]).is_showable(&links));
    assert!(!Docs::CellLines(vec![text("x"), unknown()]).is_showable(&links));
    assert!(!Docs::Paragraphs(vec![unknown(), known()]).is_showable(&links));
    assert!(Docs::Table { header: vec![known()], rows: vec![vec![known()], vec![]] }
        .is_showable(&links));
    assert!(!Docs::Table { header: vec![unknown()], rows: vec![] }.is_showable(&links));
    assert!(!Docs::Table { header: vec![], rows: vec![vec![known()], vec![text("x"), unknown()]] }
        .is_showable(&links));
    let file = |macros: Box<Docs>| Docs::File {
        path: "f".to_string(),
        symbols: known(),
        defines: Box::new(Docs::List(vec![])),
        macros,
    };
    assert!(file(known()).is_showable(&links));
    assert!(!file(unknown()).is_showable(&links));
    assert!(Docs::Text("b".to_string()).is_showable(&no_links()));
}

#[test]
fn file_in_markdown() {
    let file = Docs::File {
        path: "deep/dir/unit.nasm".to_string(),
        symbols: Box::new(Docs::List(vec![])),
        defines: Box::new(Docs::List(vec![Box::new(Docs::Define { name: "A".to_string() })])),
        macros: Box::new(Docs::Text("free text".to_string())),
    };
    assert_eq!(
        md(&file),
        "<!-- This file was generated by asmdoc <https://github.com/ethanuppal/asmdoc>. -->\n# unit.nasm\n\n## Defines\n- `A`\n\n## Macros\nfree text\n"
    );
}

#[test]
fn file_name_is_the_last_component() {
    let name = |path: &str| file_name_of(path);
    assert_eq!(name("a/b/c.nasm"), Some("c.nasm".to_string()));
    assert_eq!(name("c.nasm"), Some("c.nasm".to_string()));
    assert_eq!(name("/c"), Some("c".to_string()));
    assert_eq!(name("./c"), Some("c".to_string()));
    assert_eq!(name("a/b\u{e9}/\u{e9}.x"), Some("\u{e9}.x".to_string()));
    assert_eq!(name(".hidden"), Some(".hidden".to_string()));
    assert_eq!(name("a/..b"), Some("..b".to_string()));
    assert_eq!(name("a/b."), Some("b.".to_string()));
    assert_eq!(name("a/..."), Some("...".to_string()));
}

#[test]
fn slashes_and_single_dots_at_the_end_do_not_count() {
    let name = |path: &str| file_name_of(path);
    assert_eq!(name("a/"), Some("a".to_string()));
    assert_eq!(name("a/b//"), Some("b".to_string()));
    assert_eq!(name("a/b/."), Some("b".to_string()));
    assert_eq!(name("a/b/.//./"), Some("b".to_string()));
    assert_eq!(name("/a/./"), Some("a".to_string()));
}

#[test]
fn paths_without_a_file_name() {
    for path in ["", "/", "//", ".", "./", "/.", "..", "../", "a/..", "a/../", "/..", "a/b/../."] {
        assert_eq!(file_name_of(path), None, "{:?}", path);
    }
}

#[test]
fn file_name_agrees_with_the_standard_library_here() {
    let paths = [
        "", "/", ".", "..", "a", "a/", "a//", "a/.", "a/..", "./a", "../a", "a/b", "/a/b/", "a/./b",
        "a/../b", ".a", "a.", "..a", "a/b/./", "//a", "a//b", "a/b/..", "...", "a/.../", "./.", "/./",
        ". ", " .", "a/ ", "a b/c d",
    ];
    for path in paths {
        let expected = std::path::Path::new(path).file_name().map(|n| n.to_str().unwrap().to_string());
        assert_eq!(file_name_of(path), expected, "{:?}", path);
    }
}

#[test]
fn trees_that_name_no_file_cannot_be_shown() {
    let links = vec![("a/..".to_string(), "a.md".to_string()), ("a/".to_string(), "a.md".to_string())];
    assert!(!Docs::ResolveFile("a/..".to_string()).is_showable(&links));
    assert!(Docs::ResolveFile("a/".to_string()).is_showable(&links));
    assert_eq!(Docs::ResolveFile("a/".to_string()).to::<Markdown>(&links), "[a](a.md)");
    let file = |path: &str| Docs::File {
        path: path.to_string(),
        symbols: Box::new(Docs::List(vec![])),
        defines: Box::new(Docs::List(vec![])),
        macros: Box::new(Docs::List(vec![])),
    };
    assert!(!file("").is_showable(&links));
    assert!(!file("src/..").is_showable(&links));
    assert!(!Docs::List(vec![Box::new(file("/"))]).is_showable(&links));
    assert!(file("src/unit.nasm/").is_showable(&links));
    assert_eq!(
        file("src/unit.nasm/").to::<Markdown>(&links),
        "<!-- This file was generated by asmdoc <https://github.com/ethanuppal/asmdoc>. -->\n# unit.nasm\n\n"
    );
}
