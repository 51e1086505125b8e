use asmdoc::assembly_file::{AssemblyFile, AssemblySection};
use asmdoc::assembly_project::AssemblyProject;
use asmdoc::docs::{Docs, Markdown, Visibility};
use asmdoc::syntax::NASM;

type Symbols = Vec<(String, Visibility, Option<AssemblySection>)>;

fn model(source: &str) -> AssemblyFile {
    AssemblyFile::parse::<NASM>("t.nasm", source).ok().unwrap()
}

fn project(files: &[(&str, &str)]) -> AssemblyProject {
    AssemblyProject::build_from(
        files.iter().map(|(path, source)| (path.to_string(), model(source))).collect(),
    )
}

fn symbol(name: &str, visibility: Visibility, section: Option<AssemblySection>) -> (String, Visibility, Option<AssemblySection>) {
    (name.to_string(), visibility, section)
}

fn symbols(p: &AssemblyProject, index: usize) -> Symbols {
    p.file_symbols(index).unwrap()
}

fn name(s: &str) -> String {
    s.to_string()
}

#[test]
fn global_and_extern_are_linked_across_files() {
    let p = project(&[("src/a.nasm", "global foo\nfoo:\n"), ("src/b.nasm", "extern foo\n")]);
    assert_eq!(p.file_count(), 2);
    assert_eq!(p.file_path(0), Some(&name("src/a.nasm")));
    assert_eq!(p.file_path(2), None);
    assert_eq!(
        symbols(&p, 0),
        vec![symbol("foo", Visibility::Global, Some(AssemblySection::Text))]
    );
    assert_eq!(symbols(&p, 1), vec![symbol("foo", Visibility::External, None)]);
    assert_eq!(p.internal_extern(&name("foo")), Some(&name("src/a.nasm")));
    assert_eq!(p.global_source(&name("foo")), Some(&name("src/a.nasm")));
    assert!(p.file_symbols(2).is_none());
}

#[test]
fn order_of_files_does_not_matter_for_linking() {
    let p = project(&[("b.nasm", "extern foo\n"), ("a.nasm", "global foo\nfoo:\n")]);
    assert_eq!(p.internal_extern(&name("foo")), Some(&name("a.nasm")));
    assert_eq!(symbols(&p, 0), vec![symbol("foo", Visibility::External, None)]);
}

#[test]
fn sub_labels_belong_to_the_label_before_them() {
    let p = project(&[("a.nasm", "label:\n.sub1:\n.sub2:\nother:\n.sub3:\n")]);
    assert_eq!(p.constituents(&name("label")), vec![".sub1", ".sub2"]);
    assert_eq!(p.constituents(&name("other")), vec![".sub3"]);
    assert!(p.constituents(&name(".sub1")).is_empty());
    assert_eq!(
        symbols(&p, 0),
        vec![
            symbol("label", Visibility::Private, Some(AssemblySection::Text)),
            symbol("other", Visibility::Private, Some(AssemblySection::Text)),
        ]
    );
}

#[test]
fn sub_labels_cross_sections_in_the_order_text_data_bss_rodata() {
    let p = project(&[(
        "a.nasm",
        "section .rodata\nr:\n.r1:\nsection .data\n.d1:\nd:\nsection .text\nt:\n.t1:\n",
    )]);
    assert_eq!(p.constituents(&name("t")), vec![".t1", ".d1"]);
    assert_eq!(p.constituents(&name("d")), Vec::<String>::new());
    assert_eq!(p.constituents(&name("r")), vec![".r1"]);
    assert_eq!(
        symbols(&p, 0),
        vec![
            symbol("t", Visibility::Private, Some(AssemblySection::Text)),
            symbol("d", Visibility::Private, Some(AssemblySection::Data)),
            symbol("r", Visibility::Private, Some(AssemblySection::ROData)),
        ]
    );
}

#[test]
fn sub_label_before_any_label_belongs_to_the_empty_name() {
    let p = project(&[("a.nasm", ".early:\nmain:\n"), ("b.nasm", ".other:\n")]);
    assert_eq!(p.constituents(&name("")), vec![".early", ".other"]);
    assert!(p.constituents(&name("main")).is_empty());
}

#[test]
fn sub_labels_of_one_name_gather_across_files() {
    let p = project(&[("a.nasm", "f:\n.x:\n"), ("b.nasm", "f:\n.y:\n")]);
    assert_eq!(p.constituents(&name("f")), vec![".x", ".y"]);
}

#[test]
fn extern_without_global_stays_unresolved() {
    let p = project(&[("a.nasm", "extern printf\nmain:\n"), ("b.nasm", "global other\n")]);
    assert_eq!(p.internal_extern(&name("printf")), None);
    assert_eq!(p.global_source(&name("printf")), None);
    assert_eq!(
        symbols(&p, 0),
        vec![
            symbol("printf", Visibility::External, None),
            symbol("main", Visibility::Private, Some(AssemblySection::Text)),
        ]
    );
    assert_eq!(p.global_source(&name("other")), Some(&name("b.nasm")));
    assert_eq!(p.internal_extern(&name("other")), None);
}

#[test]
fn last_file_that_declares_a_global_is_its_source() {
    let p = project(&[
        ("a.nasm", "global f\n"),
        ("b.nasm", "global f\nglobal g\n"),
        ("c.nasm", "extern f\nextern g\n"),
    ]);
    assert_eq!(p.global_source(&name("f")), Some(&name("b.nasm")));
    assert_eq!(p.internal_extern(&name("f")), Some(&name("b.nasm")));
    assert_eq!(p.internal_extern(&name("g")), Some(&name("b.nasm")));
    let q = project(&[("b.nasm", "global f\n"), ("a.nasm", "global f\n")]);
    assert_eq!(q.global_source(&name("f")), Some(&name("a.nasm")));
}

#[test]
fn label_defined_again_moves_to_the_end_of_the_table() {
    let p = project(&[(
        "a.nasm",
        "extern x\nextern y\nglobal b\na:\nb:\nsection .data\na:\nx:\n",
    )]);
    assert_eq!(
        symbols(&p, 0),
        vec![
            symbol("y", Visibility::External, None),
            symbol("b", Visibility::Global, Some(AssemblySection::Text)),
            symbol("a", Visibility::Private, Some(AssemblySection::Data)),
            symbol("x", Visibility::Private, Some(AssemblySection::Data)),
        ]
    );
}

#[test]
fn extern_named_twice_stands_once() {
    let p = project(&[("a.nasm", "extern x\nextern y\nextern x\n")]);
    assert_eq!(
        symbols(&p, 0),
        vec![symbol("y", Visibility::External, None), symbol("x", Visibility::External, None)]
    );
}

#[test]
fn resolving_twice_gives_the_same_tables() {
    let files = [
        ("a.nasm", "global foo\nextern bar\nfoo:\n.in:\nlocal:\n"),
        ("b.nasm", "global bar\nextern foo\nextern puts\nsection .data\nbar:\n"),
    ];
    let p = project(&files);
    let q = project(&files);
    for i in 0..2 {
        assert_eq!(symbols(&p, i), symbols(&q, i));
    }
    for n in ["foo", "bar", "puts", "local", ".in", ""] {
        assert_eq!(p.global_source(&name(n)), q.global_source(&name(n)));
        assert_eq!(p.internal_extern(&name(n)), q.internal_extern(&name(n)));
        assert_eq!(p.constituents(&name(n)), q.constituents(&name(n)));
    }
    assert_eq!(p.internal_extern(&name("foo")), Some(&name("a.nasm")));
    assert_eq!(p.internal_extern(&name("bar")), Some(&name("b.nasm")));
}

#[test]
fn empty_project() {
    let p = AssemblyProject::build_from(Vec::new());
    assert_eq!(p.file_count(), 0);
    assert!(p.generate_docs().is_empty());
    assert_eq!(p.global_source(&name("x")), None);
}

fn links() -> Vec<(String, String)> {
    vec![(name("src/a.nasm"), name("a.md")), (name("src/b.nasm"), name("b.md"))]
}

const BANNER: &str =
    "<!-- This file was generated by asmdoc <https://github.com/ethanuppal/asmdoc>. -->\n";

#[test]
fn documents_of_two_linked_files() {
    let p = project(&[
        ("src/a.nasm", "global foo\nfoo:\n.loop:\n.done:\n"),
        ("src/b.nasm", "extern foo\nextern puts\n%define LIMIT 3\n%macro $emit 1\n%endmacro\n%macro $pair 2\n%endmacro\nsection .bss\nbuf:\n"),
    ]);
    let docs = p.generate_docs();
    assert_eq!(docs.len(), 2);
    assert_eq!(docs[0].0, "src/a.nasm");
    assert_eq!(docs[1].0, "src/b.nasm");
    assert!(docs[0].1.is_showable(&links()));
    assert!(docs[1].1.is_showable(&links()));
    let a = docs[0].1.to::<Markdown>(&links());
    assert_eq!(
        a,
        format!(
            "{}# a.nasm\n\n## Symbols\n\n| Visibility |Label |Section |Defined in |\n| --- |--- |--- |--- |\n| global |`foo`<br>- ``.loop``<br>- ``.done`` |text | |\n\n",
            BANNER
        )
    );
    let b = docs[1].1.to::<Markdown>(&links());
    assert_eq!(
        b,
        format!(
            "{}# b.nasm\n\n## Symbols\n\n| Visibility |Label |Section |Defined in |\n| --- |--- |--- |--- |\n| external |`foo`<br>- ``.loop``<br>- ``.done`` | |[a.nasm](a.md) |\n| external |`puts` | | |\n| private |`buf` |bss | |\n\n## Defines\n- `LIMIT`\n\n## Macros\n- `$emit` (1 argument)\n- `$pair` (2 arguments)\n\n",
            BANNER
        )
    );
}

#[test]
fn document_tree_of_a_file() {
    let p = project(&[("a.nasm", "main:\n.sub:\n")]);
    let docs = p.generate_docs();
    match &docs[0].1 {
        Docs::File { path, symbols, defines, macros } => {
            assert_eq!(path, "a.nasm");
            assert!(defines.is_empty());
            assert!(macros.is_empty());
            match &**symbols {
                Docs::Table { header, rows } => {
                    assert_eq!(header.len(), 4);
                    assert!(matches!(&*header[3], Docs::Text(t) if t == "Defined in"));
                    assert_eq!(rows.len(), 1);
                    assert!(matches!(&*rows[0][0], Docs::Text(t) if t == "private"));
                    match &*rows[0][1] {
                        Docs::CellLines(lines) => {
                            assert_eq!(lines.len(), 2);
                            assert!(matches!(&*lines[0], Docs::InlineCode(c) if c == "main"));
                            match &*lines[1] {
                                Docs::Concat(parts) => {
                                    assert!(matches!(&*parts[0], Docs::Text(t) if t == "- "));
                                    assert!(matches!(&*parts[1], Docs::InlineCode(c) if c == "`.sub`"));
                                }
                                other => panic!("{:?}", other),
                            }
                        }
                        other => panic!("{:?}", other),
                    }
                    assert!(matches!(&*rows[0][2], Docs::Text(t) if t == "text"));
                    assert!(matches!(&*rows[0][3], Docs::Text(t) if t.is_empty()));
                }
                other => panic!("{:?}", other),
            }
        }
        other => panic!("{:?}", other),
    }
}

#[test]
fn file_without_symbols_has_no_symbol_part() {
    let p = project(&[("empty.nasm", "")]);
    let docs = p.generate_docs();
    assert_eq!(docs[0].1.to::<Markdown>(&Vec::new()), format!("{}# empty.nasm\n\n", BANNER));
}

#[test]
fn large_project_is_documented() {
    let mut a = String::from("bits 64\nsection .text\n");
    let mut b = String::from("section .data\n");
    for i in 0..1500 {
        a.push_str(&format!("global f{}\nf{}:\n  push r10 ; keep\n.body{}:\n  mov rax, [rbx + {}]\n  ret\n", i, i, i, i));
        b.push_str(&format!("extern f{}\nvalue{}: dd {}\n", i, i, i));
    }
    let p = project(&[("a.nasm", &a), ("b.nasm", &b)]);
    assert_eq!(symbols(&p, 0).len(), 1500);
    assert_eq!(symbols(&p, 1).len(), 3000);
    assert_eq!(p.internal_extern(&name("f1499")), Some(&name("a.nasm")));
    assert_eq!(p.constituents(&name("f7")), vec![".body7"]);
    let docs = p.generate_docs();
    let links = vec![(name("a.nasm"), name("a.md")), (name("b.nasm"), name("b.md"))];
    assert!(docs[1].1.is_showable(&links));
    let text = docs[1].1.to::<Markdown>(&links);
    assert!(text.contains("| external |`f0`<br>- ``.body0`` | |[a.nasm](a.md) |\n"));
    assert!(text.ends_with("| private |`value1499` |data | |\n\n"));
}
