use asmdoc::assembly_file::{AssemblyFile, AssemblyItem, AssemblySection};
use asmdoc::syntax::nasm::{NASMParseError, NASMParseErrorType, NASMTokenType};
use asmdoc::syntax::{Syntax, NASM};

fn parse(source: &str) -> Result<AssemblyFile, NASMParseError> {
    AssemblyFile::parse::<NASM>("dir/t.nasm", source)
}

fn parsed(source: &str) -> AssemblyFile {
    match parse(source) {
        Ok(file) => file,
        Err(e) => panic!("{}", e.to_string()),
    }
}

fn labels(items: &[AssemblyItem]) -> Vec<String> {
    items
        .iter()
        .map(|item| match item {
            AssemblyItem::Label(name) => name.clone(),
            other => panic!("no label: {:?}", other),
        })
        .collect()
}

fn frames(e: &NASMParseError) -> Vec<(String, usize, usize)> {
    e.trace().iter().map(|(rule, place)| (rule.clone(), place.line, place.col)).collect()
}

#[test]
fn empty_file_gives_the_default_model() {
    let file = parsed("");
    assert_eq!(file.bits, 64);
    assert!(file.includes.is_empty());
    assert!(file.globals.is_empty());
    assert!(file.externs.is_empty());
    assert!(file.macros.is_empty());
    assert!(file.defines.is_empty());
    assert!(file.sections.is_empty());
}

#[test]
fn default_model_is_empty_and_64_bit() {
    let file = AssemblyFile::default();
    assert_eq!(file.bits, 64);
    assert!(file.externs.is_empty() && file.globals.is_empty() && file.sections.is_empty());
}

#[test]
fn blank_lines_only() {
    let file = parsed("\n\n  \n\t\n");
    assert!(file.sections.is_empty());
}

#[test]
fn labels_after_section_text_come_in_file_order() {
    let file = parsed("section .text\nfirst:\nsecond:\nthird:\n");
    assert_eq!(labels(&file.sections.text), vec!["first", "second", "third"]);
    assert!(file.sections.data.is_empty());
    assert!(file.sections.bss.is_empty());
    assert!(file.sections.rodata.is_empty());
}

#[test]
fn labels_need_no_line_break() {
    let file = parsed("section .text\na:b:c:");
    assert_eq!(labels(&file.sections.text), vec!["a", "b", "c"]);
}

#[test]
fn many_labels() {
    let mut source = String::from("section .text\n");
    let mut expected = Vec::new();
    for i in 0..200 {
        source.push_str(&format!("label_{}:\n", i));
        expected.push(format!("label_{}", i));
    }
    let file = parsed(&source);
    assert_eq!(labels(&file.sections.text), expected);
}

#[test]
fn items_go_to_the_section_named_last() {
    let file = parsed(
        "start:\nsection .DATA\nvalue:\nsection .bss\nbuffer:\nsection .rodata\nmessage:\nsection .Text\nmain:\n",
    );
    assert_eq!(labels(&file.sections.text), vec!["start", "main"]);
    assert_eq!(labels(&file.sections.data), vec!["value"]);
    assert_eq!(labels(&file.sections.bss), vec!["buffer"]);
    assert_eq!(labels(&file.sections.rodata), vec!["message"]);
    assert_eq!(labels(file.sections.get(AssemblySection::BSS)), vec!["buffer"]);
}

#[test]
fn unknown_section_is_invalid_syntax() {
    let e = parse("section .bogus\n").err().unwrap();
    assert!(matches!(e.kind(), NASMParseErrorType::InvalidSyntax));
    assert_eq!(
        frames(&e),
        vec![
            ("parse".to_string(), 1, 1),
            ("section".to_string(), 1, 1),
            ("Newline".to_string(), 1, 15),
        ]
    );
    assert_eq!(
        e.to_string(),
        "parse(t.nasm:1:1) > section(t.nasm:1:1) > Newline(t.nasm:1:15): Invalid syntax"
    );
}

#[test]
fn global_without_symbol_is_unexpected_newline() {
    let e = parse("global\n").err().unwrap();
    match e.kind() {
        NASMParseErrorType::Unexpected { expected, received } => {
            assert_eq!(*expected, NASMTokenType::Symbol);
            assert_eq!(*received, Some((NASMTokenType::Newline, "\n".to_string())));
        }
        other => panic!("{:?}", other),
    }
    assert_eq!(
        frames(&e),
        vec![
            ("parse".to_string(), 1, 1),
            ("global".to_string(), 1, 1),
            ("end-of-file".to_string(), 2, 1),
        ]
    );
    assert_eq!(
        e.to_string(),
        "parse(t.nasm:1:1) > global(t.nasm:1:1) > end-of-file(t.nasm:2:1): Expected Symbol, but received Newline (`\n`)"
    );
}

#[test]
fn missing_token_at_the_end_is_unexpected_with_nothing_received() {
    let e = parse("global").err().unwrap();
    match e.kind() {
        NASMParseErrorType::Unexpected { expected, received } => {
            assert_eq!(*expected, NASMTokenType::Symbol);
            assert_eq!(*received, None);
        }
        other => panic!("{:?}", other),
    }
    assert_eq!(e.kind().to_string(), "Expected Symbol");
    let e = parse("global main").err().unwrap();
    assert_eq!(
        e.to_string(),
        "parse(t.nasm:1:1) > global(t.nasm:1:1) > end-of-file(t.nasm:1:12): Expected Newline"
    );
}

#[test]
fn text_that_is_no_token_is_invalid_input() {
    let e = parse("section .text\n  @\n").err().unwrap();
    assert!(matches!(e.kind(), NASMParseErrorType::InvalidInput));
    assert_eq!(frames(&e), vec![("lex".to_string(), 2, 3)]);
    assert_eq!(e.trace()[0].1.file, "dir/t.nasm");
    assert_eq!(e.to_string(), "lex(t.nasm:2:3): Invalid input");
}

#[test]
fn message_needs_file_names() {
    let e = parse("global\n").err().unwrap();
    assert!(e.names_files());
    let nameless = AssemblyFile::parse::<NASM>("src/..", "global\n").err().unwrap();
    assert!(!nameless.names_files());
    let directory = AssemblyFile::parse::<NASM>("src/t.nasm/", "@").err().unwrap();
    assert!(directory.names_files());
    assert_eq!(directory.to_string(), "lex(t.nasm:1:1): Invalid input");
}

#[test]
fn every_place_of_a_failure_is_in_the_parsed_file() {
    for source in ["global\n", "section .bogus\n", "bits x", "%macro $m 1\nmov", "main:\n  @"] {
        let e = parse(source).err().unwrap();
        assert!(e.trace().iter().all(|(_, place)| place.file == "dir/t.nasm"), "{}", source);
    }
}

#[test]
fn error_kind_messages() {
    assert_eq!(NASMParseErrorType::InvalidInput.to_string(), "Invalid input");
    assert_eq!(NASMParseErrorType::UnexpectedEOF.to_string(), "Unexpected end-of-file");
    assert_eq!(NASMParseErrorType::InvalidSyntax.to_string(), "Invalid syntax");
    let e = NASMParseError::new(NASMParseErrorType::UnexpectedEOF, Vec::new());
    assert_eq!(e.to_string(), "Unexpected end-of-file");
}

#[test]
fn token_that_starts_no_construct_is_invalid_syntax() {
    for source in ["12\n", "orphan\n", "r10:\n", ":\n", "qword\n", "\"s\"\n", "%endmacro\n", "%1\n"] {
        let e = parse(source).err().unwrap();
        assert!(matches!(e.kind(), NASMParseErrorType::InvalidSyntax), "{}", source);
        assert_eq!(frames(&e).len(), 2, "{}", source);
        assert_eq!(frames(&e)[0], ("parse".to_string(), 1, 1));
    }
    let e = parse("\n\n  orphan\n").err().unwrap();
    assert_eq!(
        frames(&e),
        vec![("parse".to_string(), 1, 1), ("Symbol".to_string(), 3, 3)]
    );
}

#[test]
fn bits_sets_the_word_size() {
    assert_eq!(parsed("bits 32\n").bits, 32);
    assert_eq!(parsed("bits 16").bits, 16);
    assert_eq!(parsed("bits 0064\n").bits, 64);
    assert_eq!(parsed("bits 16\nbits 32\n").bits, 32);
}

#[test]
fn bits_that_fit_no_number_are_invalid_syntax() {
    let e = parse("bits 99999999999999999999999999999999999999\n").err().unwrap();
    assert!(matches!(e.kind(), NASMParseErrorType::InvalidSyntax));
    assert_eq!(
        frames(&e),
        vec![
            ("parse".to_string(), 1, 1),
            ("bits".to_string(), 1, 1),
            ("Newline".to_string(), 1, 44),
        ]
    );
    assert_eq!(parsed(&format!("bits {}\n", usize::MAX)).bits, usize::MAX);
    let above = format!("bits {}0\n", usize::MAX);
    assert!(matches!(parse(&above).err().unwrap().kind(), NASMParseErrorType::InvalidSyntax));
}

#[test]
fn bits_without_number() {
    let e = parse("bits x\n").err().unwrap();
    match e.kind() {
        NASMParseErrorType::Unexpected { expected, received } => {
            assert_eq!(*expected, NASMTokenType::Number);
            assert_eq!(*received, Some((NASMTokenType::Symbol, "x".to_string())));
        }
        other => panic!("{:?}", other),
    }
    assert_eq!(frames(&e)[2], ("Newline".to_string(), 1, 7));
}

#[test]
fn globals_are_a_set() {
    let file = parsed("global main\nglobal helper\nglobal main\n");
    assert_eq!(file.globals, vec!["main", "helper"]);
}

#[test]
fn externs_keep_order_and_repeats() {
    let file = parsed("extern printf\nextern malloc\nextern printf\n");
    assert_eq!(file.externs, vec!["printf", "malloc", "printf"]);
}

#[test]
fn include_path_loses_its_quotes() {
    let file = parsed("%include \"lib/io.inc\"\n%include 'other.inc'\n%include \"\"\n");
    assert_eq!(file.includes, vec!["lib/io.inc", "other.inc", ""]);
}

#[test]
fn include_needs_a_string() {
    let e = parse("%include io.inc\n").err().unwrap();
    match e.kind() {
        NASMParseErrorType::Unexpected { expected, received } => {
            assert_eq!(*expected, NASMTokenType::String);
            assert_eq!(*received, Some((NASMTokenType::Symbol, "io.inc".to_string())));
        }
        other => panic!("{:?}", other),
    }
    assert_eq!(frames(&e)[1], ("include".to_string(), 1, 1));
}

#[test]
fn define_takes_the_name_and_drops_the_rest() {
    let file = parsed("%define WIDTH 80 + 2\n%define EMPTY\n");
    assert_eq!(file.defines, vec!["WIDTH", "EMPTY"]);
}

#[test]
fn macro_definition_records_name_and_argument_count() {
    let file = parsed("%macro $foo 2\n  mov %1, %2\n  anything [ goes ) here\n%endmacro\n");
    assert_eq!(file.macros.len(), 1);
    assert_eq!(file.macros[0].name, "$foo");
    assert_eq!(file.macros[0].arg_count, 2);
    assert!(file.macros[0].body.is_empty());
    assert!(file.sections.is_empty());
}

#[test]
fn macro_body_is_not_parsed() {
    let with_body = parsed("%macro $m 1\nglobal\nsection .bogus\nbits x\n%endmacro\n");
    let without = parsed("%macro $m 1 %endmacro");
    assert_eq!(with_body.macros[0].name, without.macros[0].name);
    assert_eq!(with_body.macros[0].arg_count, without.macros[0].arg_count);
    assert!(with_body.globals.is_empty());
    assert_eq!(with_body.bits, 64);
}

#[test]
fn macro_name_must_be_a_macro_call_token() {
    let e = parse("%macro foo 2\n%endmacro\n").err().unwrap();
    match e.kind() {
        NASMParseErrorType::Unexpected { expected, received } => {
            assert_eq!(*expected, NASMTokenType::MacroCall);
            assert_eq!(*received, Some((NASMTokenType::Symbol, "foo".to_string())));
        }
        other => panic!("{:?}", other),
    }
    assert_eq!(frames(&e)[1], ("macro_definition".to_string(), 1, 1));
}

#[test]
fn macro_without_end() {
    let e = parse("%macro $m 1\nmov\n").err().unwrap();
    match e.kind() {
        NASMParseErrorType::Unexpected { expected, received } => {
            assert_eq!(*expected, NASMTokenType::EndMacro);
            assert_eq!(*received, None);
        }
        other => panic!("{:?}", other),
    }
}

#[test]
fn macro_call_is_an_item_of_the_current_section() {
    let file = parsed("section .data\n$emit 1, 2\nvalue:\n$emit\n");
    assert_eq!(file.sections.data.len(), 3);
    match &file.sections.data[0] {
        AssemblyItem::MacroCall(name, args) => {
            assert_eq!(name, "$emit");
            assert!(args.is_empty());
        }
        other => panic!("{:?}", other),
    }
    assert!(matches!(&file.sections.data[1], AssemblyItem::Label(name) if name == "value"));
    assert!(matches!(&file.sections.data[2], AssemblyItem::MacroCall(name, _) if name == "$emit"));
}

#[test]
fn mnemonic_lines_leave_no_trace() {
    let file = parsed("main:\n  mov rax, [rbx + 8 * 2]\n  syscall\n  ret\n");
    assert_eq!(labels(&file.sections.text), vec!["main"]);
}

#[test]
fn label_may_share_a_line_with_an_instruction() {
    let file = parsed("loop: dec r10\n.inner: jnz loop\n");
    assert_eq!(labels(&file.sections.text), vec!["loop", ".inner"]);
}

#[test]
fn mnemonic_needs_a_line_break() {
    let e = parse("ret").err().unwrap();
    match e.kind() {
        NASMParseErrorType::Unexpected { expected, received } => {
            assert_eq!(*expected, NASMTokenType::Newline);
            assert_eq!(*received, None);
        }
        other => panic!("{:?}", other),
    }
    assert_eq!(frames(&e)[1], ("mnemonic".to_string(), 1, 1));
}

#[test]
fn comments_are_passed_over() {
    let file = parsed("; header\nmain: ; entry\n; footer");
    assert_eq!(labels(&file.sections.text), vec!["main"]);
}

#[test]
fn whole_file() {
    let source = "bits 64\n%include \"defs.inc\"\n%define LIMIT 10\nglobal main\nextern printf\n\nsection .data\nmessage: db \"hi\", 10\n\nsection .text\nmain:\n  mov rax, 1\n.loop:\n  dec rax\n  jnz .loop\n  ret\n";
    let file = parsed(source);
    assert_eq!(file.bits, 64);
    assert_eq!(file.includes, vec!["defs.inc"]);
    assert_eq!(file.defines, vec!["LIMIT"]);
    assert_eq!(file.globals, vec!["main"]);
    assert_eq!(file.externs, vec!["printf"]);
    assert_eq!(labels(&file.sections.data), vec!["message"]);
    assert_eq!(labels(&file.sections.text), vec!["main", ".loop"]);
}

#[test]
fn failure_gives_no_model() {
    assert!(parse("global main\nmain:\nsection .nowhere\n").is_err());
}

#[test]
fn parser_in_two_steps() {
    let parser = NASM::new_parser("t.nasm", "extern puts\n").ok().unwrap();
    let file = parser.parse().ok().unwrap();
    assert_eq!(file.externs, vec!["puts"]);
    assert!(NASM::new_parser("t.nasm", "`").is_err());
}

#[test]
fn section_names() {
    assert_eq!(AssemblySection::Text.to_string(), "text");
    assert_eq!(AssemblySection::Data.to_string(), "data");
    assert_eq!(AssemblySection::BSS.to_string(), "bss");
    assert_eq!(AssemblySection::ROData.to_string(), "read-only data");
}
