use asmdoc::syntax::lexer::tokenize;
use asmdoc::syntax::nasm::{NASMToken, NASMTokenType};

fn kinds(tokens: &[NASMToken]) -> Vec<NASMTokenType> {
    tokens.iter().map(|t| t.ty).collect()
}

fn texts(tokens: &[NASMToken]) -> Vec<String> {
    tokens.iter().map(|t| t.value.clone()).collect()
}

fn lex(source: &str) -> (Vec<NASMToken>, NASMToken) {
    match tokenize("t.nasm", source) {
        Ok(lexed) => lexed,
        Err(place) => panic!("no token at {}:{}", place.line, place.col),
    }
}

#[test]
fn instruction_line_is_cut_into_tokens_with_places() {
    let (tokens, end) = lex("mov rax, 1\n");
    assert_eq!(
        kinds(&tokens),
        vec![
            NASMTokenType::Mnemonic,
            NASMTokenType::Symbol,
            NASMTokenType::Comma,
            NASMTokenType::Number,
            NASMTokenType::Newline,
        ]
    );
    assert_eq!(texts(&tokens), vec!["mov", "rax", ",", "1", "\n"]);
    let cols: Vec<usize> = tokens.iter().map(|t| t.loc.col).collect();
    assert_eq!(cols, vec![1, 5, 8, 10, 11]);
    assert!(tokens.iter().all(|t| t.loc.line == 1 && t.loc.file == "t.nasm"));
    assert_eq!((tokens[1].span.start, tokens[1].span.end), (4, 7));
    assert_eq!(end.ty, NASMTokenType::EOF);
    assert_eq!(end.value, "");
    assert_eq!((end.loc.line, end.loc.col), (2, 1));
    assert_eq!((end.span.start, end.span.end), (11, 11));
}

#[test]
fn empty_text_has_only_the_end_token() {
    let (tokens, end) = lex("");
    assert!(tokens.is_empty());
    assert_eq!((end.loc.line, end.loc.col), (1, 1));
    assert_eq!((end.span.start, end.span.end), (0, 0));
}

#[test]
fn keywords_are_whole_words_only() {
    let (tokens, _) = lex("bits bits64 section sections global extern qword dword");
    assert_eq!(
        kinds(&tokens),
        vec![
            NASMTokenType::Bits,
            NASMTokenType::Symbol,
            NASMTokenType::Section,
            NASMTokenType::Symbol,
            NASMTokenType::Global,
            NASMTokenType::Extern,
            NASMTokenType::QWord,
            NASMTokenType::DWord,
        ]
    );
}

#[test]
fn every_mnemonic_is_known() {
    let names = [
        "mov", "add", "jmp", "push", "pop", "call", "ret", "sub", "mul", "div", "inc", "dec",
        "and", "or", "xor", "not", "shl", "shr", "cmp", "test", "db", "dd", "align", "equ", "lea",
        "jne", "je", "imul", "syscall", "jz", "jnz",
    ];
    for name in names {
        let (tokens, _) = lex(name);
        assert_eq!(kinds(&tokens), vec![NASMTokenType::Mnemonic], "{}", name);
        assert_eq!(tokens[0].value, name);
    }
    let (tokens, _) = lex("movq jnzx MOV");
    assert_eq!(
        kinds(&tokens),
        vec![NASMTokenType::Symbol, NASMTokenType::Symbol, NASMTokenType::Symbol]
    );
}

#[test]
fn registers_are_r_and_digits() {
    let (tokens, _) = lex("r10 r r10d rax r0");
    assert_eq!(
        kinds(&tokens),
        vec![
            NASMTokenType::Register,
            NASMTokenType::Symbol,
            NASMTokenType::Symbol,
            NASMTokenType::Symbol,
            NASMTokenType::Register,
        ]
    );
}

#[test]
fn directives_macro_calls_and_arguments() {
    let (tokens, _) = lex("%include %define %macro %endmacro %12 $name $ $$ a$b");
    assert_eq!(
        kinds(&tokens),
        vec![
            NASMTokenType::Include,
            NASMTokenType::Define,
            NASMTokenType::Macro,
            NASMTokenType::EndMacro,
            NASMTokenType::MacroArg,
            NASMTokenType::MacroCall,
            NASMTokenType::CurrentPosition,
            NASMTokenType::CurrentPosition,
            NASMTokenType::CurrentPosition,
            NASMTokenType::Symbol,
        ]
    );
    assert_eq!(tokens[4].value, "%12");
    assert_eq!(tokens[5].value, "$name");
    assert_eq!(tokens[9].value, "a$b");
}

#[test]
fn directive_is_a_token_whatever_follows() {
    let (tokens, _) = lex("%macrox");
    assert_eq!(kinds(&tokens), vec![NASMTokenType::Macro, NASMTokenType::Symbol]);
    assert_eq!(texts(&tokens), vec!["%macro", "x"]);
}

#[test]
fn punctuation_tokens() {
    let (tokens, _) = lex(":,[]+-*/~|^&()");
    assert_eq!(
        kinds(&tokens),
        vec![
            NASMTokenType::Colon,
            NASMTokenType::Comma,
            NASMTokenType::LeftBracket,
            NASMTokenType::RightBracket,
            NASMTokenType::Plus,
            NASMTokenType::Minus,
            NASMTokenType::Asterisk,
            NASMTokenType::Slash,
            NASMTokenType::BitNot,
            NASMTokenType::BitOr,
            NASMTokenType::BitXor,
            NASMTokenType::BitAnd,
            NASMTokenType::LeftParen,
            NASMTokenType::RightParen,
        ]
    );
}

#[test]
fn strings_take_escapes_and_either_quote() {
    let (tokens, _) = lex("\"a\\\"b\" 'c\"d' \"\"");
    assert_eq!(
        kinds(&tokens),
        vec![NASMTokenType::String, NASMTokenType::String, NASMTokenType::String]
    );
    assert_eq!(texts(&tokens), vec!["\"a\\\"b\"", "'c\"d'", "\"\""]);
}

#[test]
fn string_may_span_lines_without_a_new_line_number() {
    let (tokens, end) = lex("\"a\nb\" x");
    assert_eq!(kinds(&tokens), vec![NASMTokenType::String, NASMTokenType::Symbol]);
    assert_eq!((tokens[1].loc.line, tokens[1].loc.col), (1, 7));
    assert_eq!((end.loc.line, end.loc.col), (1, 8));
}

#[test]
fn unclosed_string_is_no_token() {
    let place = tokenize("t.nasm", "x \"abc").err().unwrap();
    assert_eq!((place.line, place.col), (1, 3));
    let place = tokenize("t.nasm", "\"a\\\n\"").err().unwrap();
    assert_eq!((place.line, place.col), (1, 1));
}

#[test]
fn comment_runs_to_the_end_of_the_line() {
    let (tokens, _) = lex("; note: \"x\n\nlabel");
    assert_eq!(
        kinds(&tokens),
        vec![
            NASMTokenType::Comment,
            NASMTokenType::Newline,
            NASMTokenType::Newline,
            NASMTokenType::Symbol,
        ]
    );
    assert_eq!(tokens[0].value, "; note: \"x");
    assert_eq!((tokens[3].loc.line, tokens[3].loc.col), (3, 1));
}

#[test]
fn columns_and_spans_count_bytes() {
    let (tokens, end) = lex("; h\u{e9}\u{20ac}\u{1f600} x\ny");
    assert_eq!(kinds(&tokens), vec![
        NASMTokenType::Comment,
        NASMTokenType::Newline,
        NASMTokenType::Symbol,
    ]);
    assert_eq!((tokens[0].span.start, tokens[0].span.end), (0, 14));
    assert_eq!((tokens[1].loc.line, tokens[1].loc.col), (1, 15));
    assert_eq!((tokens[2].loc.line, tokens[2].loc.col), (2, 1));
    assert_eq!((tokens[2].span.start, tokens[2].span.end), (15, 16));
    assert_eq!((end.span.start, end.loc.col), (16, 2));
}

#[test]
fn blank_space_moves_the_column_and_is_dropped() {
    let (tokens, _) = lex(" \t\u{c}  x");
    assert_eq!(kinds(&tokens), vec![NASMTokenType::Symbol]);
    assert_eq!(tokens[0].loc.col, 6);
    assert_eq!(tokens[0].span.start, 5);
}

#[test]
fn number_then_word() {
    let (tokens, _) = lex("10abc 007");
    assert_eq!(
        kinds(&tokens),
        vec![NASMTokenType::Number, NASMTokenType::Symbol, NASMTokenType::Number]
    );
    assert_eq!(texts(&tokens), vec!["10", "abc", "007"]);
}

#[test]
fn characters_outside_the_grammar_are_refused_where_they_stand() {
    let place = tokenize("t.nasm", "mov\n  @").err().unwrap();
    assert_eq!((place.file.as_str(), place.line, place.col), ("t.nasm", 2, 3));
    assert!(tokenize("t.nasm", "%").is_err());
    assert!(tokenize("t.nasm", "%inc").is_err());
    assert!(tokenize("t.nasm", "a\r\n").is_err());
    assert!(tokenize("t.nasm", "\u{e9}").is_err());
}

#[test]
fn token_kind_names() {
    assert_eq!(NASMTokenType::Newline.to_string(), "Newline");
    assert_eq!(NASMTokenType::CurrentPosition.to_string(), "CurrentPosition");
    assert_eq!(NASMTokenType::EOF.to_string(), "EOF");
    assert_eq!(NASMTokenType::Extern.to_string(), "Extern");
}
