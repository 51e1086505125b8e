//! What the grammar gives for texts and tokens of a known shape.
use crate::assembly_file::{AssemblyFileView, AssemblySection, ItemView, MacroView, SectionsView};
use crate::syntax::grammar::{
    CharClass, all_of, has_word_at, is_letter, is_mnemonic, is_symbol_start, run_end, scan,
    word_kind,
};
use crate::syntax::lexer::{Cursor, Lexed, after, lex, lex_from, text_width, token_at};
use crate::syntax::nasm::{ErrorKindView, NASMTokenType, ParseErrorView, ParserView, TokenView};
use crate::syntax::rules::{
    Rule, advance, at_end, construct, constructs, current, enter, expect, failure, initial, leave,
    lowered, number_value, parse_text, section_named, skip_blank, skip_until,
};
use vstd::prelude::*;

verus! {

/// A run ends where the first character stands that is not of the class.
pub proof fn lemma_run_ends_at(s: Seq<char>, p: int, e: int, class: CharClass)
    requires
        0 <= p <= e <= s.len(),
        forall|i: int| p <= i < e ==> class.holds(#[trigger] s[i]),
        e < s.len() ==> !class.holds(s[e]),
    ensures
        run_end(s, p, class) == e,
    decreases e - p,
{
    if p < e {
        lemma_run_ends_at(s, p + 1, e, class);
    }
}

/// Every keyword and every mnemonic starts with a letter.
pub proof fn lemma_words_start_with_letters(w: Seq<char>)
    requires
        w == "bits"@ || w == "section"@ || w == "global"@ || w == "extern"@ || w == "qword"@ || w
            == "dword"@ || is_mnemonic(w),
    ensures
        w.len() >= 2,
        is_letter(w[0]),
        w[0] != 'r' || is_letter(w[1]),
{
    reveal_strlit("bits");
    reveal_strlit("section");
    reveal_strlit("global");
    reveal_strlit("extern");
    reveal_strlit("qword");
    reveal_strlit("dword");
    reveal_strlit("mov");
    reveal_strlit("add");
    reveal_strlit("jmp");
    reveal_strlit("push");
    reveal_strlit("pop");
    reveal_strlit("call");
    reveal_strlit("ret");
    reveal_strlit("sub");
    reveal_strlit("mul");
    reveal_strlit("div");
    reveal_strlit("inc");
    reveal_strlit("dec");
    reveal_strlit("and");
    reveal_strlit("or");
    reveal_strlit("xor");
    reveal_strlit("not");
    reveal_strlit("shl");
    reveal_strlit("shr");
    reveal_strlit("cmp");
    reveal_strlit("test");
    reveal_strlit("db");
    reveal_strlit("dd");
    reveal_strlit("align");
    reveal_strlit("equ");
    reveal_strlit("lea");
    reveal_strlit("jne");
    reveal_strlit("je");
    reveal_strlit("imul");
    reveal_strlit("syscall");
    reveal_strlit("jz");
    reveal_strlit("jnz");
}

/// A word that starts with a dot or an underscore is a symbol.
pub proof fn lemma_dotted_word_is_a_symbol(w: Seq<char>)
    requires
        w.len() > 0,
        w[0] == '.' || w[0] == '_',
    ensures
        word_kind(w) == NASMTokenType::Symbol,
{
    if w == "bits"@ || w == "section"@ || w == "global"@ || w == "extern"@ || w == "qword"@ || w
        == "dword"@ || is_mnemonic(w) {
        lemma_words_start_with_letters(w);
    }
}

/// What the lexer gives where a token starts: the token, unless it is blank
/// space, and then what it gives after it.
pub proof fn lemma_lex_step(file: Seq<char>, s: Seq<char>, c: Cursor, ty: NASMTokenType, e: int)
    requires
        0 <= c.at < e <= s.len(),
        scan(s, c.at) == Some((ty, e)),
    ensures
        lex_from(file, s, c) == (match lex_from(file, s, after(s, c, ty, e)) {
            Ok(rest) => if ty == NASMTokenType::Whitespace {
                Ok(rest)
            } else {
                Ok(
                    Lexed {
                        tokens: seq![token_at(file, s, c, ty, e)] + rest.tokens,
                        end: rest.end,
                    },
                )
            },
            Err(place) => Err(place),
        }),
{
}

/// A token: its kind and its text.
pub type Shape = (NASMTokenType, Seq<char>);

/// The kind and the text of each token of `tokens`.
pub open spec fn shape(tokens: Seq<TokenView>) -> Seq<Shape> {
    Seq::new(tokens.len(), |i: int| (tokens[i].ty, tokens[i].value))
}

/// Whether `name` is a label without a leading dot: a symbol that is no
/// keyword, mnemonic or register.
pub open spec fn is_plain_label(name: Seq<char>) -> bool {
    &&& name.len() > 0
    &&& is_symbol_start(name[0])
    &&& name[0] != '.'
    &&& all_of(name, 1, CharClass::SymbolChar)
    &&& word_kind(name) == NASMTokenType::Symbol
}

/// Whether `s` holds, from index `p` to its end, a line for each of `names`
/// from the `k`th on: the name, a colon and a line break.
pub open spec fn label_lines_at(s: Seq<char>, p: int, names: Seq<Seq<char>>, k: int) -> bool
    decreases names.len() - k,
{
    if k < 0 || k >= names.len() {
        p == s.len()
    } else {
        &&& has_word_at(s, p, names[k])
        &&& p + names[k].len() + 2 <= s.len()
        &&& s[p + names[k].len()] == ':'
        &&& s[p + names[k].len() + 1] == '\n'
        &&& label_lines_at(s, p + names[k].len() + 2, names, k + 1)
    }
}

/// The tokens of the lines of `names` from the `k`th on.
pub open spec fn label_shapes(names: Seq<Seq<char>>, k: int) -> Seq<Shape>
    decreases names.len() - k,
{
    if k < 0 || k >= names.len() {
        Seq::empty()
    } else {
        seq![
            (NASMTokenType::Symbol, names[k]),
            (NASMTokenType::Colon, seq![':']),
            (NASMTokenType::Newline, seq!['\n']),
        ] + label_shapes(names, k + 1)
    }
}

/// The lexer cuts a line of a label into the label, the colon and the line
/// break, whatever stands around it.
pub proof fn lemma_lex_label_lines(
    file: Seq<char>,
    s: Seq<char>,
    c: Cursor,
    names: Seq<Seq<char>>,
    k: int,
)
    requires
        0 <= k <= names.len(),
        0 <= c.at,
        label_lines_at(s, c.at, names, k),
        forall|i: int| 0 <= i < names.len() ==> is_plain_label(#[trigger] names[i]),
    ensures
        lex_from(file, s, c) is Ok,
        shape(lex_from(file, s, c)->Ok_0.tokens) == label_shapes(names, k),
    decreases names.len() - k,
{
    if k >= names.len() {
        assert(shape(lex_from(file, s, c)->Ok_0.tokens) =~= label_shapes(names, k));
    } else {
        let name = names[k];
        let p = c.at;
        let e = p + name.len();
        assert(is_plain_label(name));
        assert(s.subrange(p, e) == name);
        assert forall|i: int| p + 1 <= i < e implies CharClass::SymbolChar.holds(
            #[trigger] s[i],
        ) by {
            assert(s[i] == s.subrange(p, e)[i - p]);
            assert(CharClass::SymbolChar.holds(name[i - p]));
        }
        assert(s[p] == s.subrange(p, e)[0]);
        lemma_run_ends_at(s, p + 1, e, CharClass::SymbolChar);
        assert(scan(s, p) == Some((NASMTokenType::Symbol, e)));
        lemma_lex_step(file, s, c, NASMTokenType::Symbol, e);
        let c1 = after(s, c, NASMTokenType::Symbol, e);
        assert(scan(s, e) == Some((NASMTokenType::Colon, e + 1)));
        lemma_lex_step(file, s, c1, NASMTokenType::Colon, e + 1);
        let c2 = after(s, c1, NASMTokenType::Colon, e + 1);
        assert(scan(s, e + 1) == Some((NASMTokenType::Newline, e + 2)));
        lemma_lex_step(file, s, c2, NASMTokenType::Newline, e + 2);
        let c3 = after(s, c2, NASMTokenType::Newline, e + 2);
        lemma_lex_label_lines(file, s, c3, names, k + 1);
        let rest = lex_from(file, s, c3)->Ok_0;
        assert(s.subrange(e, e + 1) =~= seq![':']);
        assert(s.subrange(e + 1, e + 2) =~= seq!['\n']);
        assert(shape(lex_from(file, s, c)->Ok_0.tokens) =~= label_shapes(names, k));
    }
}

/// The lexer cuts `section .text` and its line break into three tokens:
/// blank space is dropped.
pub proof fn lemma_lex_section_text(file: Seq<char>, s: Seq<char>, c: Cursor)
    requires
        c.at == 0,
        has_word_at(s, 0, "section .text\n"@),
    ensures
        lex_from(file, s, c) == (match lex_from(
            file,
            s,
            Cursor { at: 14, offset: c.offset + 14, line: c.line + 1, col: 1 },
        ) {
            Ok(rest) => Ok(
                Lexed {
                    tokens: seq![
                        token_at(file, s, c, NASMTokenType::Section, 7),
                        token_at(
                            file,
                            s,
                            Cursor { at: 8, offset: c.offset + 8, line: c.line, col: c.col + 8 },
                            NASMTokenType::Symbol,
                            13,
                        ),
                        token_at(
                            file,
                            s,
                            Cursor { at: 13, offset: c.offset + 13, line: c.line, col: c.col + 13 },
                            NASMTokenType::Newline,
                            14,
                        ),
                    ] + rest.tokens,
                    end: rest.end,
                },
            ),
            Err(place) => Err(place),
        }),
        s.subrange(8, 13) == ".text"@,
{
    reveal_strlit("section .text\n");
    reveal_strlit("section");
    reveal_strlit(".text");
    reveal_strlit("bits");
    let head = "section .text\n"@;
    assert(s.subrange(0, 14) == head);
    assert forall|i: int| 0 <= i < 14 implies s[i] == #[trigger] head[i] by {
        assert(s[i] == s.subrange(0, 14)[i]);
    }
    assert(s[0] == head[0] && s[1] == head[1] && s[2] == head[2] && s[3] == head[3] && s[4]
        == head[4] && s[5] == head[5] && s[6] == head[6] && s[7] == head[7] && s[8] == head[8]
        && s[9] == head[9] && s[10] == head[10] && s[11] == head[11] && s[12] == head[12] && s[13]
        == head[13]);
    lemma_run_ends_at(s, 1, 7, CharClass::SymbolChar);
    assert(s.subrange(0, 7) =~= "section"@);
    assert(scan(s, 0) == Some((NASMTokenType::Section, 7int)));
    lemma_lex_step(file, s, c, NASMTokenType::Section, 7);
    let c1 = after(s, c, NASMTokenType::Section, 7);
    lemma_width_of_ascii(s, 0, 7);
    lemma_run_ends_at(s, 8, 8, CharClass::Blank);
    assert(scan(s, 7) == Some((NASMTokenType::Whitespace, 8int)));
    lemma_lex_step(file, s, c1, NASMTokenType::Whitespace, 8);
    let c2 = after(s, c1, NASMTokenType::Whitespace, 8);
    lemma_width_of_ascii(s, 7, 8);
    lemma_run_ends_at(s, 9, 13, CharClass::SymbolChar);
    assert(s.subrange(8, 13) =~= ".text"@);
    lemma_dotted_word_is_a_symbol(s.subrange(8, 13));
    assert(scan(s, 8) == Some((NASMTokenType::Symbol, 13int)));
    lemma_lex_step(file, s, c2, NASMTokenType::Symbol, 13);
    let c3 = after(s, c2, NASMTokenType::Symbol, 13);
    lemma_width_of_ascii(s, 8, 13);
    assert(scan(s, 13) == Some((NASMTokenType::Newline, 14int)));
    lemma_lex_step(file, s, c3, NASMTokenType::Newline, 14);
    let c4 = after(s, c3, NASMTokenType::Newline, 14);
    lemma_width_of_ascii(s, 13, 14);
    assert(c2 == Cursor { at: 8, offset: c.offset + 8, line: c.line, col: c.col + 8 });
    assert(c3 == Cursor { at: 13, offset: c.offset + 13, line: c.line, col: c.col + 13 });
    assert(c4 == Cursor { at: 14, offset: c.offset + 14, line: c.line + 1, col: 1 });
    match lex_from(file, s, c4) {
        Ok(rest) => {
            assert(seq![token_at(file, s, c, NASMTokenType::Section, 7)] + (seq![
                token_at(file, s, c2, NASMTokenType::Symbol, 13),
            ] + (seq![token_at(file, s, c3, NASMTokenType::Newline, 14)] + rest.tokens)) =~= seq![
                token_at(file, s, c, NASMTokenType::Section, 7),
                token_at(file, s, c2, NASMTokenType::Symbol, 13),
                token_at(file, s, c3, NASMTokenType::Newline, 14),
            ] + rest.tokens);
        },
        Err(_) => {},
    }
}

/// Characters of ASCII take one byte each.
pub proof fn lemma_width_of_ascii(s: Seq<char>, p: int, e: int)
    requires
        0 <= p <= e <= s.len(),
        forall|i: int| p <= i < e ==> (#[trigger] s[i] as u32) < 0x80,
    ensures
        text_width(s.subrange(p, e)) == e - p,
    decreases e - p,
{
    if p < e {
        lemma_width_of_ascii(s, p, e - 1);
        assert(s.subrange(p, e).drop_last() =~= s.subrange(p, e - 1));
    }
}

/// An empty text parses to the empty file model.
pub proof fn lemma_empty_source(file: Seq<char>)
    ensures
        parse_text(file, Seq::empty()) == Ok::<AssemblyFileView, ParseErrorView>(
            AssemblyFileView::empty(),
        ),
{
    let lexed = lex(file, Seq::empty())->Ok_0;
    assert(lexed.tokens.len() == 0);
    assert(at_end(initial(lexed)));
}

/// `s` with `pos` tokens consumed.
pub open spec fn at(s: ParserView, pos: nat) -> ParserView {
    ParserView { pos, ..s }
}

/// `file` with `item` added at the end of its text section.
pub open spec fn with_text_item(file: AssemblyFileView, item: ItemView) -> AssemblyFileView {
    AssemblyFileView { sections: file.sections.push(AssemblySection::Text, item), ..file }
}

/// `file` with a label for each of the first `n` of `names` added to its
/// text section.
pub open spec fn with_labels(file: AssemblyFileView, names: Seq<Seq<char>>, n: nat) -> AssemblyFileView
    decreases n,
{
    if n == 0 || n > names.len() {
        file
    } else {
        with_text_item(with_labels(file, names, (n - 1) as nat), ItemView::Label(names[n - 1]))
    }
}

/// The labels added to the text section stand after what was there, in the
/// order of their names; nothing else changes.
pub proof fn lemma_with_labels(file: AssemblyFileView, names: Seq<Seq<char>>, n: nat)
    requires
        n <= names.len(),
    ensures
        with_labels(file, names, n) == (AssemblyFileView {
            sections: SectionsView {
                text: file.sections.text + Seq::new(n, |i: int| ItemView::Label(names[i])),
                ..file.sections
            },
            ..file
        }),
    decreases n,
{
    if n > 0 {
        lemma_with_labels(file, names, (n - 1) as nat);
        assert((file.sections.text + Seq::new(
            (n - 1) as nat,
            |i: int| ItemView::Label(names[i]),
        )).push(ItemView::Label(names[n - 1])) =~= file.sections.text + Seq::new(
            n,
            |i: int| ItemView::Label(names[i]),
        ));
    } else {
        assert(file.sections.text + Seq::new(0, |i: int| ItemView::Label(names[i]))
            =~= file.sections.text);
    }
}

/// A section directive makes its section the current one and consumes three
/// tokens.
pub proof fn lemma_section_rule(s: ParserView, section: AssemblySection)
    requires
        s.pos + 2 < s.tokens.len(),
        s.tokens[s.pos as int].ty == NASMTokenType::Section,
        s.tokens[s.pos as int + 1].ty == NASMTokenType::Symbol,
        section_named(s.tokens[s.pos as int + 1].value) == Some(section),
        s.tokens[s.pos as int + 2].ty == NASMTokenType::Newline,
    ensures
        construct(s) == Ok::<ParserView, ParseErrorView>(
            ParserView { pos: s.pos + 3, section, ..s },
        ),
{
    let entered = enter(s, Rule::Section.name())->Ok_0;
    let s1 = advance(entered);
    assert(expect(entered, NASMTokenType::Section) == Ok::<
        (ParserView, TokenView),
        ParseErrorView,
    >((s1, current(entered))));
    let s2 = advance(s1);
    assert(expect(s1, NASMTokenType::Symbol) == Ok::<(ParserView, TokenView), ParseErrorView>(
        (s2, current(s1)),
    ));
    let s3 = ParserView { section, ..s2 };
    assert(expect(s3, NASMTokenType::Newline) == Ok::<(ParserView, TokenView), ParseErrorView>(
        (advance(s3), current(s3)),
    ));
    assert(entered.trace.drop_last() =~= s.trace);
    assert(leave(advance(s3)) == ParserView { pos: s.pos + 3, section, ..s });
}

/// A section directive that names no section is refused as invalid syntax,
/// at the token after the name.
pub proof fn lemma_unknown_section_is_refused(s: ParserView)
    requires
        s.pos + 1 < s.tokens.len(),
        s.tokens[s.pos as int].ty == NASMTokenType::Section,
        s.tokens[s.pos as int + 1].ty == NASMTokenType::Symbol,
        section_named(s.tokens[s.pos as int + 1].value) is None,
    ensures
        construct(s) == Err::<ParserView, ParseErrorView>(
            failure(
                ParserView {
                    pos: s.pos + 2,
                    trace: s.trace.push(("section"@, s.tokens[s.pos as int].loc)),
                    ..s
                },
                ErrorKindView::InvalidSyntax,
            ),
        ),
{
    let entered = enter(s, Rule::Section.name())->Ok_0;
    let s1 = advance(entered);
    assert(expect(entered, NASMTokenType::Section) == Ok::<
        (ParserView, TokenView),
        ParseErrorView,
    >((s1, current(entered))));
    let s2 = advance(s1);
    assert(expect(s1, NASMTokenType::Symbol) == Ok::<(ParserView, TokenView), ParseErrorView>(
        (s2, current(s1)),
    ));
}

/// A symbol and a colon make a label of the current section and consume two
/// tokens.
pub proof fn lemma_label_rule(s: ParserView)
    requires
        s.pos + 1 < s.tokens.len(),
        s.tokens[s.pos as int].ty == NASMTokenType::Symbol,
        s.tokens[s.pos as int + 1].ty == NASMTokenType::Colon,
    ensures
        construct(s) == Ok::<ParserView, ParseErrorView>(
            ParserView {
                pos: s.pos + 2,
                file: AssemblyFileView {
                    sections: s.file.sections.push(
                        s.section,
                        ItemView::Label(s.tokens[s.pos as int].value),
                    ),
                    ..s.file
                },
                ..s
            },
        ),
{
    let entered = enter(s, Rule::Label.name())->Ok_0;
    let s1 = advance(entered);
    assert(expect(entered, NASMTokenType::Symbol) == Ok::<
        (ParserView, TokenView),
        ParseErrorView,
    >((s1, current(entered))));
    let s2 = advance(s1);
    assert(expect(s1, NASMTokenType::Colon) == Ok::<(ParserView, TokenView), ParseErrorView>(
        (s2, current(s1)),
    ));
    assert(entered.trace.drop_last() =~= s.trace);
}

/// Of `s`, whose remaining tokens are the lines of `names` from the `k`th
/// on and whose current section is the text section, the parse gives the
/// file model with those labels added to the text section.
pub proof fn lemma_parse_label_lines(s: ParserView, file: AssemblyFileView, names: Seq<Seq<char>>, k: nat)
    requires
        k <= names.len(),
        s.pos <= s.tokens.len(),
        s.section == AssemblySection::Text,
        s.file == with_labels(file, names, k),
        shape(s.tokens).subrange(s.pos as int, s.tokens.len() as int) == label_shapes(
            names,
            k as int,
        ),
    ensures
        constructs(s) == Ok::<AssemblyFileView, ParseErrorView>(
            with_labels(file, names, names.len()),
        ),
    decreases names.len() - k,
{
    let kinds = shape(s.tokens);
    let rest = kinds.subrange(s.pos as int, s.tokens.len() as int);
    if k == names.len() {
        assert(rest.len() == 0);
    } else {
        let tail = label_shapes(names, k as int + 1);
        assert(rest == seq![
            (NASMTokenType::Symbol, names[k as int]),
            (NASMTokenType::Colon, seq![':']),
            (NASMTokenType::Newline, seq!['\n']),
        ] + tail);
        assert(rest.len() >= 3);
        assert(kinds[s.pos as int] == rest[0]);
        assert(kinds[s.pos as int + 1] == rest[1]);
        assert(kinds[s.pos as int + 2] == rest[2]);
        lemma_label_rule(s);
        let read = construct(s)->Ok_0;
        let next = advance(read);
        assert(kinds.subrange(s.pos as int + 3, s.tokens.len() as int) =~= tail) by {
            assert forall|i: int| 0 <= i < tail.len() implies kinds.subrange(
                s.pos as int + 3,
                s.tokens.len() as int,
            )[i] == tail[i] by {
                assert(kinds[s.pos as int + 3 + i] == rest[3 + i]);
            }
        }
        if k + 1 < names.len() {
            assert(tail[0] == (NASMTokenType::Symbol, names[k as int + 1]));
            assert(kinds[s.pos as int + 3] == rest[3]);
        } else {
            assert(tail.len() == 0);
        }
        assert(skip_blank(next) == next);
        assert(skip_blank(read) == next);
        lemma_parse_label_lines(next, file, names, k + 1);
    }
}

/// A file that holds `section .text` and then a line for each of `names`,
/// which are labels without a leading dot, each with its colon: the parse
/// gives a label for each name in the text section, in the order of the file,
/// and nothing else.
pub proof fn lemma_labels_of_a_text_section(
    file: Seq<char>,
    source: Seq<char>,
    names: Seq<Seq<char>>,
)
    requires
        has_word_at(source, 0, "section .text\n"@),
        label_lines_at(source, 14, names, 0),
        forall|i: int| 0 <= i < names.len() ==> is_plain_label(#[trigger] names[i]),
    ensures
        parse_text(file, source) == Ok::<AssemblyFileView, ParseErrorView>(
            AssemblyFileView {
                sections: SectionsView {
                    text: Seq::new(names.len(), |i: int| ItemView::Label(names[i])),
                    ..SectionsView::empty()
                },
                ..AssemblyFileView::empty()
            },
        ),
{
    reveal_strlit(".text");
    let start = Cursor { at: 0, offset: 0, line: 1, col: 1 };
    let lines = Cursor { at: 14, offset: 14, line: 2, col: 1 };
    lemma_lex_section_text(file, source, start);
    lemma_lex_label_lines(file, source, lines, names, 0);
    let rest = lex_from(file, source, lines)->Ok_0;
    let lexed = lex(file, source)->Ok_0;
    let s = initial(lexed);
    assert(lexed.tokens.len() == rest.tokens.len() + 3);
    assert(lexed.tokens[0].ty == NASMTokenType::Section);
    assert(lexed.tokens[1].ty == NASMTokenType::Symbol);
    assert(lexed.tokens[1].value == ".text"@);
    assert(lexed.tokens[2].ty == NASMTokenType::Newline);
    let name = lexed.tokens[1].value;
    assert(lowered(name) =~= name);
    assert(section_named(name) == Some(AssemblySection::Text));
    let framed = ParserView { trace: s.trace.push(("parse"@, current(s).loc)), ..s };
    assert(skip_blank(framed) == framed);
    lemma_section_rule(framed, AssemblySection::Text);
    let read = construct(framed)->Ok_0;
    assert(shape(read.tokens).subrange(3, read.tokens.len() as int) =~= shape(rest.tokens));
    if names.len() > 0 {
        assert(label_shapes(names, 0)[0] == (NASMTokenType::Symbol, names[0]));
        assert(shape(rest.tokens)[0] == label_shapes(names, 0)[0]);
        assert(read.tokens[3].ty == NASMTokenType::Symbol);
    } else {
        assert(label_shapes(names, 0).len() == 0);
    }
    assert(skip_blank(read) == read);
    lemma_parse_label_lines(read, AssemblyFileView::empty(), names, 0);
    lemma_with_labels(AssemblyFileView::empty(), names, names.len());
    assert(Seq::<ItemView>::empty() + Seq::new(names.len(), |i: int| ItemView::Label(names[i]))
        =~= Seq::new(names.len(), |i: int| ItemView::Label(names[i])));
}

/// `skip_until` stops at the first token of the kind it looks for.
pub proof fn lemma_skip_until(s: ParserView, stop: NASMTokenType, e: nat)
    requires
        s.pos <= e <= s.tokens.len(),
        forall|j: int| s.pos <= j < e ==> (#[trigger] s.tokens[j]).ty != stop,
        e < s.tokens.len() ==> s.tokens[e as int].ty == stop,
    ensures
        skip_until(s, stop) == at(s, e),
    decreases e - s.pos,
{
    if s.pos < e {
        assert(s.tokens[s.pos as int].ty != stop);
        lemma_skip_until(advance(s), stop, e);
    }
}

/// A macro definition records the name and the number of arguments, and
/// consumes everything up to and with the first `%endmacro`, whatever the
/// tokens before it are.
pub proof fn lemma_macro_definition(s: ParserView, e: nat)
    requires
        s.pos + 3 <= e < s.tokens.len(),
        s.tokens[s.pos as int].ty == NASMTokenType::Macro,
        s.tokens[s.pos as int + 1].ty == NASMTokenType::MacroCall,
        s.tokens[s.pos as int + 2].ty == NASMTokenType::Number,
        number_value(s.tokens[s.pos as int + 2].value) is Some,
        forall|j: int| s.pos + 3 <= j < e ==> (#[trigger] s.tokens[j]).ty != NASMTokenType::EndMacro,
        s.tokens[e as int].ty == NASMTokenType::EndMacro,
    ensures
        construct(s) == Ok::<ParserView, ParseErrorView>(
            ParserView {
                pos: e + 1,
                file: AssemblyFileView {
                    macros: s.file.macros.push(
                        MacroView {
                            name: s.tokens[s.pos as int + 1].value,
                            arg_count: number_value(s.tokens[s.pos as int + 2].value)->0 as nat,
                            body: Seq::empty(),
                        },
                    ),
                    ..s.file
                },
                ..s
            },
        ),
{
    let entered = enter(s, Rule::MacroDefinition.name())->Ok_0;
    let s1 = advance(entered);
    assert(expect(entered, NASMTokenType::Macro) == Ok::<(ParserView, TokenView), ParseErrorView>(
        (s1, current(entered)),
    ));
    let s2 = advance(s1);
    assert(expect(s1, NASMTokenType::MacroCall) == Ok::<(ParserView, TokenView), ParseErrorView>(
        (s2, current(s1)),
    ));
    let s3 = advance(s2);
    assert(expect(s2, NASMTokenType::Number) == Ok::<(ParserView, TokenView), ParseErrorView>(
        (s3, current(s2)),
    ));
    lemma_skip_until(s3, NASMTokenType::EndMacro, e);
    let s4 = at(s3, e);
    assert(expect(s4, NASMTokenType::EndMacro) == Ok::<(ParserView, TokenView), ParseErrorView>(
        (advance(s4), current(s4)),
    ));
    assert(entered.trace.drop_last() =~= s.trace);
}

} // verus!
