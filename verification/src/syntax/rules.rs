//! The rules of the NASM grammar, as functions on the state of a parser.
use crate::assembly_file::{AssemblyFileView, AssemblySection, ItemView, MacroView};
use crate::syntax::grammar::{CharClass, all_of, is_digit, text_is};
use crate::syntax::lexer::{Lexed, lex};
use crate::syntax::nasm::{ErrorKindView, NASMTokenType, ParseErrorView, ParserView, TokenView};
use crate::text::{chars_of, string_of};
use vstd::prelude::*;

verus! {

/// What a rule gives: the state after it, or the failure.
pub type Step = Result<ParserView, ParseErrorView>;

/// Whether every token is consumed.
pub open spec fn at_end(s: ParserView) -> bool {
    s.pos >= s.tokens.len()
}

/// The next token.
pub open spec fn current(s: ParserView) -> TokenView {
    s.tokens[s.pos as int]
}

/// `s` with the next token consumed.
pub open spec fn advance(s: ParserView) -> ParserView {
    ParserView { pos: s.pos + 1, ..s }
}

/// Whether the token after the next is of kind `ty`.
pub open spec fn peek_is(s: ParserView, ty: NASMTokenType) -> bool {
    s.pos + 1 < s.tokens.len() && s.tokens[s.pos as int + 1].ty == ty
}

/// The failure of kind `ty` in state `s`: the rules being applied, and last
/// the next token by the name of its kind, or `end-of-file` where none is
/// left.
pub open spec fn failure(s: ParserView, ty: ErrorKindView) -> ParseErrorView {
    ParseErrorView {
        ty,
        trace: s.trace.push(
            if at_end(s) {
                ("end-of-file"@, s.end.loc)
            } else {
                (current(s).ty.name(), current(s).loc)
            },
        ),
    }
}

/// Consumes the next token, which must be of kind `expected`. The failure,
/// where it is of another kind, is raised after it is consumed.
pub open spec fn expect(s: ParserView, expected: NASMTokenType) -> Result<
    (ParserView, TokenView),
    ParseErrorView,
> {
    if at_end(s) {
        Err(failure(s, ErrorKindView::Unexpected { expected, received: None }))
    } else if current(s).ty == expected {
        Ok((advance(s), current(s)))
    } else {
        Err(
            failure(
                advance(s),
                ErrorKindView::Unexpected {
                    expected,
                    received: Some((current(s).ty, current(s).value)),
                },
            ),
        )
    }
}

/// `s` with the tokens consumed that stand before the next token of kind
/// `stop`; all of them where there is none.
pub open spec fn skip_until(s: ParserView, stop: NASMTokenType) -> ParserView
    decreases s.tokens.len() - s.pos,
{
    if !at_end(s) && current(s).ty != stop {
        skip_until(advance(s), stop)
    } else {
        s
    }
}

/// `s` with the line breaks and blank space consumed that come next.
pub open spec fn skip_blank(s: ParserView) -> ParserView
    decreases s.tokens.len() - s.pos,
{
    if !at_end(s) && (current(s).ty == NASMTokenType::Newline || current(s).ty
        == NASMTokenType::Whitespace) {
        skip_blank(advance(s))
    } else {
        s
    }
}

/// Enters the rule `name`: the trace gets a frame for it, at the place of the
/// next token.
pub open spec fn enter(s: ParserView, name: Seq<char>) -> Step {
    if at_end(s) {
        Err(failure(s, ErrorKindView::UnexpectedEOF))
    } else {
        Ok(ParserView { trace: s.trace.push((name, current(s).loc)), ..s })
    }
}

/// Leaves the rule entered last.
pub open spec fn leave(s: ParserView) -> ParserView {
    ParserView { trace: s.trace.drop_last(), ..s }
}

/// The number that the digits `v` denote.
pub open spec fn digits_value(v: Seq<char>) -> nat
    decreases v.len(),
{
    if v.len() == 0 {
        0
    } else {
        digits_value(v.drop_last()) * 10 + ((v.last() as u32) - ('0' as u32)) as nat
    }
}

/// The number that `v` denotes, where `v` is made of digits and the number
/// fits the machine's numbers.
pub open spec fn number_value(v: Seq<char>) -> Option<usize> {
    if v.len() > 0 && all_of(v, 0, CharClass::Digit) && digits_value(v) <= usize::MAX {
        Some(digits_value(v) as usize)
    } else {
        None
    }
}

/// `c` in lower case, where it is an upper-case letter of ASCII.
pub open spec fn lower(c: char) -> char {
    if 'A' <= c <= 'Z' {
        ((c as u32) + 32) as char
    } else {
        c
    }
}

/// `w` with its upper-case letters of ASCII in lower case.
pub open spec fn lowered(w: Seq<char>) -> Seq<char> {
    Seq::new(w.len(), |i: int| lower(w[i]))
}

/// The section that `name` names, whatever the case of its letters.
pub open spec fn section_named(name: Seq<char>) -> Option<AssemblySection> {
    if lowered(name) == ".text"@ {
        Some(AssemblySection::Text)
    } else if lowered(name) == ".data"@ {
        Some(AssemblySection::Data)
    } else if lowered(name) == ".rodata"@ {
        Some(AssemblySection::ROData)
    } else if lowered(name) == ".bss"@ {
        Some(AssemblySection::BSS)
    } else {
        None
    }
}

/// `text` without its first and its last character.
pub open spec fn unquoted(text: Seq<char>) -> Seq<char> {
    if text.len() >= 2 {
        text.subrange(1, text.len() - 1)
    } else {
        Seq::empty()
    }
}

/// `s` with `item` added at the end of the current section.
pub open spec fn with_item(s: ParserView, item: ItemView) -> ParserView {
    ParserView {
        file: AssemblyFileView { sections: s.file.sections.push(s.section, item), ..s.file },
        ..s
    }
}

/// `bits`, then a number: sets the word size.
pub open spec fn bits_body(s: ParserView) -> Step {
    match expect(s, NASMTokenType::Bits) {
        Ok((s1, _)) => match expect(s1, NASMTokenType::Number) {
            Ok((s2, number)) => match number_value(number.value) {
                Some(bits) => Ok(
                    ParserView { file: AssemblyFileView { bits: bits as nat, ..s2.file }, ..s2 },
                ),
                None => Err(failure(s2, ErrorKindView::InvalidSyntax)),
            },
            Err(e) => Err(e),
        },
        Err(e) => Err(e),
    }
}

/// `section`, then the name of a section, then a line break: items go to
/// that section from here on.
pub open spec fn section_body(s: ParserView) -> Step {
    match expect(s, NASMTokenType::Section) {
        Ok((s1, _)) => match expect(s1, NASMTokenType::Symbol) {
            Ok((s2, name)) => match section_named(name.value) {
                Some(section) => match expect(
                    ParserView { section, ..s2 },
                    NASMTokenType::Newline,
                ) {
                    Ok((s3, _)) => Ok(s3),
                    Err(e) => Err(e),
                },
                None => Err(failure(s2, ErrorKindView::InvalidSyntax)),
            },
            Err(e) => Err(e),
        },
        Err(e) => Err(e),
    }
}

/// A symbol, then a colon: a label of the current section.
pub open spec fn label_body(s: ParserView) -> Step {
    match expect(s, NASMTokenType::Symbol) {
        Ok((s1, name)) => match expect(s1, NASMTokenType::Colon) {
            Ok((s2, _)) => Ok(with_item(s2, ItemView::Label(name.value))),
            Err(e) => Err(e),
        },
        Err(e) => Err(e),
    }
}

/// A mnemonic, then anything up to the line break.
pub open spec fn mnemonic_body(s: ParserView) -> Step {
    match expect(s, NASMTokenType::Mnemonic) {
        Ok((s1, _)) => match expect(
            skip_until(s1, NASMTokenType::Newline),
            NASMTokenType::Newline,
        ) {
            Ok((s2, _)) => Ok(s2),
            Err(e) => Err(e),
        },
        Err(e) => Err(e),
    }
}

/// `global`, then a symbol, then a line break: the symbol is global.
pub open spec fn global_body(s: ParserView) -> Step {
    match expect(s, NASMTokenType::Global) {
        Ok((s1, _)) => match expect(s1, NASMTokenType::Symbol) {
            Ok((s2, name)) => match expect(s2, NASMTokenType::Newline) {
                Ok((s3, _)) => Ok(
                    ParserView {
                        file: AssemblyFileView {
                            globals: s3.file.globals.insert(name.value),
                            ..s3.file
                        },
                        ..s3
                    },
                ),
                Err(e) => Err(e),
            },
            Err(e) => Err(e),
        },
        Err(e) => Err(e),
    }
}

/// A declaration of an external name: the keyword, then a symbol, then a
/// line break.
pub open spec fn extern_body(s: ParserView) -> Step {
    match expect(s, NASMTokenType::Extern) {
        Ok((s1, _)) => match expect(s1, NASMTokenType::Symbol) {
            Ok((s2, name)) => match expect(s2, NASMTokenType::Newline) {
                Ok((s3, _)) => Ok(
                    ParserView {
                        file: AssemblyFileView {
                            externs: s3.file.externs.push(name.value),
                            ..s3.file
                        },
                        ..s3
                    },
                ),
                Err(e) => Err(e),
            },
            Err(e) => Err(e),
        },
        Err(e) => Err(e),
    }
}

/// The directive that takes another file in: the keyword, then a string,
/// then a line break. The path is the string without its quotes.
pub open spec fn include_body(s: ParserView) -> Step {
    match expect(s, NASMTokenType::Include) {
        Ok((s1, _)) => match expect(s1, NASMTokenType::String) {
            Ok((s2, path)) => match expect(s2, NASMTokenType::Newline) {
                Ok((s3, _)) => Ok(
                    ParserView {
                        file: AssemblyFileView {
                            includes: s3.file.includes.push(unquoted(path.value)),
                            ..s3.file
                        },
                        ..s3
                    },
                ),
                Err(e) => Err(e),
            },
            Err(e) => Err(e),
        },
        Err(e) => Err(e),
    }
}

/// `%macro`, then the name, then the number of arguments, then anything up
/// to `%endmacro`. The body is not read.
pub open spec fn macro_definition_body(s: ParserView) -> Step {
    match expect(s, NASMTokenType::Macro) {
        Ok((s1, _)) => match expect(s1, NASMTokenType::MacroCall) {
            Ok((s2, name)) => match expect(s2, NASMTokenType::Number) {
                Ok((s3, count)) => match number_value(count.value) {
                    Some(arg_count) => match expect(
                        skip_until(s3, NASMTokenType::EndMacro),
                        NASMTokenType::EndMacro,
                    ) {
                        Ok((s4, _)) => Ok(
                            ParserView {
                                file: AssemblyFileView {
                                    macros: s4.file.macros.push(
                                        MacroView {
                                            name: name.value,
                                            arg_count: arg_count as nat,
                                            body: Seq::empty(),
                                        },
                                    ),
                                    ..s4.file
                                },
                                ..s4
                            },
                        ),
                        Err(e) => Err(e),
                    },
                    None => Err(failure(s3, ErrorKindView::InvalidSyntax)),
                },
                Err(e) => Err(e),
            },
            Err(e) => Err(e),
        },
        Err(e) => Err(e),
    }
}

/// The name of a macro, then anything up to the line break: a macro call of
/// the current section. Its arguments are not read.
pub open spec fn macro_call_body(s: ParserView) -> Step {
    match expect(s, NASMTokenType::MacroCall) {
        Ok((s1, name)) => match expect(
            skip_until(s1, NASMTokenType::Newline),
            NASMTokenType::Newline,
        ) {
            Ok((s2, _)) => Ok(with_item(s2, ItemView::MacroCall(name.value, Seq::empty()))),
            Err(e) => Err(e),
        },
        Err(e) => Err(e),
    }
}

/// `%define`, then a symbol, then anything up to the line break.
pub open spec fn define_body(s: ParserView) -> Step {
    match expect(s, NASMTokenType::Define) {
        Ok((s1, _)) => match expect(s1, NASMTokenType::Symbol) {
            Ok((s2, name)) => match expect(
                skip_until(s2, NASMTokenType::Newline),
                NASMTokenType::Newline,
            ) {
                Ok((s3, _)) => Ok(
                    ParserView {
                        file: AssemblyFileView {
                            defines: s3.file.defines.push(name.value),
                            ..s3.file
                        },
                        ..s3
                    },
                ),
                Err(e) => Err(e),
            },
            Err(e) => Err(e),
        },
        Err(e) => Err(e),
    }
}

/// The rules of the grammar.
#[derive(Clone, Copy, Debug, PartialEq, Eq, Structural)]
pub enum Rule {
    Bits,
    Section,
    Label,
    Mnemonic,
    Global,
    Extern,
    Include,
    MacroDefinition,
    MacroCall,
    Define,
}

impl Rule {
    /// The name of this rule in a trace.
    pub open spec fn name(self) -> Seq<char> {
        match self {
            Rule::Bits => "bits"@,
            Rule::Section => "section"@,
            Rule::Label => "label"@,
            Rule::Mnemonic => "mnemonic"@,
            Rule::Global => "global"@,
            Rule::Extern => "extern"@,
            Rule::Include => "include"@,
            Rule::MacroDefinition => "macro_definition"@,
            Rule::MacroCall => "macro_call"@,
            Rule::Define => "define"@,
        }
    }

    /// What this rule reads and does, once it is entered.
    pub open spec fn body(self, s: ParserView) -> Step {
        match self {
            Rule::Bits => bits_body(s),
            Rule::Section => section_body(s),
            Rule::Label => label_body(s),
            Rule::Mnemonic => mnemonic_body(s),
            Rule::Global => global_body(s),
            Rule::Extern => extern_body(s),
            Rule::Include => include_body(s),
            Rule::MacroDefinition => macro_definition_body(s),
            Rule::MacroCall => macro_call_body(s),
            Rule::Define => define_body(s),
        }
    }

    /// This rule applied in state `s`: it is entered, does its work, and is
    /// left. After a failure it stays in the trace.
    pub open spec fn apply(self, s: ParserView) -> Step {
        match enter(s, self.name()) {
            Ok(entered) => match self.body(entered) {
                Ok(done) => Ok(leave(done)),
                Err(e) => Err(e),
            },
            Err(e) => Err(e),
        }
    }
}

/// The rule that the next token of `s` calls for, if any. A symbol calls
/// for a label only where a colon follows it.
pub open spec fn rule_for(s: ParserView) -> Option<Rule> {
    let ty = current(s).ty;
    if ty == NASMTokenType::Bits {
        Some(Rule::Bits)
    } else if ty == NASMTokenType::Section {
        Some(Rule::Section)
    } else if ty == NASMTokenType::Symbol && peek_is(s, NASMTokenType::Colon) {
        Some(Rule::Label)
    } else if ty == NASMTokenType::Mnemonic {
        Some(Rule::Mnemonic)
    } else if ty == NASMTokenType::Global {
        Some(Rule::Global)
    } else if ty == NASMTokenType::Extern {
        Some(Rule::Extern)
    } else if ty == NASMTokenType::Macro {
        Some(Rule::MacroDefinition)
    } else if ty == NASMTokenType::MacroCall {
        Some(Rule::MacroCall)
    } else if ty == NASMTokenType::Include {
        Some(Rule::Include)
    } else if ty == NASMTokenType::Define {
        Some(Rule::Define)
    } else {
        None
    }
}

/// One construct read from `s`, which has tokens left: the rule that the
/// next token calls for is applied; a comment is passed over; any other
/// token is refused.
pub open spec fn construct(s: ParserView) -> Step {
    match rule_for(s) {
        Some(rule) => rule.apply(s),
        None => if current(s).ty == NASMTokenType::Comment {
            Ok(advance(s))
        } else {
            Err(failure(s, ErrorKindView::InvalidSyntax))
        },
    }
}

/// The constructs of `s` read one after another, with the line breaks
/// between them passed over, until no token is left: the file model, or the
/// first failure.
pub open spec fn constructs(s: ParserView) -> Result<AssemblyFileView, ParseErrorView>
    decreases s.tokens.len() - s.pos,
{
    if at_end(s) {
        Ok(s.file)
    } else {
        match construct(s) {
            Ok(read) => {
                let next = skip_blank(read);
                if s.pos < next.pos <= next.tokens.len() && next.tokens.len() == s.tokens.len() {
                    constructs(next)
                } else {
                    Ok(next.file)
                }
            },
            Err(e) => Err(e),
        }
    }
}

/// The parse that a parser in state `s` makes: the trace starts with a frame
/// for the parse itself where there are tokens.
pub open spec fn parse_of(s: ParserView) -> Result<AssemblyFileView, ParseErrorView> {
    if at_end(s) {
        constructs(skip_blank(s))
    } else {
        constructs(skip_blank(ParserView { trace: s.trace.push(("parse"@, current(s).loc)), ..s }))
    }
}

/// The state of a parser that has read nothing of `lexed` yet: the file
/// model is empty, and items go to the text section.
pub open spec fn initial(lexed: Lexed) -> ParserView {
    ParserView {
        pos: 0,
        tokens: lexed.tokens,
        end: lexed.end,
        file: AssemblyFileView::empty(),
        section: AssemblySection::Text,
        trace: Seq::empty(),
    }
}

/// What parsing the text `source` of the file `file` gives: the model of the
/// file, or the first failure. A text that the lexer refuses fails as
/// invalid input, at the place where no token starts.
pub open spec fn parse_text(file: Seq<char>, source: Seq<char>) -> Result<
    AssemblyFileView,
    ParseErrorView,
> {
    match lex(file, source) {
        Ok(lexed) => parse_of(initial(lexed)),
        Err(place) => Err(
            ParseErrorView { ty: ErrorKindView::InvalidInput, trace: seq![("lex"@, place)] },
        ),
    }
}

/// Whether `after` is `before` with more tokens consumed and nothing else
/// changed.
pub open spec fn consumed(before: ParserView, after: ParserView) -> bool {
    &&& moved(before, after)
    &&& after.file == before.file
    &&& after.section == before.section
}

/// Whether `after` is `before` with more tokens consumed: the tokens and
/// the trace are the same.
pub open spec fn moved(before: ParserView, after: ParserView) -> bool {
    &&& after.tokens == before.tokens
    &&& after.end == before.end
    &&& after.trace == before.trace
    &&& before.pos <= after.pos
    &&& (after.pos == before.pos || after.pos <= after.tokens.len())
}

/// Skipping to a token consumes tokens and changes nothing else.
pub proof fn lemma_skip_until_consumes(s: ParserView, stop: NASMTokenType)
    ensures
        consumed(s, skip_until(s, stop)),
    decreases s.tokens.len() - s.pos,
{
    if !at_end(s) && current(s).ty != stop {
        lemma_skip_until_consumes(advance(s), stop);
    }
}

/// Skipping blank space consumes tokens and changes nothing else.
pub proof fn lemma_skip_blank_consumes(s: ParserView)
    ensures
        consumed(s, skip_blank(s)),
    decreases s.tokens.len() - s.pos,
{
    if !at_end(s) && (current(s).ty == NASMTokenType::Newline || current(s).ty
        == NASMTokenType::Whitespace) {
        lemma_skip_blank_consumes(advance(s));
    }
}

/// A rule that succeeds has consumed a token, and has left the tokens and
/// the trace as they were.
pub proof fn lemma_rule_moves(rule: Rule, s: ParserView)
    requires
        rule.apply(s) is Ok,
    ensures
        moved(s, rule.apply(s)->Ok_0),
        s.pos < rule.apply(s)->Ok_0.pos,
{
    let entered = enter(s, rule.name())->Ok_0;
    assert(entered.trace.drop_last() =~= s.trace);
    let first = advance(entered);
    let second = advance(first);
    let third = advance(second);
    lemma_skip_until_consumes(first, NASMTokenType::Newline);
    lemma_skip_until_consumes(second, NASMTokenType::Newline);
    lemma_skip_until_consumes(third, NASMTokenType::EndMacro);
}

/// A construct that is read has consumed a token, and has left the tokens
/// and the trace as they were: the parse comes to an end.
pub proof fn lemma_construct_moves(s: ParserView)
    requires
        !at_end(s),
        construct(s) is Ok,
    ensures
        moved(s, construct(s)->Ok_0),
        s.pos < construct(s)->Ok_0.pos,
        moved(s, skip_blank(construct(s)->Ok_0)),
{
    match rule_for(s) {
        Some(rule) => {
            lemma_rule_moves(rule, s);
        },
        None => {},
    }
    lemma_skip_blank_consumes(construct(s)->Ok_0);
}

/// A rule that is applied where a token stands does not fail for want of
/// one at its entry.
pub proof fn lemma_rule_finds_its_token(rule: Rule, s: ParserView)
    requires
        !at_end(s),
        rule.apply(s) is Err,
    ensures
        rule.apply(s)->Err_0.ty != ErrorKindView::UnexpectedEOF,
{
}

/// The constructs of a text never fail as entered at the end of the input:
/// a rule is applied only where a token stands.
pub proof fn lemma_constructs_find_their_tokens(s: ParserView)
    requires
        constructs(s) is Err,
    ensures
        constructs(s)->Err_0.ty != ErrorKindView::UnexpectedEOF,
    decreases s.tokens.len() - s.pos,
{
    if !at_end(s) {
        match construct(s) {
            Ok(read) => {
                let next = skip_blank(read);
                if s.pos < next.pos <= next.tokens.len() && next.tokens.len() == s.tokens.len() {
                    lemma_constructs_find_their_tokens(next);
                }
            },
            Err(e) => {
                match rule_for(s) {
                    Some(rule) => {
                        lemma_rule_finds_its_token(rule, s);
                    },
                    None => {},
                }
            },
        }
    }
}

/// A parse fails as invalid input, as invalid syntax or for a token that is
/// not the one expected; never as entered at the end of the input.
pub proof fn lemma_parse_finds_its_tokens(file: Seq<char>, source: Seq<char>)
    requires
        parse_text(file, source) is Err,
    ensures
        parse_text(file, source)->Err_0.ty != ErrorKindView::UnexpectedEOF,
{
    match lex(file, source) {
        Ok(lexed) => {
            let s = initial(lexed);
            if at_end(s) {
                lemma_constructs_find_their_tokens(skip_blank(s));
            } else {
                lemma_constructs_find_their_tokens(
                    skip_blank(ParserView { trace: s.trace.push(("parse"@, current(s).loc)), ..s }),
                );
            }
        },
        Err(_) => {},
    }
}

/// A longer run of digits denotes no smaller number.
pub proof fn lemma_digits_value_grows(v: Seq<char>, k: int)
    requires
        0 <= k <= v.len(),
    ensures
        digits_value(v.take(k)) <= digits_value(v),
    decreases v.len() - k,
{
    if k < v.len() {
        lemma_digits_value_grows(v, k + 1);
        assert(v.take(k + 1).drop_last() =~= v.take(k));
    } else {
        assert(v.take(k) =~= v);
    }
}

impl Rule {
    /// The name of this rule in a trace.
    pub fn to_string(&self) -> (name: String)
        ensures
            name@ == self.name(),
    {
        match self {
            Rule::Bits => "bits".to_owned(),
            Rule::Section => "section".to_owned(),
            Rule::Label => "label".to_owned(),
            Rule::Mnemonic => "mnemonic".to_owned(),
            Rule::Global => "global".to_owned(),
            Rule::Extern => "extern".to_owned(),
            Rule::Include => "include".to_owned(),
            Rule::MacroDefinition => "macro_definition".to_owned(),
            Rule::MacroCall => "macro_call".to_owned(),
            Rule::Define => "define".to_owned(),
        }
    }
}

/// The number that `text` denotes, where it is made of digits and the
/// number fits the machine's numbers.
pub fn parse_number(text: &str) -> (value: Option<usize>)
    ensures
        value == number_value(text@),
{
    let chars = chars_of(text);
    if chars.len() == 0 {
        return None;
    }
    let mut value: usize = 0;
    let mut i: usize = 0;
    assert(chars@.take(0).len() == 0);
    while i < chars.len()
        invariant
            i <= chars.len(),
            chars@ == text@,
            forall|k: int| 0 <= k < i ==> is_digit(#[trigger] chars@[k]),
            value == digits_value(chars@.take(i as int)),
        decreases chars.len() - i,
    {
        let c = chars[i];
        if !('0' <= c && c <= '9') {
            assert(!CharClass::Digit.holds(chars@[i as int]));
            return None;
        }
        let d = (c as u32 - '0' as u32) as usize;
        proof {
            assert(chars@.take(i + 1).drop_last() =~= chars@.take(i as int));
            lemma_digits_value_grows(chars@, i + 1);
        }
        match value.checked_mul(10) {
            Some(tens) => match tens.checked_add(d) {
                Some(next) => {
                    value = next;
                },
                None => {
                    return None;
                },
            },
            None => {
                return None;
            },
        }
        i += 1;
    }
    assert(chars@.take(i as int) =~= chars@);
    assert(all_of(chars@, 0, CharClass::Digit));
    Some(value)
}

/// `c` in lower case, where it is an upper-case letter of ASCII.
pub fn lower_case(c: char) -> (l: char)
    ensures
        l == lower(c),
{
    if 'A' <= c && c <= 'Z' {
        ((c as u8) + 32) as char
    } else {
        c
    }
}

/// The section that `name` names, whatever the case of its letters.
pub fn section_of(name: &str) -> (section: Option<AssemblySection>)
    ensures
        section == section_named(name@),
{
    let chars = chars_of(name);
    let mut low: Vec<char> = Vec::new();
    let mut i: usize = 0;
    while i < chars.len()
        invariant
            i <= chars.len(),
            chars@ == name@,
            low@ == lowered(chars@).take(i as int),
        decreases chars.len() - i,
    {
        low.push(lower_case(chars[i]));
        i += 1;
        assert(low@ =~= lowered(chars@).take(i as int));
    }
    assert(low@ =~= lowered(name@));
    if text_is(&low, ".text") {
        Some(AssemblySection::Text)
    } else if text_is(&low, ".data") {
        Some(AssemblySection::Data)
    } else if text_is(&low, ".rodata") {
        Some(AssemblySection::ROData)
    } else if text_is(&low, ".bss") {
        Some(AssemblySection::BSS)
    } else {
        None
    }
}

/// `text` without its first and its last character.
pub fn unquote(text: &str) -> (inner: String)
    ensures
        inner@ == unquoted(text@),
{
    let chars = chars_of(text);
    if chars.len() >= 2 {
        string_of(&chars, 1, chars.len() - 1)
    } else {
        String::new()
    }
}

} // verus!
