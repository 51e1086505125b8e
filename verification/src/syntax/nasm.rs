//! The NASM front end: its tokens, its diagnostics and its parser.
use crate::assembly_file::{
    AssemblyFile, AssemblyFileView, AssemblyItem, AssemblyMacro, AssemblySection, macro_views,
};
use crate::syntax::Syntax;
use crate::syntax::lexer::{lex, tokenize};
use crate::syntax::rules::{
    Rule, Step, advance, at_end, construct, constructs, consumed, current, enter, expect, failure,
    initial, leave, moved, parse_of, parse_number, parse_text, peek_is, rule_for, section_of,
    skip_blank, skip_until, unquote, with_item,
};
use crate::text::{
    contains_name, decimal, file_name, file_name_of, has_file_name, lemma_push_contains,
    lemma_texts_push, push_decimal, texts,
};
use vstd::prelude::*;
use vstd::string::StringExecFns;

verus! {

/// The kinds of token of NASM source text.
#[derive(Debug, PartialEq, Eq, Clone, Copy, Structural)]
pub enum NASMTokenType {
    Bits,
    Section,
    Global,
    Extern,
    QWord,
    DWord,
    Include,
    Define,
    Macro,
    Mnemonic,
    EndMacro,
    MacroCall,
    MacroArg,
    Register,
    Symbol,
    CurrentPosition,
    Number,
    String,
    Comment,
    Colon,
    Comma,
    LeftBracket,
    RightBracket,
    Plus,
    Minus,
    Asterisk,
    Slash,
    BitNot,
    BitOr,
    BitXor,
    BitAnd,
    LeftParen,
    RightParen,
    Newline,
    Whitespace,
    EOF,
}

impl NASMTokenType {
    /// The name of this kind, as diagnostics show it.
    pub open spec fn name(self) -> Seq<char> {
        match self {
            NASMTokenType::Bits => "Bits"@,
            NASMTokenType::Section => "Section"@,
            NASMTokenType::Global => "Global"@,
            NASMTokenType::Extern => "Extern"@,
            NASMTokenType::QWord => "QWord"@,
            NASMTokenType::DWord => "DWord"@,
            NASMTokenType::Include => "Include"@,
            NASMTokenType::Define => "Define"@,
            NASMTokenType::Macro => "Macro"@,
            NASMTokenType::Mnemonic => "Mnemonic"@,
            NASMTokenType::EndMacro => "EndMacro"@,
            NASMTokenType::MacroCall => "MacroCall"@,
            NASMTokenType::MacroArg => "MacroArg"@,
            NASMTokenType::Register => "Register"@,
            NASMTokenType::Symbol => "Symbol"@,
            NASMTokenType::CurrentPosition => "CurrentPosition"@,
            NASMTokenType::Number => "Number"@,
            NASMTokenType::String => "String"@,
            NASMTokenType::Comment => "Comment"@,
            NASMTokenType::Colon => "Colon"@,
            NASMTokenType::Comma => "Comma"@,
            NASMTokenType::LeftBracket => "LeftBracket"@,
            NASMTokenType::RightBracket => "RightBracket"@,
            NASMTokenType::Plus => "Plus"@,
            NASMTokenType::Minus => "Minus"@,
            NASMTokenType::Asterisk => "Asterisk"@,
            NASMTokenType::Slash => "Slash"@,
            NASMTokenType::BitNot => "BitNot"@,
            NASMTokenType::BitOr => "BitOr"@,
            NASMTokenType::BitXor => "BitXor"@,
            NASMTokenType::BitAnd => "BitAnd"@,
            NASMTokenType::LeftParen => "LeftParen"@,
            NASMTokenType::RightParen => "RightParen"@,
            NASMTokenType::Newline => "Newline"@,
            NASMTokenType::Whitespace => "Whitespace"@,
            NASMTokenType::EOF => "EOF"@,
        }
    }

    /// The name of this kind, as diagnostics show it.
    pub fn to_string(&self) -> (s: String)
        ensures
            s@ == self.name(),
    {
        match self {
            NASMTokenType::Bits => "Bits".to_owned(),
            NASMTokenType::Section => "Section".to_owned(),
            NASMTokenType::Global => "Global".to_owned(),
            NASMTokenType::Extern => "Extern".to_owned(),
            NASMTokenType::QWord => "QWord".to_owned(),
            NASMTokenType::DWord => "DWord".to_owned(),
            NASMTokenType::Include => "Include".to_owned(),
            NASMTokenType::Define => "Define".to_owned(),
            NASMTokenType::Macro => "Macro".to_owned(),
            NASMTokenType::Mnemonic => "Mnemonic".to_owned(),
            NASMTokenType::EndMacro => "EndMacro".to_owned(),
            NASMTokenType::MacroCall => "MacroCall".to_owned(),
            NASMTokenType::MacroArg => "MacroArg".to_owned(),
            NASMTokenType::Register => "Register".to_owned(),
            NASMTokenType::Symbol => "Symbol".to_owned(),
            NASMTokenType::CurrentPosition => "CurrentPosition".to_owned(),
            NASMTokenType::Number => "Number".to_owned(),
            NASMTokenType::String => "String".to_owned(),
            NASMTokenType::Comment => "Comment".to_owned(),
            NASMTokenType::Colon => "Colon".to_owned(),
            NASMTokenType::Comma => "Comma".to_owned(),
            NASMTokenType::LeftBracket => "LeftBracket".to_owned(),
            NASMTokenType::RightBracket => "RightBracket".to_owned(),
            NASMTokenType::Plus => "Plus".to_owned(),
            NASMTokenType::Minus => "Minus".to_owned(),
            NASMTokenType::Asterisk => "Asterisk".to_owned(),
            NASMTokenType::Slash => "Slash".to_owned(),
            NASMTokenType::BitNot => "BitNot".to_owned(),
            NASMTokenType::BitOr => "BitOr".to_owned(),
            NASMTokenType::BitXor => "BitXor".to_owned(),
            NASMTokenType::BitAnd => "BitAnd".to_owned(),
            NASMTokenType::LeftParen => "LeftParen".to_owned(),
            NASMTokenType::RightParen => "RightParen".to_owned(),
            NASMTokenType::Newline => "Newline".to_owned(),
            NASMTokenType::Whitespace => "Whitespace".to_owned(),
            NASMTokenType::EOF => "EOF".to_owned(),
        }
    }
}

/// A place in a source file. Lines and columns count from 1; a column
/// counts bytes of UTF-8.
#[derive(Debug)]
pub struct SourceLocation {
    pub file: String,
    pub line: usize,
    pub col: usize,
}

/// The mathematical content of a [`SourceLocation`].
pub struct LocationView {
    pub file: Seq<char>,
    pub line: nat,
    pub col: nat,
}

impl View for SourceLocation {
    type V = LocationView;

    open spec fn view(&self) -> LocationView {
        LocationView { file: self.file@, line: self.line as nat, col: self.col as nat }
    }
}

impl Clone for SourceLocation {
    fn clone(&self) -> (copy: Self)
        ensures
            copy@ == self@,
    {
        SourceLocation { file: self.file.clone(), line: self.line, col: self.col }
    }
}

/// The bytes that a token takes up in the source: from `start` up to, not
/// including, `end`.
#[derive(Clone, Copy, Debug, PartialEq, Eq, Structural)]
pub struct Span {
    pub start: usize,
    pub end: usize,
}

/// A token: its kind, its text, and where it stands.
#[derive(Debug)]
pub struct NASMToken {
    pub ty: NASMTokenType,
    pub value: String,
    pub span: Span,
    pub loc: SourceLocation,
}

/// The mathematical content of a [`NASMToken`].
pub struct TokenView {
    pub ty: NASMTokenType,
    pub value: Seq<char>,
    pub start: nat,
    pub end: nat,
    pub loc: LocationView,
}

impl View for NASMToken {
    type V = TokenView;

    open spec fn view(&self) -> TokenView {
        TokenView {
            ty: self.ty,
            value: self.value@,
            start: self.span.start as nat,
            end: self.span.end as nat,
            loc: self.loc@,
        }
    }
}

impl Clone for NASMToken {
    fn clone(&self) -> (copy: Self)
        ensures
            copy@ == self@,
    {
        NASMToken {
            ty: self.ty,
            value: self.value.clone(),
            span: self.span,
            loc: self.loc.clone(),
        }
    }
}

/// The content of each token of `tokens`.
pub open spec fn token_views(tokens: Seq<NASMToken>) -> Seq<TokenView> {
    Seq::new(tokens.len(), |i: int| tokens[i]@)
}

/// What went wrong in a parse.
#[derive(Debug)]
pub enum NASMParseErrorType {
    /// No token starts where the lexer stands.
    InvalidInput,
    /// A rule was entered at the end of the input.
    UnexpectedEOF,
    /// A token of kind `expected` was due; `received` holds the kind and text
    /// of the token that stood there, or nothing at the end of the input.
    Unexpected { expected: NASMTokenType, received: Option<(NASMTokenType, String)> },
    /// A token of the right kind holds a value that the grammar refuses.
    InvalidSyntax,
}

/// The mathematical content of a [`NASMParseErrorType`].
pub enum ErrorKindView {
    InvalidInput,
    UnexpectedEOF,
    Unexpected { expected: NASMTokenType, received: Option<(NASMTokenType, Seq<char>)> },
    InvalidSyntax,
}

impl View for NASMParseErrorType {
    type V = ErrorKindView;

    open spec fn view(&self) -> ErrorKindView {
        match self {
            NASMParseErrorType::InvalidInput => ErrorKindView::InvalidInput,
            NASMParseErrorType::UnexpectedEOF => ErrorKindView::UnexpectedEOF,
            NASMParseErrorType::Unexpected { expected, received } => ErrorKindView::Unexpected {
                expected: *expected,
                received: match received {
                    Some((ty, value)) => Some((*ty, value@)),
                    None => None,
                },
            },
            NASMParseErrorType::InvalidSyntax => ErrorKindView::InvalidSyntax,
        }
    }
}

/// The rules that were being applied when a parse failed, outermost first,
/// each with the place where it was entered; and last the token at which
/// the parser stood.
pub type TraceView = Seq<(Seq<char>, LocationView)>;

/// The content of a trace.
pub open spec fn trace_view(trace: Seq<(String, SourceLocation)>) -> TraceView {
    Seq::new(trace.len(), |i: int| (trace[i].0@, trace[i].1@))
}

/// The content of a trace with one more frame at its end.
pub proof fn lemma_trace_view_push(trace: Seq<(String, SourceLocation)>, last: (String, SourceLocation))
    ensures
        trace_view(trace.push(last)) == trace_view(trace).push((last.0@, last.1@)),
{
    assert(trace_view(trace.push(last)) =~= trace_view(trace).push((last.0@, last.1@)));
}

/// A failed parse: what went wrong, and where.
#[derive(Debug)]
pub struct NASMParseError {
    ty: NASMParseErrorType,
    trace: Vec<(String, SourceLocation)>,
}

/// The mathematical content of a [`NASMParseError`].
pub struct ParseErrorView {
    pub ty: ErrorKindView,
    pub trace: TraceView,
}

impl View for NASMParseError {
    type V = ParseErrorView;

    closed spec fn view(&self) -> ParseErrorView {
        ParseErrorView { ty: self.ty@, trace: trace_view(self.trace@) }
    }
}

impl NASMParseError {
    /// An error of kind `ty` with the trace `trace`.
    pub fn new(ty: NASMParseErrorType, trace: Vec<(String, SourceLocation)>) -> (e: NASMParseError)
        ensures
            e@ == (ParseErrorView { ty: ty@, trace: trace_view(trace@) }),
    {
        NASMParseError { ty, trace }
    }

    /// What went wrong.
    pub fn kind(&self) -> (ty: &NASMParseErrorType)
        ensures
            ty@ == self@.ty,
    {
        &self.ty
    }

    /// The rules that were being applied, outermost first, and last the
    /// token at which the parser stood.
    pub fn trace(&self) -> (trace: &Vec<(String, SourceLocation)>)
        ensures
            trace_view(trace@) == self@.trace,
    {
        &self.trace
    }
}

/// The mathematical content of a parser: the tokens, how many of them are
/// consumed, the file model built so far, the section that items go to, and
/// the rules being applied.
pub struct ParserView {
    pub pos: nat,
    pub tokens: Seq<TokenView>,
    pub end: TokenView,
    pub file: AssemblyFileView,
    pub section: AssemblySection,
    pub trace: TraceView,
}

/// A copy of `trace`.
fn clone_trace(trace: &Vec<(String, SourceLocation)>) -> (copy: Vec<(String, SourceLocation)>)
    ensures
        trace_view(copy@) == trace_view(trace@),
{
    let mut copy: Vec<(String, SourceLocation)> = Vec::new();
    let mut i: usize = 0;
    while i < trace.len()
        invariant
            i <= trace.len(),
            trace_view(copy@) == trace_view(trace@).take(i as int),
        decreases trace.len() - i,
    {
        let frame = (trace[i].0.clone(), trace[i].1.clone());
        proof {
            lemma_trace_view_push(copy@, frame);
        }
        copy.push(frame);
        i += 1;
        assert(trace_view(copy@) =~= trace_view(trace@).take(i as int));
    }
    assert(trace_view(copy@) =~= trace_view(trace@));
    copy
}

/// Whether `r` is what `step` says, with `after` the state after it.
pub open spec fn agrees(step: Step, after: ParserView, r: Result<(), NASMParseError>) -> bool {
    match r {
        Ok(()) => step == Ok::<ParserView, ParseErrorView>(after),
        Err(e) => step == Err::<ParserView, ParseErrorView>(e@),
    }
}

/// Whether `r` is what `step` says of the state `before`, with `after` the
/// state after it; and a step that succeeds has consumed a token.
pub open spec fn follows(
    step: Step,
    before: ParserView,
    after: ParserView,
    r: Result<(), NASMParseError>,
) -> bool {
    agrees(step, after, r) && (r is Ok ==> moved(before, after) && before.pos < after.pos)
}

/// A parser of NASM source text.
pub struct NASM {
    pos: usize,
    tokens: Vec<NASMToken>,
    eof_token: NASMToken,
    model: AssemblyFile,
    current_section: AssemblySection,
    rule_stack: Vec<(String, SourceLocation)>,
}

impl View for NASM {
    type V = ParserView;

    closed spec fn view(&self) -> ParserView {
        ParserView {
            pos: self.pos as nat,
            tokens: token_views(self.tokens@),
            end: self.eof_token@,
            file: self.model@,
            section: self.current_section,
            trace: trace_view(self.rule_stack@),
        }
    }
}

impl NASM {
    /// Whether no global name stands twice in the file model.
    pub closed spec fn wf(&self) -> bool {
        self.model.wf()
    }

    fn is_eof(&self) -> (b: bool)
        ensures
            b == at_end(self@),
    {
        self.pos >= self.tokens.len()
    }

    fn current(&self) -> (token: &NASMToken)
        requires
            !at_end(self@),
        ensures
            token@ == current(self@),
    {
        &self.tokens[self.pos]
    }

    fn advance(&mut self)
        requires
            !at_end(old(self)@),
        ensures
            final(self)@ == advance(old(self)@),
            final(self).wf() == old(self).wf(),
    {
        if self.pos < self.tokens.len() {
            self.pos += 1;
        }
    }

    fn take(&mut self) -> (token: NASMToken)
        requires
            !at_end(old(self)@),
        ensures
            final(self)@ == advance(old(self)@),
            final(self).wf() == old(self).wf(),
            token@ == current(old(self)@),
    {
        let token = self.tokens[self.pos].clone();
        self.advance();
        token
    }

    fn peek_is(&self, ty: NASMTokenType) -> (b: bool)
        ensures
            b == peek_is(self@, ty),
    {
        if self.pos < self.tokens.len() && self.pos + 1 < self.tokens.len() {
            self.tokens[self.pos + 1].ty == ty
        } else {
            false
        }
    }

    fn skip(&mut self)
        ensures
            final(self)@ == skip_blank(old(self)@),
            final(self).wf() == old(self).wf(),
            consumed(old(self)@, final(self)@),
    {
        while self.pos < self.tokens.len() && (self.tokens[self.pos].ty == NASMTokenType::Newline
            || self.tokens[self.pos].ty == NASMTokenType::Whitespace)
            invariant
                self.wf() == old(self).wf(),
                skip_blank(old(self)@) == skip_blank(self@),
                consumed(old(self)@, self@),
            decreases self.tokens.len() - self.pos,
        {
            self.pos += 1;
        }
    }

    fn skip_to(&mut self, stop: NASMTokenType)
        ensures
            final(self)@ == skip_until(old(self)@, stop),
            final(self).wf() == old(self).wf(),
            consumed(old(self)@, final(self)@),
    {
        while self.pos < self.tokens.len() && self.tokens[self.pos].ty != stop
            invariant
                self.wf() == old(self).wf(),
                skip_until(old(self)@, stop) == skip_until(self@, stop),
                consumed(old(self)@, self@),
            decreases self.tokens.len() - self.pos,
        {
            self.pos += 1;
        }
    }

    fn error(&self, ty: NASMParseErrorType) -> (e: NASMParseError)
        ensures
            e@ == failure(self@, ty@),
    {
        let mut trace = clone_trace(&self.rule_stack);
        let frame = if self.is_eof() {
            ("end-of-file".to_owned(), self.eof_token.loc.clone())
        } else {
            (self.tokens[self.pos].ty.to_string(), self.tokens[self.pos].loc.clone())
        };
        proof {
            lemma_trace_view_push(trace@, frame);
        }
        trace.push(frame);
        NASMParseError::new(ty, trace)
    }

    fn expect(&mut self, expected: NASMTokenType) -> (r: Result<NASMToken, NASMParseError>)
        ensures
            match r {
                Ok(token) => expect(old(self)@, expected) == Ok::<
                    (ParserView, TokenView),
                    ParseErrorView,
                >((final(self)@, token@)) && consumed(old(self)@, final(self)@) && final(self)@.pos
                    == old(self)@.pos + 1,
                Err(e) => expect(old(self)@, expected) == Err::<
                    (ParserView, TokenView),
                    ParseErrorView,
                >(e@) && final(self)@ == (if at_end(old(self)@) {
                    old(self)@
                } else {
                    advance(old(self)@)
                }),
            },
            final(self).wf() == old(self).wf(),
    {
        if self.is_eof() {
            Err(self.error(NASMParseErrorType::Unexpected { expected, received: None }))
        } else {
            let token = self.take();
            if token.ty == expected {
                Ok(token)
            } else {
                let received = Some((token.ty, token.value.clone()));
                Err(self.error(NASMParseErrorType::Unexpected { expected, received }))
            }
        }
    }

    fn expect_newline(&mut self) -> (r: Result<NASMToken, NASMParseError>)
        ensures
            match r {
                Ok(token) => expect(old(self)@, NASMTokenType::Newline) == Ok::<
                    (ParserView, TokenView),
                    ParseErrorView,
                >((final(self)@, token@)) && consumed(old(self)@, final(self)@) && final(self)@.pos
                    == old(self)@.pos + 1,
                Err(e) => expect(old(self)@, NASMTokenType::Newline) == Err::<
                    (ParserView, TokenView),
                    ParseErrorView,
                >(e@) && final(self)@ == (if at_end(old(self)@) {
                    old(self)@
                } else {
                    advance(old(self)@)
                }),
            },
            final(self).wf() == old(self).wf(),
    {
        self.expect(NASMTokenType::Newline)
    }

    /// Adds `item` at the end of the current section.
    fn push_item(&mut self, item: AssemblyItem)
        ensures
            final(self)@ == with_item(old(self)@, item@),
            final(self).wf() == old(self).wf(),
    {
        self.model.sections.push(self.current_section, item);
    }
}

impl NASM {
    fn enter(&mut self, rule: Rule) -> (r: Result<(), NASMParseError>)
        ensures
            agrees(enter(old(self)@, rule.name()), final(self)@, r),
            r is Err ==> final(self)@ == old(self)@,
            final(self).wf() == old(self).wf(),
    {
        if self.is_eof() {
            return Err(self.error(NASMParseErrorType::UnexpectedEOF));
        }
        let frame = (rule.to_string(), self.tokens[self.pos].loc.clone());
        proof {
            lemma_trace_view_push(self.rule_stack@, frame);
        }
        self.rule_stack.push(frame);
        Ok(())
    }

    fn leave(&mut self)
        requires
            old(self)@.trace.len() > 0,
        ensures
            final(self)@ == leave(old(self)@),
            final(self).wf() == old(self).wf(),
    {
        self.rule_stack.pop();
        assert(trace_view(self.rule_stack@) =~= trace_view(old(self).rule_stack@).drop_last());
    }

    fn bits_body(&mut self) -> (r: Result<(), NASMParseError>)
        requires
            old(self).wf(),
        ensures
            follows(Rule::Bits.body(old(self)@), old(self)@, final(self)@, r),
            r is Ok ==> final(self).wf(),
    {
        match self.expect(NASMTokenType::Bits) {
            Ok(_) => {},
            Err(e) => {
                return Err(e);
            },
        }
        let number = match self.expect(NASMTokenType::Number) {
            Ok(token) => token,
            Err(e) => {
                return Err(e);
            },
        };
        match parse_number(number.value.as_str()) {
            Some(bits) => {
                self.model.bits = bits;
                Ok(())
            },
            None => Err(self.error(NASMParseErrorType::InvalidSyntax)),
        }
    }

    fn section_body(&mut self) -> (r: Result<(), NASMParseError>)
        requires
            old(self).wf(),
        ensures
            follows(Rule::Section.body(old(self)@), old(self)@, final(self)@, r),
            r is Ok ==> final(self).wf(),
    {
        match self.expect(NASMTokenType::Section) {
            Ok(_) => {},
            Err(e) => {
                return Err(e);
            },
        }
        let name = match self.expect(NASMTokenType::Symbol) {
            Ok(token) => token,
            Err(e) => {
                return Err(e);
            },
        };
        match section_of(name.value.as_str()) {
            Some(section) => {
                self.current_section = section;
            },
            None => {
                return Err(self.error(NASMParseErrorType::InvalidSyntax));
            },
        }
        match self.expect_newline() {
            Ok(_) => Ok(()),
            Err(e) => Err(e),
        }
    }

    fn label_body(&mut self) -> (r: Result<(), NASMParseError>)
        requires
            old(self).wf(),
        ensures
            follows(Rule::Label.body(old(self)@), old(self)@, final(self)@, r),
            r is Ok ==> final(self).wf(),
    {
        let name = match self.expect(NASMTokenType::Symbol) {
            Ok(token) => token.value,
            Err(e) => {
                return Err(e);
            },
        };
        match self.expect(NASMTokenType::Colon) {
            Ok(_) => {},
            Err(e) => {
                return Err(e);
            },
        }
        self.push_item(AssemblyItem::Label(name));
        Ok(())
    }

    fn mnemonic_body(&mut self) -> (r: Result<(), NASMParseError>)
        requires
            old(self).wf(),
        ensures
            follows(Rule::Mnemonic.body(old(self)@), old(self)@, final(self)@, r),
            r is Ok ==> final(self).wf(),
    {
        match self.expect(NASMTokenType::Mnemonic) {
            Ok(_) => {},
            Err(e) => {
                return Err(e);
            },
        }
        self.skip_to(NASMTokenType::Newline);
        match self.expect_newline() {
            Ok(_) => Ok(()),
            Err(e) => Err(e),
        }
    }

    fn global_body(&mut self) -> (r: Result<(), NASMParseError>)
        requires
            old(self).wf(),
        ensures
            follows(Rule::Global.body(old(self)@), old(self)@, final(self)@, r),
            r is Ok ==> final(self).wf(),
    {
        match self.expect(NASMTokenType::Global) {
            Ok(_) => {},
            Err(e) => {
                return Err(e);
            },
        }
        let name = match self.expect(NASMTokenType::Symbol) {
            Ok(token) => token.value,
            Err(e) => {
                return Err(e);
            },
        };
        match self.expect_newline() {
            Ok(_) => {},
            Err(e) => {
                return Err(e);
            },
        }
        let ghost before = self.model.globals@;
        proof {
            lemma_texts_push(before, name);
            lemma_push_contains(texts(before), name@);
        }
        if !contains_name(&self.model.globals, &name) {
            self.model.globals.push(name);
        } else {
            assert(texts(before).to_set().insert(name@) =~= texts(before).to_set());
        }
        Ok(())
    }

    fn extern_body(&mut self) -> (r: Result<(), NASMParseError>)
        requires
            old(self).wf(),
        ensures
            follows(Rule::Extern.body(old(self)@), old(self)@, final(self)@, r),
            r is Ok ==> final(self).wf(),
    {
        match self.expect(NASMTokenType::Extern) {
            Ok(_) => {},
            Err(e) => {
                return Err(e);
            },
        }
        let name = match self.expect(NASMTokenType::Symbol) {
            Ok(token) => token.value,
            Err(e) => {
                return Err(e);
            },
        };
        match self.expect_newline() {
            Ok(_) => {},
            Err(e) => {
                return Err(e);
            },
        }
        proof {
            lemma_texts_push(self.model.externs@, name);
        }
        self.model.externs.push(name);
        Ok(())
    }

    fn include_body(&mut self) -> (r: Result<(), NASMParseError>)
        requires
            old(self).wf(),
        ensures
            follows(Rule::Include.body(old(self)@), old(self)@, final(self)@, r),
            r is Ok ==> final(self).wf(),
    {
        match self.expect(NASMTokenType::Include) {
            Ok(_) => {},
            Err(e) => {
                return Err(e);
            },
        }
        let path = match self.expect(NASMTokenType::String) {
            Ok(token) => unquote(token.value.as_str()),
            Err(e) => {
                return Err(e);
            },
        };
        match self.expect_newline() {
            Ok(_) => {},
            Err(e) => {
                return Err(e);
            },
        }
        proof {
            lemma_texts_push(self.model.includes@, path);
        }
        self.model.includes.push(path);
        Ok(())
    }

    fn macro_definition_body(&mut self) -> (r: Result<(), NASMParseError>)
        requires
            old(self).wf(),
        ensures
            follows(Rule::MacroDefinition.body(old(self)@), old(self)@, final(self)@, r),
            r is Ok ==> final(self).wf(),
    {
        match self.expect(NASMTokenType::Macro) {
            Ok(_) => {},
            Err(e) => {
                return Err(e);
            },
        }
        let name = match self.expect(NASMTokenType::MacroCall) {
            Ok(token) => token.value,
            Err(e) => {
                return Err(e);
            },
        };
        let count = match self.expect(NASMTokenType::Number) {
            Ok(token) => token,
            Err(e) => {
                return Err(e);
            },
        };
        let arg_count = match parse_number(count.value.as_str()) {
            Some(arg_count) => arg_count,
            None => {
                return Err(self.error(NASMParseErrorType::InvalidSyntax));
            },
        };
        self.skip_to(NASMTokenType::EndMacro);
        match self.expect(NASMTokenType::EndMacro) {
            Ok(_) => {},
            Err(e) => {
                return Err(e);
            },
        }
        let definition = AssemblyMacro { name, arg_count, body: Vec::new() };
        proof {
            assert(definition@.body =~= Seq::empty());
            assert(macro_views(self.model.macros@.push(definition)) =~= macro_views(
                self.model.macros@,
            ).push(definition@));
        }
        self.model.macros.push(definition);
        Ok(())
    }

    fn macro_call_body(&mut self) -> (r: Result<(), NASMParseError>)
        requires
            old(self).wf(),
        ensures
            follows(Rule::MacroCall.body(old(self)@), old(self)@, final(self)@, r),
            r is Ok ==> final(self).wf(),
    {
        let name = match self.expect(NASMTokenType::MacroCall) {
            Ok(token) => token.value,
            Err(e) => {
                return Err(e);
            },
        };
        self.skip_to(NASMTokenType::Newline);
        match self.expect_newline() {
            Ok(_) => {},
            Err(e) => {
                return Err(e);
            },
        }
        let call = AssemblyItem::MacroCall(name, Vec::new());
        proof {
            assert(call@->MacroCall_1 =~= Seq::empty());
        }
        self.push_item(call);
        Ok(())
    }

    fn define_body(&mut self) -> (r: Result<(), NASMParseError>)
        requires
            old(self).wf(),
        ensures
            follows(Rule::Define.body(old(self)@), old(self)@, final(self)@, r),
            r is Ok ==> final(self).wf(),
    {
        match self.expect(NASMTokenType::Define) {
            Ok(_) => {},
            Err(e) => {
                return Err(e);
            },
        }
        let name = match self.expect(NASMTokenType::Symbol) {
            Ok(token) => token.value,
            Err(e) => {
                return Err(e);
            },
        };
        self.skip_to(NASMTokenType::Newline);
        match self.expect_newline() {
            Ok(_) => {},
            Err(e) => {
                return Err(e);
            },
        }
        proof {
            lemma_texts_push(self.model.defines@, name);
        }
        self.model.defines.push(name);
        Ok(())
    }

    /// Applies `rule`: enters it, does its work, and leaves it.
    fn apply(&mut self, rule: Rule) -> (r: Result<(), NASMParseError>)
        requires
            old(self).wf(),
        ensures
            follows(rule.apply(old(self)@), old(self)@, final(self)@, r),
            r is Ok ==> final(self).wf(),
    {
        match self.enter(rule) {
            Ok(()) => {},
            Err(e) => {
                return Err(e);
            },
        }
        let ghost entered = self@;
        let done = match rule {
            Rule::Bits => self.bits_body(),
            Rule::Section => self.section_body(),
            Rule::Label => self.label_body(),
            Rule::Mnemonic => self.mnemonic_body(),
            Rule::Global => self.global_body(),
            Rule::Extern => self.extern_body(),
            Rule::Include => self.include_body(),
            Rule::MacroDefinition => self.macro_definition_body(),
            Rule::MacroCall => self.macro_call_body(),
            Rule::Define => self.define_body(),
        };
        match done {
            Ok(()) => {
                self.leave();
                assert(entered.trace.drop_last() =~= old(self)@.trace);
                Ok(())
            },
            Err(e) => Err(e),
        }
    }

    /// The rule that the next token calls for, if any.
    fn rule_to_apply(&self) -> (rule: Option<Rule>)
        requires
            !at_end(self@),
        ensures
            rule == rule_for(self@),
    {
        let ty = self.current().ty;
        if ty == NASMTokenType::Bits {
            Some(Rule::Bits)
        } else if ty == NASMTokenType::Section {
            Some(Rule::Section)
        } else if ty == NASMTokenType::Symbol && self.peek_is(NASMTokenType::Colon) {
            Some(Rule::Label)
        } else if ty == NASMTokenType::Mnemonic {
            Some(Rule::Mnemonic)
        } else if ty == NASMTokenType::Global {
            Some(Rule::Global)
        } else if ty == NASMTokenType::Extern {
            Some(Rule::Extern)
        } else if ty == NASMTokenType::Macro {
            Some(Rule::MacroDefinition)
        } else if ty == NASMTokenType::MacroCall {
            Some(Rule::MacroCall)
        } else if ty == NASMTokenType::Include {
            Some(Rule::Include)
        } else if ty == NASMTokenType::Define {
            Some(Rule::Define)
        } else {
            None
        }
    }

    /// Reads one construct.
    fn construct(&mut self) -> (r: Result<(), NASMParseError>)
        requires
            old(self).wf(),
            !at_end(old(self)@),
        ensures
            follows(construct(old(self)@), old(self)@, final(self)@, r),
            r is Ok ==> final(self).wf(),
    {
        match self.rule_to_apply() {
            Some(rule) => self.apply(rule),
            None => {
                if self.current().ty == NASMTokenType::Comment {
                    self.advance();
                    Ok(())
                } else {
                    Err(self.error(NASMParseErrorType::InvalidSyntax))
                }
            },
        }
    }
}

impl Syntax for NASM {
    type Error = NASMParseError;

    open spec fn outcome(file: Seq<char>, source: Seq<char>) -> Result<
        AssemblyFileView,
        ParseErrorView,
    > {
        parse_text(file, source)
    }

    open spec fn pending(&self) -> Result<AssemblyFileView, ParseErrorView> {
        parse_of(self@)
    }

    open spec fn ready(&self) -> bool {
        self.wf()
    }

    /// Cuts `source` into tokens. Gives a parser that has read none of them
    /// yet; fails, as invalid input, if and only if no token starts at some
    /// place that the lexer comes to.
    fn new_parser(file: &str, source: &str) -> (r: Result<Self, Self::Error>)
        ensures
            r is Ok <==> lex(file@, source@) is Ok,
            match r {
                Ok(parser) => parser@ == initial(lex(file@, source@)->Ok_0),
                Err(e) => e@ == (ParseErrorView {
                    ty: ErrorKindView::InvalidInput,
                    trace: seq![("lex"@, lex(file@, source@)->Err_0)],
                }),
            },
    {
        match tokenize(file, source) {
            Ok((tokens, eof_token)) => {
                let parser = NASM {
                    pos: 0,
                    tokens,
                    eof_token,
                    model: AssemblyFile::default(),
                    current_section: AssemblySection::Text,
                    rule_stack: Vec::new(),
                };
                proof {
                    assert(parser@.trace =~= Seq::empty());
                    assert(parser@ == initial(lex(file@, source@)->Ok_0));
                }
                Ok(parser)
            },
            Err(place) => {
                let mut trace: Vec<(String, SourceLocation)> = Vec::new();
                let frame = ("lex".to_owned(), place);
                proof {
                    lemma_trace_view_push(trace@, frame);
                    assert(trace_view(trace@) =~= Seq::empty());
                }
                trace.push(frame);
                assert(trace_view(trace@) =~= seq![("lex"@, place@)]);
                Err(NASMParseError::new(NASMParseErrorType::InvalidInput, trace))
            },
        }
    }

    /// Reads constructs until no token is left. Stops at the first failure.
    fn parse(self) -> (r: Result<AssemblyFile, Self::Error>) {
        let mut parser = self;
        if !parser.is_eof() {
            let frame = ("parse".to_owned(), parser.tokens[parser.pos].loc.clone());
            proof {
                lemma_trace_view_push(parser.rule_stack@, frame);
            }
            parser.rule_stack.push(frame);
        }
        parser.skip();
        while !parser.is_eof()
            invariant
                parser.wf(),
                parse_of(self@) == constructs(parser@),
            decreases parser@.tokens.len() - parser@.pos,
        {
            match parser.construct() {
                Ok(()) => {},
                Err(e) => {
                    return Err(e);
                },
            }
            parser.skip();
        }
        Ok(parser.model)
    }
}

impl ErrorKindView {
    /// What a message says of this kind of failure.
    pub open spec fn text(self) -> Seq<char> {
        match self {
            ErrorKindView::InvalidInput => "Invalid input"@,
            ErrorKindView::UnexpectedEOF => "Unexpected end-of-file"@,
            ErrorKindView::Unexpected { expected, received } => "Expected "@ + expected.name() + (
            match received {
                Some((ty, value)) => ", but received "@ + ty.name() + " (`"@ + value + "`)"@,
                None => Seq::empty(),
            }),
            ErrorKindView::InvalidSyntax => "Invalid syntax"@,
        }
    }
}

/// What a message shows for a frame of a trace: the rule, and in brackets
/// the name of the file, the line and the column.
pub open spec fn frame_text(frame: (Seq<char>, LocationView)) -> Seq<char> {
    frame.0 + "("@ + file_name(frame.1.file) + ":"@ + decimal(frame.1.line) + ":"@ + decimal(
        frame.1.col,
    ) + ")"@
}

/// What a message shows for the first `n` frames of `trace`, with ` > `
/// between them.
pub open spec fn trace_text(trace: TraceView, n: nat) -> Seq<char>
    decreases n,
{
    if n == 0 || n > trace.len() {
        Seq::empty()
    } else {
        trace_text(trace, (n - 1) as nat) + (if n > 1 {
            " > "@
        } else {
            Seq::empty()
        }) + frame_text(trace[n - 1])
    }
}

impl ParseErrorView {
    /// Whether every place of the trace is in a file that has a file name.
    pub open spec fn names_files(self) -> bool {
        forall|i: int| 0 <= i < self.trace.len() ==> has_file_name((#[trigger] self.trace[i]).1.file)
    }

    /// The message for this failure: the trace, a colon, and what went
    /// wrong; only the latter where the trace is empty.
    pub open spec fn text(self) -> Seq<char> {
        if self.trace.len() == 0 {
            self.ty.text()
        } else {
            trace_text(self.trace, self.trace.len()) + ": "@ + self.ty.text()
        }
    }
}

impl NASMParseErrorType {
    /// What a message says of this kind of failure.
    pub fn to_string(&self) -> (s: String)
        ensures
            s@ == self@.text(),
    {
        match self {
            NASMParseErrorType::InvalidInput => "Invalid input".to_owned(),
            NASMParseErrorType::UnexpectedEOF => "Unexpected end-of-file".to_owned(),
            NASMParseErrorType::Unexpected { expected, received } => {
                let mut s = "Expected ".to_owned();
                s.append(expected.to_string().as_str());
                match received {
                    Some((ty, value)) => {
                        s.append(", but received ");
                        s.append(ty.to_string().as_str());
                        s.append(" (`");
                        s.append(value.as_str());
                        s.append("`)");
                        assert(s@ =~= self@.text());
                    },
                    None => {
                        assert(s@ =~= self@.text());
                    },
                }
                s
            },
            NASMParseErrorType::InvalidSyntax => "Invalid syntax".to_owned(),
        }
    }
}

/// Appends what a message shows for the frame `rule` at `place`.
fn push_frame(out: &mut String, rule: &String, place: &SourceLocation)
    requires
        has_file_name(place@.file),
    ensures
        final(out)@ == old(out)@ + frame_text((rule@, place@)),
{
    let ghost start = out@;
    out.append(rule.as_str());
    out.append("(");
    match file_name_of(place.file.as_str()) {
        Some(name) => {
            out.append(name.as_str());
        },
        None => {},
    }
    out.append(":");
    push_decimal(out, place.line);
    out.append(":");
    push_decimal(out, place.col);
    out.append(")");
    assert(out@ =~= start + frame_text((rule@, place@)));
}

impl NASMParseError {
    /// Whether every place of the trace is in a file that has a file name,
    /// so that the message can show it.
    pub fn names_files(&self) -> (b: bool)
        ensures
            b == self@.names_files(),
    {
        let mut i: usize = 0;
        while i < self.trace.len()
            invariant
                i <= self.trace.len(),
                forall|k: int|
                    0 <= k < i ==> has_file_name((#[trigger] trace_view(self.trace@)[k]).1.file),
            decreases self.trace.len() - i,
        {
            if file_name_of(self.trace[i].1.file.as_str()).is_none() {
                assert(!has_file_name(self@.trace[i as int].1.file));
                return false;
            }
            i += 1;
        }
        true
    }

    /// The message for this failure. Each place shows its file by the file
    /// name.
    pub fn to_string(&self) -> (s: String)
        requires
            self@.names_files(),
        ensures
            s@ == self@.text(),
    {
        let kind = self.ty.to_string();
        if self.trace.len() == 0 {
            return kind;
        }
        let ghost trace = trace_view(self.trace@);
        let mut s = String::new();
        let mut i: usize = 0;
        assert(s@ =~= trace_text(trace, 0));
        while i < self.trace.len()
            invariant
                i <= self.trace.len(),
                trace == trace_view(self.trace@),
                self@.names_files(),
                s@ == trace_text(trace, i as nat),
            decreases self.trace.len() - i,
        {
            if i > 0 {
                s.append(" > ");
            }
            assert(has_file_name(self@.trace[i as int].1.file));
            push_frame(&mut s, &self.trace[i].0, &self.trace[i].1);
            i += 1;
            assert(s@ =~= trace_text(trace, i as nat));
        }
        s.append(": ");
        s.append(kind.as_str());
        s
    }
}

} // verus!
