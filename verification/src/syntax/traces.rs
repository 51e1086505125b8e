//! Where the places of a failure lie: in the file that was parsed.
use crate::syntax::grammar::scan;
use crate::syntax::lexer::{Cursor, after, lex, lex_from};
use crate::syntax::nasm::{ErrorKindView, NASMTokenType, ParserView, TraceView};
use crate::syntax::rules::{
    Rule, advance, at_end, construct, constructs, current, enter, expect, failure, initial,
    lemma_rule_moves, lemma_skip_blank_consumes, lemma_skip_until_consumes, parse_text, rule_for,
    section_named, skip_blank, skip_until,
};
use crate::text::has_file_name;
use vstd::prelude::*;

verus! {

/// Whether every place of `trace` is in the file `file`.
pub open spec fn trace_in(trace: TraceView, file: Seq<char>) -> bool {
    forall|k: int| 0 <= k < trace.len() ==> (#[trigger] trace[k]).1.file == file
}

/// Whether every token of `s`, its end token and every place of its trace
/// are in the file `file`.
pub open spec fn in_file(s: ParserView, file: Seq<char>) -> bool {
    &&& forall|j: int| 0 <= j < s.tokens.len() ==> (#[trigger] s.tokens[j]).loc.file == file
    &&& s.end.loc.file == file
    &&& trace_in(s.trace, file)
}

/// The lexer places every token, the end token and its failure in the file
/// that it is given.
pub proof fn lemma_lexed_in_file(file: Seq<char>, s: Seq<char>, c: Cursor)
    ensures
        match lex_from(file, s, c) {
            Ok(lexed) => lexed.end.loc.file == file && forall|j: int|
                0 <= j < lexed.tokens.len() ==> (#[trigger] lexed.tokens[j]).loc.file == file,
            Err(place) => place.file == file,
        },
    decreases s.len() - c.at,
{
    if 0 <= c.at < s.len() {
        match scan(s, c.at) {
            Some((ty, e)) => {
                if !(e <= c.at || e > s.len()) {
                    lemma_lexed_in_file(file, s, after(s, c, ty, e));
                }
            },
            None => {},
        }
    }
}

/// A failure in a state that is in a file has its places in that file.
pub proof fn lemma_failure_in_file(s: ParserView, ty: ErrorKindView, file: Seq<char>)
    requires
        in_file(s, file),
    ensures
        trace_in(failure(s, ty).trace, file),
{
    let trace = failure(s, ty).trace;
    assert forall|k: int| 0 <= k < trace.len() implies (#[trigger] trace[k]).1.file == file by {
        if k < s.trace.len() {
            assert(trace[k] == s.trace[k]);
        }
    }
}

/// A state with more tokens consumed is in the file that the state was in.
pub proof fn lemma_consumed_in_file(before: ParserView, after: ParserView, file: Seq<char>)
    requires
        in_file(before, file),
        after.tokens == before.tokens,
        after.end == before.end,
        after.trace == before.trace,
    ensures
        in_file(after, file),
{
}

/// An expected token that is missing fails in the file that the state is in.
pub proof fn lemma_expect_in_file(s: ParserView, expected: NASMTokenType, file: Seq<char>)
    requires
        in_file(s, file),
    ensures
        match expect(s, expected) {
            Ok((next, token)) => next == advance(s),
            Err(e) => trace_in(e.trace, file),
        },
{
    lemma_consumed_in_file(s, advance(s), file);
    if at_end(s) {
        lemma_failure_in_file(
            s,
            ErrorKindView::Unexpected { expected, received: None },
            file,
        );
    } else {
        lemma_failure_in_file(
            advance(s),
            ErrorKindView::Unexpected {
                expected,
                received: Some((current(s).ty, current(s).value)),
            },
            file,
        );
    }
}

/// A rule that fails in a state that is in a file fails with places in that
/// file.
pub proof fn lemma_rule_fails_in_file(rule: Rule, s: ParserView, file: Seq<char>)
    requires
        in_file(s, file),
        rule.apply(s) is Err,
    ensures
        trace_in(rule.apply(s)->Err_0.trace, file),
{
    lemma_failure_in_file(s, ErrorKindView::UnexpectedEOF, file);
    if !at_end(s) {
        let entered = enter(s, rule.name())->Ok_0;
        assert forall|k: int| 0 <= k < entered.trace.len() implies (
        #[trigger] entered.trace[k]).1.file == file by {
            if k < s.trace.len() {
                assert(entered.trace[k] == s.trace[k]);
            }
        }
        assert(in_file(entered, file));
        let first = advance(entered);
        let second = advance(first);
        let third = advance(second);
        lemma_consumed_in_file(entered, first, file);
        lemma_consumed_in_file(entered, second, file);
        lemma_consumed_in_file(entered, third, file);
        let first_line = skip_until(first, NASMTokenType::Newline);
        let second_line = skip_until(second, NASMTokenType::Newline);
        let body = skip_until(third, NASMTokenType::EndMacro);
        lemma_skip_until_consumes(first, NASMTokenType::Newline);
        lemma_skip_until_consumes(second, NASMTokenType::Newline);
        lemma_skip_until_consumes(third, NASMTokenType::EndMacro);
        lemma_consumed_in_file(entered, first_line, file);
        lemma_consumed_in_file(entered, second_line, file);
        lemma_consumed_in_file(entered, body, file);
        lemma_failure_in_file(second, ErrorKindView::InvalidSyntax, file);
        lemma_failure_in_file(third, ErrorKindView::InvalidSyntax, file);
        match rule {
            Rule::Bits => {
                lemma_expect_in_file(entered, NASMTokenType::Bits, file);
                lemma_expect_in_file(first, NASMTokenType::Number, file);
            },
            Rule::Section => {
                lemma_expect_in_file(entered, NASMTokenType::Section, file);
                lemma_expect_in_file(first, NASMTokenType::Symbol, file);
                match section_named(current(first).value) {
                    Some(section) => {
                        let named = ParserView { section, ..second };
                        lemma_consumed_in_file(entered, named, file);
                        lemma_expect_in_file(named, NASMTokenType::Newline, file);
                    },
                    None => {},
                }
            },
            Rule::Label => {
                lemma_expect_in_file(entered, NASMTokenType::Symbol, file);
                lemma_expect_in_file(first, NASMTokenType::Colon, file);
            },
            Rule::Mnemonic => {
                lemma_expect_in_file(entered, NASMTokenType::Mnemonic, file);
                lemma_expect_in_file(first_line, NASMTokenType::Newline, file);
            },
            Rule::Global => {
                lemma_expect_in_file(entered, NASMTokenType::Global, file);
                lemma_expect_in_file(first, NASMTokenType::Symbol, file);
                lemma_expect_in_file(second, NASMTokenType::Newline, file);
            },
            Rule::Extern => {
                lemma_expect_in_file(entered, NASMTokenType::Extern, file);
                lemma_expect_in_file(first, NASMTokenType::Symbol, file);
                lemma_expect_in_file(second, NASMTokenType::Newline, file);
            },
            Rule::Include => {
                lemma_expect_in_file(entered, NASMTokenType::Include, file);
                lemma_expect_in_file(first, NASMTokenType::String, file);
                lemma_expect_in_file(second, NASMTokenType::Newline, file);
            },
            Rule::MacroDefinition => {
                lemma_expect_in_file(entered, NASMTokenType::Macro, file);
                lemma_expect_in_file(first, NASMTokenType::MacroCall, file);
                lemma_expect_in_file(second, NASMTokenType::Number, file);
                lemma_expect_in_file(body, NASMTokenType::EndMacro, file);
            },
            Rule::MacroCall => {
                lemma_expect_in_file(entered, NASMTokenType::MacroCall, file);
                lemma_expect_in_file(first_line, NASMTokenType::Newline, file);
            },
            Rule::Define => {
                lemma_expect_in_file(entered, NASMTokenType::Define, file);
                lemma_expect_in_file(first, NASMTokenType::Symbol, file);
                lemma_expect_in_file(second_line, NASMTokenType::Newline, file);
            },
        }
    }
}

/// The constructs of a state that is in a file fail with places in that
/// file.
pub proof fn lemma_constructs_fail_in_file(s: ParserView, file: Seq<char>)
    requires
        in_file(s, file),
        constructs(s) is Err,
    ensures
        trace_in(constructs(s)->Err_0.trace, file),
    decreases s.tokens.len() - s.pos,
{
    if !at_end(s) {
        match construct(s) {
            Ok(read) => {
                let next = skip_blank(read);
                match rule_for(s) {
                    Some(rule) => {
                        lemma_rule_moves(rule, s);
                    },
                    None => {},
                }
                lemma_skip_blank_consumes(read);
                lemma_consumed_in_file(s, next, file);
                if s.pos < next.pos <= next.tokens.len() && next.tokens.len() == s.tokens.len() {
                    lemma_constructs_fail_in_file(next, file);
                }
            },
            Err(e) => {
                match rule_for(s) {
                    Some(rule) => {
                        lemma_rule_fails_in_file(rule, s, file);
                    },
                    None => {
                        lemma_failure_in_file(s, ErrorKindView::InvalidSyntax, file);
                    },
                }
            },
        }
    }
}

/// Every place of a failure is in the file that was parsed. So the message
/// of the failure can be shown where that file has a file name.
pub proof fn lemma_failure_is_in_the_file(file: Seq<char>, source: Seq<char>)
    requires
        parse_text(file, source) is Err,
    ensures
        trace_in(parse_text(file, source)->Err_0.trace, file),
        has_file_name(file) ==> parse_text(file, source)->Err_0.names_files(),
{
    let e = parse_text(file, source)->Err_0;
    lemma_lexed_in_file(file, source, Cursor { at: 0, offset: 0, line: 1, col: 1 });
    match lex(file, source) {
        Ok(lexed) => {
            let s = initial(lexed);
            assert(in_file(s, file));
            if at_end(s) {
                lemma_skip_blank_consumes(s);
                lemma_consumed_in_file(s, skip_blank(s), file);
                lemma_constructs_fail_in_file(skip_blank(s), file);
            } else {
                let framed = ParserView { trace: s.trace.push(("parse"@, current(s).loc)), ..s };
                assert(in_file(framed, file));
                lemma_skip_blank_consumes(framed);
                lemma_consumed_in_file(framed, skip_blank(framed), file);
                lemma_constructs_fail_in_file(skip_blank(framed), file);
            }
        },
        Err(place) => {
            assert(e.trace.len() == 1);
        },
    }
    assert(trace_in(e.trace, file));
}

} // verus!
