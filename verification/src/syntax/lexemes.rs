//! The kinds of token by themselves, and how the lexer chooses among them:
//! the longest token wins, and among kinds that read the same text a keyword
//! goes before a mnemonic or register, and these before a symbol.
use crate::syntax::grammar::{
    CharClass, all_of, directive_at, has_word_at, is_digit, is_letter, is_mnemonic, is_register,
    is_symbol_start, lemma_run_end, punctuation, run_end, scan, string_end, word_kind,
};
use crate::syntax::lexer::{Cursor, after, lex_from};
use crate::syntax::nasm::NASMTokenType;
use crate::syntax::shapes::lemma_words_start_with_letters;
use vstd::prelude::*;

verus! {

/// The text of the kinds that have one text only.
pub open spec fn keyword_text(ty: NASMTokenType) -> Option<Seq<char>> {
    match ty {
        NASMTokenType::Bits => Some("bits"@),
        NASMTokenType::Section => Some("section"@),
        NASMTokenType::Global => Some("global"@),
        NASMTokenType::Extern => Some("extern"@),
        NASMTokenType::QWord => Some("qword"@),
        NASMTokenType::DWord => Some("dword"@),
        NASMTokenType::Include => Some("%include"@),
        NASMTokenType::Define => Some("%define"@),
        NASMTokenType::Macro => Some("%macro"@),
        NASMTokenType::EndMacro => Some("%endmacro"@),
        NASMTokenType::CurrentPosition => Some(seq!['$']),
        _ => None,
    }
}

/// Whether the text `w` is a token of kind `ty`, whatever other kinds it may
/// be a token of.
pub open spec fn is_lexeme(ty: NASMTokenType, w: Seq<char>) -> bool {
    match keyword_text(ty) {
        Some(text) => w == text,
        None => match ty {
            NASMTokenType::Mnemonic => is_mnemonic(w),
            NASMTokenType::MacroCall => w.len() >= 2 && w[0] == '$' && all_of(
                w,
                1,
                CharClass::MacroChar,
            ),
            NASMTokenType::MacroArg => w.len() >= 2 && w[0] == '%' && all_of(
                w,
                1,
                CharClass::Digit,
            ),
            NASMTokenType::Register => is_register(w),
            NASMTokenType::Symbol => w.len() >= 1 && is_symbol_start(w[0]) && all_of(
                w,
                1,
                CharClass::SymbolChar,
            ),
            NASMTokenType::Number => w.len() >= 1 && all_of(w, 0, CharClass::Digit),
            NASMTokenType::String => w.len() >= 2 && (w[0] == '"' || w[0] == '\'') && string_end(
                w,
                1,
                w[0],
            ) == Some(w.len() as int),
            NASMTokenType::Comment => w.len() >= 1 && w[0] == ';' && all_of(
                w,
                1,
                CharClass::NotNewline,
            ),
            NASMTokenType::Whitespace => w.len() >= 1 && all_of(w, 0, CharClass::Blank),
            NASMTokenType::EOF => false,
            _ => w.len() == 1 && punctuation(w[0]) == Some(ty),
        },
    }
}

/// How a kind ranks among the kinds that can read the same text.
pub open spec fn rank(ty: NASMTokenType) -> nat {
    match ty {
        NASMTokenType::Symbol => 0,
        NASMTokenType::Mnemonic => 1,
        NASMTokenType::Register => 1,
        _ => 2,
    }
}

/// Every keyword and every mnemonic is made of letters.
pub proof fn lemma_words_are_letters(w: Seq<char>)
    requires
        w == "bits"@ || w == "section"@ || w == "global"@ || w == "extern"@ || w == "qword"@ || w
            == "dword"@ || is_mnemonic(w),
    ensures
        forall|i: int| 0 <= i < w.len() ==> is_letter(#[trigger] w[i]),
{
    reveal_strlit("bits");
    reveal_strlit("section");
    reveal_strlit("global");
    reveal_strlit("extern");
    reveal_strlit("qword");
    reveal_strlit("dword");
    reveal_strlit("mov");
    reveal_strlit("add");
    reveal_strlit("jmp");
    reveal_strlit("push");
    reveal_strlit("pop");
    reveal_strlit("call");
    reveal_strlit("ret");
    reveal_strlit("sub");
    reveal_strlit("mul");
    reveal_strlit("div");
    reveal_strlit("inc");
    reveal_strlit("dec");
    reveal_strlit("and");
    reveal_strlit("or");
    reveal_strlit("xor");
    reveal_strlit("not");
    reveal_strlit("shl");
    reveal_strlit("shr");
    reveal_strlit("cmp");
    reveal_strlit("test");
    reveal_strlit("db");
    reveal_strlit("dd");
    reveal_strlit("align");
    reveal_strlit("equ");
    reveal_strlit("lea");
    reveal_strlit("jne");
    reveal_strlit("je");
    reveal_strlit("imul");
    reveal_strlit("syscall");
    reveal_strlit("jz");
    reveal_strlit("jnz");
}

/// A run reaches at least as far as characters of its class stand.
pub proof fn lemma_run_reaches(s: Seq<char>, p: int, e: int, class: CharClass)
    requires
        0 <= p <= e <= s.len(),
        forall|i: int| p <= i < e ==> class.holds(#[trigger] s[i]),
    ensures
        e <= run_end(s, p, class) <= s.len(),
    decreases e - p,
{
    if p < e {
        lemma_run_reaches(s, p + 1, e, class);
    } else {
        lemma_run_end(s, p, class);
    }
}

/// The characters of a window of `s` from its index `from` on are of
/// `class` where those of `s` are.
pub proof fn lemma_window_of_class(s: Seq<char>, p: int, e: int, from: int, class: CharClass)
    requires
        0 <= p <= e <= s.len(),
        0 <= from,
    ensures
        all_of(s.subrange(p, e), from, class) == (forall|i: int|
            p + from <= i < e ==> class.holds(#[trigger] s[i])),
{
    let w = s.subrange(p, e);
    if all_of(w, from, class) {
        assert forall|i: int| p + from <= i < e implies class.holds(#[trigger] s[i]) by {
            assert(s[i] == w[i - p]);
        }
    }
    if forall|i: int| p + from <= i < e ==> class.holds(#[trigger] s[i]) {
        assert forall|i: int| from <= i < w.len() implies class.holds(#[trigger] w[i]) by {
            assert(w[i] == s[p + i]);
        }
    }
}

/// A string literal reads the same in the text and in a window of the text
/// that holds all of it.
pub proof fn lemma_string_in_window(s: Seq<char>, p: int, i: int, e: int, quote: char)
    requires
        0 <= p <= i <= e <= s.len(),
    ensures
        (string_end(s, i, quote) == Some(e)) == (string_end(s.subrange(p, e), i - p, quote)
            == Some(e - p)),
        string_end(s, i, quote) matches Some(end) ==> i < end <= s.len(),
    decreases s.len() - i,
{
    let w = s.subrange(p, e);
    if i < e {
        assert(w[i - p] == s[i]);
        if s[i] == quote {
        } else if s[i] == '\\' {
            if i + 1 < s.len() && s[i + 1] != '\n' {
                if i + 2 <= e {
                    assert(w[i + 1 - p] == s[i + 1]);
                    lemma_string_in_window(s, p, i + 2, e, quote);
                } else {
                    lemma_string_past(s, i + 2, quote);
                }
            }
        } else {
            lemma_string_in_window(s, p, i + 1, e, quote);
        }
    } else {
        lemma_string_past(s, i, quote);
    }
}

/// A string literal ends after where its body starts.
pub proof fn lemma_string_past(s: Seq<char>, i: int, quote: char)
    requires
        0 <= i,
    ensures
        string_end(s, i, quote) matches Some(end) ==> i < end <= s.len(),
    decreases s.len() - i,
{
    if i < s.len() {
        if s[i] == quote {
        } else if s[i] == '\\' {
            if i + 1 < s.len() && s[i + 1] != '\n' {
                lemma_string_past(s, i + 2, quote);
            }
        } else {
            lemma_string_past(s, i + 1, quote);
        }
    }
}

/// What the lexer takes for a token is a token of its kind.
pub proof fn lemma_scan_gives_a_lexeme(s: Seq<char>, p: int)
    requires
        scan(s, p) is Some,
    ensures
        ({
            let (ty, e) = scan(s, p)->Some_0;
            p < e <= s.len() && is_lexeme(ty, s.subrange(p, e))
        }),
{
    let (ty, e) = scan(s, p)->Some_0;
    reveal_strlit("%include");
    reveal_strlit("%define");
    reveal_strlit("%macro");
    reveal_strlit("%endmacro");
    lemma_run_end(s, p + 1, CharClass::SymbolChar);
    lemma_run_end(s, p + 1, CharClass::Digit);
    lemma_run_end(s, p + 1, CharClass::MacroChar);
    lemma_run_end(s, p + 1, CharClass::NotNewline);
    lemma_run_end(s, p + 1, CharClass::Blank);
    lemma_string_past(s, p + 1, s[p]);
    assert(p < e <= s.len());
    let w = s.subrange(p, e);
    assert(w[0] == s[p]);
    lemma_window_of_class(s, p, e, 1, CharClass::SymbolChar);
    lemma_window_of_class(s, p, e, 1, CharClass::Digit);
    lemma_window_of_class(s, p, e, 1, CharClass::MacroChar);
    lemma_window_of_class(s, p, e, 1, CharClass::NotNewline);
    lemma_window_of_class(s, p, e, 1, CharClass::Blank);
    lemma_window_of_class(s, p, e, 0, CharClass::Digit);
    lemma_window_of_class(s, p, e, 0, CharClass::Blank);
    if s[p] == '"' || s[p] == '\'' {
        lemma_string_in_window(s, p, p + 1, e, s[p]);
    }
    if s[p] == '$' && e == p + 1 {
        assert(w =~= seq!['$']);
    }
}

/// A word that stands in a text stands there character by character.
pub proof fn lemma_word_at(s: Seq<char>, p: int, word: Seq<char>, i: int)
    requires
        has_word_at(s, p, word),
        0 <= i < word.len(),
    ensures
        s[p + i] == word[i],
{
    assert(s[p + i] == s.subrange(p, p + word.len())[i]);
}

/// The keywords are six different words: a word that reads as one is of
/// its kind.
pub proof fn lemma_keywords_differ(ty: NASMTokenType, w: Seq<char>)
    requires
        ty == NASMTokenType::Bits || ty == NASMTokenType::Section || ty == NASMTokenType::Global
            || ty == NASMTokenType::Extern || ty == NASMTokenType::QWord || ty
            == NASMTokenType::DWord,
        keyword_text(ty) == Some(w),
    ensures
        word_kind(w) == ty,
{
    reveal_strlit("bits");
    reveal_strlit("section");
    reveal_strlit("global");
    reveal_strlit("extern");
    reveal_strlit("qword");
    reveal_strlit("dword");
    assert("bits"@.len() == 4);
    assert("section"@.len() == 7);
    assert("global"@.len() == 6);
    assert("extern"@.len() == 6);
    assert("qword"@.len() == 5);
    assert("dword"@.len() == 5);
    assert("global"@[0] == 'g');
    assert("extern"@[0] == 'e');
    assert("qword"@[0] == 'q');
    assert("dword"@[0] == 'd');
}

/// Of the kinds that read a word, the lexer takes the one that ranks
/// highest, and it takes the word as far as it goes.
proof fn lemma_longest_word(s: Seq<char>, p: int, ty2: NASMTokenType, e2: int)
    requires
        0 <= p < e2 <= s.len(),
        is_lexeme(ty2, s.subrange(p, e2)),
        ty2 == NASMTokenType::Bits || ty2 == NASMTokenType::Section || ty2 == NASMTokenType::Global
            || ty2 == NASMTokenType::Extern || ty2 == NASMTokenType::QWord || ty2
            == NASMTokenType::DWord || ty2 == NASMTokenType::Mnemonic || ty2
            == NASMTokenType::Register || ty2 == NASMTokenType::Symbol,
    ensures
        scan(s, p) is Some,
        ({
            let (ty, e) = scan(s, p)->Some_0;
            e2 <= e && (e2 == e ==> ty2 == ty || rank(ty2) < rank(ty))
        }),
{
    let w = s.subrange(p, e2);
    assert(w[0] == s[p]);
    if ty2 != NASMTokenType::Register && ty2 != NASMTokenType::Symbol {
        lemma_words_are_letters(w);
        lemma_words_start_with_letters(w);
        assert(is_letter(w[0]));
        assert forall|i: int| 1 <= i < w.len() implies CharClass::SymbolChar.holds(
            #[trigger] w[i],
        ) by {
            assert(is_letter(w[i]));
        }
    }
    if ty2 == NASMTokenType::Register {
        assert forall|i: int| 1 <= i < w.len() implies CharClass::SymbolChar.holds(
            #[trigger] w[i],
        ) by {
            assert(CharClass::Digit.holds(w[i]));
        }
    }
    assert(is_symbol_start(s[p]));
    assert(all_of(w, 1, CharClass::SymbolChar));
    lemma_window_of_class(s, p, e2, 1, CharClass::SymbolChar);
    lemma_run_reaches(s, p + 1, e2, CharClass::SymbolChar);
    let e = run_end(s, p + 1, CharClass::SymbolChar);
    assert(scan(s, p) == Some((word_kind(s.subrange(p, e)), e)));
    if e2 == e {
        let ty = word_kind(w);
        if ty2 == NASMTokenType::Symbol {
        } else if ty2 == NASMTokenType::Mnemonic {
        } else if ty2 == NASMTokenType::Register {
            if is_mnemonic(w) {
                lemma_words_start_with_letters(w);
                assert(CharClass::Digit.holds(w[1]));
            }
        } else {
            lemma_keywords_differ(ty2, w);
        }
    }
}

/// The lexer takes the longest token that starts where it stands. Where
/// several kinds read that text, it takes the one that ranks highest. Where
/// any text from there on is a token, the lexer finds one.
pub proof fn lemma_scan_is_longest(s: Seq<char>, p: int, ty2: NASMTokenType, e2: int)
    requires
        0 <= p < e2 <= s.len(),
        is_lexeme(ty2, s.subrange(p, e2)),
    ensures
        scan(s, p) is Some,
        ({
            let (ty, e) = scan(s, p)->Some_0;
            e2 <= e && (e2 == e ==> ty2 == ty || rank(ty2) < rank(ty))
        }),
{
    let w = s.subrange(p, e2);
    assert(w[0] == s[p]);
    match ty2 {
        NASMTokenType::Bits
        | NASMTokenType::Section
        | NASMTokenType::Global
        | NASMTokenType::Extern
        | NASMTokenType::QWord
        | NASMTokenType::DWord
        | NASMTokenType::Mnemonic
        | NASMTokenType::Register
        | NASMTokenType::Symbol => {
            lemma_longest_word(s, p, ty2, e2);
        },
        NASMTokenType::Number => {
            lemma_window_of_class(s, p, e2, 0, CharClass::Digit);
            lemma_run_reaches(s, p + 1, e2, CharClass::Digit);
        },
        NASMTokenType::MacroCall => {
            lemma_window_of_class(s, p, e2, 1, CharClass::MacroChar);
            lemma_run_reaches(s, p + 1, e2, CharClass::MacroChar);
        },
        NASMTokenType::CurrentPosition => {
            lemma_run_end(s, p + 1, CharClass::MacroChar);
        },
        NASMTokenType::MacroArg => {
            lemma_window_of_class(s, p, e2, 1, CharClass::Digit);
            lemma_run_reaches(s, p + 1, e2, CharClass::Digit);
        },
        NASMTokenType::Include
        | NASMTokenType::Define
        | NASMTokenType::Macro
        | NASMTokenType::EndMacro => {
            reveal_strlit("%include");
            reveal_strlit("%define");
            reveal_strlit("%macro");
            reveal_strlit("%endmacro");
            let text = keyword_text(ty2)->Some_0;
            assert(w == text);
            assert(has_word_at(s, p, text));
            lemma_word_at(s, p, text, 1);
            if has_word_at(s, p, "%include"@) {
                lemma_word_at(s, p, "%include"@, 1);
            }
            if has_word_at(s, p, "%define"@) {
                lemma_word_at(s, p, "%define"@, 1);
            }
            if has_word_at(s, p, "%macro"@) {
                lemma_word_at(s, p, "%macro"@, 1);
            }
            if has_word_at(s, p, "%endmacro"@) {
                lemma_word_at(s, p, "%endmacro"@, 1);
            }
            assert(!is_digit(s[p + 1]));
            assert(run_end(s, p + 1, CharClass::Digit) == p + 1);
            assert(scan(s, p) == directive_at(s, p));
        },
        NASMTokenType::String => {
            lemma_string_in_window(s, p, p + 1, e2, s[p]);
        },
        NASMTokenType::Comment => {
            lemma_window_of_class(s, p, e2, 1, CharClass::NotNewline);
            lemma_run_reaches(s, p + 1, e2, CharClass::NotNewline);
        },
        NASMTokenType::Whitespace => {
            lemma_window_of_class(s, p, e2, 0, CharClass::Blank);
            lemma_run_reaches(s, p + 1, e2, CharClass::Blank);
        },
        NASMTokenType::EOF => {},
        _ => {},
    }
}

/// Where the lexer finds no token, no text from there on is a token of any
/// kind.
pub proof fn lemma_no_token_where_scan_fails(s: Seq<char>, p: int, ty: NASMTokenType, e: int)
    requires
        0 <= p < e <= s.len(),
        scan(s, p) is None,
    ensures
        !is_lexeme(ty, s.subrange(p, e)),
{
    if is_lexeme(ty, s.subrange(p, e)) {
        lemma_scan_is_longest(s, p, ty, e);
    }
}

/// Every token that the lexer gives is a token of its kind by the grammar of
/// that kind, and none is blank space.
pub proof fn lemma_tokens_are_lexemes(file: Seq<char>, s: Seq<char>, c: Cursor, i: int)
    requires
        0 <= c.at,
        lex_from(file, s, c) is Ok,
        0 <= i < lex_from(file, s, c)->Ok_0.tokens.len(),
    ensures
        ({
            let token = lex_from(file, s, c)->Ok_0.tokens[i];
            is_lexeme(token.ty, token.value) && token.ty != NASMTokenType::Whitespace
        }),
    decreases s.len() - c.at,
{
    if c.at < s.len() {
        let (ty, e) = scan(s, c.at)->Some_0;
        lemma_scan_gives_a_lexeme(s, c.at);
        let next = after(s, c, ty, e);
        if ty == NASMTokenType::Whitespace {
            lemma_tokens_are_lexemes(file, s, next, i);
        } else if i > 0 {
            lemma_tokens_are_lexemes(file, s, next, i - 1);
        }
    }
}

} // verus!
