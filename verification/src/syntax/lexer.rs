//! Cutting NASM source text into tokens, each with its place.
use crate::syntax::grammar::scan;
use crate::syntax::grammar::scan_token;
use crate::syntax::nasm::{
    LocationView, NASMToken, NASMTokenType, SourceLocation, Span, TokenView, token_views,
};
use crate::text::{chars_of, string_of};
use vstd::prelude::*;

verus! {

/// The sources that the lexer takes: those whose places fit the machine's
/// numbers.
pub open spec fn fits(source: Seq<char>) -> bool {
    source.len() < usize::MAX / 4
}

/// How many bytes `c` takes in UTF-8.
pub open spec fn utf8_width(c: char) -> nat {
    if (c as u32) < 0x80 {
        1
    } else if (c as u32) < 0x800 {
        2
    } else if (c as u32) < 0x10000 {
        3
    } else {
        4
    }
}

/// How many bytes `w` takes in UTF-8.
pub open spec fn text_width(w: Seq<char>) -> nat
    decreases w.len(),
{
    if w.len() == 0 {
        0
    } else {
        text_width(w.drop_last()) + utf8_width(w.last())
    }
}

/// How many bytes the characters of `s` from `from` up to `to` take.
pub fn width_between(s: &Vec<char>, from: usize, to: usize) -> (w: usize)
    requires
        from <= to <= s.len(),
        4 * s.len() < usize::MAX,
    ensures
        w == text_width(s@.subrange(from as int, to as int)),
        to - from <= w <= 4 * (to - from),
{
    let mut w: usize = 0;
    let mut i: usize = from;
    assert(s@.subrange(from as int, from as int).len() == 0);
    while i < to
        invariant
            from <= i <= to <= s.len(),
            4 * s.len() < usize::MAX,
            w == text_width(s@.subrange(from as int, i as int)),
            i - from <= w <= 4 * (i - from),
        decreases to - i,
    {
        let v = s[i] as u32;
        let step: usize = if v < 0x80 {
            1
        } else if v < 0x800 {
            2
        } else if v < 0x10000 {
            3
        } else {
            4
        };
        assert(s@.subrange(from as int, i + 1).drop_last() =~= s@.subrange(
            from as int,
            i as int,
        ));
        w += step;
        i += 1;
    }
    w
}

/// How far the lexer has come.
pub struct Cursor {
    /// The index of the next character.
    pub at: int,
    /// The bytes before it.
    pub offset: nat,
    /// The line it is on.
    pub line: nat,
    /// Its column.
    pub col: nat,
}

/// The tokens of a source, without blank space, and the token that marks its
/// end.
pub struct Lexed {
    pub tokens: Seq<TokenView>,
    pub end: TokenView,
}

/// The token of kind `ty` that stands at `c` and ends before index `e`.
pub open spec fn token_at(
    file: Seq<char>,
    s: Seq<char>,
    c: Cursor,
    ty: NASMTokenType,
    e: int,
) -> TokenView {
    TokenView {
        ty,
        value: s.subrange(c.at, e),
        start: c.offset,
        end: c.offset + text_width(s.subrange(c.at, e)),
        loc: LocationView { file, line: c.line, col: c.col },
    }
}

/// The cursor `c` after a token of kind `ty` that ends before index `e`. A
/// line break starts a new line at column 1; any other token moves the column
/// on by its bytes.
pub open spec fn after(s: Seq<char>, c: Cursor, ty: NASMTokenType, e: int) -> Cursor {
    let width = text_width(s.subrange(c.at, e));
    Cursor {
        at: e,
        offset: c.offset + width,
        line: if ty == NASMTokenType::Newline {
            c.line + 1
        } else {
            c.line
        },
        col: if ty == NASMTokenType::Newline {
            1
        } else {
            c.col + width
        },
    }
}

/// The token that marks the end of the source, which `c` has reached.
pub open spec fn end_token(file: Seq<char>, c: Cursor) -> TokenView {
    TokenView {
        ty: NASMTokenType::EOF,
        value: Seq::empty(),
        start: c.offset,
        end: c.offset,
        loc: LocationView { file, line: c.line, col: c.col },
    }
}

/// The tokens of `s` from `c` on, or the place where no token starts.
pub open spec fn lex_from(file: Seq<char>, s: Seq<char>, c: Cursor) -> Result<Lexed, LocationView>
    decreases s.len() - c.at,
{
    if c.at < 0 || c.at >= s.len() {
        Ok(Lexed { tokens: Seq::empty(), end: end_token(file, c) })
    } else {
        match scan(s, c.at) {
            Some((ty, e)) => if e <= c.at || e > s.len() {
                Err(LocationView { file, line: c.line, col: c.col })
            } else {
                match lex_from(file, s, after(s, c, ty, e)) {
                    Ok(rest) => if ty == NASMTokenType::Whitespace {
                        Ok(rest)
                    } else {
                        Ok(
                            Lexed {
                                tokens: seq![token_at(file, s, c, ty, e)] + rest.tokens,
                                end: rest.end,
                            },
                        )
                    },
                    Err(place) => Err(place),
                }
            },
            None => Err(LocationView { file, line: c.line, col: c.col }),
        }
    }
}

/// The tokens of the source `s` of the file `file`, or the place where no
/// token starts.
pub open spec fn lex(file: Seq<char>, s: Seq<char>) -> Result<Lexed, LocationView> {
    lex_from(file, s, Cursor { at: 0, offset: 0, line: 1, col: 1 })
}

/// `rest` with `tokens` before it.
pub open spec fn prepend(tokens: Seq<TokenView>, rest: Result<Lexed, LocationView>) -> Result<
    Lexed,
    LocationView,
> {
    match rest {
        Ok(lexed) => Ok(Lexed { tokens: tokens + lexed.tokens, end: lexed.end }),
        Err(place) => Err(place),
    }
}

/// The content of a list of tokens with one more at its end.
pub proof fn lemma_token_views_push(tokens: Seq<NASMToken>, last: NASMToken)
    ensures
        token_views(tokens.push(last)) == token_views(tokens).push(last@),
{
    assert(token_views(tokens.push(last)) =~= token_views(tokens).push(last@));
}

/// Cuts `source` into tokens. Gives the tokens without blank space, and the
/// token that marks the end; or the place where no token starts.
pub fn tokenize(file: &str, source: &str) -> (r: Result<(Vec<NASMToken>, NASMToken), SourceLocation>)
    requires
        fits(source@),
    ensures
        match r {
            Ok((tokens, end)) => lex(file@, source@) == Ok::<Lexed, LocationView>(
                Lexed { tokens: token_views(tokens@), end: end@ },
            ),
            Err(place) => lex(file@, source@) == Err::<Lexed, LocationView>(place@),
        },
{
    let s = chars_of(source);
    let mut tokens: Vec<NASMToken> = Vec::new();
    let mut p: usize = 0;
    let mut offset: usize = 0;
    let mut line: usize = 1;
    let mut col: usize = 1;
    proof {
        let start = lex(file@, s@);
        match start {
            Ok(lexed) => {
                assert(token_views(tokens@) + lexed.tokens =~= lexed.tokens);
            },
            Err(_) => {},
        }
    }
    while p < s.len()
        invariant
            p <= s.len(),
            s@ == source@,
            fits(s@),
            offset <= 4 * p,
            col <= 4 * p + 1,
            line <= p + 1,
            lex(file@, s@) == prepend(
                token_views(tokens@),
                lex_from(
                    file@,
                    s@,
                    Cursor { at: p as int, offset: offset as nat, line: line as nat, col: col as nat },
                ),
            ),
        decreases s.len() - p,
    {
        let ghost c = Cursor {
            at: p as int,
            offset: offset as nat,
            line: line as nat,
            col: col as nat,
        };
        match scan_token(&s, p) {
            None => {
                return Err(SourceLocation { file: file.to_owned(), line, col });
            },
            Some((ty, e)) => {
                let width = width_between(&s, p, e);
                let ghost rest = lex_from(file@, s@, after(s@, c, ty, e as int));
                if ty != NASMTokenType::Whitespace {
                    let token = NASMToken {
                        ty,
                        value: string_of(&s, p, e),
                        span: Span { start: offset, end: offset + width },
                        loc: SourceLocation { file: file.to_owned(), line, col },
                    };
                    proof {
                        assert(token@ == token_at(file@, s@, c, ty, e as int));
                        lemma_token_views_push(tokens@, token);
                        match rest {
                            Ok(lexed) => {
                                assert(token_views(tokens@) + (seq![token@] + lexed.tokens)
                                    =~= token_views(tokens@).push(token@) + lexed.tokens);
                            },
                            Err(_) => {},
                        }
                    }
                    tokens.push(token);
                }
                if ty == NASMTokenType::Newline {
                    line += 1;
                    col = 1;
                } else {
                    col += width;
                }
                offset += width;
                p = e;
            },
        }
    }
    let end = NASMToken {
        ty: NASMTokenType::EOF,
        value: String::new(),
        span: Span { start: offset, end: offset },
        loc: SourceLocation { file: file.to_owned(), line, col },
    };
    proof {
        assert(token_views(tokens@) + Seq::<TokenView>::empty() =~= token_views(tokens@));
    }
    Ok((tokens, end))
}

} // verus!
