//! The lexical grammar of NASM source text: which runs of characters are
//! tokens, and of which kind.
use crate::syntax::nasm::NASMTokenType;
use vstd::prelude::*;

verus! {

/// Classes of characters that tokens are made of.
#[derive(Clone, Copy, PartialEq, Eq, Structural)]
pub enum CharClass {
    /// `0` to `9`.
    Digit,
    /// What a symbol may hold after its first character: letters, digits,
    /// `_`, `.` and `$`.
    SymbolChar,
    /// What the name of a macro call may hold: letters, digits, `_` and `.`.
    MacroChar,
    /// Space, tab and form feed.
    Blank,
    /// Anything but a line break.
    NotNewline,
}

pub open spec fn is_digit(c: char) -> bool {
    '0' <= c <= '9'
}

pub open spec fn is_letter(c: char) -> bool {
    ('a' <= c <= 'z') || ('A' <= c <= 'Z')
}

/// What a symbol may start with: a letter, `_` or `.`.
pub open spec fn is_symbol_start(c: char) -> bool {
    is_letter(c) || c == '_' || c == '.'
}

impl CharClass {
    /// Whether `c` is of this class.
    pub open spec fn holds(self, c: char) -> bool {
        match self {
            CharClass::Digit => is_digit(c),
            CharClass::SymbolChar => is_letter(c) || is_digit(c) || c == '_' || c == '.' || c
                == '$',
            CharClass::MacroChar => is_letter(c) || is_digit(c) || c == '_' || c == '.',
            CharClass::Blank => c == ' ' || c == '\t' || c == '\x0c',
            CharClass::NotNewline => c != '\n',
        }
    }

    /// Whether `c` is of this class.
    pub fn has(self, c: char) -> (b: bool)
        ensures
            b == self.holds(c),
    {
        let letter = ('a' <= c && c <= 'z') || ('A' <= c && c <= 'Z');
        let digit = '0' <= c && c <= '9';
        match self {
            CharClass::Digit => digit,
            CharClass::SymbolChar => letter || digit || c == '_' || c == '.' || c == '$',
            CharClass::MacroChar => letter || digit || c == '_' || c == '.',
            CharClass::Blank => c == ' ' || c == '\t' || c == '\x0c',
            CharClass::NotNewline => c != '\n',
        }
    }
}

/// Whether `c` may start a symbol.
pub fn starts_symbol(c: char) -> (b: bool)
    ensures
        b == is_symbol_start(c),
{
    ('a' <= c && c <= 'z') || ('A' <= c && c <= 'Z') || c == '_' || c == '.'
}

/// Whether every character of `w` from index `from` on is of `class`.
pub open spec fn all_of(w: Seq<char>, from: int, class: CharClass) -> bool {
    forall|i: int| from <= i < w.len() ==> class.holds(#[trigger] w[i])
}

/// Where the run of `class` characters that starts at `p` ends: the first
/// index from `p` on whose character is not of `class`, or the length of `s`.
pub open spec fn run_end(s: Seq<char>, p: int, class: CharClass) -> int
    decreases s.len() - p,
{
    if 0 <= p < s.len() && class.holds(s[p]) {
        run_end(s, p + 1, class)
    } else {
        p
    }
}

/// The run ends at or after its start and within `s`; it holds only
/// characters of the class, and the character after it is not of the class.
pub proof fn lemma_run_end(s: Seq<char>, p: int, class: CharClass)
    requires
        0 <= p <= s.len(),
    ensures
        p <= run_end(s, p, class) <= s.len(),
        forall|i: int| p <= i < run_end(s, p, class) ==> class.holds(#[trigger] s[i]),
        run_end(s, p, class) < s.len() ==> !class.holds(s[run_end(s, p, class)]),
    decreases s.len() - p,
{
    if p < s.len() && class.holds(s[p]) {
        lemma_run_end(s, p + 1, class);
    }
}

/// Where the run of `class` characters that starts at `p` ends.
pub fn run(s: &Vec<char>, p: usize, class: CharClass) -> (e: usize)
    requires
        p <= s.len(),
    ensures
        e == run_end(s@, p as int, class),
        p <= e <= s.len(),
{
    let mut e: usize = p;
    while e < s.len() && class.has(s[e])
        invariant
            p <= e <= s.len(),
            run_end(s@, p as int, class) == run_end(s@, e as int, class),
        decreases s.len() - e,
    {
        e += 1;
    }
    e
}

/// Whether `w` is one of the instruction names that the grammar knows.
pub open spec fn is_mnemonic(w: Seq<char>) -> bool {
    w == "mov"@ || w == "add"@ || w == "jmp"@ || w == "push"@ || w == "pop"@ || w == "call"@ || w
        == "ret"@ || w == "sub"@ || w == "mul"@ || w == "div"@ || w == "inc"@ || w == "dec"@ || w
        == "and"@ || w == "or"@ || w == "xor"@ || w == "not"@ || w == "shl"@ || w == "shr"@ || w
        == "cmp"@ || w == "test"@ || w == "db"@ || w == "dd"@ || w == "align"@ || w == "equ"@ || w
        == "lea"@ || w == "jne"@ || w == "je"@ || w == "imul"@ || w == "syscall"@ || w == "jz"@
        || w == "jnz"@
}

/// Whether `w` names a register: `r` and then digits.
pub open spec fn is_register(w: Seq<char>) -> bool {
    w.len() >= 2 && w[0] == 'r' && all_of(w, 1, CharClass::Digit)
}

/// The kind of the word `w`, which is made like a symbol: a keyword, a
/// mnemonic or a register where it reads as one, else a symbol.
pub open spec fn word_kind(w: Seq<char>) -> NASMTokenType {
    if w == "bits"@ {
        NASMTokenType::Bits
    } else if w == "section"@ {
        NASMTokenType::Section
    } else if w == "global"@ {
        NASMTokenType::Global
    } else if w == "extern"@ {
        NASMTokenType::Extern
    } else if w == "qword"@ {
        NASMTokenType::QWord
    } else if w == "dword"@ {
        NASMTokenType::DWord
    } else if is_mnemonic(w) {
        NASMTokenType::Mnemonic
    } else if is_register(w) {
        NASMTokenType::Register
    } else {
        NASMTokenType::Symbol
    }
}

/// The kind of the token that the single character `c` makes, for the
/// characters that are tokens by themselves.
pub open spec fn punctuation(c: char) -> Option<NASMTokenType> {
    if c == ':' {
        Some(NASMTokenType::Colon)
    } else if c == ',' {
        Some(NASMTokenType::Comma)
    } else if c == '[' {
        Some(NASMTokenType::LeftBracket)
    } else if c == ']' {
        Some(NASMTokenType::RightBracket)
    } else if c == '+' {
        Some(NASMTokenType::Plus)
    } else if c == '-' {
        Some(NASMTokenType::Minus)
    } else if c == '*' {
        Some(NASMTokenType::Asterisk)
    } else if c == '/' {
        Some(NASMTokenType::Slash)
    } else if c == '~' {
        Some(NASMTokenType::BitNot)
    } else if c == '|' {
        Some(NASMTokenType::BitOr)
    } else if c == '^' {
        Some(NASMTokenType::BitXor)
    } else if c == '&' {
        Some(NASMTokenType::BitAnd)
    } else if c == '(' {
        Some(NASMTokenType::LeftParen)
    } else if c == ')' {
        Some(NASMTokenType::RightParen)
    } else if c == '\n' {
        Some(NASMTokenType::Newline)
    } else {
        None
    }
}

/// Whether `word` stands in `s` at index `p`.
pub open spec fn has_word_at(s: Seq<char>, p: int, word: Seq<char>) -> bool {
    0 <= p && p + word.len() <= s.len() && s.subrange(p, p + word.len()) == word
}

/// Where a string literal ends whose body is read from index `i` on and
/// which `quote` closes: just after the first `quote` that no backslash
/// escapes. A backslash takes the next character with it, which may be
/// anything but a line break. `None` where the literal is never closed.
pub open spec fn string_end(s: Seq<char>, i: int, quote: char) -> Option<int>
    decreases s.len() - i,
{
    if i < 0 || i >= s.len() {
        None
    } else if s[i] == quote {
        Some(i + 1)
    } else if s[i] == '\\' {
        if i + 1 < s.len() && s[i + 1] != '\n' {
            string_end(s, i + 2, quote)
        } else {
            None
        }
    } else {
        string_end(s, i + 1, quote)
    }
}

/// The directive that starts at index `p` of `s`, where a `%` stands that
/// no digit follows.
pub open spec fn directive_at(s: Seq<char>, p: int) -> Option<(NASMTokenType, int)> {
    if has_word_at(s, p, "%include"@) {
        Some((NASMTokenType::Include, p + "%include"@.len()))
    } else if has_word_at(s, p, "%define"@) {
        Some((NASMTokenType::Define, p + "%define"@.len()))
    } else if has_word_at(s, p, "%macro"@) {
        Some((NASMTokenType::Macro, p + "%macro"@.len()))
    } else if has_word_at(s, p, "%endmacro"@) {
        Some((NASMTokenType::EndMacro, p + "%endmacro"@.len()))
    } else {
        None
    }
}

/// The token that starts at index `p` of `s`: its kind and the index just
/// after it. It is the longest run of characters from `p` on that is a token
/// of some kind; `None` where no run from `p` on is a token.
pub open spec fn scan(s: Seq<char>, p: int) -> Option<(NASMTokenType, int)> {
    if p < 0 || p >= s.len() {
        None
    } else if is_symbol_start(s[p]) {
        let e = run_end(s, p + 1, CharClass::SymbolChar);
        Some((word_kind(s.subrange(p, e)), e))
    } else if is_digit(s[p]) {
        Some((NASMTokenType::Number, run_end(s, p + 1, CharClass::Digit)))
    } else if s[p] == '$' {
        let e = run_end(s, p + 1, CharClass::MacroChar);
        if e > p + 1 {
            Some((NASMTokenType::MacroCall, e))
        } else {
            Some((NASMTokenType::CurrentPosition, p + 1))
        }
    } else if s[p] == '%' {
        let e = run_end(s, p + 1, CharClass::Digit);
        if e > p + 1 {
            Some((NASMTokenType::MacroArg, e))
        } else {
            directive_at(s, p)
        }
    } else if s[p] == '"' || s[p] == '\'' {
        match string_end(s, p + 1, s[p]) {
            Some(e) => Some((NASMTokenType::String, e)),
            None => None,
        }
    } else if s[p] == ';' {
        Some((NASMTokenType::Comment, run_end(s, p + 1, CharClass::NotNewline)))
    } else if CharClass::Blank.holds(s[p]) {
        Some((NASMTokenType::Whitespace, run_end(s, p + 1, CharClass::Blank)))
    } else {
        match punctuation(s[p]) {
            Some(ty) => Some((ty, p + 1)),
            None => None,
        }
    }
}

/// Whether `text` reads `word`.
pub fn text_is(text: &Vec<char>, word: &str) -> (b: bool)
    ensures
        b == (text@ == word@),
{
    let n = word.unicode_len();
    if text.len() != n {
        return false;
    }
    let mut i: usize = 0;
    while i < n
        invariant
            i <= n,
            n == word@.len(),
            n == text@.len(),
            forall|k: int| 0 <= k < i ==> text@[k] == word@[k],
        decreases n - i,
    {
        if text[i] != word.get_char(i) {
            return false;
        }
        i += 1;
    }
    assert(text@ =~= word@);
    true
}

/// Whether `word` is one of the instruction names that the grammar knows.
pub fn is_mnemonic_word(word: &Vec<char>) -> (b: bool)
    ensures
        b == is_mnemonic(word@),
{
    text_is(word, "mov") || text_is(word, "add") || text_is(word, "jmp") || text_is(word, "push")
        || text_is(word, "pop") || text_is(word, "call") || text_is(word, "ret") || text_is(
        word,
        "sub",
    ) || text_is(word, "mul") || text_is(word, "div") || text_is(word, "inc") || text_is(
        word,
        "dec",
    ) || text_is(word, "and") || text_is(word, "or") || text_is(word, "xor") || text_is(
        word,
        "not",
    ) || text_is(word, "shl") || text_is(word, "shr") || text_is(word, "cmp") || text_is(
        word,
        "test",
    ) || text_is(word, "db") || text_is(word, "dd") || text_is(word, "align") || text_is(
        word,
        "equ",
    ) || text_is(word, "lea") || text_is(word, "jne") || text_is(word, "je") || text_is(
        word,
        "imul",
    ) || text_is(word, "syscall") || text_is(word, "jz") || text_is(word, "jnz")
}

/// Whether `word` names a register.
pub fn is_register_word(word: &Vec<char>) -> (b: bool)
    ensures
        b == is_register(word@),
{
    if word.len() < 2 || word[0] != 'r' {
        return false;
    }
    let e = run(word, 1, CharClass::Digit);
    proof {
        lemma_run_end(word@, 1, CharClass::Digit);
    }
    e == word.len()
}

/// The kind of `word`, which is made like a symbol.
pub fn kind_of_word(word: &Vec<char>) -> (ty: NASMTokenType)
    ensures
        ty == word_kind(word@),
{
    if text_is(word, "bits") {
        NASMTokenType::Bits
    } else if text_is(word, "section") {
        NASMTokenType::Section
    } else if text_is(word, "global") {
        NASMTokenType::Global
    } else if text_is(word, "extern") {
        NASMTokenType::Extern
    } else if text_is(word, "qword") {
        NASMTokenType::QWord
    } else if text_is(word, "dword") {
        NASMTokenType::DWord
    } else if is_mnemonic_word(word) {
        NASMTokenType::Mnemonic
    } else if is_register_word(word) {
        NASMTokenType::Register
    } else {
        NASMTokenType::Symbol
    }
}

/// The kind of the token that `c` makes by itself, if it makes one.
pub fn punctuation_kind(c: char) -> (ty: Option<NASMTokenType>)
    ensures
        ty == punctuation(c),
{
    if c == ':' {
        Some(NASMTokenType::Colon)
    } else if c == ',' {
        Some(NASMTokenType::Comma)
    } else if c == '[' {
        Some(NASMTokenType::LeftBracket)
    } else if c == ']' {
        Some(NASMTokenType::RightBracket)
    } else if c == '+' {
        Some(NASMTokenType::Plus)
    } else if c == '-' {
        Some(NASMTokenType::Minus)
    } else if c == '*' {
        Some(NASMTokenType::Asterisk)
    } else if c == '/' {
        Some(NASMTokenType::Slash)
    } else if c == '~' {
        Some(NASMTokenType::BitNot)
    } else if c == '|' {
        Some(NASMTokenType::BitOr)
    } else if c == '^' {
        Some(NASMTokenType::BitXor)
    } else if c == '&' {
        Some(NASMTokenType::BitAnd)
    } else if c == '(' {
        Some(NASMTokenType::LeftParen)
    } else if c == ')' {
        Some(NASMTokenType::RightParen)
    } else if c == '\n' {
        Some(NASMTokenType::Newline)
    } else {
        None
    }
}

/// The characters of `s` from index `from` up to, not including, `to`.
pub fn slice_of(s: &Vec<char>, from: usize, to: usize) -> (w: Vec<char>)
    requires
        from <= to <= s.len(),
    ensures
        w@ == s@.subrange(from as int, to as int),
{
    let mut w: Vec<char> = Vec::new();
    let mut i: usize = from;
    while i < to
        invariant
            from <= i <= to <= s.len(),
            w@ == s@.subrange(from as int, i as int),
        decreases to - i,
    {
        w.push(s[i]);
        i += 1;
        assert(w@ =~= s@.subrange(from as int, i as int));
    }
    w
}

/// The index just after `word` where it stands in `s` at index `p`.
pub fn word_at(s: &Vec<char>, p: usize, word: &str) -> (e: Option<usize>)
    requires
        p <= s.len(),
    ensures
        match e {
            Some(e) => has_word_at(s@, p as int, word@) && e == p + word@.len(),
            None => !has_word_at(s@, p as int, word@),
        },
{
    let n = word.unicode_len();
    if s.len() - p < n {
        return None;
    }
    let found = slice_of(s, p, p + n);
    if text_is(&found, word) {
        Some(p + n)
    } else {
        None
    }
}

/// Where the string literal ends whose body starts at index `from` of `s`.
pub fn end_of_string(s: &Vec<char>, from: usize, quote: char) -> (e: Option<usize>)
    requires
        from <= s.len(),
    ensures
        match e {
            Some(e) => string_end(s@, from as int, quote) == Some(e as int) && from < e <= s.len(),
            None => string_end(s@, from as int, quote) is None,
        },
{
    let mut i: usize = from;
    while i < s.len()
        invariant
            from <= i <= s.len(),
            string_end(s@, from as int, quote) == string_end(s@, i as int, quote),
        decreases s.len() - i,
    {
        if s[i] == quote {
            return Some(i + 1);
        } else if s[i] == '\\' {
            if i + 1 < s.len() && s[i + 1] != '\n' {
                i += 2;
            } else {
                return None;
            }
        } else {
            i += 1;
        }
    }
    None
}

/// The directive that starts at index `p` of `s`.
fn directive(s: &Vec<char>, p: usize) -> (r: Option<(NASMTokenType, usize)>)
    requires
        p < s.len(),
    ensures
        match r {
            Some((ty, e)) => directive_at(s@, p as int) == Some((ty, e as int)) && p < e
                <= s.len(),
            None => directive_at(s@, p as int) is None,
        },
{
    proof {
        reveal_strlit("%include");
        reveal_strlit("%define");
        reveal_strlit("%macro");
        reveal_strlit("%endmacro");
    }
    match word_at(s, p, "%include") {
        Some(e) => {
            return Some((NASMTokenType::Include, e));
        },
        None => {},
    }
    match word_at(s, p, "%define") {
        Some(e) => {
            return Some((NASMTokenType::Define, e));
        },
        None => {},
    }
    match word_at(s, p, "%macro") {
        Some(e) => {
            return Some((NASMTokenType::Macro, e));
        },
        None => {},
    }
    match word_at(s, p, "%endmacro") {
        Some(e) => Some((NASMTokenType::EndMacro, e)),
        None => None,
    }
}

/// The token that starts at index `p` of `s`: its kind and the index just
/// after it.
pub fn scan_token(s: &Vec<char>, p: usize) -> (r: Option<(NASMTokenType, usize)>)
    requires
        p < s.len(),
    ensures
        match r {
            Some((ty, e)) => scan(s@, p as int) == Some((ty, e as int)) && p < e <= s.len(),
            None => scan(s@, p as int) is None,
        },
{
    let c = s[p];
    if starts_symbol(c) {
        let e = run(s, p + 1, CharClass::SymbolChar);
        let word = slice_of(s, p, e);
        Some((kind_of_word(&word), e))
    } else if CharClass::Digit.has(c) {
        Some((NASMTokenType::Number, run(s, p + 1, CharClass::Digit)))
    } else if c == '$' {
        let e = run(s, p + 1, CharClass::MacroChar);
        if e > p + 1 {
            Some((NASMTokenType::MacroCall, e))
        } else {
            Some((NASMTokenType::CurrentPosition, p + 1))
        }
    } else if c == '%' {
        let e = run(s, p + 1, CharClass::Digit);
        if e > p + 1 {
            Some((NASMTokenType::MacroArg, e))
        } else {
            directive(s, p)
        }
    } else if c == '"' || c == '\'' {
        match end_of_string(s, p + 1, c) {
            Some(e) => Some((NASMTokenType::String, e)),
            None => None,
        }
    } else if c == ';' {
        Some((NASMTokenType::Comment, run(s, p + 1, CharClass::NotNewline)))
    } else if CharClass::Blank.has(c) {
        Some((NASMTokenType::Whitespace, run(s, p + 1, CharClass::Blank)))
    } else {
        match punctuation_kind(c) {
            Some(ty) => Some((ty, p + 1)),
            None => None,
        }
    }
}

} // verus!
