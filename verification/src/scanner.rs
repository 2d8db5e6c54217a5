//! The scanner: deterministic single-pass tokenization of a source
//! text, one token per call.
//!
//! The functional model lives in the spec functions over `Seq<char>`:
//! `skip_ws` describes how whitespace and line comments are consumed,
//! `digits_end`, `ident_end` and `str_scan` describe where each lexeme
//! class ends, `keyword_lookup` is the reserved-word table, and
//! `spec_scan` combines them into the exact token every call returns.

use vstd::prelude::*;
use vstd::string::StrSliceExecFns;
use vstd::string::StringExecFns;

verus! {

/// One classified lexical unit.
pub struct Token {
    pub type_: TokenType,
    pub string: String,
    pub line: i32,
}

/// Every kind a token can have. `Error` carries a diagnostic message
/// in the token's text; `EoF` marks the end of the source.
#[derive(Clone, Copy, PartialEq, Eq, Structural, Debug)]
pub enum TokenType {
    // Single-character tokens
    LeftParen,
    RightParen,
    LeftBrace,
    RightBrace,
    Comma,
    Dot,
    Minus,
    Plus,
    Semicolon,
    Slash,
    Star,
    // One or two character tokens
    Bang,
    BangEqual,
    Equal,
    EqualEqual,
    Greater,
    GreaterEqual,
    Less,
    LessEqual,
    // Literals
    Identifier,
    Str,
    Number,
    // Keywords
    And,
    Class,
    Else,
    False,
    For,
    Fun,
    If,
    Nil,
    Or,
    Print,
    Return,
    Super,
    This,
    True,
    Var,
    While,
    Error,
    EoF,
}

/// The numeric code of a token kind, in declaration order; the token
/// trace prints this code.
pub open spec fn type_code(t: TokenType) -> usize {
    match t {
        TokenType::LeftParen => 0,
        TokenType::RightParen => 1,
        TokenType::LeftBrace => 2,
        TokenType::RightBrace => 3,
        TokenType::Comma => 4,
        TokenType::Dot => 5,
        TokenType::Minus => 6,
        TokenType::Plus => 7,
        TokenType::Semicolon => 8,
        TokenType::Slash => 9,
        TokenType::Star => 10,
        TokenType::Bang => 11,
        TokenType::BangEqual => 12,
        TokenType::Equal => 13,
        TokenType::EqualEqual => 14,
        TokenType::Greater => 15,
        TokenType::GreaterEqual => 16,
        TokenType::Less => 17,
        TokenType::LessEqual => 18,
        TokenType::Identifier => 19,
        TokenType::Str => 20,
        TokenType::Number => 21,
        TokenType::And => 22,
        TokenType::Class => 23,
        TokenType::Else => 24,
        TokenType::False => 25,
        TokenType::For => 26,
        TokenType::Fun => 27,
        TokenType::If => 28,
        TokenType::Nil => 29,
        TokenType::Or => 30,
        TokenType::Print => 31,
        TokenType::Return => 32,
        TokenType::Super => 33,
        TokenType::This => 34,
        TokenType::True => 35,
        TokenType::Var => 36,
        TokenType::While => 37,
        TokenType::Error => 38,
        TokenType::EoF => 39,
    }
}

/// Returns the numeric code of a token kind.
pub fn token_type_code(t: TokenType) -> (n: usize)
    ensures
        n == type_code(t),
{
    match t {
        TokenType::LeftParen => 0,
        TokenType::RightParen => 1,
        TokenType::LeftBrace => 2,
        TokenType::RightBrace => 3,
        TokenType::Comma => 4,
        TokenType::Dot => 5,
        TokenType::Minus => 6,
        TokenType::Plus => 7,
        TokenType::Semicolon => 8,
        TokenType::Slash => 9,
        TokenType::Star => 10,
        TokenType::Bang => 11,
        TokenType::BangEqual => 12,
        TokenType::Equal => 13,
        TokenType::EqualEqual => 14,
        TokenType::Greater => 15,
        TokenType::GreaterEqual => 16,
        TokenType::Less => 17,
        TokenType::LessEqual => 18,
        TokenType::Identifier => 19,
        TokenType::Str => 20,
        TokenType::Number => 21,
        TokenType::And => 22,
        TokenType::Class => 23,
        TokenType::Else => 24,
        TokenType::False => 25,
        TokenType::For => 26,
        TokenType::Fun => 27,
        TokenType::If => 28,
        TokenType::Nil => 29,
        TokenType::Or => 30,
        TokenType::Print => 31,
        TokenType::Return => 32,
        TokenType::Super => 33,
        TokenType::This => 34,
        TokenType::True => 35,
        TokenType::Var => 36,
        TokenType::While => 37,
        TokenType::Error => 38,
        TokenType::EoF => 39,
    }
}

/// A decimal digit.
pub open spec fn is_digit_char(c: char) -> bool {
    48 <= c as u32 && c as u32 <= 57
}

/// A letter or an underscore: what may start an identifier.
pub open spec fn is_alpha_char(c: char) -> bool {
    (65 <= c as u32 && c as u32 <= 90) || (97 <= c as u32 && c as u32 <= 122) || c == '_'
}

/// What may continue an identifier.
pub open spec fn is_alnum_char(c: char) -> bool {
    is_alpha_char(c) || is_digit_char(c)
}

/// Whitespace the scanner skips between tokens.
pub open spec fn is_space_char(c: char) -> bool {
    c == ' ' || c == '\t' || c == '\r' || c == '\n'
}

/// The character at an index, or the null character past either end.
pub open spec fn char_at(src: Seq<char>, i: int) -> char {
    if 0 <= i < src.len() {
        src[i]
    } else {
        '\0'
    }
}

/// The index just past a line comment that starts before `i`: the
/// first newline at or after `i`, or the end of the source.
pub open spec fn comment_end(src: Seq<char>, i: int) -> int
    decreases src.len() - i,
{
    if i >= src.len() {
        i
    } else if src[i] == '\n' {
        i
    } else {
        comment_end(src, i + 1)
    }
}

pub proof fn lemma_comment_end(src: Seq<char>, i: int)
    ensures
        comment_end(src, i) >= i,
        i <= src.len() ==> comment_end(src, i) <= src.len(),
    decreases src.len() - i,
{
    if i >= src.len() || src[i] == '\n' {
    } else {
        lemma_comment_end(src, i + 1);
    }
}

/// The cursor and line counter after skipping whitespace and line
/// comments from a position.
pub open spec fn skip_ws(src: Seq<char>, pos: int, line: int) -> (int, int)
    decreases src.len() - pos,
        via skip_ws_dec
{
    if pos < 0 || pos >= src.len() {
        (pos, line)
    } else {
        let c = src[pos];
        if c == ' ' || c == '\t' || c == '\r' {
            skip_ws(src, pos + 1, line)
        } else if c == '\n' {
            skip_ws(src, pos + 1, line + 1)
        } else if c == '/' && pos + 1 < src.len() && src[pos + 1] == '/' {
            skip_ws(src, comment_end(src, pos + 2), line)
        } else {
            (pos, line)
        }
    }
}

#[via_fn]
proof fn skip_ws_dec(src: Seq<char>, pos: int, line: int) {
    if 0 <= pos < src.len() {
        lemma_comment_end(src, pos + 2);
    }
}

pub proof fn lemma_skip_ws(src: Seq<char>, pos: int, line: int)
    requires
        0 <= pos <= src.len(),
        1 <= line <= 1 + pos,
    ensures
        pos <= skip_ws(src, pos, line).0 <= src.len(),
        1 <= line <= skip_ws(src, pos, line).1 <= 1 + skip_ws(src, pos, line).0,
    decreases src.len() - pos,
{
    if 0 <= pos < src.len() {
        let c = src[pos];
        if c == ' ' || c == '\t' || c == '\r' {
            lemma_skip_ws(src, pos + 1, line);
        } else if c == '\n' {
            lemma_skip_ws(src, pos + 1, line + 1);
        } else if c == '/' && pos + 1 < src.len() && src[pos + 1] == '/' {
            lemma_comment_end(src, pos + 2);
            lemma_skip_ws(src, comment_end(src, pos + 2), line);
        }
    }
}

/// The first index at or after `i` that does not hold a digit.
pub open spec fn digits_end(src: Seq<char>, i: int) -> int
    decreases src.len() - i,
{
    if i < 0 || i >= src.len() {
        i
    } else if is_digit_char(src[i]) {
        digits_end(src, i + 1)
    } else {
        i
    }
}

pub proof fn lemma_digits_end(src: Seq<char>, i: int)
    requires
        0 <= i <= src.len(),
    ensures
        i <= digits_end(src, i) <= src.len(),
    decreases src.len() - i,
{
    if i < src.len() && is_digit_char(src[i]) {
        lemma_digits_end(src, i + 1);
    }
}

/// Where a number lexeme that starts at `i` ends: the integer part,
/// then one fractional part if a dot is followed by a digit.
pub open spec fn number_end(src: Seq<char>, i: int) -> int {
    let d = digits_end(src, i);
    if d < src.len() && src[d] == '.' && d + 1 < src.len() && is_digit_char(src[d + 1]) {
        digits_end(src, d + 1)
    } else {
        d
    }
}

/// The first index at or after `i` that cannot continue an identifier.
pub open spec fn ident_end(src: Seq<char>, i: int) -> int
    decreases src.len() - i,
{
    if i < 0 || i >= src.len() {
        i
    } else if is_alnum_char(src[i]) {
        ident_end(src, i + 1)
    } else {
        i
    }
}

pub proof fn lemma_ident_end(src: Seq<char>, i: int)
    requires
        0 <= i <= src.len(),
    ensures
        i <= ident_end(src, i) <= src.len(),
    decreases src.len() - i,
{
    if i < src.len() && is_alnum_char(src[i]) {
        lemma_ident_end(src, i + 1);
    }
}

/// Scans a string literal's body from `i` (just past the opening
/// quote): whether a closing quote was found, the cursor after the
/// lexeme, and the line counter after it.
pub open spec fn str_scan(src: Seq<char>, i: int, line: int) -> (bool, int, int)
    decreases src.len() - i,
{
    if i < 0 || i >= src.len() {
        (false, i, line)
    } else if src[i] == '"' {
        (true, i + 1, line)
    } else if src[i] == '\n' {
        str_scan(src, i + 1, line + 1)
    } else {
        str_scan(src, i + 1, line)
    }
}

pub proof fn lemma_str_scan(src: Seq<char>, i: int, line: int)
    requires
        0 <= i <= src.len(),
        1 <= line <= 1 + i,
    ensures
        i <= str_scan(src, i, line).1 <= src.len(),
        1 <= line <= str_scan(src, i, line).2 <= 1 + str_scan(src, i, line).1,
    decreases src.len() - i,
{
    if 0 <= i < src.len() && src[i] != '"' {
        if src[i] == '\n' {
            lemma_str_scan(src, i + 1, line + 1);
        } else {
            lemma_str_scan(src, i + 1, line);
        }
    }
}

/// The reserved-word table: the keyword kind of an identifier-shaped
/// lexeme, or `Identifier` when it matches no reserved word exactly.
pub open spec fn keyword_lookup(t: Seq<char>) -> TokenType {
    if t == seq!['a', 'n', 'd'] {
        TokenType::And
    } else if t == seq!['c', 'l', 'a', 's', 's'] {
        TokenType::Class
    } else if t == seq!['e', 'l', 's', 'e'] {
        TokenType::Else
    } else if t == seq!['f', 'a', 'l', 's', 'e'] {
        TokenType::False
    } else if t == seq!['f', 'o', 'r'] {
        TokenType::For
    } else if t == seq!['f', 'u', 'n'] {
        TokenType::Fun
    } else if t == seq!['i', 'f'] {
        TokenType::If
    } else if t == seq!['n', 'i', 'l'] {
        TokenType::Nil
    } else if t == seq!['o', 'r'] {
        TokenType::Or
    } else if t == seq!['p', 'r', 'i', 'n', 't'] {
        TokenType::Print
    } else if t == seq!['r', 'e', 't', 'u', 'r', 'n'] {
        TokenType::Return
    } else if t == seq!['s', 'u', 'p', 'e', 'r'] {
        TokenType::Super
    } else if t == seq!['t', 'h', 'i', 's'] {
        TokenType::This
    } else if t == seq!['t', 'r', 'u', 'e'] {
        TokenType::True
    } else if t == seq!['v', 'a', 'r'] {
        TokenType::Var
    } else if t == seq!['w', 'h', 'i', 'l', 'e'] {
        TokenType::While
    } else {
        TokenType::Identifier
    }
}


/// How the reserved-word table reads once an identifier's first one
/// or two characters are known: the remaining characters decide
/// between exactly one keyword and a plain identifier.
proof fn lemma_keyword_dispatch(lex: Seq<char>)
    requires
        lex.len() >= 1,
    ensures
        lex[0] == 'a' ==> keyword_lookup(lex) == (if lex.skip(1) == "nd"@ {
            TokenType::And
        } else {
            TokenType::Identifier
        }),
        lex[0] == 'c' ==> keyword_lookup(lex) == (if lex.skip(1) == "lass"@ {
            TokenType::Class
        } else {
            TokenType::Identifier
        }),
        lex[0] == 'e' ==> keyword_lookup(lex) == (if lex.skip(1) == "lse"@ {
            TokenType::Else
        } else {
            TokenType::Identifier
        }),
        lex[0] == 'f' && lex.len() < 2 ==> keyword_lookup(lex) == TokenType::Identifier,
        lex[0] == 'f' && lex.len() >= 2 && lex[1] == 'a' ==> keyword_lookup(lex) == (if lex.skip(2)
            == "lse"@ {
            TokenType::False
        } else {
            TokenType::Identifier
        }),
        lex[0] == 'f' && lex.len() >= 2 && lex[1] == 'o' ==> keyword_lookup(lex) == (if lex.skip(2)
            == "r"@ {
            TokenType::For
        } else {
            TokenType::Identifier
        }),
        lex[0] == 'f' && lex.len() >= 2 && lex[1] == 'u' ==> keyword_lookup(lex) == (if lex.skip(2)
            == "n"@ {
            TokenType::Fun
        } else {
            TokenType::Identifier
        }),
        lex[0] == 'f' && lex.len() >= 2 && lex[1] != 'a' && lex[1] != 'o' && lex[1] != 'u'
            ==> keyword_lookup(lex) == TokenType::Identifier,
        lex[0] == 'i' ==> keyword_lookup(lex) == (if lex.skip(1) == "f"@ {
            TokenType::If
        } else {
            TokenType::Identifier
        }),
        lex[0] == 'n' ==> keyword_lookup(lex) == (if lex.skip(1) == "il"@ {
            TokenType::Nil
        } else {
            TokenType::Identifier
        }),
        lex[0] == 'o' ==> keyword_lookup(lex) == (if lex.skip(1) == "r"@ {
            TokenType::Or
        } else {
            TokenType::Identifier
        }),
        lex[0] == 'p' ==> keyword_lookup(lex) == (if lex.skip(1) == "rint"@ {
            TokenType::Print
        } else {
            TokenType::Identifier
        }),
        lex[0] == 'r' ==> keyword_lookup(lex) == (if lex.skip(1) == "eturn"@ {
            TokenType::Return
        } else {
            TokenType::Identifier
        }),
        lex[0] == 's' ==> keyword_lookup(lex) == (if lex.skip(1) == "uper"@ {
            TokenType::Super
        } else {
            TokenType::Identifier
        }),
        lex[0] == 't' && lex.len() < 2 ==> keyword_lookup(lex) == TokenType::Identifier,
        lex[0] == 't' && lex.len() >= 2 && lex[1] == 'h' ==> keyword_lookup(lex) == (if lex.skip(2)
            == "is"@ {
            TokenType::This
        } else {
            TokenType::Identifier
        }),
        lex[0] == 't' && lex.len() >= 2 && lex[1] == 'r' ==> keyword_lookup(lex) == (if lex.skip(2)
            == "ue"@ {
            TokenType::True
        } else {
            TokenType::Identifier
        }),
        lex[0] == 't' && lex.len() >= 2 && lex[1] != 'h' && lex[1] != 'r' ==> keyword_lookup(lex)
            == TokenType::Identifier,
        lex[0] == 'v' ==> keyword_lookup(lex) == (if lex.skip(1) == "ar"@ {
            TokenType::Var
        } else {
            TokenType::Identifier
        }),
        lex[0] == 'w' ==> keyword_lookup(lex) == (if lex.skip(1) == "hile"@ {
            TokenType::While
        } else {
            TokenType::Identifier
        }),
        lex[0] != 'a' && lex[0] != 'c' && lex[0] != 'e' && lex[0] != 'f' && lex[0] != 'i' && lex[0]
            != 'n' && lex[0] != 'o' && lex[0] != 'p' && lex[0] != 'r' && lex[0] != 's' && lex[0]
            != 't' && lex[0] != 'v' && lex[0] != 'w' ==> keyword_lookup(lex)
            == TokenType::Identifier,
{
    reveal_strlit("nd");
    reveal_strlit("lass");
    reveal_strlit("lse");
    reveal_strlit("r");
    reveal_strlit("n");
    reveal_strlit("f");
    reveal_strlit("il");
    reveal_strlit("rint");
    reveal_strlit("eturn");
    reveal_strlit("uper");
    reveal_strlit("is");
    reveal_strlit("ue");
    reveal_strlit("ar");
    reveal_strlit("hile");
    assert("nd"@ =~= seq!['n', 'd']);
    assert("lass"@ =~= seq!['l', 'a', 's', 's']);
    assert("lse"@ =~= seq!['l', 's', 'e']);
    assert("r"@ =~= seq!['r']);
    assert("n"@ =~= seq!['n']);
    assert("f"@ =~= seq!['f']);
    assert("il"@ =~= seq!['i', 'l']);
    assert("rint"@ =~= seq!['r', 'i', 'n', 't']);
    assert("eturn"@ =~= seq!['e', 't', 'u', 'r', 'n']);
    assert("uper"@ =~= seq!['u', 'p', 'e', 'r']);
    assert("is"@ =~= seq!['i', 's']);
    assert("ue"@ =~= seq!['u', 'e']);
    assert("ar"@ =~= seq!['a', 'r']);
    assert("hile"@ =~= seq!['h', 'i', 'l', 'e']);
    assert(seq!['a', 'n', 'd'][0] == 'a');
    assert(seq!['a', 'n', 'd'].skip(1) =~= "nd"@);
    assert(seq!['c', 'l', 'a', 's', 's'][0] == 'c');
    assert(seq!['c', 'l', 'a', 's', 's'].skip(1) =~= "lass"@);
    assert(seq!['e', 'l', 's', 'e'][0] == 'e');
    assert(seq!['e', 'l', 's', 'e'].skip(1) =~= "lse"@);
    assert(seq!['f', 'a', 'l', 's', 'e'][0] == 'f');
    assert(seq!['f', 'a', 'l', 's', 'e'][1] == 'a');
    assert(seq!['f', 'a', 'l', 's', 'e'].skip(2) =~= "lse"@);
    assert(seq!['f', 'o', 'r'][0] == 'f');
    assert(seq!['f', 'o', 'r'][1] == 'o');
    assert(seq!['f', 'o', 'r'].skip(2) =~= "r"@);
    assert(seq!['f', 'u', 'n'][0] == 'f');
    assert(seq!['f', 'u', 'n'][1] == 'u');
    assert(seq!['f', 'u', 'n'].skip(2) =~= "n"@);
    assert(seq!['i', 'f'][0] == 'i');
    assert(seq!['i', 'f'].skip(1) =~= "f"@);
    assert(seq!['n', 'i', 'l'][0] == 'n');
    assert(seq!['n', 'i', 'l'].skip(1) =~= "il"@);
    assert(seq!['o', 'r'][0] == 'o');
    assert(seq!['o', 'r'].skip(1) =~= "r"@);
    assert(seq!['p', 'r', 'i', 'n', 't'][0] == 'p');
    assert(seq!['p', 'r', 'i', 'n', 't'].skip(1) =~= "rint"@);
    assert(seq!['r', 'e', 't', 'u', 'r', 'n'][0] == 'r');
    assert(seq!['r', 'e', 't', 'u', 'r', 'n'].skip(1) =~= "eturn"@);
    assert(seq!['s', 'u', 'p', 'e', 'r'][0] == 's');
    assert(seq!['s', 'u', 'p', 'e', 'r'].skip(1) =~= "uper"@);
    assert(seq!['t', 'h', 'i', 's'][0] == 't');
    assert(seq!['t', 'h', 'i', 's'][1] == 'h');
    assert(seq!['t', 'h', 'i', 's'].skip(2) =~= "is"@);
    assert(seq!['t', 'r', 'u', 'e'][0] == 't');
    assert(seq!['t', 'r', 'u', 'e'][1] == 'r');
    assert(seq!['t', 'r', 'u', 'e'].skip(2) =~= "ue"@);
    assert(seq!['v', 'a', 'r'][0] == 'v');
    assert(seq!['v', 'a', 'r'].skip(1) =~= "ar"@);
    assert(seq!['w', 'h', 'i', 'l', 'e'][0] == 'w');
    assert(seq!['w', 'h', 'i', 'l', 'e'].skip(1) =~= "hile"@);
    lemma_tail_eq(lex, seq!['a', 'n', 'd'], 1);
    lemma_tail_eq(lex, seq!['c', 'l', 'a', 's', 's'], 1);
    lemma_tail_eq(lex, seq!['e', 'l', 's', 'e'], 1);
    lemma_tail_eq(lex, seq!['f', 'a', 'l', 's', 'e'], 2);
    lemma_tail_eq(lex, seq!['f', 'o', 'r'], 2);
    lemma_tail_eq(lex, seq!['f', 'u', 'n'], 2);
    lemma_tail_eq(lex, seq!['i', 'f'], 1);
    lemma_tail_eq(lex, seq!['n', 'i', 'l'], 1);
    lemma_tail_eq(lex, seq!['o', 'r'], 1);
    lemma_tail_eq(lex, seq!['p', 'r', 'i', 'n', 't'], 1);
    lemma_tail_eq(lex, seq!['r', 'e', 't', 'u', 'r', 'n'], 1);
    lemma_tail_eq(lex, seq!['s', 'u', 'p', 'e', 'r'], 1);
    lemma_tail_eq(lex, seq!['t', 'h', 'i', 's'], 2);
    lemma_tail_eq(lex, seq!['t', 'r', 'u', 'e'], 2);
    lemma_tail_eq(lex, seq!['v', 'a', 'r'], 1);
    lemma_tail_eq(lex, seq!['w', 'h', 'i', 'l', 'e'], 1);
}

/// A sequence equals a reference word exactly when its first `n`
/// characters do and the rest does.
proof fn lemma_tail_eq(lex: Seq<char>, kw: Seq<char>, n: int)
    requires
        0 < n <= kw.len(),
    ensures
        (lex == kw) <==> (lex.len() >= n && (forall|j: int| 0 <= j < n ==> lex[j] == kw[j])
            && lex.skip(n) == kw.skip(n)),
{
    if lex.len() >= n && (forall|j: int| 0 <= j < n ==> lex[j] == kw[j]) && lex.skip(n) == kw.skip(
        n,
    ) {
        assert(lex =~= kw) by {
            assert(lex.skip(n).len() == kw.skip(n).len());
            assert(forall|j: int|
                n <= j < lex.len() ==> lex[j] == lex.skip(n)[j - n] && kw[j] == kw.skip(n)[j - n]);
        }
    }
    if lex == kw {
        assert(lex.skip(n) =~= kw.skip(n));
    }
}

/// What one call to `scan_token` does, as a function of the source,
/// the cursor and the line counter: the token's kind, text and line,
/// and the scanner's cursor and line counter after the call (the
/// token's line always equals the line counter after the call).
pub ghost struct ScanStep {
    pub kind: TokenType,
    pub text: Seq<char>,
    pub line: int,
    pub end: int,
}

/// The token scanned at a position, with the cursor and line counter
/// it leaves behind.
pub open spec fn spec_scan(src: Seq<char>, pos: int, line: int) -> ScanStep {
    let p = skip_ws(src, pos, line).0;
    let l = skip_ws(src, pos, line).1;
    if p >= src.len() {
        ScanStep { kind: TokenType::EoF, text: Seq::empty(), line: l, end: p }
    } else {
        let c = src[p];
        if is_digit_char(c) {
            let e = number_end(src, p);
            ScanStep { kind: TokenType::Number, text: src.subrange(p, e), line: l, end: e }
        } else if is_alpha_char(c) {
            let e = ident_end(src, p);
            ScanStep {
                kind: keyword_lookup(src.subrange(p, e)),
                text: src.subrange(p, e),
                line: l,
                end: e,
            }
        } else if c == '(' {
            single_step(src, p, l, TokenType::LeftParen)
        } else if c == ')' {
            single_step(src, p, l, TokenType::RightParen)
        } else if c == '{' {
            single_step(src, p, l, TokenType::LeftBrace)
        } else if c == '}' {
            single_step(src, p, l, TokenType::RightBrace)
        } else if c == ';' {
            single_step(src, p, l, TokenType::Semicolon)
        } else if c == ',' {
            single_step(src, p, l, TokenType::Comma)
        } else if c == '.' {
            single_step(src, p, l, TokenType::Dot)
        } else if c == '-' {
            single_step(src, p, l, TokenType::Minus)
        } else if c == '+' {
            single_step(src, p, l, TokenType::Plus)
        } else if c == '/' {
            single_step(src, p, l, TokenType::Slash)
        } else if c == '*' {
            single_step(src, p, l, TokenType::Star)
        } else if c == '!' {
            double_step(src, p, l, TokenType::BangEqual, TokenType::Bang)
        } else if c == '=' {
            double_step(src, p, l, TokenType::EqualEqual, TokenType::Equal)
        } else if c == '>' {
            double_step(src, p, l, TokenType::GreaterEqual, TokenType::Greater)
        } else if c == '<' {
            double_step(src, p, l, TokenType::LessEqual, TokenType::Less)
        } else if c == '"' {
            let closed = str_scan(src, p + 1, l).0;
            let e = str_scan(src, p + 1, l).1;
            let l2 = str_scan(src, p + 1, l).2;
            if closed {
                ScanStep { kind: TokenType::Str, text: src.subrange(p, e), line: l2, end: e }
            } else {
                ScanStep { kind: TokenType::Error, text: "Unterminated string."@, line: l2, end: e }
            }
        } else {
            ScanStep { kind: TokenType::Error, text: "Unexpected character."@, line: l, end: p + 1 }
        }
    }
}

/// A one-character token at `p`.
pub open spec fn single_step(src: Seq<char>, p: int, l: int, kind: TokenType) -> ScanStep {
    ScanStep { kind: kind, text: src.subrange(p, p + 1), line: l, end: p + 1 }
}

/// A one-or-two-character operator at `p`: the two-character kind when
/// an equals sign follows, the one-character kind otherwise.
pub open spec fn double_step(
    src: Seq<char>,
    p: int,
    l: int,
    with_eq: TokenType,
    without: TokenType,
) -> ScanStep {
    if p + 1 < src.len() && src[p + 1] == '=' {
        ScanStep { kind: with_eq, text: src.subrange(p, p + 2), line: l, end: p + 2 }
    } else {
        ScanStep { kind: without, text: src.subrange(p, p + 1), line: l, end: p + 1 }
    }
}



/// What the scanner's invariant guarantees to callers: the cursor
/// stays within the source and the line counter starts at one and
/// cannot outrun the cursor.
pub proof fn lemma_scanner_wf(s: &Scanner)
    requires
        s.wf(),
    ensures
        0 <= s.pos() <= s.src().len(),
        1 <= s.line_no() <= 1 + s.pos(),
{
}

/// Tests a character for the digit class the scanner uses.
pub fn is_digit(c: char) -> (b: bool)
    ensures
        b == is_digit_char(c),
{
    let u = c as u32;
    48 <= u && u <= 57
}

/// Tests a character for the identifier-start class the scanner uses.
pub fn is_alpha(c: char) -> (b: bool)
    ensures
        b == is_alpha_char(c),
{
    let u = c as u32;
    (65 <= u && u <= 90) || (97 <= u && u <= 122) || c == '_'
}

/// Tests a character for the identifier-continuation class.
pub fn is_alnum(c: char) -> (b: bool)
    ensures
        b == is_alnum_char(c),
{
    is_alpha(c) || is_digit(c)
}



proof fn lemma_skip_ws_pos(src: Seq<char>, pos: int, line: int)
    requires
        0 <= pos,
    ensures
        pos <= skip_ws(src, pos, line).0,
        pos <= src.len() ==> skip_ws(src, pos, line).0 <= src.len(),
    decreases src.len() - pos,
{
    if 0 <= pos < src.len() {
        let c = src[pos];
        if c == ' ' || c == '\t' || c == '\r' {
            lemma_skip_ws_pos(src, pos + 1, line);
        } else if c == '\n' {
            lemma_skip_ws_pos(src, pos + 1, line + 1);
        } else if c == '/' && pos + 1 < src.len() && src[pos + 1] == '/' {
            lemma_comment_end(src, pos + 2);
            lemma_skip_ws_pos(src, comment_end(src, pos + 2), line);
        }
    }
}

proof fn lemma_str_scan_pos(src: Seq<char>, i: int, line: int)
    requires
        0 <= i,
    ensures
        i <= str_scan(src, i, line).1,
        i <= src.len() ==> str_scan(src, i, line).1 <= src.len(),
    decreases src.len() - i,
{
    if 0 <= i < src.len() && src[i] != '"' {
        if src[i] == '\n' {
            lemma_str_scan_pos(src, i + 1, line + 1);
        } else {
            lemma_str_scan_pos(src, i + 1, line);
        }
    }
}

/// Every token but the end-of-file sentinel consumes at least one
/// character, and no token reads past the end of the source.
pub proof fn lemma_scan_bounds(src: Seq<char>, pos: int, line: int)
    requires
        0 <= pos,
    ensures
        spec_scan(src, pos, line).kind != TokenType::EoF ==> pos < spec_scan(src, pos, line).end
            <= src.len(),
        spec_scan(src, pos, line).kind == TokenType::EoF ==> spec_scan(src, pos, line).end >= pos,
{
    lemma_skip_ws_pos(src, pos, line);
    let p = skip_ws(src, pos, line).0;
    let l = skip_ws(src, pos, line).1;
    if pos <= src.len() && p < src.len() {
        let c = src[p];
        if is_digit_char(c) {
            assert(digits_end(src, p) == digits_end(src, p + 1));
            lemma_digits_end(src, p + 1);
            let d = digits_end(src, p);
            if d < src.len() && src[d] == '.' && d + 1 < src.len() && is_digit_char(src[d + 1]) {
                lemma_digits_end(src, d + 1);
            }
        } else if is_alpha_char(c) {
            assert(ident_end(src, p) == ident_end(src, p + 1));
            lemma_ident_end(src, p + 1);
        } else if c == '"' {
            lemma_str_scan_pos(src, p + 1, l);
        }
    }
}

/// Source text that holds nothing but whitespace and line comments
/// from position `i` on.
pub open spec fn blank_from(src: Seq<char>, i: int) -> bool
    decreases src.len() - i,
        via blank_from_dec
{
    if i < 0 || i >= src.len() {
        true
    } else if is_space_char(src[i]) {
        blank_from(src, i + 1)
    } else if src[i] == '/' && i + 1 < src.len() && src[i + 1] == '/' {
        blank_from(src, comment_end(src, i + 2))
    } else {
        false
    }
}

#[via_fn]
proof fn blank_from_dec(src: Seq<char>, i: int) {
    if 0 <= i < src.len() {
        lemma_comment_end(src, i + 2);
    }
}

/// Source text that holds nothing but whitespace and line comments.
pub open spec fn blank_text(src: Seq<char>) -> bool {
    blank_from(src, 0)
}

proof fn lemma_blank_skip(src: Seq<char>, pos: int, line: int)
    requires
        0 <= pos <= src.len(),
        blank_from(src, pos),
    ensures
        skip_ws(src, pos, line).0 == src.len(),
    decreases src.len() - pos,
{
    if pos < src.len() {
        let c = src[pos];
        if c == ' ' || c == '\t' || c == '\r' {
            lemma_blank_skip(src, pos + 1, line);
        } else if c == '\n' {
            lemma_blank_skip(src, pos + 1, line + 1);
        } else {
            lemma_comment_end(src, pos + 2);
            lemma_blank_skip(src, comment_end(src, pos + 2), line);
        }
    }
}

/// A source text of nothing but whitespace and comments scans to
/// exactly one token: the end-of-file sentinel, with an empty lexeme,
/// and every later scan stays at the end of the file.
pub proof fn lemma_blank_scans_to_eof(src: Seq<char>)
    requires
        blank_text(src),
    ensures
        spec_scan(src, 0, 1).kind == TokenType::EoF,
        spec_scan(src, 0, 1).text == Seq::<char>::empty(),
        spec_scan(src, 0, 1).end == src.len(),
        forall|l: int| spec_scan(src, src.len() as int, l).kind == TokenType::EoF,
{
    lemma_blank_skip(src, 0, 1);
}

/// A nonempty run of decimal digits.
pub open spec fn all_digits(s: Seq<char>) -> bool {
    s.len() > 0 && forall|i: int| 0 <= i < s.len() ==> is_digit_char(s[i])
}

/// A valid numeric literal: an integer part, optionally followed by a
/// dot and a fractional part.
pub open spec fn is_number_text(s: Seq<char>) -> bool {
    all_digits(s) || exists|j: int|
        0 < j && j + 1 < s.len() && s[j] == '.' && all_digits(#[trigger] s.subrange(0, j))
            && all_digits(s.subrange(j + 1, s.len() as int))
}

proof fn lemma_digits_run(src: Seq<char>, i: int, k: int)
    requires
        0 <= i <= k <= src.len(),
        forall|j: int| i <= j < k ==> is_digit_char(src[j]),
        k == src.len() || !is_digit_char(src[k]),
    ensures
        digits_end(src, i) == k,
    decreases k - i,
{
    if i < k {
        lemma_digits_run(src, i + 1, k);
    }
}

/// Scanning a source text that is exactly one valid numeric literal
/// yields a single `Number` token whose lexeme is the literal,
/// verbatim and whole.
pub proof fn lemma_number_literal_scans_whole(s: Seq<char>)
    requires
        is_number_text(s),
    ensures
        spec_scan(s, 0, 1).kind == TokenType::Number,
        spec_scan(s, 0, 1).text == s,
        spec_scan(s, 0, 1).line == 1,
        spec_scan(s, 0, 1).end == s.len(),
{
    if all_digits(s) {
        assert(is_digit_char(s[0]));
        assert(skip_ws(s, 0, 1) == (0int, 1int));
        lemma_digits_run(s, 0, s.len() as int);
        assert(number_end(s, 0) == s.len());
    } else {
        let j = choose|j: int|
            0 < j && j + 1 < s.len() && s[j] == '.' && all_digits(#[trigger] s.subrange(0, j))
                && all_digits(s.subrange(j + 1, s.len() as int));
        assert(forall|i: int| 0 <= i < j ==> s[i] == s.subrange(0, j)[i]);
        assert(forall|i: int|
            j + 1 <= i < s.len() ==> s[i] == s.subrange(j + 1, s.len() as int)[i - (j + 1)]);
        assert(is_digit_char(s[0]));
        assert(skip_ws(s, 0, 1) == (0int, 1int));
        assert(!is_digit_char(s[j]));
        lemma_digits_run(s, 0, j);
        lemma_digits_run(s, j + 1, s.len() as int);
        assert(number_end(s, 0) == s.len());
    }
    assert(spec_scan(s, 0, 1).text =~= s);
}

/// An identifier-shaped lexeme: a letter or underscore, then letters,
/// digits and underscores.
pub open spec fn is_identifier_text(s: Seq<char>) -> bool {
    s.len() > 0 && is_alpha_char(s[0]) && forall|i: int| 0 <= i < s.len() ==> is_alnum_char(s[i])
}

proof fn lemma_alnum_run(src: Seq<char>, i: int, k: int)
    requires
        0 <= i <= k <= src.len(),
        forall|j: int| i <= j < k ==> is_alnum_char(src[j]),
        k == src.len() || !is_alnum_char(src[k]),
    ensures
        ident_end(src, i) == k,
    decreases k - i,
{
    if i < k {
        lemma_alnum_run(src, i + 1, k);
    }
}

/// Scanning a source text that is exactly one identifier-shaped
/// lexeme yields one token covering the whole text, classified by the
/// reserved-word table: the keyword's kind on an exact match, and
/// `Identifier` otherwise.
pub proof fn lemma_identifier_scans_whole(s: Seq<char>)
    requires
        is_identifier_text(s),
    ensures
        spec_scan(s, 0, 1).kind == keyword_lookup(s),
        spec_scan(s, 0, 1).text == s,
        spec_scan(s, 0, 1).line == 1,
        spec_scan(s, 0, 1).end == s.len(),
{
    assert(skip_ws(s, 0, 1) == (0int, 1int));
    lemma_alnum_run(s, 0, s.len() as int);
    assert(spec_scan(s, 0, 1).text =~= s);
}

/// The reserved words, spelled as string literals, and the kind each
/// one scans to.
pub proof fn lemma_reserved_words()
    ensures
        keyword_lookup("and"@) == TokenType::And,
        keyword_lookup("class"@) == TokenType::Class,
        keyword_lookup("else"@) == TokenType::Else,
        keyword_lookup("false"@) == TokenType::False,
        keyword_lookup("for"@) == TokenType::For,
        keyword_lookup("fun"@) == TokenType::Fun,
        keyword_lookup("if"@) == TokenType::If,
        keyword_lookup("nil"@) == TokenType::Nil,
        keyword_lookup("or"@) == TokenType::Or,
        keyword_lookup("print"@) == TokenType::Print,
        keyword_lookup("return"@) == TokenType::Return,
        keyword_lookup("super"@) == TokenType::Super,
        keyword_lookup("this"@) == TokenType::This,
        keyword_lookup("true"@) == TokenType::True,
        keyword_lookup("var"@) == TokenType::Var,
        keyword_lookup("while"@) == TokenType::While,
{
    reveal_strlit("and");
    reveal_strlit("class");
    reveal_strlit("else");
    reveal_strlit("false");
    reveal_strlit("for");
    reveal_strlit("fun");
    reveal_strlit("if");
    reveal_strlit("nil");
    reveal_strlit("or");
    reveal_strlit("print");
    reveal_strlit("return");
    reveal_strlit("super");
    reveal_strlit("this");
    reveal_strlit("true");
    reveal_strlit("var");
    reveal_strlit("while");
    assert("and"@ =~= seq!['a', 'n', 'd']);
    assert("class"@ =~= seq!['c', 'l', 'a', 's', 's']);
    assert("else"@ =~= seq!['e', 'l', 's', 'e']);
    assert("false"@ =~= seq!['f', 'a', 'l', 's', 'e']);
    assert("for"@ =~= seq!['f', 'o', 'r']);
    assert("fun"@ =~= seq!['f', 'u', 'n']);
    assert("if"@ =~= seq!['i', 'f']);
    assert("nil"@ =~= seq!['n', 'i', 'l']);
    assert("or"@ =~= seq!['o', 'r']);
    assert("print"@ =~= seq!['p', 'r', 'i', 'n', 't']);
    assert("return"@ =~= seq!['r', 'e', 't', 'u', 'r', 'n']);
    assert("super"@ =~= seq!['s', 'u', 'p', 'e', 'r']);
    assert("this"@ =~= seq!['t', 'h', 'i', 's']);
    assert("true"@ =~= seq!['t', 'r', 'u', 'e']);
    assert("var"@ =~= seq!['v', 'a', 'r']);
    assert("while"@ =~= seq!['w', 'h', 'i', 'l', 'e']);
}

/// A proper superstring of a reserved word is never that word: any
/// identifier-shaped lexeme that extends a reserved word by at least
/// one character classifies as a plain identifier.
pub proof fn lemma_keyword_superstring(s: Seq<char>, k: Seq<char>)
    requires
        keyword_lookup(k) != TokenType::Identifier,
        s.len() > k.len(),
        s.subrange(0, k.len() as int) == k,
    ensures
        keyword_lookup(s) == TokenType::Identifier,
{
    assert(forall|i: int| 0 <= i < k.len() ==> s[i] == #[trigger] s.subrange(0, k.len() as int)[i]);
    assert(forall|i: int| 0 <= i < k.len() ==> s[i] == k[i]);
}

proof fn lemma_str_scan_unclosed(src: Seq<char>, i: int, line: int)
    requires
        0 <= i <= src.len(),
        forall|j: int| i <= j < src.len() ==> src[j] != '"',
    ensures
        !str_scan(src, i, line).0,
        str_scan(src, i, line).1 == src.len(),
    decreases src.len() - i,
{
    if i < src.len() {
        if src[i] == '\n' {
            lemma_str_scan_unclosed(src, i + 1, line + 1);
        } else {
            lemma_str_scan_unclosed(src, i + 1, line);
        }
    }
}

/// A string literal whose closing quote never comes scans to an
/// `Error` token carrying the unterminated-string diagnostic: a kind
/// distinct from every well-formed token kind.
pub proof fn lemma_unterminated_string(src: Seq<char>)
    requires
        src.len() >= 1,
        src[0] == '"',
        forall|j: int| 1 <= j < src.len() ==> src[j] != '"',
    ensures
        spec_scan(src, 0, 1).kind == TokenType::Error,
        spec_scan(src, 0, 1).text == "Unterminated string."@,
        spec_scan(src, 0, 1).end == src.len(),
{
    assert(skip_ws(src, 0, 1) == (0int, 1int));
    lemma_str_scan_unclosed(src, 1, 1);
}

/// The scanner: a cursor over the borrowed source text, the start of
/// the lexeme being scanned, and the current source line.
pub struct Scanner<'a> {
    source: &'a str,
    start: usize,
    current: usize,
    line: i32,
}

impl<'a> Scanner<'a> {
    /// The source text being scanned.
    pub closed spec fn src(&self) -> Seq<char> {
        self.source@
    }

    /// The cursor: how many characters have been consumed.
    pub closed spec fn pos(&self) -> int {
        self.current as int
    }

    /// The current source line.
    pub closed spec fn line_no(&self) -> int {
        self.line as int
    }

    /// The scanner's invariant: the cursor and lexeme start stay
    /// within the source, the line counter starts at one and cannot
    /// outrun the cursor, and the source is short enough that the
    /// line counter fits its type.
    pub closed spec fn wf(&self) -> bool {
        &&& self.start <= self.current <= self.source@.len()
        &&& 1 <= self.line
        &&& self.line <= 1 + self.current
        &&& self.source@.len() + 1 <= i32::MAX
    }

    /// Creates a scanner at the start of a source text.
    pub fn new(s: &'a String) -> (sc: Scanner<'a>)
        requires
            s@.len() + 1 <= i32::MAX,
        ensures
            sc.wf(),
            sc.src() == s@,
            sc.pos() == 0,
            sc.line_no() == 1,
    {
        Scanner { source: s.as_str(), start: 0, current: 0, line: 1 }
    }

    /// True when the whole source has been consumed.
    fn is_at_end(&self) -> (b: bool)
        requires
            self.wf(),
        ensures
            b == (self.pos() == self.src().len()),
    {
        self.current >= self.source.unicode_len()
    }

    /// The next character, or the null character at the end.
    fn peek(&self) -> (c: char)
        requires
            self.wf(),
        ensures
            c == char_at(self.src(), self.pos()),
    {
        if self.is_at_end() {
            '\0'
        } else {
            self.source.get_char(self.current)
        }
    }

    /// The character after the next one, or the null character.
    fn peek_next(&self) -> (c: char)
        requires
            self.wf(),
        ensures
            c == char_at(self.src(), self.pos() + 1),
    {
        if self.current + 1 >= self.source.unicode_len() {
            '\0'
        } else {
            self.source.get_char(self.current + 1)
        }
    }

    /// Consumes and returns the next character; at the end, returns
    /// the null character and stays put.
    fn advance(&mut self) -> (c: char)
        requires
            old(self).wf(),
        ensures
            final(self).wf(),
            final(self).source == old(self).source,
            final(self).start == old(self).start,
            final(self).line == old(self).line,
            c == char_at(old(self).src(), old(self).pos()),
            old(self).pos() < old(self).src().len() ==> final(self).pos() == old(self).pos() + 1,
            old(self).pos() == old(self).src().len() ==> final(self).pos() == old(self).pos(),
    {
        if self.is_at_end() {
            '\0'
        } else {
            let c = self.source.get_char(self.current);
            self.current = self.current + 1;
            c
        }
    }

    /// Consumes the next character only when it is the expected one.
    fn match_next(&mut self, expected: char) -> (b: bool)
        requires
            old(self).wf(),
        ensures
            final(self).wf(),
            final(self).source == old(self).source,
            final(self).start == old(self).start,
            final(self).line == old(self).line,
            b == (old(self).pos() < old(self).src().len() && old(self).src()[old(self).pos()]
                == expected),
            final(self).pos() == if b {
                old(self).pos() + 1
            } else {
                old(self).pos()
            },
    {
        if self.is_at_end() {
            return false;
        }
        if self.peek() == expected {
            self.current = self.current + 1;
            return true;
        }
        false
    }

    /// Builds a token of the given kind out of the current lexeme.
    fn make_token(&self, t: TokenType) -> (tok: Token)
        requires
            self.wf(),
        ensures
            tok.type_ == t,
            tok.string@ == self.src().subrange(self.start as int, self.pos()),
            tok.line == self.line,
    {
        Token {
            type_: t,
            string: String::from_str(self.source.substring_char(self.start, self.current)),
            line: self.line,
        }
    }

    /// Builds an error token whose text is a diagnostic message.
    fn error_token(&self, msg: &str) -> (tok: Token)
        requires
            self.wf(),
        ensures
            tok.type_ == TokenType::Error,
            tok.string@ == msg@,
            tok.line == self.line,
    {
        Token { type_: TokenType::Error, string: String::from_str(msg), line: self.line }
    }

    /// Skips whitespace and line comments, counting every newline
    /// passed over.
    fn skip_whitespace(&mut self)
        requires
            old(self).wf(),
        ensures
            final(self).wf(),
            final(self).source == old(self).source,
            final(self).start == old(self).start,
            final(self).pos() == skip_ws(old(self).src(), old(self).pos(), old(self).line_no()).0,
            final(self).line_no() == skip_ws(old(self).src(), old(self).pos(), old(self).line_no()).1,
    {
        loop
            invariant
                self.wf(),
                self.source == old(self).source,
                self.start == old(self).start,
                skip_ws(self.src(), self.pos(), self.line_no()) == skip_ws(
                    old(self).src(),
                    old(self).pos(),
                    old(self).line_no(),
                ),
            decreases self.src().len() - self.pos(),
        {
            let c = self.peek();
            if c == ' ' || c == '\t' || c == '\r' {
                self.advance();
            } else if c == '\n' {
                self.advance();
                self.line = self.line + 1;
            } else if c == '/' && self.peek_next() == '/' {
                // A comment runs to the end of the line; the newline
                // itself is consumed as whitespace on the next pass.
                let ghost entry = self.pos();
                let ghost entry_line = self.line_no();
                while self.peek() != '\n' && !self.is_at_end()
                    invariant
                        self.wf(),
                        self.source == old(self).source,
                        self.start == old(self).start,
                        self.line_no() == entry_line,
                        entry <= self.pos(),
                        comment_end(self.src(), self.pos()) == comment_end(self.src(), entry),
                        skip_ws(self.src(), entry, entry_line) == skip_ws(
                            old(self).src(),
                            old(self).pos(),
                            old(self).line_no(),
                        ),
                    decreases self.src().len() - self.pos(),
                {
                    self.advance();
                }
                proof {
                    assert(self.pos() == comment_end(self.src(), entry));
                    assert(comment_end(self.src(), entry) == comment_end(self.src(), entry + 1));
                    assert(comment_end(self.src(), entry + 1) == comment_end(
                        self.src(),
                        entry + 2,
                    ));
                    lemma_comment_end(self.src(), entry + 2);
                    assert(skip_ws(self.src(), entry, entry_line) == skip_ws(
                        self.src(),
                        comment_end(self.src(), entry + 2),
                        entry_line,
                    ));
                }
            } else {
                return ;
            }
        }
    }

    /// Scans the rest of a number literal: the remaining integer
    /// digits, then one fractional part when a dot is followed by a
    /// digit.
    fn number(&mut self) -> (tok: Token)
        requires
            old(self).wf(),
        ensures
            final(self).wf(),
            final(self).source == old(self).source,
            final(self).start == old(self).start,
            final(self).line == old(self).line,
            final(self).pos() == number_end(old(self).src(), old(self).pos()),
            final(self).pos() >= old(self).pos(),
            tok.type_ == TokenType::Number,
            tok.string@ == old(self).src().subrange(
                old(self).start as int,
                number_end(old(self).src(), old(self).pos()),
            ),
            tok.line == old(self).line,
    {
        while is_digit(self.peek())
            invariant
                self.wf(),
                self.source == old(self).source,
                self.start == old(self).start,
                self.line == old(self).line,
                self.pos() >= old(self).pos(),
                digits_end(self.src(), self.pos()) == digits_end(old(self).src(), old(self).pos()),
            decreases self.src().len() - self.pos(),
        {
            self.advance();
        }
        proof {
            lemma_digits_end(self.src(), self.pos());
        }
        if self.peek() == '.' && is_digit(self.peek_next()) {
            // Consume the dot, then the fractional digits.
            self.advance();
            while is_digit(self.peek())
                invariant
                    self.wf(),
                    self.source == old(self).source,
                    self.start == old(self).start,
                    self.line == old(self).line,
                    self.pos() >= old(self).pos(),
                    digits_end(self.src(), self.pos()) == number_end(
                        old(self).src(),
                        old(self).pos(),
                    ),
                decreases self.src().len() - self.pos(),
            {
                self.advance();
            }
        }
        self.make_token(TokenType::Number)
    }

    /// Scans the rest of an identifier and classifies it against the
    /// reserved-word table.
    fn identifier(&mut self) -> (tok: Token)
        requires
            old(self).wf(),
            old(self).start < old(self).current,
        ensures
            final(self).wf(),
            final(self).source == old(self).source,
            final(self).start == old(self).start,
            final(self).line == old(self).line,
            final(self).pos() == ident_end(old(self).src(), old(self).pos()),
            final(self).pos() >= old(self).pos(),
            tok.type_ == keyword_lookup(
                old(self).src().subrange(
                    old(self).start as int,
                    ident_end(old(self).src(), old(self).pos()),
                ),
            ),
            tok.string@ == old(self).src().subrange(
                old(self).start as int,
                ident_end(old(self).src(), old(self).pos()),
            ),
            tok.line == old(self).line,
    {
        while is_alnum(self.peek())
            invariant
                self.wf(),
                self.source == old(self).source,
                self.start == old(self).start,
                self.line == old(self).line,
                self.pos() >= old(self).pos(),
                old(self).start < self.current,
                ident_end(self.src(), self.pos()) == ident_end(old(self).src(), old(self).pos()),
            decreases self.src().len() - self.pos(),
        {
            self.advance();
        }
        let t = self.identifier_type();
        self.make_token(t)
    }

    /// Classifies the current lexeme: dispatches on its first
    /// characters and checks the rest against the reserved word with
    /// that prefix, as the keyword table prescribes.
    fn identifier_type(&self) -> (t: TokenType)
        requires
            self.wf(),
            self.start < self.current,
        ensures
            t == keyword_lookup(self.src().subrange(self.start as int, self.pos())),
    {
        let ghost lex = self.src().subrange(self.start as int, self.pos());
        proof {
            lemma_keyword_dispatch(lex);
            assert(lex.len() >= 1);
            assert(lex[0] == self.src()[self.start as int]);
            assert(lex.len() >= 2 ==> lex[1] == self.src()[self.start as int + 1]);
        }
        let c = self.source.get_char(self.start);
        match c {
            'a' => self.check_keyword(1, "nd", TokenType::And),
            'c' => self.check_keyword(1, "lass", TokenType::Class),
            'e' => self.check_keyword(1, "lse", TokenType::Else),
            'f' => {
                if self.current - self.start < 2 {
                    TokenType::Identifier
                } else {
                    let c2 = self.source.get_char(self.start + 1);
                    proof {
                        assert(lex[1] == self.src()[self.start as int + 1]);
                    }
                    match c2 {
                        'a' => self.check_keyword(2, "lse", TokenType::False),
                        'o' => self.check_keyword(2, "r", TokenType::For),
                        'u' => self.check_keyword(2, "n", TokenType::Fun),
                        _ => TokenType::Identifier,
                    }
                }
            },
            'i' => self.check_keyword(1, "f", TokenType::If),
            'n' => self.check_keyword(1, "il", TokenType::Nil),
            'o' => self.check_keyword(1, "r", TokenType::Or),
            'p' => self.check_keyword(1, "rint", TokenType::Print),
            'r' => self.check_keyword(1, "eturn", TokenType::Return),
            's' => self.check_keyword(1, "uper", TokenType::Super),
            't' => {
                if self.current - self.start < 2 {
                    TokenType::Identifier
                } else {
                    let c2 = self.source.get_char(self.start + 1);
                    proof {
                        assert(lex[1] == self.src()[self.start as int + 1]);
                    }
                    match c2 {
                        'h' => self.check_keyword(2, "is", TokenType::This),
                        'r' => self.check_keyword(2, "ue", TokenType::True),
                        _ => TokenType::Identifier,
                    }
                }
            },
            'v' => self.check_keyword(1, "ar", TokenType::Var),
            'w' => self.check_keyword(1, "hile", TokenType::While),
            _ => TokenType::Identifier,
        }
    }

    /// Compares the current lexeme from position `from` on against the
    /// rest of one reserved word; an exact match yields that keyword's
    /// kind, anything else a plain identifier.
    fn check_keyword(&self, from: usize, rest: &str, type_: TokenType) -> (t: TokenType)
        requires
            self.wf(),
            self.start + from <= self.current,
        ensures
            t == (if self.src().subrange(self.start as int, self.pos()).skip(from as int)
                == rest@ {
                type_
            } else {
                TokenType::Identifier
            }),
    {
        let ghost tail = self.src().subrange(self.start as int, self.pos()).skip(from as int);
        let rest_len = rest.unicode_len();
        if self.current - self.start - from != rest_len {
            proof {
                assert(tail.len() != rest@.len());
            }
            return TokenType::Identifier;
        }
        let mut i: usize = 0;
        while i < rest_len
            invariant
                self.wf(),
                i <= rest_len,
                rest_len == rest@.len(),
                self.start + from + rest_len == self.current,
                tail == self.src().subrange(self.start as int, self.pos()).skip(from as int),
                tail.len() == rest_len,
                forall|j: int| 0 <= j < i ==> tail[j] == rest@[j],
            decreases rest_len - i,
        {
            if self.source.get_char(self.start + from + i) != rest.get_char(i) {
                proof {
                    assert(tail[i as int] == self.src()[self.start as int + from + i]);
                    assert(tail[i as int] != rest@[i as int]);
                }
                return TokenType::Identifier;
            }
            proof {
                assert(tail[i as int] == self.src()[self.start as int + from + i]);
            }
            i = i + 1;
        }
        proof {
            assert(tail =~= rest@);
        }
        type_
    }

    /// Scans the rest of a string literal, past its opening quote:
    /// consumes up to and including the closing quote, counting
    /// embedded newlines, or yields an error token when the source
    /// ends first.
    fn string(&mut self) -> (tok: Token)
        requires
            old(self).wf(),
        ensures
            final(self).wf(),
            final(self).source == old(self).source,
            final(self).start == old(self).start,
            final(self).pos() == str_scan(old(self).src(), old(self).pos(), old(self).line_no()).1,
            final(self).pos() >= old(self).pos(),
            final(self).line_no() == str_scan(
                old(self).src(),
                old(self).pos(),
                old(self).line_no(),
            ).2,
            tok.line as int == final(self).line_no(),
            if str_scan(old(self).src(), old(self).pos(), old(self).line_no()).0 {
                tok.type_ == TokenType::Str && tok.string@ == old(self).src().subrange(
                    old(self).start as int,
                    str_scan(old(self).src(), old(self).pos(), old(self).line_no()).1,
                )
            } else {
                tok.type_ == TokenType::Error && tok.string@ == "Unterminated string."@
            },
    {
        while self.peek() != '"' && !self.is_at_end()
            invariant
                self.wf(),
                self.source == old(self).source,
                self.start == old(self).start,
                self.pos() >= old(self).pos(),
                str_scan(self.src(), self.pos(), self.line_no()) == str_scan(
                    old(self).src(),
                    old(self).pos(),
                    old(self).line_no(),
                ),
            decreases self.src().len() - self.pos(),
        {
            if self.peek() == '\n' {
                self.advance();
                self.line = self.line + 1;
            } else {
                self.advance();
            }
        }
        if self.is_at_end() {
            return self.error_token("Unterminated string.");
        }
        // The closing quote.
        self.advance();
        self.make_token(TokenType::Str)
    }

    /// Scans and returns the next token. Whitespace and comments are
    /// skipped first; the token is then classified by its first
    /// character, exactly as `spec_scan` describes.
    pub fn scan_token(&mut self) -> (t: Token)
        requires
            old(self).wf(),
        ensures
            final(self).wf(),
            final(self).src() == old(self).src(),
            t.type_ == spec_scan(old(self).src(), old(self).pos(), old(self).line_no()).kind,
            t.string@ == spec_scan(old(self).src(), old(self).pos(), old(self).line_no()).text,
            t.line as int == spec_scan(old(self).src(), old(self).pos(), old(self).line_no()).line,
            final(self).pos() == spec_scan(old(self).src(), old(self).pos(), old(self).line_no()).end,
            final(self).line_no() == spec_scan(
                old(self).src(),
                old(self).pos(),
                old(self).line_no(),
            ).line,
            final(self).pos() >= old(self).pos(),
            final(self).line_no() >= old(self).line_no(),
            t.type_ == TokenType::EoF ==> final(self).pos() == old(self).src().len(),
            t.type_ != TokenType::EoF ==> final(self).pos() > old(self).pos(),
    {
        proof {
            lemma_skip_ws(old(self).src(), old(self).pos(), old(self).line_no());
        }
        self.skip_whitespace();
        self.start = self.current;
        if self.is_at_end() {
            let t = self.make_token(TokenType::EoF);
            proof {
                assert(t.string@ =~= Seq::<char>::empty());
            }
            return t;
        }
        let c = self.advance();
        if is_digit(c) {
            proof {
                lemma_digits_end(self.src(), self.pos());
            }
            return self.number();
        }
        if is_alpha(c) {
            proof {
                lemma_ident_end(self.src(), self.pos());
            }
            return self.identifier();
        }
        match c {
            '(' => self.make_token(TokenType::LeftParen),
            ')' => self.make_token(TokenType::RightParen),
            '{' => self.make_token(TokenType::LeftBrace),
            '}' => self.make_token(TokenType::RightBrace),
            ';' => self.make_token(TokenType::Semicolon),
            ',' => self.make_token(TokenType::Comma),
            '.' => self.make_token(TokenType::Dot),
            '-' => self.make_token(TokenType::Minus),
            '+' => self.make_token(TokenType::Plus),
            '/' => self.make_token(TokenType::Slash),
            '*' => self.make_token(TokenType::Star),
            '!' => {
                if self.match_next('=') {
                    self.make_token(TokenType::BangEqual)
                } else {
                    self.make_token(TokenType::Bang)
                }
            },
            '=' => {
                if self.match_next('=') {
                    self.make_token(TokenType::EqualEqual)
                } else {
                    self.make_token(TokenType::Equal)
                }
            },
            '>' => {
                if self.match_next('=') {
                    self.make_token(TokenType::GreaterEqual)
                } else {
                    self.make_token(TokenType::Greater)
                }
            },
            '<' => {
                if self.match_next('=') {
                    self.make_token(TokenType::LessEqual)
                } else {
                    self.make_token(TokenType::Less)
                }
            },
            '"' => {
                proof {
                    lemma_str_scan(self.src(), self.pos(), self.line_no());
                }
                self.string()
            },
            _ => self.error_token("Unexpected character."),
        }
    }
}

} // verus!
