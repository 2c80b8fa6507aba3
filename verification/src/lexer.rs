//! Cutting template source text into tokens.
//!
//! A template embeds expressions of its host language, which the engine
//! never reads. The lexer therefore knows the host's lexical shapes only as
//! far as it takes to tell where a piece of text ends: identifiers, string
//! and character literals, numbers, comments, and the three pairs of
//! delimiters.

use vstd::prelude::*;

use crate::escape::url::{char_is_whitespace, index_of, is_ascii_alpha, is_ascii_digit, is_whitespace};

verus! {

/// What kind of token a piece of source text is.
#[derive(Debug, Clone, Copy, PartialEq, Eq, Structural)]
pub enum TokenKind {
    /// An identifier or keyword.
    Ident,
    /// A string literal, plain or raw.
    Str,
    /// A single punctuation character.
    Punct,
    /// One of `(`, `[`, `{`.
    Open,
    /// One of `)`, `]`, `}`.
    Close,
    /// Any other literal of the host language: a number, a character, a
    /// byte string, a lifetime.
    Other,
}

/// A token: a kind and the characters `start..end` of the source.
#[derive(Debug, Clone, Copy, PartialEq, Eq, Structural)]
pub struct Token {
    pub kind: TokenKind,
    pub start: usize,
    pub end: usize,
}

/// Why source text could not be cut into tokens.
#[derive(Debug, Clone, Copy, PartialEq, Eq, Structural)]
pub enum LexError {
    /// A string literal that begins at the given place has no end.
    UnterminatedString(usize),
    /// A character literal that begins at the given place has no end.
    UnterminatedChar(usize),
    /// A block comment that begins at the given place has no end.
    UnterminatedComment(usize),
}

/// A character that can begin an identifier.
pub open spec fn is_ident_start(c: char) -> bool {
    is_ascii_alpha(c) || c == '_' || c > '\u{7f}'
}

/// A character that can stand inside an identifier.
pub open spec fn is_ident_char(c: char) -> bool {
    is_ident_start(c) || is_ascii_digit(c)
}

/// Where the run of identifier characters that begins at `from` ends.
pub open spec fn ident_end(s: Seq<char>, from: int) -> int
    decreases s.len() - from,
{
    if from >= s.len() || from < 0 || !is_ident_char(s[from]) {
        from
    } else {
        ident_end(s, from + 1)
    }
}

/// Where a number that begins at `from` ends: letters, digits and `_`, and
/// a `.` where a digit follows it.
pub open spec fn number_end(s: Seq<char>, from: int) -> int
    decreases s.len() - from,
{
    if from >= s.len() || from < 0 {
        from
    } else if is_ident_char(s[from]) && s[from] <= '\u{7f}' {
        number_end(s, from + 1)
    } else if s[from] == '.' && from + 1 < s.len() && is_ascii_digit(s[from + 1]) {
        number_end(s, from + 1)
    } else {
        from
    }
}

/// The place behind the quote `quote` that closes a literal whose content
/// begins at `from`, a backslash taking the character behind it along; the
/// length of `s` plus one if there is none.
pub open spec fn quoted_end(s: Seq<char>, from: int, quote: char) -> int
    decreases s.len() - from,
{
    if from >= s.len() || from < 0 {
        (s.len() + 1) as int
    } else if s[from] == quote {
        from + 1
    } else if s[from] == '\\' && from + 1 < s.len() {
        quoted_end(s, from + 2, quote)
    } else {
        quoted_end(s, from + 1, quote)
    }
}

/// The first place at or after `from` that holds no `#`.
pub open spec fn hashes_end(s: Seq<char>, from: int) -> int
    decreases s.len() - from,
{
    if from >= s.len() || from < 0 || s[from] != '#' {
        from
    } else {
        hashes_end(s, from + 1)
    }
}

/// Whether `count` characters `#` stand at `from`.
pub open spec fn hashes_at(s: Seq<char>, from: int, count: int) -> bool {
    from + count <= s.len() && forall|k: int| from <= k < from + count ==> s[k] == '#'
}

/// The place behind the `"` and `count` characters `#` that close a raw
/// string whose content begins at `from`; the length of `s` plus one if
/// there is none.
pub open spec fn raw_end(s: Seq<char>, from: int, count: int) -> int
    decreases s.len() - from,
{
    if from >= s.len() || from < 0 {
        (s.len() + 1) as int
    } else if s[from] == '"' && hashes_at(s, from + 1, count) {
        from + 1 + count
    } else {
        raw_end(s, from + 1, count)
    }
}

/// The place behind the `*/` that closes a block comment whose content
/// begins at `from`; the length of `s` plus one if there is none.
pub open spec fn comment_end(s: Seq<char>, from: int) -> int
    decreases s.len() - from,
{
    if from + 1 >= s.len() || from < 0 {
        (s.len() + 1) as int
    } else if s[from] == '*' && s[from + 1] == '/' {
        from + 2
    } else {
        comment_end(s, from + 1)
    }
}

/// Whether a line comment begins at `at`.
pub open spec fn line_comment_at(s: Seq<char>, at: int) -> bool {
    0 <= at && at + 1 < s.len() && s[at] == '/' && s[at + 1] == '/'
}

/// Whether a block comment begins at `at`.
pub open spec fn block_comment_at(s: Seq<char>, at: int) -> bool {
    0 <= at && at + 1 < s.len() && s[at] == '/' && s[at + 1] == '*'
}

/// The first place at or after `from` at which a token begins: white space
/// and comments are passed over. An error if a block comment has no end.
pub open spec fn trivia_end(s: Seq<char>, from: int) -> Result<int, LexError>
    decreases s.len() - from,
{
    if from >= s.len() || from < 0 {
        Ok(s.len() as int)
    } else if is_whitespace(s[from]) {
        trivia_end(s, from + 1)
    } else if line_comment_at(s, from) {
        let end = index_of(s, '\n', from + 2);
        if from < end <= s.len() {
            trivia_end(s, end)
        } else {
            Ok(s.len() as int)
        }
    } else if block_comment_at(s, from) {
        let end = comment_end(s, from + 2);
        if from < end <= s.len() {
            trivia_end(s, end)
        } else {
            Err(LexError::UnterminatedComment(from as usize))
        }
    } else {
        Ok(from)
    }
}

/// Whether a raw string begins at `at`: `r`, any number of `#`, then `"`.
pub open spec fn raw_string_at(s: Seq<char>, at: int) -> bool {
    0 <= at < s.len() && s[at] == 'r' && hashes_end(s, at + 1) < s.len() && s[hashes_end(
        s,
        at + 1,
    )] == '"'
}

/// The token that begins at `at`, a place that holds neither white space
/// nor the beginning of a comment.
pub open spec fn token_at(s: Seq<char>, at: int) -> Result<Token, LexError>
    recommends
        0 <= at < s.len(),
{
    let c = s[at];
    let start = at as usize;
    if raw_string_at(s, at) {
        let quote = hashes_end(s, at + 1);
        let end = raw_end(s, quote + 1, quote - (at + 1));
        if end <= s.len() {
            Ok(Token { kind: TokenKind::Str, start, end: end as usize })
        } else {
            Err(LexError::UnterminatedString(start))
        }
    } else if c == 'b' && at + 1 < s.len() && (s[at + 1] == '"' || s[at + 1] == '\'') {
        let end = quoted_end(s, at + 2, s[at + 1]);
        if end <= s.len() {
            Ok(Token { kind: TokenKind::Other, start, end: end as usize })
        } else {
            Err(LexError::UnterminatedString(start))
        }
    } else if is_ident_start(c) {
        Ok(Token { kind: TokenKind::Ident, start, end: ident_end(s, at + 1) as usize })
    } else if is_ascii_digit(c) {
        Ok(Token { kind: TokenKind::Other, start, end: number_end(s, at + 1) as usize })
    } else if c == '"' {
        let end = quoted_end(s, at + 1, '"');
        if end <= s.len() {
            Ok(Token { kind: TokenKind::Str, start, end: end as usize })
        } else {
            Err(LexError::UnterminatedString(start))
        }
    } else if c == '\'' {
        if at + 1 < s.len() && s[at + 1] == '\\' {
            let end = quoted_end(s, at + 1, '\'');
            if end <= s.len() {
                Ok(Token { kind: TokenKind::Other, start, end: end as usize })
            } else {
                Err(LexError::UnterminatedChar(start))
            }
        } else if at + 2 < s.len() && s[at + 2] == '\'' {
            Ok(Token { kind: TokenKind::Other, start, end: (at + 3) as usize })
        } else if at + 1 < s.len() && is_ident_start(s[at + 1]) {
            Ok(Token { kind: TokenKind::Other, start, end: ident_end(s, at + 1) as usize })
        } else {
            Ok(Token { kind: TokenKind::Punct, start, end: (at + 1) as usize })
        }
    } else if c == '(' || c == '[' || c == '{' {
        Ok(Token { kind: TokenKind::Open, start, end: (at + 1) as usize })
    } else if c == ')' || c == ']' || c == '}' {
        Ok(Token { kind: TokenKind::Close, start, end: (at + 1) as usize })
    } else {
        Ok(Token { kind: TokenKind::Punct, start, end: (at + 1) as usize })
    }
}

/// The tokens of `s` from `from` on.
pub open spec fn tokens_from(s: Seq<char>, from: int) -> Result<Seq<Token>, LexError>
    decreases s.len() - from,
{
    match trivia_end(s, from) {
        Err(e) => Err(e),
        Ok(at) => if at >= s.len() || at < from || from < 0 {
            Ok(Seq::empty())
        } else {
            match token_at(s, at) {
                Err(e) => Err(e),
                Ok(token) => if at < token.end <= s.len() {
                    match tokens_from(s, token.end as int) {
                        Err(e) => Err(e),
                        Ok(rest) => Ok(seq![token] + rest),
                    }
                } else {
                    Ok(Seq::empty())
                },
            }
        },
    }
}

/// The tokens of `s`.
pub open spec fn tokens_of(s: Seq<char>) -> Result<Seq<Token>, LexError> {
    tokens_from(s, 0)
}

/// `found` in front of what `rest` found, or the error of `rest`.
pub open spec fn tokens_then(found: Seq<Token>, rest: Result<Seq<Token>, LexError>) -> Result<
    Seq<Token>,
    LexError,
> {
    match rest {
        Ok(more) => Ok(found + more),
        Err(e) => Err(e),
    }
}

fn char_is_ident_start(c: char) -> (r: bool)
    ensures
        r == is_ident_start(c),
{
    ('a' <= c && c <= 'z') || ('A' <= c && c <= 'Z') || c == '_' || c > '\u{7f}'
}

fn char_is_ident_char(c: char) -> (r: bool)
    ensures
        r == is_ident_char(c),
{
    char_is_ident_start(c) || ('0' <= c && c <= '9')
}

fn scan_ident(chars: &Vec<char>, from: usize) -> (end: usize)
    requires
        from <= chars.len(),
    ensures
        end == ident_end(chars@, from as int),
        from <= end <= chars.len(),
{
    let mut i = from;
    while i < chars.len() && char_is_ident_char(chars[i])
        invariant
            from <= i <= chars.len(),
            ident_end(chars@, i as int) == ident_end(chars@, from as int),
        decreases chars.len() - i,
    {
        i += 1;
    }
    i
}

fn scan_number(chars: &Vec<char>, from: usize) -> (end: usize)
    requires
        from <= chars.len(),
    ensures
        end == number_end(chars@, from as int),
        from <= end <= chars.len(),
{
    let mut i = from;
    loop
        invariant
            from <= i <= chars.len(),
            number_end(chars@, i as int) == number_end(chars@, from as int),
        ensures
            i == number_end(chars@, from as int),
            from <= i <= chars.len(),
        decreases chars.len() - i,
    {
        if i >= chars.len() {
            break ;
        }
        let c = chars[i];
        if char_is_ident_char(c) && c <= '\u{7f}' {
            i += 1;
        } else if c == '.' && i + 1 < chars.len() && '0' <= chars[i + 1] && chars[i + 1] <= '9' {
            i += 1;
        } else {
            break ;
        }
    }
    i
}

fn scan_quoted(chars: &Vec<char>, from: usize, quote: char) -> (end: Option<usize>)
    requires
        from <= chars.len(),
    ensures
        end matches Some(e) ==> e == quoted_end(chars@, from as int, quote) && from < e
            <= chars.len(),
        end is None ==> quoted_end(chars@, from as int, quote) > chars.len(),
{
    let mut i = from;
    loop
        invariant
            from <= i <= chars.len(),
            quoted_end(chars@, i as int, quote) == quoted_end(chars@, from as int, quote),
        decreases chars.len() - i,
    {
        if i >= chars.len() {
            return None;
        }
        let c = chars[i];
        if c == quote {
            return Some(i + 1);
        } else if c == '\\' && i + 1 < chars.len() {
            i += 2;
        } else {
            i += 1;
        }
    }
}

fn scan_hashes(chars: &Vec<char>, from: usize) -> (end: usize)
    requires
        from <= chars.len(),
    ensures
        end == hashes_end(chars@, from as int),
        from <= end <= chars.len(),
{
    let mut i = from;
    while i < chars.len() && chars[i] == '#'
        invariant
            from <= i <= chars.len(),
            hashes_end(chars@, i as int) == hashes_end(chars@, from as int),
        decreases chars.len() - i,
    {
        i += 1;
    }
    i
}

fn has_hashes(chars: &Vec<char>, from: usize, count: usize) -> (r: bool)
    requires
        from <= chars.len(),
        count <= chars.len(),
    ensures
        r == hashes_at(chars@, from as int, count as int),
{
    if count > chars.len() - from {
        return false;
    }
    let mut k: usize = 0;
    while k < count
        invariant
            k <= count,
            from + count <= chars.len(),
            forall|j: int| from <= j < from + k ==> chars@[j] == '#',
        decreases count - k,
    {
        if chars[from + k] != '#' {
            return false;
        }
        k += 1;
    }
    true
}

fn scan_raw(chars: &Vec<char>, from: usize, count: usize) -> (end: Option<usize>)
    requires
        from <= chars.len(),
        count <= chars.len(),
    ensures
        end matches Some(e) ==> e == raw_end(chars@, from as int, count as int) && from < e
            <= chars.len(),
        end is None ==> raw_end(chars@, from as int, count as int) > chars.len(),
{
    let mut i = from;
    loop
        invariant
            from <= i <= chars.len(),
            count <= chars.len(),
            raw_end(chars@, i as int, count as int) == raw_end(chars@, from as int, count as int),
        decreases chars.len() - i,
    {
        if i >= chars.len() {
            return None;
        }
        if chars[i] == '"' && has_hashes(chars, i + 1, count) {
            return Some(i + 1 + count);
        }
        i += 1;
    }
}

fn scan_comment(chars: &Vec<char>, from: usize) -> (end: Option<usize>)
    requires
        from <= chars.len(),
    ensures
        end matches Some(e) ==> e == comment_end(chars@, from as int) && from < e <= chars.len(),
        end is None ==> comment_end(chars@, from as int) > chars.len(),
{
    let mut i = from;
    loop
        invariant
            from <= i <= chars.len(),
            comment_end(chars@, i as int) == comment_end(chars@, from as int),
        decreases chars.len() - i,
    {
        if chars.len() - i <= 1 {
            return None;
        }
        if chars[i] == '*' && chars[i + 1] == '/' {
            return Some(i + 2);
        }
        i += 1;
    }
}

fn scan_line(chars: &Vec<char>, from: usize) -> (end: usize)
    requires
        from <= chars.len(),
    ensures
        end == index_of(chars@, '\n', from as int),
        from <= end <= chars.len(),
{
    let mut i = from;
    while i < chars.len() && chars[i] != '\n'
        invariant
            from <= i <= chars.len(),
            index_of(chars@, '\n', i as int) == index_of(chars@, '\n', from as int),
        decreases chars.len() - i,
    {
        i += 1;
    }
    i
}

fn skip_trivia(chars: &Vec<char>, from: usize) -> (at: Result<usize, LexError>)
    requires
        from <= chars.len(),
    ensures
        at matches Ok(i) ==> trivia_end(chars@, from as int) == Ok::<int, LexError>(i as int)
            && from <= i <= chars.len(),
        at matches Err(e) ==> trivia_end(chars@, from as int) == Err::<int, LexError>(e),
{
    let mut i = from;
    loop
        invariant
            from <= i <= chars.len(),
            trivia_end(chars@, i as int) == trivia_end(chars@, from as int),
        decreases chars.len() - i,
    {
        if i >= chars.len() {
            return Ok(chars.len());
        }
        let c = chars[i];
        if char_is_whitespace(c) {
            i += 1;
        } else if c == '/' && i + 1 < chars.len() && chars[i + 1] == '/' {
            let end = scan_line(chars, i + 2);
            i = end;
        } else if c == '/' && i + 1 < chars.len() && chars[i + 1] == '*' {
            match scan_comment(chars, i + 2) {
                Some(end) => {
                    i = end;
                },
                None => {
                    return Err(LexError::UnterminatedComment(i));
                },
            }
        } else {
            return Ok(i);
        }
    }
}

fn scan_token(chars: &Vec<char>, at: usize) -> (token: Result<Token, LexError>)
    requires
        at < chars.len(),
    ensures
        token == token_at(chars@, at as int),
        token matches Ok(t) ==> at < t.end <= chars.len() && t.start == at,
{
    let c = chars[at];
    if c == 'r' {
        let quote = scan_hashes(chars, at + 1);
        if quote < chars.len() && chars[quote] == '"' {
            return match scan_raw(chars, quote + 1, quote - (at + 1)) {
                Some(end) => Ok(Token { kind: TokenKind::Str, start: at, end }),
                None => Err(LexError::UnterminatedString(at)),
            };
        }
    }
    if c == 'b' && at + 1 < chars.len() && (chars[at + 1] == '"' || chars[at + 1] == '\'') {
        return match scan_quoted(chars, at + 2, chars[at + 1]) {
            Some(end) => Ok(Token { kind: TokenKind::Other, start: at, end }),
            None => Err(LexError::UnterminatedString(at)),
        };
    }
    if char_is_ident_start(c) {
        Ok(Token { kind: TokenKind::Ident, start: at, end: scan_ident(chars, at + 1) })
    } else if '0' <= c && c <= '9' {
        Ok(Token { kind: TokenKind::Other, start: at, end: scan_number(chars, at + 1) })
    } else if c == '"' {
        match scan_quoted(chars, at + 1, '"') {
            Some(end) => Ok(Token { kind: TokenKind::Str, start: at, end }),
            None => Err(LexError::UnterminatedString(at)),
        }
    } else if c == '\'' {
        if at + 1 < chars.len() && chars[at + 1] == '\\' {
            match scan_quoted(chars, at + 1, '\'') {
                Some(end) => Ok(Token { kind: TokenKind::Other, start: at, end }),
                None => Err(LexError::UnterminatedChar(at)),
            }
        } else if chars.len() - at > 2 && chars[at + 2] == '\'' {
            Ok(Token { kind: TokenKind::Other, start: at, end: at + 3 })
        } else if at + 1 < chars.len() && char_is_ident_start(chars[at + 1]) {
            Ok(Token { kind: TokenKind::Other, start: at, end: scan_ident(chars, at + 1) })
        } else {
            Ok(Token { kind: TokenKind::Punct, start: at, end: at + 1 })
        }
    } else if c == '(' || c == '[' || c == '{' {
        Ok(Token { kind: TokenKind::Open, start: at, end: at + 1 })
    } else if c == ')' || c == ']' || c == '}' {
        Ok(Token { kind: TokenKind::Close, start: at, end: at + 1 })
    } else {
        Ok(Token { kind: TokenKind::Punct, start: at, end: at + 1 })
    }
}

/// Cuts `chars` into tokens.
///
/// White space and comments separate tokens and are dropped. A literal or
/// a block comment without an end is an error.
pub fn tokenize(chars: &Vec<char>) -> (tokens: Result<Vec<Token>, LexError>)
    ensures
        tokens matches Ok(found) ==> tokens_of(chars@) == Ok::<Seq<Token>, LexError>(found@),
        tokens matches Err(e) ==> tokens_of(chars@) == Err::<Seq<Token>, LexError>(e),
        tokens matches Ok(found) ==> forall|i: int|
            0 <= i < found@.len() ==> (#[trigger] found@[i]).start < found@[i].end <= chars.len(),
{
    let mut found: Vec<Token> = Vec::new();
    let mut i: usize = 0;
    loop
        invariant
            i <= chars.len(),
            tokens_of(chars@) == tokens_then(found@, tokens_from(chars@, i as int)),
            forall|k: int|
                0 <= k < found@.len() ==> (#[trigger] found@[k]).start < found@[k].end
                    <= chars.len(),
        decreases chars.len() - i,
    {
        let at = match skip_trivia(chars, i) {
            Ok(at) => at,
            Err(e) => {
                return Err(e);
            },
        };
        if at >= chars.len() {
            proof {
                assert(found@ + Seq::<Token>::empty() == found@);
            }
            return Ok(found);
        }
        let token = match scan_token(chars, at) {
            Ok(token) => token,
            Err(e) => {
                return Err(e);
            },
        };
        proof {
            let rest = tokens_from(chars@, token.end as int);
            assert(tokens_from(chars@, i as int) == tokens_then(seq![token], rest));
            match rest {
                Ok(more) => {
                    assert(found@.push(token) + more == found@ + (seq![token] + more));
                },
                Err(_) => {},
            }
        }
        found.push(token);
        i = token.end;
    }
}

} // verus!
