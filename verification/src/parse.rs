//! Reading a template: from source text to the node tree.
//!
//! This file holds what every rule of the grammar leans on: the error type,
//! the questions that are asked of single tokens, the matching of
//! delimiters, the search for a token outside of every group, and the text
//! of names, literals and host-language spans.

use convert_case::Casing;
use vstd::prelude::*;
use vstd::string::StringExecFns;

use crate::lexer::{tokenize, tokens_of, LexError, Token, TokenKind};
use crate::text::{slice_to_string, str_eq, to_chars};

pub mod attribute;
pub mod component;
pub mod node;

pub use self::attribute::{
    parse_attribute, parse_attribute_name, parse_attribute_name_prefix, parse_attribute_value,
    parse_attributes, parse_bracketed_expression, parse_escape_mode,
    parse_parenthesized_expression,
};
pub use self::component::parse_component;
pub use self::node::{parse_if_condition, parse_node, parse_template};


verus! {

/// What was wrong with a template.
#[derive(Debug, Clone, Copy, PartialEq, Eq, Structural)]
pub enum ParseErrorKind {
    UnterminatedString,
    UnterminatedChar,
    UnterminatedComment,
    /// A delimiter has no partner, or the wrong one.
    UnbalancedDelimiter,
    /// A string literal holds an escape that is not supported.
    UnsupportedEscape,
    /// The template has more tokens than can be counted.
    TooLong,
    /// Input ended, or a token stood, where none of the grammar's rules
    /// applies.
    UnexpectedToken,
    ExpectedExpression,
    ExpectedAttributeName,
    InvalidAttributeNameStart,
    /// No identifier follows the given prefix of an attribute name.
    ExpectedIdentifierAfterPrefix(char),
    /// No identifier follows the given separator in an attribute name.
    ExpectedIdentifierAfterSeparator(char),
    ExpectedSpreadExpression,
    ExpectedAttributeValue,
    InvalidAttributeValue,
    InvalidEscapeMode,
    ExpectedSemicolonAfterVoid,
    ExpectedElementBody,
    ExpectedElementName,
    ElementNameEndsWithHyphen,
    InvalidAfterPound,
    ExpectedAttributeSeparator,
    ExpectedBody,
    ExpectedColon,
    ExpectedArrow,
    ExpectedIn,
    ExpectedSemicolon,
    ExpectedFn,
    ExpectedName,
}

/// A failure to read a template: what was wrong, and the place in the
/// source text, counted in characters.
#[derive(Debug, Clone, Copy, PartialEq, Eq, Structural)]
pub struct ParseError {
    pub kind: ParseErrorKind,
    pub at: usize,
}

/// What a failure says.
pub open spec fn message_of(kind: ParseErrorKind) -> Seq<char> {
    match kind {
        ParseErrorKind::UnterminatedString => "unterminated string literal"@,
        ParseErrorKind::UnterminatedChar => "unterminated character literal"@,
        ParseErrorKind::UnterminatedComment => "unterminated block comment"@,
        ParseErrorKind::UnbalancedDelimiter => "unbalanced delimiter"@,
        ParseErrorKind::UnsupportedEscape => "unsupported escape in string literal"@,
        ParseErrorKind::TooLong => "template is too long"@,
        ParseErrorKind::UnexpectedToken => "unexpected token"@,
        ParseErrorKind::ExpectedExpression => "expected expression"@,
        ParseErrorKind::ExpectedAttributeName => "expected attribute name"@,
        ParseErrorKind::InvalidAttributeNameStart => "attribute name must start with a letter, '_', '@', '$', ':', or '#'"@,
        ParseErrorKind::ExpectedSpreadExpression => "expected '(expression)' after '..'"@,
        ParseErrorKind::ExpectedAttributeValue => "expected '=' or '?[bool_expr]' for attribute value"@,
        ParseErrorKind::InvalidAttributeValue => "expected string literal, (expression), or [expression] after '='"@,
        ParseErrorKind::InvalidEscapeMode => "invalid escape mode"@,
        ParseErrorKind::ExpectedSemicolonAfterVoid => "expected a `;` after a void element"@,
        ParseErrorKind::ExpectedElementBody => "expected a body of the element enclosed in `{}`"@,
        ParseErrorKind::ExpectedElementName => "expected element name"@,
        ParseErrorKind::ElementNameEndsWithHyphen => "element name cannot end with hyphen"@,
        ParseErrorKind::InvalidAfterPound => "expected 'doctype', 'children' or '(' after '#'"@,
        ParseErrorKind::ExpectedAttributeSeparator => "expected ',' after an attribute"@,
        ParseErrorKind::ExpectedBody => "expected a body enclosed in `{}`"@,
        ParseErrorKind::ExpectedColon => "expected ':'"@,
        ParseErrorKind::ExpectedArrow => "expected '=>'"@,
        ParseErrorKind::ExpectedIn => "expected 'in'"@,
        ParseErrorKind::ExpectedSemicolon => "expected ';'"@,
        ParseErrorKind::ExpectedFn => "expected 'fn'"@,
        ParseErrorKind::ExpectedName => "expected a name"@,
        ParseErrorKind::ExpectedIdentifierAfterPrefix(c) => "expected identifier after '"@ + seq![c]
            + "'"@,
        ParseErrorKind::ExpectedIdentifierAfterSeparator(c) => "expected identifier after '"@
            + seq![c] + "' in attribute name"@,
    }
}

impl ParseError {
    /// What the failure says.
    pub fn message(&self) -> (text: String)
        ensures
            text@ == message_of(self.kind),
    {
        match self.kind {
            ParseErrorKind::UnterminatedString => "unterminated string literal".to_owned(),
            ParseErrorKind::UnterminatedChar => "unterminated character literal".to_owned(),
            ParseErrorKind::UnterminatedComment => "unterminated block comment".to_owned(),
            ParseErrorKind::UnbalancedDelimiter => "unbalanced delimiter".to_owned(),
            ParseErrorKind::UnsupportedEscape => "unsupported escape in string literal".to_owned(),
            ParseErrorKind::TooLong => "template is too long".to_owned(),
            ParseErrorKind::UnexpectedToken => "unexpected token".to_owned(),
            ParseErrorKind::ExpectedExpression => "expected expression".to_owned(),
            ParseErrorKind::ExpectedAttributeName => "expected attribute name".to_owned(),
            ParseErrorKind::InvalidAttributeNameStart => "attribute name must start with a letter, '_', '@', '$', ':', or '#'".to_owned(),
            ParseErrorKind::ExpectedSpreadExpression => "expected '(expression)' after '..'".to_owned(),
            ParseErrorKind::ExpectedAttributeValue => "expected '=' or '?[bool_expr]' for attribute value".to_owned(),
            ParseErrorKind::InvalidAttributeValue => "expected string literal, (expression), or [expression] after '='".to_owned(),
            ParseErrorKind::InvalidEscapeMode => "invalid escape mode".to_owned(),
            ParseErrorKind::ExpectedSemicolonAfterVoid => "expected a `;` after a void element".to_owned(),
            ParseErrorKind::ExpectedElementBody => "expected a body of the element enclosed in `{}`".to_owned(),
            ParseErrorKind::ExpectedElementName => "expected element name".to_owned(),
            ParseErrorKind::ElementNameEndsWithHyphen => "element name cannot end with hyphen".to_owned(),
            ParseErrorKind::InvalidAfterPound => "expected 'doctype', 'children' or '(' after '#'".to_owned(),
            ParseErrorKind::ExpectedAttributeSeparator => "expected ',' after an attribute".to_owned(),
            ParseErrorKind::ExpectedBody => "expected a body enclosed in `{}`".to_owned(),
            ParseErrorKind::ExpectedColon => "expected ':'".to_owned(),
            ParseErrorKind::ExpectedArrow => "expected '=>'".to_owned(),
            ParseErrorKind::ExpectedIn => "expected 'in'".to_owned(),
            ParseErrorKind::ExpectedSemicolon => "expected ';'".to_owned(),
            ParseErrorKind::ExpectedFn => "expected 'fn'".to_owned(),
            ParseErrorKind::ExpectedName => "expected a name".to_owned(),
            ParseErrorKind::ExpectedIdentifierAfterPrefix(c) => {
                let mut text = "expected identifier after '".to_owned();
                text.push(c);
                text.append("'");
                assert(text@ == "expected identifier after '"@ + seq![c] + "'"@);
                text
            },
            ParseErrorKind::ExpectedIdentifierAfterSeparator(c) => {
                let mut text = "expected identifier after '".to_owned();
                text.push(c);
                text.append("' in attribute name");
                assert(text@ == "expected identifier after '"@ + seq![c]
                    + "' in attribute name"@);
                text
            },
        }
    }
}

/// The failure that a failure of the lexer becomes.
pub open spec fn lex_failure(error: LexError) -> ParseError {
    match error {
        LexError::UnterminatedString(at) => ParseError {
            kind: ParseErrorKind::UnterminatedString,
            at,
        },
        LexError::UnterminatedChar(at) => ParseError { kind: ParseErrorKind::UnterminatedChar, at },
        LexError::UnterminatedComment(at) => ParseError {
            kind: ParseErrorKind::UnterminatedComment,
            at,
        },
    }
}

/// Source text with its tokens.
pub struct Lexed {
    pub chars: Vec<char>,
    pub tokens: Vec<Token>,
}

/// Whether every token lies in the source text and is not empty, and the
/// tokens can be counted with room to spare.
pub open spec fn in_bounds(src: Seq<char>, toks: Seq<Token>) -> bool {
    &&& toks.len() + 8 <= usize::MAX
    &&& forall|i: int| 0 <= i < toks.len() ==> (#[trigger] toks[i]).start < toks[i].end <= src.len()
}

/// The tokens of `source`, or why it has none.
pub open spec fn lexed_of(source: Seq<char>) -> Result<Seq<Token>, ParseError> {
    match tokens_of(source) {
        Err(e) => Err(lex_failure(e)),
        Ok(toks) => if toks.len() + 8 <= usize::MAX {
            Ok(toks)
        } else {
            Err(ParseError { kind: ParseErrorKind::TooLong, at: 0 })
        },
    }
}

impl Lexed {
    /// Whether every token lies in the source text and is not empty.
    pub open spec fn wf(&self) -> bool {
        in_bounds(self.chars@, self.tokens@)
    }
}

/// Cuts `source` into tokens.
pub fn lex(source: &str) -> (lexed: Result<Lexed, ParseError>)
    ensures
        lexed matches Ok(s) ==> s.chars@ == source@ && s.wf() && lexed_of(source@) == Ok::<
            Seq<Token>,
            ParseError,
        >(s.tokens@),
        lexed matches Err(e) ==> lexed_of(source@) == Err::<Seq<Token>, ParseError>(e),
{
    let chars = to_chars(source);
    match tokenize(&chars) {
        Ok(tokens) => {
            if tokens.len() > usize::MAX - 8 {
                Err(ParseError { kind: ParseErrorKind::TooLong, at: 0 })
            } else {
                Ok(Lexed { chars, tokens })
            }
        },
        Err(LexError::UnterminatedString(at)) => Err(
            ParseError { kind: ParseErrorKind::UnterminatedString, at },
        ),
        Err(LexError::UnterminatedChar(at)) => Err(
            ParseError { kind: ParseErrorKind::UnterminatedChar, at },
        ),
        Err(LexError::UnterminatedComment(at)) => Err(
            ParseError { kind: ParseErrorKind::UnterminatedComment, at },
        ),
    }
}

/// The place in the source text of the token `i`, or the end of the text
/// where there is no such token.
pub open spec fn place(src: Seq<char>, toks: Seq<Token>, i: int) -> usize {
    if 0 <= i < toks.len() {
        toks[i].start
    } else {
        src.len() as usize
    }
}

/// The failure `kind` at the token `i`.
pub open spec fn failure(src: Seq<char>, toks: Seq<Token>, i: int, kind: ParseErrorKind) -> ParseError {
    ParseError { kind, at: place(src, toks, i) }
}

/// What was read, if all tokens were read; else a failure at the first
/// token that was not.
pub open spec fn whole<V>(src: Seq<char>, toks: Seq<Token>, result: Result<(V, int), ParseError>) -> Result<
    V,
    ParseError,
> {
    match result {
        Err(e) => Err(e),
        Ok((value, next)) => if next == toks.len() {
            Ok(value)
        } else {
            Err(failure(src, toks, next, ParseErrorKind::UnexpectedToken))
        },
    }
}

/// The first character of the token `i`.
pub open spec fn first_char(src: Seq<char>, toks: Seq<Token>, i: int) -> char {
    src[toks[i].start as int]
}

/// The source text of the token `i`.
pub open spec fn token_text(src: Seq<char>, toks: Seq<Token>, i: int) -> Seq<char> {
    src.subrange(toks[i].start as int, toks[i].end as int)
}

/// Whether the token `i` stands before `limit` and has the kind `kind`.
pub open spec fn kind_at(toks: Seq<Token>, i: int, limit: int, kind: TokenKind) -> bool {
    0 <= i < limit <= toks.len() && toks[i].kind == kind
}

/// Whether the token `i` stands before `limit` and is the punctuation `c`.
pub open spec fn punct_at(src: Seq<char>, toks: Seq<Token>, i: int, limit: int, c: char) -> bool {
    kind_at(toks, i, limit, TokenKind::Punct) && first_char(src, toks, i) == c
}

/// Whether the token `i` stands before `limit` and is the opening delimiter
/// `c`.
pub open spec fn open_at(src: Seq<char>, toks: Seq<Token>, i: int, limit: int, c: char) -> bool {
    kind_at(toks, i, limit, TokenKind::Open) && first_char(src, toks, i) == c
}

/// Whether the token `i` stands before `limit` and is the identifier
/// `word`.
pub open spec fn word_at(src: Seq<char>, toks: Seq<Token>, i: int, limit: int, word: Seq<char>) -> bool {
    kind_at(toks, i, limit, TokenKind::Ident) && token_text(src, toks, i) == word
}

/// Whether the tokens `i` and `i + 1` stand before `limit`, touch, and are
/// the punctuation `a` and `b`.
pub open spec fn pair_at(src: Seq<char>, toks: Seq<Token>, i: int, limit: int, a: char, b: char) -> bool {
    punct_at(src, toks, i, limit, a) && punct_at(src, toks, i + 1, limit, b) && toks[i].end
        == toks[i + 1].start
}

/// The delimiter that closes what `open` opens.
pub open spec fn closer_of(open: char) -> char {
    if open == '(' {
        ')'
    } else if open == '[' {
        ']'
    } else {
        '}'
    }
}

/// The index of the closing delimiter that ends the group in which `from`
/// stands `depth` groups deep, or `limit` if there is none before `limit`.
pub open spec fn close_index(toks: Seq<Token>, from: int, limit: int, depth: nat) -> int
    decreases limit - from,
{
    if from >= limit || from < 0 || limit > toks.len() {
        limit
    } else if toks[from].kind == TokenKind::Open {
        close_index(toks, from + 1, limit, depth + 1)
    } else if toks[from].kind == TokenKind::Close {
        if depth == 0 {
            from
        } else {
            close_index(toks, from + 1, limit, (depth - 1) as nat)
        }
    } else {
        close_index(toks, from + 1, limit, depth)
    }
}

/// The index of the delimiter that closes the group opened by the token
/// `open`, if that group is closed before `limit` by the right delimiter.
pub open spec fn group_close(src: Seq<char>, toks: Seq<Token>, open: int, limit: int) -> Option<int> {
    let close = close_index(toks, open + 1, limit, 0);
    if kind_at(toks, open, limit, TokenKind::Open) && open < close < limit && first_char(
        src,
        toks,
        close,
    ) == closer_of(first_char(src, toks, open)) {
        Some(close)
    } else {
        None
    }
}

/// What a search outside of every group looks for.
#[derive(Debug, Clone, Copy, PartialEq, Eq, Structural)]
pub enum Stop {
    /// `,`
    Comma,
    /// `,` or `;`
    CommaOrSemicolon,
    /// `;`
    Semicolon,
    /// `{`
    Brace,
    /// the word `in`
    In,
    /// `=>`
    Arrow,
    /// the word `if`, or `=>`
    IfOrArrow,
    /// `=`
    Assign,
    /// the word `fn`
    Fn,
    /// `(` or `{` or the word `where`
    Signature,
    /// `:` that is no part of `::`
    Colon,
}

/// The word `in`.
pub open spec fn word_in() -> Seq<char> {
    seq!['i', 'n']
}

/// The word `if`.
pub open spec fn word_if() -> Seq<char> {
    seq!['i', 'f']
}

/// The word `fn`.
pub open spec fn word_fn() -> Seq<char> {
    seq!['f', 'n']
}

/// The word `where`.
pub open spec fn word_where() -> Seq<char> {
    seq!['w', 'h', 'e', 'r', 'e']
}

/// Whether the token `i` is what `stop` looks for.
pub open spec fn stops_at(src: Seq<char>, toks: Seq<Token>, i: int, limit: int, stop: Stop) -> bool {
    match stop {
        Stop::Comma => punct_at(src, toks, i, limit, ','),
        Stop::CommaOrSemicolon => punct_at(src, toks, i, limit, ',') || punct_at(
            src,
            toks,
            i,
            limit,
            ';',
        ),
        Stop::Semicolon => punct_at(src, toks, i, limit, ';'),
        Stop::Brace => open_at(src, toks, i, limit, '{'),
        Stop::In => word_at(src, toks, i, limit, word_in()),
        Stop::Arrow => pair_at(src, toks, i, limit, '=', '>'),
        Stop::IfOrArrow => word_at(src, toks, i, limit, word_if()) || pair_at(
            src,
            toks,
            i,
            limit,
            '=',
            '>',
        ),
        Stop::Assign => punct_at(src, toks, i, limit, '='),
        Stop::Fn => word_at(src, toks, i, limit, word_fn()),
        Stop::Signature => open_at(src, toks, i, limit, '(') || open_at(src, toks, i, limit, '{')
            || word_at(src, toks, i, limit, word_where()),
        Stop::Colon => punct_at(src, toks, i, limit, ':') && !pair_at(
            src,
            toks,
            i,
            limit,
            ':',
            ':',
        ) && !pair_at(src, toks, i - 1, limit, ':', ':'),
    }
}

/// The first token at or after `from`, before `limit` and outside of every
/// group that begins at or after `from`, that is what `stop` looks for; or
/// `limit`.
pub open spec fn top_find(src: Seq<char>, toks: Seq<Token>, from: int, limit: int, stop: Stop) -> int
    decreases limit - from,
{
    if from >= limit || from < 0 || limit > toks.len() {
        limit
    } else if stops_at(src, toks, from, limit, stop) {
        from
    } else if toks[from].kind == TokenKind::Open {
        let close = close_index(toks, from + 1, limit, 0);
        if from < close < limit {
            top_find(src, toks, close + 1, limit, stop)
        } else {
            limit
        }
    } else {
        top_find(src, toks, from + 1, limit, stop)
    }
}

/// The source text from the beginning of the token `from` to the end of the
/// token before `to`; nothing where there is no such token.
pub open spec fn span_text(src: Seq<char>, toks: Seq<Token>, from: int, to: int) -> Seq<char> {
    if 0 <= from < to <= toks.len() && toks[from].start <= toks[to - 1].end <= src.len() {
        src.subrange(toks[from].start as int, toks[to - 1].end as int)
    } else {
        Seq::empty()
    }
}

/// The value of a hexadecimal digit.
pub open spec fn hex_value(c: char) -> Option<int> {
    if '0' <= c && c <= '9' {
        Some(c as int - 48)
    } else if 'a' <= c && c <= 'f' {
        Some(c as int - 87)
    } else if 'A' <= c && c <= 'F' {
        Some(c as int - 55)
    } else {
        None
    }
}

/// The character that the escape `\c` stands for, for the escapes of one
/// character.
pub open spec fn simple_escape(c: char) -> Option<char> {
    if c == 'n' {
        Some('\n')
    } else if c == 'r' {
        Some('\r')
    } else if c == 't' {
        Some('\t')
    } else if c == '0' {
        Some('\0')
    } else if c == '\\' || c == '"' || c == '\'' {
        Some(c)
    } else {
        None
    }
}

/// The text that `src[from..to]`, the inside of a string literal, spells:
/// `\n`, `\r`, `\t`, `\0`, `\\`, `\"`, `\'` and `\x` with two hexadecimal
/// digits below 80 are escapes; nothing if there is another escape.
pub open spec fn unescaped(src: Seq<char>, from: int, to: int) -> Option<Seq<char>>
    decreases to - from,
{
    if from >= to || from < 0 || to > src.len() {
        Some(Seq::empty())
    } else if src[from] != '\\' {
        match unescaped(src, from + 1, to) {
            Some(rest) => Some(seq![src[from]] + rest),
            None => None,
        }
    } else if from + 1 >= to {
        None
    } else if simple_escape(src[from + 1]) is Some {
        match unescaped(src, from + 2, to) {
            Some(rest) => Some(seq![simple_escape(src[from + 1])->0] + rest),
            None => None,
        }
    } else if src[from + 1] == 'x' && from + 3 < to && hex_value(src[from + 2]) is Some
        && hex_value(src[from + 3]) is Some && hex_value(src[from + 2])->0 < 8 {
        match unescaped(src, from + 4, to) {
            Some(rest) => Some(
                seq![((hex_value(src[from + 2])->0 * 16 + hex_value(src[from + 3])->0) as u8) as char]
                    + rest,
            ),
            None => None,
        }
    } else {
        None
    }
}

/// `found` in front of what `rest` spells.
pub open spec fn text_then(found: Seq<char>, rest: Option<Seq<char>>) -> Option<Seq<char>> {
    match rest {
        Some(more) => Some(found + more),
        None => None,
    }
}

/// The first place at or after `from` that holds `"`.
pub open spec fn quote_index(src: Seq<char>, from: int) -> int {
    crate::escape::url::index_of(src, '"', from)
}

/// The text that the string literal `tok` spells. A raw string spells what
/// stands between its quotes.
pub open spec fn literal_value(src: Seq<char>, tok: Token) -> Option<Seq<char>> {
    let start = tok.start as int;
    let end = tok.end as int;
    if src[start] == 'r' {
        let quote = quote_index(src, start);
        let hashes = quote - (start + 1);
        if start < quote && quote + 1 <= end - 1 - hashes <= src.len() {
            Some(src.subrange(quote + 1, end - 1 - hashes))
        } else {
            Some(Seq::empty())
        }
    } else {
        unescaped(src, start + 1, end - 1)
    }
}

/// An identifier in kebab case, as `convert_case` makes it when only `_`
/// separates words: the words in lower case, joined by `-`.
pub uninterp spec fn kebab_cased(name: Seq<char>) -> Seq<char>;

/// What kebab case is of an ASCII name: `_` becomes `-`, and a capital its
/// small letter.
pub open spec fn ascii_kebab(name: Seq<char>) -> Seq<char> {
    Seq::new(
        name.len(),
        |i: int|
            if name[i] == '_' {
                '-'
            } else {
                crate::escape::url::ascii_lower(name[i])
            },
    )
}

/// The name that an identifier gives to an element or an attribute: the
/// identifier in kebab case.
pub open spec fn kebab_name(name: Seq<char>) -> Seq<char> {
    if crate::escape::url::all_ascii(name) {
        ascii_kebab(name)
    } else {
        kebab_cased(name)
    }
}

/// `convert_case`'s `to_case(Case::Kebab)` with `_` as the only word
/// boundary: the name is cut at every `_`, the pieces are put into lower
/// case and joined by `-`. Of an ASCII name this is said in full.
#[verifier::external_body]
pub(crate) fn to_kebab_case(name: &str) -> (kebab: String)
    ensures
        kebab@ == kebab_cased(name@),
        crate::escape::url::all_ascii(name@) ==> kebab@ == ascii_kebab(name@),
{
    name.set_boundaries(&[convert_case::Boundary::Underscore]).to_case(convert_case::Case::Kebab)
}

impl Lexed {
    /// The failure `kind` at the token `i`.
    pub fn fail(&self, i: usize, kind: ParseErrorKind) -> (error: ParseError)
        ensures
            error == failure(self.chars@, self.tokens@, i as int, kind),
    {
        let at = if i < self.tokens.len() {
            self.tokens[i].start
        } else {
            self.chars.len()
        };
        ParseError { kind, at }
    }

    /// Whether the token `i` stands before `limit` and has the kind `kind`.
    pub fn kind_at(&self, i: usize, limit: usize, kind: TokenKind) -> (r: bool)
        requires
            limit <= self.tokens.len(),
        ensures
            r == kind_at(self.tokens@, i as int, limit as int, kind),
    {
        i < limit && self.tokens[i].kind == kind
    }

    /// Whether the token `i` stands before `limit` and is the punctuation
    /// `c`.
    pub fn punct_at(&self, i: usize, limit: usize, c: char) -> (r: bool)
        requires
            self.wf(),
            limit <= self.tokens.len(),
        ensures
            r == punct_at(self.chars@, self.tokens@, i as int, limit as int, c),
    {
        i < limit && self.tokens[i].kind == TokenKind::Punct && self.chars[self.tokens[i].start]
            == c
    }

    /// Whether the token `i` stands before `limit` and is the opening
    /// delimiter `c`.
    pub fn open_at(&self, i: usize, limit: usize, c: char) -> (r: bool)
        requires
            self.wf(),
            limit <= self.tokens.len(),
        ensures
            r == open_at(self.chars@, self.tokens@, i as int, limit as int, c),
    {
        i < limit && self.tokens[i].kind == TokenKind::Open && self.chars[self.tokens[i].start]
            == c
    }

    /// The source text of the token `i`.
    pub fn text(&self, i: usize) -> (text: String)
        requires
            self.wf(),
            i < self.tokens.len(),
        ensures
            text@ == token_text(self.chars@, self.tokens@, i as int),
    {
        slice_to_string(&self.chars, self.tokens[i].start, self.tokens[i].end)
    }

    /// Whether the token `i` stands before `limit` and is the identifier
    /// `word`.
    pub fn word_at(&self, i: usize, limit: usize, word: &str) -> (r: bool)
        requires
            self.wf(),
            limit <= self.tokens.len(),
        ensures
            r == word_at(self.chars@, self.tokens@, i as int, limit as int, word@),
    {
        if i < limit && self.tokens[i].kind == TokenKind::Ident {
            let text = self.text(i);
            str_eq(text.as_str(), word)
        } else {
            false
        }
    }

    /// Whether the tokens `i` and `i + 1` stand before `limit`, touch, and
    /// are the punctuation `a` and `b`.
    pub fn pair_at(&self, i: usize, limit: usize, a: char, b: char) -> (r: bool)
        requires
            self.wf(),
            limit <= self.tokens.len(),
        ensures
            r == pair_at(self.chars@, self.tokens@, i as int, limit as int, a, b),
    {
        i < limit && limit - i > 1 && self.punct_at(i, limit, a) && self.punct_at(i + 1, limit, b)
            && self.tokens[i].end == self.tokens[i + 1].start
    }

    /// The index of the delimiter that closes the group opened by the token
    /// `open`, if that group is closed before `limit` by the right
    /// delimiter.
    pub fn group_close(&self, open: usize, limit: usize) -> (close: Option<usize>)
        requires
            self.wf(),
            limit <= self.tokens.len(),
        ensures
            close matches Some(c) ==> group_close(
                self.chars@,
                self.tokens@,
                open as int,
                limit as int,
            ) == Some(c as int) && open < c < limit,
            close is None ==> group_close(self.chars@, self.tokens@, open as int, limit as int)
                is None,
    {
        if !(open < limit && self.tokens[open].kind == TokenKind::Open) {
            return None;
        }
        let close = self.close_index(open + 1, limit);
        if close < limit {
            let opener = self.chars[self.tokens[open].start];
            let wanted = if opener == '(' {
                ')'
            } else if opener == '[' {
                ']'
            } else {
                '}'
            };
            if self.chars[self.tokens[close].start] == wanted {
                return Some(close);
            }
        }
        None
    }

    /// The index of the closing delimiter that ends the group in which
    /// `from` stands, or `limit`.
    pub fn close_index(&self, from: usize, limit: usize) -> (close: usize)
        requires
            from <= limit <= self.tokens.len(),
        ensures
            close == close_index(self.tokens@, from as int, limit as int, 0),
            from <= close <= limit,
    {
        let mut i = from;
        let mut depth: usize = 0;
        while i < limit
            invariant
                from <= i <= limit <= self.tokens.len(),
                depth <= i - from,
                close_index(self.tokens@, i as int, limit as int, depth as nat) == close_index(
                    self.tokens@,
                    from as int,
                    limit as int,
                    0,
                ),
            decreases limit - i,
        {
            let kind = self.tokens[i].kind;
            if kind == TokenKind::Open {
                depth += 1;
            } else if kind == TokenKind::Close {
                if depth == 0 {
                    return i;
                }
                depth -= 1;
            }
            i += 1;
        }
        limit
    }

    /// Whether the token `i` is what `stop` looks for.
    pub fn stops_at(&self, i: usize, limit: usize, stop: Stop) -> (r: bool)
        requires
            self.wf(),
            limit <= self.tokens.len(),
        ensures
            r == stops_at(self.chars@, self.tokens@, i as int, limit as int, stop),
    {
        proof {
            reveal_strlit("in");
            reveal_strlit("if");
            reveal_strlit("fn");
            reveal_strlit("where");
            assert("in"@ == word_in());
            assert("if"@ == word_if());
            assert("fn"@ == word_fn());
            assert("where"@ == word_where());
        }
        match stop {
            Stop::Comma => self.punct_at(i, limit, ','),
            Stop::CommaOrSemicolon => self.punct_at(i, limit, ',') || self.punct_at(i, limit, ';'),
            Stop::Semicolon => self.punct_at(i, limit, ';'),
            Stop::Brace => self.open_at(i, limit, '{'),
            Stop::In => self.word_at(i, limit, "in"),
            Stop::Arrow => self.pair_at(i, limit, '=', '>'),
            Stop::IfOrArrow => self.word_at(i, limit, "if") || self.pair_at(i, limit, '=', '>'),
            Stop::Assign => self.punct_at(i, limit, '='),
            Stop::Fn => self.word_at(i, limit, "fn"),
            Stop::Signature => self.open_at(i, limit, '(') || self.open_at(i, limit, '{')
                || self.word_at(i, limit, "where"),
            Stop::Colon => {
                if !self.punct_at(i, limit, ':') {
                    false
                } else if self.pair_at(i, limit, ':', ':') {
                    false
                } else if i > 0 && self.pair_at(i - 1, limit, ':', ':') {
                    false
                } else {
                    true
                }
            },
        }
    }

    /// The first token at or after `from`, before `limit` and outside of
    /// every group, that is what `stop` looks for; or `limit`.
    pub fn top_find(&self, from: usize, limit: usize, stop: Stop) -> (found: usize)
        requires
            self.wf(),
            from <= limit <= self.tokens.len(),
        ensures
            found == top_find(self.chars@, self.tokens@, from as int, limit as int, stop),
            from <= found <= limit,
    {
        let mut i = from;
        while i < limit
            invariant
                self.wf(),
                from <= i <= limit <= self.tokens.len(),
                top_find(self.chars@, self.tokens@, i as int, limit as int, stop) == top_find(
                    self.chars@,
                    self.tokens@,
                    from as int,
                    limit as int,
                    stop,
                ),
            decreases limit - i,
        {
            if self.stops_at(i, limit, stop) {
                return i;
            }
            if self.tokens[i].kind == TokenKind::Open {
                let close = self.close_index(i + 1, limit);
                if close < limit {
                    i = close + 1;
                } else {
                    return limit;
                }
            } else {
                i += 1;
            }
        }
        limit
    }

    /// The source text from the beginning of the token `from` to the end of
    /// the token before `to`.
    pub fn span(&self, from: usize, to: usize) -> (text: String)
        requires
            self.wf(),
        ensures
            text@ == span_text(self.chars@, self.tokens@, from as int, to as int),
    {
        if from < to && to <= self.tokens.len() && self.tokens[from].start <= self.tokens[to
            - 1].end {
            slice_to_string(&self.chars, self.tokens[from].start, self.tokens[to - 1].end)
        } else {
            String::new()
        }
    }

    /// The text that the string literal at the token `i` spells.
    pub fn literal(&self, i: usize) -> (value: Option<String>)
        requires
            self.wf(),
            i < self.tokens.len(),
        ensures
            value matches Some(text) ==> literal_value(self.chars@, self.tokens@[i as int])
                == Some(text@),
            value is None ==> literal_value(self.chars@, self.tokens@[i as int]) is None,
    {
        let start = self.tokens[i].start;
        let end = self.tokens[i].end;
        let ghost src = self.chars@;
        if self.chars[start] == 'r' {
            let mut quote = start;
            while quote < self.chars.len() && self.chars[quote] != '"'
                invariant
                    start <= quote <= self.chars.len(),
                    src == self.chars@,
                    quote_index(src, quote as int) == quote_index(src, start as int),
                decreases self.chars.len() - quote,
            {
                quote += 1;
            }
            let hashes = quote - start;
            if start < quote && quote < self.chars.len() && end >= hashes && end - hashes
                <= self.chars.len() && quote + 1 <= end - hashes {
                return Some(slice_to_string(&self.chars, quote + 1, end - hashes));
            }
            return Some(String::new());
        }
        let to = end - 1;
        let mut text = String::new();
        let mut at = start + 1;
        while at < to
            invariant
                start < at,
                to < self.chars.len(),
                src == self.chars@,
                i < self.tokens.len(),
                start == self.tokens@[i as int].start,
                to + 1 == self.tokens@[i as int].end,
                src[start as int] != 'r',
                unescaped(src, start + 1, to as int) == text_then(
                    text@,
                    unescaped(src, at as int, to as int),
                ),
            decreases to - at,
        {
            let c = self.chars[at];
            let ghost before = text@;
            if c != '\\' {
                text.push(c);
                at += 1;
                proof {
                    let rest = unescaped(src, at as int, to as int);
                    if rest is Some {
                        assert(before + (seq![c] + rest->0) == before.push(c) + rest->0);
                    }
                }
            } else if to - at <= 1 {
                return None;
            } else {
                let e = self.chars[at + 1];
                let simple = if e == 'n' {
                    Some('\n')
                } else if e == 'r' {
                    Some('\r')
                } else if e == 't' {
                    Some('\t')
                } else if e == '0' {
                    Some('\0')
                } else if e == '\\' || e == '"' || e == '\'' {
                    Some(e)
                } else {
                    None
                };
                match simple {
                    Some(decoded) => {
                        text.push(decoded);
                        at += 2;
                        proof {
                            let rest = unescaped(src, at as int, to as int);
                            if rest is Some {
                                assert(before + (seq![decoded] + rest->0) == before.push(decoded)
                                    + rest->0);
                            }
                        }
                    },
                    None => {
                        if e == 'x' && to - at > 3 {
                            let high = hex_digit_value(self.chars[at + 2]);
                            let low = hex_digit_value(self.chars[at + 3]);
                            match (high, low) {
                                (Some(h), Some(l)) => {
                                    if h < 8 {
                                        let decoded = (h * 16 + l) as char;
                                        text.push(decoded);
                                        at += 4;
                                        proof {
                                            let rest = unescaped(src, at as int, to as int);
                                            if rest is Some {
                                                assert(before + (seq![decoded] + rest->0)
                                                    == before.push(decoded) + rest->0);
                                            }
                                        }
                                    } else {
                                        return None;
                                    }
                                },
                                _ => {
                                    return None;
                                },
                            }
                        } else {
                            return None;
                        }
                    },
                }
            }
        }
        proof {
            assert(text@ + Seq::<char>::empty() == text@);
        }
        Some(text)
    }
}

/// The value of a hexadecimal digit.
pub fn hex_digit_value(c: char) -> (value: Option<u8>)
    ensures
        value matches Some(v) ==> hex_value(c) == Some(v as int),
        value is None ==> hex_value(c) is None,
{
    if '0' <= c && c <= '9' {
        Some(((c as u32) - 48) as u8)
    } else if 'a' <= c && c <= 'f' {
        Some(((c as u32) - 87) as u8)
    } else if 'A' <= c && c <= 'F' {
        Some(((c as u32) - 55) as u8)
    } else {
        None
    }
}

} // verus!
