//! The grammar of attributes.
//!
//! Attributes are written in one of two ways. In a list in parentheses they
//! are `name: value`, with `?:` where the value may be missing, separated by
//! commas; the name is an identifier, put into kebab case, or a string.
//! Without parentheses they are `name=value`, one behind the other, and the
//! name may be made of several identifiers joined by `-`, `:` and `.`, with
//! one of `@`, `$`, `:`, `#` before it.

use vstd::prelude::*;
use vstd::string::StringExecFns;

use crate::ast::{
    attributes_view, Attribute, AttributeName, AttributeValue, AttributeValueView, AttributeView,
    BracketedExpression, Expr, ModedExpr, ParenthesizedExpression,
};
use crate::escape::EscapeMode;
use crate::lexer::{Token, TokenKind};
use crate::parse::{
    failure, first_char, group_close, kebab_name, kind_at, lex, lexed_of, literal_value,
    open_at, place, punct_at, span_text, to_kebab_case, token_text, top_find, whole, word_at,
    Lexed, ParseError, ParseErrorKind, Stop,
};
use crate::text::slice_to_string;

verus! {

/// The word `raw`.
pub open spec fn word_raw() -> Seq<char> {
    seq!['r', 'a', 'w']
}

/// The word `html`.
pub open spec fn word_html() -> Seq<char> {
    seq!['h', 't', 'm', 'l']
}

/// The word `attrs`.
pub open spec fn word_attrs() -> Seq<char> {
    seq!['a', 't', 't', 'r', 's']
}

/// The escape mode that the token `i` names: `raw` or `html`.
pub open spec fn escape_mode_at(src: Seq<char>, toks: Seq<Token>, i: int, limit: int) -> Result<
    EscapeMode,
    ParseError,
> {
    if word_at(src, toks, i, limit, word_raw()) {
        Ok(EscapeMode::Raw)
    } else if word_at(src, toks, i, limit, word_html()) {
        Ok(EscapeMode::Html)
    } else {
        Err(failure(src, toks, i, ParseErrorKind::InvalidEscapeMode))
    }
}

/// The expression that the tokens `from..to` spell, the inside of a pair of
/// delimiters: the text up to the first `:` outside of every group, and
/// behind that `:` the escape mode asked for.
pub open spec fn moded_expr(src: Seq<char>, toks: Seq<Token>, from: int, to: int) -> Result<
    ModedExpr,
    ParseError,
> {
    let colon = top_find(src, toks, from, to, Stop::Colon);
    if from >= colon {
        Err(failure(src, toks, from, ParseErrorKind::ExpectedExpression))
    } else if colon >= to {
        Ok(ModedExpr { expr: span_text(src, toks, from, to), escape_mode: None })
    } else if colon + 2 != to {
        Err(failure(src, toks, colon + 1, ParseErrorKind::InvalidEscapeMode))
    } else {
        match escape_mode_at(src, toks, colon + 1, to) {
            Ok(mode) => Ok(
                ModedExpr { expr: span_text(src, toks, from, colon), escape_mode: Some(mode) },
            ),
            Err(e) => Err(e),
        }
    }
}

/// Whether `c` may stand before the first identifier of an attribute name.
pub open spec fn is_name_prefix(c: char) -> bool {
    c == '@' || c == '$' || c == ':' || c == '#'
}

/// Whether `c` may join two identifiers of an attribute name.
pub open spec fn is_name_separator(c: char) -> bool {
    c == '-' || c == ':' || c == '.'
}

/// Whether a separator of an attribute name stands at the token `i`: one of
/// `-`, `:`, `.`, but no `.` that another `.` follows.
pub open spec fn separator_at(src: Seq<char>, toks: Seq<Token>, i: int, limit: int) -> bool {
    kind_at(toks, i, limit, TokenKind::Punct) && is_name_separator(first_char(src, toks, i)) && !(
    first_char(src, toks, i) == '.' && punct_at(src, toks, i + 1, limit, '.'))
}

/// What follows the first identifier of an attribute name, from the token
/// `from` on: separators, each with an identifier behind it. The text and
/// the token behind it.
pub open spec fn name_tail(src: Seq<char>, toks: Seq<Token>, from: int, limit: int) -> Result<
    (Seq<char>, int),
    ParseError,
>
    decreases limit - from,
{
    if !separator_at(src, toks, from, limit) {
        Ok((Seq::empty(), from))
    } else if !kind_at(toks, from + 1, limit, TokenKind::Ident) {
        Err(
            failure(
                src,
                toks,
                from + 1,
                ParseErrorKind::ExpectedIdentifierAfterSeparator(first_char(src, toks, from)),
            ),
        )
    } else {
        match name_tail(src, toks, from + 2, limit) {
            Ok((rest, next)) => Ok(
                (seq![first_char(src, toks, from)] + token_text(src, toks, from + 1) + rest, next),
            ),
            Err(e) => Err(e),
        }
    }
}

/// `found` in front of the text that `rest` found.
pub open spec fn tail_then(found: Seq<char>, rest: Result<(Seq<char>, int), ParseError>) -> Result<
    (Seq<char>, int),
    ParseError,
> {
    match rest {
        Ok((more, next)) => Ok((found + more, next)),
        Err(e) => Err(e),
    }
}

/// The attribute name that begins at the token `from`, and the token behind
/// it.
///
/// A name is an optional prefix, one of `@`, `$`, `:`, `#`, then an
/// identifier, then any number of separators, `-`, `:` or `.`, each with an
/// identifier behind it. It ends before `..`.
pub open spec fn attribute_name_at(src: Seq<char>, toks: Seq<Token>, from: int, limit: int) -> Result<
    (Seq<char>, int),
    ParseError,
> {
    if !(0 <= from < limit <= toks.len()) {
        Err(failure(src, toks, from, ParseErrorKind::ExpectedAttributeName))
    } else if kind_at(toks, from, limit, TokenKind::Punct) && is_name_prefix(
        first_char(src, toks, from),
    ) {
        if !kind_at(toks, from + 1, limit, TokenKind::Ident) {
            Err(
                failure(
                    src,
                    toks,
                    from + 1,
                    ParseErrorKind::ExpectedIdentifierAfterPrefix(first_char(src, toks, from)),
                ),
            )
        } else {
            tail_then(
                seq![first_char(src, toks, from)] + token_text(src, toks, from + 1),
                name_tail(src, toks, from + 2, limit),
            )
        }
    } else if !kind_at(toks, from, limit, TokenKind::Ident) {
        Err(failure(src, toks, from, ParseErrorKind::InvalidAttributeNameStart))
    } else {
        tail_then(token_text(src, toks, from), name_tail(src, toks, from + 1, limit))
    }
}

/// The expression in the group that the token `open` opens, and the token
/// behind the group.
pub open spec fn group_expr(src: Seq<char>, toks: Seq<Token>, open: int, limit: int) -> Result<
    (ModedExpr, int),
    ParseError,
> {
    match group_close(src, toks, open, limit) {
        None => Err(failure(src, toks, open, ParseErrorKind::UnbalancedDelimiter)),
        Some(close) => match moded_expr(src, toks, open + 1, close) {
            Ok(expr) => Ok((expr, close + 1)),
            Err(e) => Err(e),
        },
    }
}

/// The text in the group that the token `open` opens, which must not be
/// empty, and the token behind the group.
pub open spec fn group_text(src: Seq<char>, toks: Seq<Token>, open: int, limit: int) -> Result<
    (Seq<char>, int),
    ParseError,
> {
    match group_close(src, toks, open, limit) {
        None => Err(failure(src, toks, open, ParseErrorKind::UnbalancedDelimiter)),
        Some(close) => if open + 1 >= close {
            Err(failure(src, toks, open + 1, ParseErrorKind::ExpectedExpression))
        } else {
            Ok((span_text(src, toks, open + 1, close), close + 1))
        },
    }
}

/// The value that is written behind a name with `=` or `?`, from the token
/// `from` on: `?[condition]`, `="text"`, `=(expression)` or
/// `=[expression]`.
pub open spec fn attribute_value_at(src: Seq<char>, toks: Seq<Token>, from: int, limit: int) -> Result<
    (AttributeValueView, int),
    ParseError,
> {
    if punct_at(src, toks, from, limit, '?') {
        if !open_at(src, toks, from + 1, limit, '[') {
            Err(failure(src, toks, from + 1, ParseErrorKind::ExpectedAttributeValue))
        } else {
            match group_text(src, toks, from + 1, limit) {
                Ok((expr, next)) => Ok((AttributeValueView::Boolean(expr), next)),
                Err(e) => Err(e),
            }
        }
    } else if !punct_at(src, toks, from, limit, '=') {
        Err(failure(src, toks, from, ParseErrorKind::ExpectedAttributeValue))
    } else if open_at(src, toks, from + 1, limit, '(') {
        match group_expr(src, toks, from + 1, limit) {
            Ok((expr, next)) => Ok((AttributeValueView::Dynamic(expr), next)),
            Err(e) => Err(e),
        }
    } else if open_at(src, toks, from + 1, limit, '[') {
        match group_expr(src, toks, from + 1, limit) {
            Ok((expr, next)) => Ok((AttributeValueView::Optional(expr), next)),
            Err(e) => Err(e),
        }
    } else if kind_at(toks, from + 1, limit, TokenKind::Str) {
        match literal_value(src, toks[from + 1]) {
            Some(text) => Ok((AttributeValueView::Literal(text), from + 2)),
            None => Err(failure(src, toks, from + 1, ParseErrorKind::UnsupportedEscape)),
        }
    } else {
        Err(failure(src, toks, from + 1, ParseErrorKind::InvalidAttributeValue))
    }
}

/// The spread `..(expression)` that begins at the token `from`.
pub open spec fn spread_at(src: Seq<char>, toks: Seq<Token>, from: int, limit: int) -> Result<
    (AttributeView, int),
    ParseError,
> {
    if !open_at(src, toks, from + 2, limit, '(') {
        Err(failure(src, toks, from + 2, ParseErrorKind::ExpectedSpreadExpression))
    } else {
        match group_text(src, toks, from + 2, limit) {
            Ok((expr, next)) => Ok((AttributeView::Spread { expr }, next)),
            Err(e) => Err(e),
        }
    }
}

/// Whether `..` stands at the token `from`.
pub open spec fn spread_begins(src: Seq<char>, toks: Seq<Token>, from: int, limit: int) -> bool {
    punct_at(src, toks, from, limit, '.') && punct_at(src, toks, from + 1, limit, '.')
}

/// The attribute, written without parentheses, that begins at the token
/// `from`: a spread, or a name with or without a value.
pub open spec fn attribute_at(src: Seq<char>, toks: Seq<Token>, from: int, limit: int) -> Result<
    (AttributeView, int),
    ParseError,
> {
    if spread_begins(src, toks, from, limit) {
        spread_at(src, toks, from, limit)
    } else {
        match attribute_name_at(src, toks, from, limit) {
            Err(e) => Err(e),
            Ok((name, next)) => if punct_at(src, toks, next, limit, '?') || punct_at(
                src,
                toks,
                next,
                limit,
                '=',
            ) {
                match attribute_value_at(src, toks, next, limit) {
                    Ok((value, after)) => Ok(
                        (AttributeView::NameValue { name, value: Some(value) }, after),
                    ),
                    Err(e) => Err(e),
                }
            } else {
                Ok((AttributeView::NameValue { name, value: None }, next))
            },
        }
    }
}

/// The value that is written behind `:` or `?:`, from the token `from` to
/// the next comma outside of every group: a string, `#(expression)` for a
/// value that is written as it stands, or an expression.
pub open spec fn listed_value_at(
    src: Seq<char>,
    toks: Seq<Token>,
    from: int,
    limit: int,
    maybe: bool,
) -> Result<(AttributeValueView, int), ParseError> {
    let end = top_find(src, toks, from, limit, Stop::Comma);
    if from >= end {
        Err(failure(src, toks, from, ParseErrorKind::ExpectedExpression))
    } else if kind_at(toks, from, limit, TokenKind::Str) && end == from + 1 {
        match literal_value(src, toks[from]) {
            Some(text) => Ok((AttributeValueView::Text(text), end)),
            None => Err(failure(src, toks, from, ParseErrorKind::UnsupportedEscape)),
        }
    } else if punct_at(src, toks, from, limit, '#') && open_at(src, toks, from + 1, limit, '(')
        && group_close(src, toks, from + 1, limit) == Some(end - 1) {
        if from + 2 >= end - 1 {
            Err(failure(src, toks, from + 2, ParseErrorKind::ExpectedExpression))
        } else {
            let expr = ModedExpr {
                expr: span_text(src, toks, from + 2, end - 1),
                escape_mode: Some(EscapeMode::Raw),
            };
            Ok(
                (
                    if maybe {
                        AttributeValueView::Optional(expr)
                    } else {
                        AttributeValueView::Dynamic(expr)
                    },
                    end,
                ),
            )
        }
    } else {
        let expr = ModedExpr { expr: span_text(src, toks, from, end), escape_mode: None };
        Ok(
            (
                if maybe {
                    AttributeValueView::Optional(expr)
                } else {
                    AttributeValueView::Dynamic(expr)
                },
                end,
            ),
        )
    }
}

/// The name of an attribute in a list in parentheses: a string as it
/// stands, or an identifier in kebab case.
pub open spec fn listed_name_at(src: Seq<char>, toks: Seq<Token>, from: int, limit: int) -> Result<
    Seq<char>,
    ParseError,
> {
    if kind_at(toks, from, limit, TokenKind::Str) {
        match literal_value(src, toks[from]) {
            Some(text) => Ok(text),
            None => Err(failure(src, toks, from, ParseErrorKind::UnsupportedEscape)),
        }
    } else if kind_at(toks, from, limit, TokenKind::Ident) {
        Ok(kebab_name(token_text(src, toks, from)))
    } else {
        Err(failure(src, toks, from, ParseErrorKind::ExpectedAttributeName))
    }
}

/// The attribute, in a list in parentheses, that begins at the token
/// `from`: `#attrs`, a spread, or a name with `: value`, `?: value`, a
/// value behind `=` or `?`, or no value.
pub open spec fn listed_attribute_at(src: Seq<char>, toks: Seq<Token>, from: int, limit: int) -> Result<
    (AttributeView, int),
    ParseError,
> {
    if punct_at(src, toks, from, limit, '#') && word_at(src, toks, from + 1, limit, word_attrs()) {
        Ok((AttributeView::Spread { expr: word_attrs() }, from + 2))
    } else if spread_begins(src, toks, from, limit) {
        spread_at(src, toks, from, limit)
    } else {
        match listed_name_at(src, toks, from, limit) {
            Err(e) => Err(e),
            Ok(name) => {
                let next = from + 1;
                if punct_at(src, toks, next, limit, '?') && punct_at(src, toks, next + 1, limit, ':') {
                    match listed_value_at(src, toks, next + 2, limit, true) {
                        Ok((value, after)) => Ok(
                            (AttributeView::NameValue { name, value: Some(value) }, after),
                        ),
                        Err(e) => Err(e),
                    }
                } else if punct_at(src, toks, next, limit, ':') {
                    match listed_value_at(src, toks, next + 1, limit, false) {
                        Ok((value, after)) => Ok(
                            (AttributeView::NameValue { name, value: Some(value) }, after),
                        ),
                        Err(e) => Err(e),
                    }
                } else if punct_at(src, toks, next, limit, '?') || punct_at(
                    src,
                    toks,
                    next,
                    limit,
                    '=',
                ) {
                    match attribute_value_at(src, toks, next, limit) {
                        Ok((value, after)) => Ok(
                            (AttributeView::NameValue { name, value: Some(value) }, after),
                        ),
                        Err(e) => Err(e),
                    }
                } else {
                    Ok((AttributeView::NameValue { name, value: None }, next))
                }
            },
        }
    }
}

/// How the attributes of a list follow one another.
#[derive(Debug, Clone, Copy, PartialEq, Eq, Structural)]
pub enum ListStyle {
    /// Without parentheses, one behind the other, up to `;` or `{`.
    Plain,
    /// Without parentheses, one behind the other, up to the end.
    PlainToEnd,
    /// In parentheses; a comma may stand between two attributes.
    Listed,
    /// In parentheses; a comma must stand between two attributes.
    Separated,
}

/// Whether a list of attributes ends at the token `from`.
pub open spec fn list_ends(src: Seq<char>, toks: Seq<Token>, from: int, limit: int, style: ListStyle) -> bool {
    from >= limit || (style == ListStyle::Plain && (punct_at(src, toks, from, limit, ';')
        || open_at(src, toks, from, limit, '{')))
}

/// Whether the attributes of a list stand in parentheses.
pub open spec fn is_listed(style: ListStyle) -> bool {
    style == ListStyle::Listed || style == ListStyle::Separated
}

/// The attribute of a list that begins at the token `from`, and the token
/// behind it and behind the comma that follows it in parentheses.
pub open spec fn list_item_at(
    src: Seq<char>,
    toks: Seq<Token>,
    from: int,
    limit: int,
    style: ListStyle,
) -> Result<(AttributeView, int), ParseError> {
    let one = if is_listed(style) {
        listed_attribute_at(src, toks, from, limit)
    } else {
        attribute_at(src, toks, from, limit)
    };
    match one {
        Err(e) => Err(e),
        Ok((attribute, next)) => if is_listed(style) && punct_at(src, toks, next, limit, ',') {
            Ok((attribute, next + 1))
        } else if style == ListStyle::Separated && next < limit {
            Err(failure(src, toks, next, ParseErrorKind::ExpectedAttributeSeparator))
        } else {
            Ok((attribute, next))
        },
    }
}

/// The attributes from the token `from` on, and the token behind them.
pub open spec fn attributes_at(
    src: Seq<char>,
    toks: Seq<Token>,
    from: int,
    limit: int,
    style: ListStyle,
) -> Result<(Seq<AttributeView>, int), ParseError>
    decreases limit - from,
{
    if list_ends(src, toks, from, limit, style) || from < 0 {
        Ok((Seq::empty(), from))
    } else {
        match list_item_at(src, toks, from, limit, style) {
            Err(e) => Err(e),
            Ok((attribute, after)) => if !(from < after <= limit) {
                Err(failure(src, toks, from, ParseErrorKind::UnexpectedToken))
            } else {
                match attributes_at(src, toks, after, limit, style) {
                    Ok((rest, end)) => Ok((seq![attribute] + rest, end)),
                    Err(e) => Err(e),
                }
            },
        }
    }
}

/// `found` in front of the attributes that `rest` found.
pub open spec fn attributes_then(
    found: Seq<AttributeView>,
    rest: Result<(Seq<AttributeView>, int), ParseError>,
) -> Result<(Seq<AttributeView>, int), ParseError> {
    match rest {
        Ok((more, next)) => Ok((found + more, next)),
        Err(e) => Err(e),
    }
}

/// The escape mode that the token `i` names.
pub fn parse_escape_mode_at(s: &Lexed, i: usize, limit: usize) -> (mode: Result<
    EscapeMode,
    ParseError,
>)
    requires
        s.wf(),
        limit <= s.tokens.len(),
    ensures
        mode == escape_mode_at(s.chars@, s.tokens@, i as int, limit as int),
{
    proof {
        reveal_strlit("raw");
        reveal_strlit("html");
        assert("raw"@ == word_raw());
        assert("html"@ == word_html());
    }
    if s.word_at(i, limit, "raw") {
        Ok(EscapeMode::Raw)
    } else if s.word_at(i, limit, "html") {
        Ok(EscapeMode::Html)
    } else {
        Err(s.fail(i, ParseErrorKind::InvalidEscapeMode))
    }
}

/// The expression that the tokens `from..to` spell, with the escape mode
/// asked for.
pub fn parse_moded_expr(s: &Lexed, from: usize, to: usize) -> (result: Result<
    (Expr, Option<EscapeMode>),
    ParseError,
>)
    requires
        s.wf(),
        from <= to <= s.tokens.len(),
    ensures
        match result {
            Ok((expr, mode)) => moded_expr(s.chars@, s.tokens@, from as int, to as int) == Ok::<
                ModedExpr,
                ParseError,
            >(ModedExpr { expr: expr@, escape_mode: mode }),
            Err(e) => moded_expr(s.chars@, s.tokens@, from as int, to as int) == Err::<
                ModedExpr,
                ParseError,
            >(e),
        },
{
    let colon = s.top_find(from, to, Stop::Colon);
    if from >= colon {
        Err(s.fail(from, ParseErrorKind::ExpectedExpression))
    } else if colon >= to {
        Ok((Expr { source: s.span(from, to) }, None))
    } else if colon + 2 != to {
        Err(s.fail(colon + 1, ParseErrorKind::InvalidEscapeMode))
    } else {
        match parse_escape_mode_at(s, colon + 1, to) {
            Ok(mode) => Ok((Expr { source: s.span(from, colon) }, Some(mode))),
            Err(e) => Err(e),
        }
    }
}

fn char_is_name_prefix(c: char) -> (r: bool)
    ensures
        r == is_name_prefix(c),
{
    c == '@' || c == '$' || c == ':' || c == '#'
}

fn is_separator_at(s: &Lexed, i: usize, limit: usize) -> (r: bool)
    requires
        s.wf(),
        limit <= s.tokens.len(),
    ensures
        r == separator_at(s.chars@, s.tokens@, i as int, limit as int),
{
    if !s.kind_at(i, limit, TokenKind::Punct) {
        return false;
    }
    let c = s.chars[s.tokens[i].start];
    if !(c == '-' || c == ':' || c == '.') {
        return false;
    }
    !(c == '.' && s.punct_at(i + 1, limit, '.'))
}

/// The attribute name that begins at the token `from`, and the token behind
/// it.
pub fn parse_attribute_name_at(s: &Lexed, from: usize, limit: usize) -> (result: Result<
    (AttributeName, usize),
    ParseError,
>)
    requires
        s.wf(),
        limit <= s.tokens.len(),
    ensures
        match result {
            Ok((name, next)) => attribute_name_at(s.chars@, s.tokens@, from as int, limit as int)
                == Ok::<(Seq<char>, int), ParseError>((name@, next as int)) && from < next
                <= limit,
            Err(e) => attribute_name_at(s.chars@, s.tokens@, from as int, limit as int) == Err::<
                (Seq<char>, int),
                ParseError,
            >(e),
        },
{
    let ghost src = s.chars@;
    let ghost toks = s.tokens@;
    if from >= limit {
        return Err(s.fail(from, ParseErrorKind::ExpectedAttributeName));
    }
    let mut name = String::new();
    let mut at = from;
    if s.kind_at(from, limit, TokenKind::Punct) && char_is_name_prefix(
        s.chars[s.tokens[from].start],
    ) {
        let prefix = s.chars[s.tokens[from].start];
        if !s.kind_at(from + 1, limit, TokenKind::Ident) {
            return Err(s.fail(from + 1, ParseErrorKind::ExpectedIdentifierAfterPrefix(prefix)));
        }
        name.push(prefix);
        name.append(s.text(from + 1).as_str());
        at = from + 2;
        assert(name@ == seq![prefix] + token_text(src, toks, from + 1));
    } else if !s.kind_at(from, limit, TokenKind::Ident) {
        return Err(s.fail(from, ParseErrorKind::InvalidAttributeNameStart));
    } else {
        name.append(s.text(from).as_str());
        at = from + 1;
        assert(name@ == token_text(src, toks, from as int));
    }
    let ghost first = at;
    let ghost head = name@;
    loop
        invariant
            s.wf(),
            src == s.chars@,
            toks == s.tokens@,
            from < first <= at <= limit <= s.tokens.len(),
            attribute_name_at(src, toks, from as int, limit as int) == tail_then(
                head,
                name_tail(src, toks, first as int, limit as int),
            ),
            tail_then(head, name_tail(src, toks, first as int, limit as int)) == tail_then(
                name@,
                name_tail(src, toks, at as int, limit as int),
            ),
        decreases limit - at,
    {
        if !is_separator_at(s, at, limit) {
            proof {
                assert(name@ + Seq::<char>::empty() == name@);
            }
            return Ok((AttributeName { name }, at));
        }
        let separator = s.chars[s.tokens[at].start];
        if !s.kind_at(at + 1, limit, TokenKind::Ident) {
            return Err(s.fail(at + 1, ParseErrorKind::ExpectedIdentifierAfterSeparator(separator)));
        }
        let ghost before = name@;
        name.push(separator);
        name.append(s.text(at + 1).as_str());
        proof {
            let rest = name_tail(src, toks, at + 2, limit as int);
            match rest {
                Ok((more, next)) => {
                    assert(before + (seq![separator] + token_text(src, toks, at + 1) + more)
                        == name@ + more);
                },
                Err(_) => {},
            }
        }
        at += 2;
    }
}

/// The expression in the group that the token `open` opens, and the token
/// behind the group.
pub fn parse_group_expr(s: &Lexed, open: usize, limit: usize) -> (result: Result<
    (Expr, Option<EscapeMode>, usize),
    ParseError,
>)
    requires
        s.wf(),
        limit <= s.tokens.len(),
    ensures
        match result {
            Ok((expr, mode, next)) => group_expr(s.chars@, s.tokens@, open as int, limit as int)
                == Ok::<(ModedExpr, int), ParseError>(
                (ModedExpr { expr: expr@, escape_mode: mode }, next as int),
            ) && open < next <= limit,
            Err(e) => group_expr(s.chars@, s.tokens@, open as int, limit as int) == Err::<
                (ModedExpr, int),
                ParseError,
            >(e),
        },
{
    match s.group_close(open, limit) {
        None => Err(s.fail(open, ParseErrorKind::UnbalancedDelimiter)),
        Some(close) => match parse_moded_expr(s, open + 1, close) {
            Ok((expr, mode)) => Ok((expr, mode, close + 1)),
            Err(e) => Err(e),
        },
    }
}

/// The text in the group that the token `open` opens, and the token behind
/// the group.
pub fn parse_group_text(s: &Lexed, open: usize, limit: usize) -> (result: Result<
    (Expr, usize),
    ParseError,
>)
    requires
        s.wf(),
        limit <= s.tokens.len(),
    ensures
        match result {
            Ok((expr, next)) => group_text(s.chars@, s.tokens@, open as int, limit as int) == Ok::<
                (Seq<char>, int),
                ParseError,
            >((expr@, next as int)) && open < next <= limit,
            Err(e) => group_text(s.chars@, s.tokens@, open as int, limit as int) == Err::<
                (Seq<char>, int),
                ParseError,
            >(e),
        },
{
    match s.group_close(open, limit) {
        None => Err(s.fail(open, ParseErrorKind::UnbalancedDelimiter)),
        Some(close) => if open + 1 >= close {
            Err(s.fail(open + 1, ParseErrorKind::ExpectedExpression))
        } else {
            Ok((Expr { source: s.span(open + 1, close) }, close + 1))
        },
    }
}

/// The value that is written behind a name with `=` or `?`.
pub fn parse_attribute_value_at(s: &Lexed, from: usize, limit: usize) -> (result: Result<
    (AttributeValue, usize),
    ParseError,
>)
    requires
        s.wf(),
        limit <= s.tokens.len(),
    ensures
        match result {
            Ok((value, next)) => attribute_value_at(s.chars@, s.tokens@, from as int, limit as int)
                == Ok::<(AttributeValueView, int), ParseError>((value@, next as int)) && from
                < next <= limit,
            Err(e) => attribute_value_at(s.chars@, s.tokens@, from as int, limit as int) == Err::<
                (AttributeValueView, int),
                ParseError,
            >(e),
        },
{
    if s.punct_at(from, limit, '?') {
        if !s.open_at(from + 1, limit, '[') {
            Err(s.fail(from + 1, ParseErrorKind::ExpectedAttributeValue))
        } else {
            match parse_group_text(s, from + 1, limit) {
                Ok((expr, next)) => Ok((AttributeValue::Boolean { expr }, next)),
                Err(e) => Err(e),
            }
        }
    } else if !s.punct_at(from, limit, '=') {
        Err(s.fail(from, ParseErrorKind::ExpectedAttributeValue))
    } else if s.open_at(from + 1, limit, '(') {
        match parse_group_expr(s, from + 1, limit) {
            Ok((expr, escape_mode, next)) => Ok(
                (
                    AttributeValue::Dynamic { expr: ParenthesizedExpression { expr, escape_mode } },
                    next,
                ),
            ),
            Err(e) => Err(e),
        }
    } else if s.open_at(from + 1, limit, '[') {
        match parse_group_expr(s, from + 1, limit) {
            Ok((expr, escape_mode, next)) => Ok(
                (AttributeValue::Optional { expr: BracketedExpression { expr, escape_mode } }, next),
            ),
            Err(e) => Err(e),
        }
    } else if s.kind_at(from + 1, limit, TokenKind::Str) {
        match s.literal(from + 1) {
            Some(value) => Ok((AttributeValue::Literal { value }, from + 2)),
            None => Err(s.fail(from + 1, ParseErrorKind::UnsupportedEscape)),
        }
    } else {
        Err(s.fail(from + 1, ParseErrorKind::InvalidAttributeValue))
    }
}

fn parse_spread_at(s: &Lexed, from: usize, limit: usize) -> (result: Result<
    (Attribute, usize),
    ParseError,
>)
    requires
        s.wf(),
        from < limit <= s.tokens.len(),
    ensures
        match result {
            Ok((attribute, next)) => spread_at(s.chars@, s.tokens@, from as int, limit as int)
                == Ok::<(AttributeView, int), ParseError>((attribute@, next as int)) && from
                < next <= limit,
            Err(e) => spread_at(s.chars@, s.tokens@, from as int, limit as int) == Err::<
                (AttributeView, int),
                ParseError,
            >(e),
        },
{
    if !s.open_at(from + 2, limit, '(') {
        Err(s.fail(from + 2, ParseErrorKind::ExpectedSpreadExpression))
    } else {
        match parse_group_text(s, from + 2, limit) {
            Ok((expr, next)) => Ok((Attribute::Spread { expr }, next)),
            Err(e) => Err(e),
        }
    }
}

fn spread_begins_at(s: &Lexed, from: usize, limit: usize) -> (r: bool)
    requires
        s.wf(),
        limit <= s.tokens.len(),
    ensures
        r == spread_begins(s.chars@, s.tokens@, from as int, limit as int),
{
    s.punct_at(from, limit, '.') && s.punct_at(from + 1, limit, '.')
}

/// The attribute, written without parentheses, that begins at the token
/// `from`.
pub fn parse_attribute_at(s: &Lexed, from: usize, limit: usize) -> (result: Result<
    (Attribute, usize),
    ParseError,
>)
    requires
        s.wf(),
        limit <= s.tokens.len(),
    ensures
        match result {
            Ok((attribute, next)) => attribute_at(s.chars@, s.tokens@, from as int, limit as int)
                == Ok::<(AttributeView, int), ParseError>((attribute@, next as int)) && from
                < next <= limit,
            Err(e) => attribute_at(s.chars@, s.tokens@, from as int, limit as int) == Err::<
                (AttributeView, int),
                ParseError,
            >(e),
        },
{
    if spread_begins_at(s, from, limit) {
        return parse_spread_at(s, from, limit);
    }
    match parse_attribute_name_at(s, from, limit) {
        Err(e) => Err(e),
        Ok((name, next)) => if s.punct_at(next, limit, '?') || s.punct_at(next, limit, '=') {
            match parse_attribute_value_at(s, next, limit) {
                Ok((value, after)) => Ok((Attribute::NameValue { name, value: Some(value) }, after)),
                Err(e) => Err(e),
            }
        } else {
            Ok((Attribute::NameValue { name, value: None }, next))
        },
    }
}

fn parse_listed_value_at(s: &Lexed, from: usize, limit: usize, maybe: bool) -> (result: Result<
    (AttributeValue, usize),
    ParseError,
>)
    requires
        s.wf(),
        from <= limit <= s.tokens.len(),
    ensures
        match result {
            Ok((value, next)) => listed_value_at(
                s.chars@,
                s.tokens@,
                from as int,
                limit as int,
                maybe,
            ) == Ok::<(AttributeValueView, int), ParseError>((value@, next as int)) && from < next
                <= limit,
            Err(e) => listed_value_at(s.chars@, s.tokens@, from as int, limit as int, maybe)
                == Err::<(AttributeValueView, int), ParseError>(e),
        },
{
    let end = s.top_find(from, limit, Stop::Comma);
    if from >= end {
        return Err(s.fail(from, ParseErrorKind::ExpectedExpression));
    }
    if s.kind_at(from, limit, TokenKind::Str) && end == from + 1 {
        return match s.literal(from) {
            Some(value) => Ok((AttributeValue::Text { value }, end)),
            None => Err(s.fail(from, ParseErrorKind::UnsupportedEscape)),
        };
    }
    if s.punct_at(from, limit, '#') && s.open_at(from + 1, limit, '(') {
        match s.group_close(from + 1, limit) {
            Some(close) => {
                if close == end - 1 {
                    if from + 2 >= close {
                        return Err(s.fail(from + 2, ParseErrorKind::ExpectedExpression));
                    }
                    let expr = Expr { source: s.span(from + 2, close) };
                    let escape_mode = Some(EscapeMode::Raw);
                    return Ok(
                        (
                            if maybe {
                                AttributeValue::Optional {
                                    expr: BracketedExpression { expr, escape_mode },
                                }
                            } else {
                                AttributeValue::Dynamic {
                                    expr: ParenthesizedExpression { expr, escape_mode },
                                }
                            },
                            end,
                        ),
                    );
                }
            },
            None => {},
        }
    }
    let expr = Expr { source: s.span(from, end) };
    Ok(
        (
            if maybe {
                AttributeValue::Optional { expr: BracketedExpression { expr, escape_mode: None } }
            } else {
                AttributeValue::Dynamic { expr: ParenthesizedExpression { expr, escape_mode: None } }
            },
            end,
        ),
    )
}

fn parse_listed_name_at(s: &Lexed, from: usize, limit: usize) -> (result: Result<
    AttributeName,
    ParseError,
>)
    requires
        s.wf(),
        limit <= s.tokens.len(),
    ensures
        match result {
            Ok(name) => listed_name_at(s.chars@, s.tokens@, from as int, limit as int) == Ok::<
                Seq<char>,
                ParseError,
            >(name@) && from < limit,
            Err(e) => listed_name_at(s.chars@, s.tokens@, from as int, limit as int) == Err::<
                Seq<char>,
                ParseError,
            >(e),
        },
{
    if s.kind_at(from, limit, TokenKind::Str) {
        match s.literal(from) {
            Some(name) => Ok(AttributeName { name }),
            None => Err(s.fail(from, ParseErrorKind::UnsupportedEscape)),
        }
    } else if s.kind_at(from, limit, TokenKind::Ident) {
        Ok(AttributeName { name: to_kebab_case(s.text(from).as_str()) })
    } else {
        Err(s.fail(from, ParseErrorKind::ExpectedAttributeName))
    }
}

/// The attribute, in a list in parentheses, that begins at the token
/// `from`.
pub fn parse_listed_attribute_at(s: &Lexed, from: usize, limit: usize) -> (result: Result<
    (Attribute, usize),
    ParseError,
>)
    requires
        s.wf(),
        limit <= s.tokens.len(),
    ensures
        match result {
            Ok((attribute, next)) => listed_attribute_at(
                s.chars@,
                s.tokens@,
                from as int,
                limit as int,
            ) == Ok::<(AttributeView, int), ParseError>((attribute@, next as int)) && from < next
                <= limit,
            Err(e) => listed_attribute_at(s.chars@, s.tokens@, from as int, limit as int) == Err::<
                (AttributeView, int),
                ParseError,
            >(e),
        },
{
    proof {
        reveal_strlit("attrs");
        assert("attrs"@ == word_attrs());
    }
    if s.punct_at(from, limit, '#') && s.word_at(from + 1, limit, "attrs") {
        return Ok((Attribute::Spread { expr: Expr { source: "attrs".to_owned() } }, from + 2));
    }
    if spread_begins_at(s, from, limit) {
        return parse_spread_at(s, from, limit);
    }
    let name = match parse_listed_name_at(s, from, limit) {
        Ok(name) => name,
        Err(e) => {
            return Err(e);
        },
    };
    let next = from + 1;
    if s.punct_at(next, limit, '?') && s.punct_at(next + 1, limit, ':') {
        match parse_listed_value_at(s, next + 2, limit, true) {
            Ok((value, after)) => Ok((Attribute::NameValue { name, value: Some(value) }, after)),
            Err(e) => Err(e),
        }
    } else if s.punct_at(next, limit, ':') {
        match parse_listed_value_at(s, next + 1, limit, false) {
            Ok((value, after)) => Ok((Attribute::NameValue { name, value: Some(value) }, after)),
            Err(e) => Err(e),
        }
    } else if s.punct_at(next, limit, '?') || s.punct_at(next, limit, '=') {
        match parse_attribute_value_at(s, next, limit) {
            Ok((value, after)) => Ok((Attribute::NameValue { name, value: Some(value) }, after)),
            Err(e) => Err(e),
        }
    } else {
        Ok((Attribute::NameValue { name, value: None }, next))
    }
}

fn list_ends_at(s: &Lexed, from: usize, limit: usize, style: ListStyle) -> (r: bool)
    requires
        s.wf(),
        limit <= s.tokens.len(),
    ensures
        r == list_ends(s.chars@, s.tokens@, from as int, limit as int, style),
{
    from >= limit || (style == ListStyle::Plain && (s.punct_at(from, limit, ';') || s.open_at(
        from,
        limit,
        '{',
    )))
}

fn parse_list_item(s: &Lexed, from: usize, limit: usize, style: ListStyle) -> (result: Result<
    (Attribute, usize),
    ParseError,
>)
    requires
        s.wf(),
        limit <= s.tokens.len(),
    ensures
        match result {
            Ok((attribute, after)) => list_item_at(
                s.chars@,
                s.tokens@,
                from as int,
                limit as int,
                style,
            ) == Ok::<(AttributeView, int), ParseError>((attribute@, after as int)) && from < after
                <= limit,
            Err(e) => list_item_at(s.chars@, s.tokens@, from as int, limit as int, style) == Err::<
                (AttributeView, int),
                ParseError,
            >(e),
        },
{
    let listed = match style {
        ListStyle::Listed => true,
        ListStyle::Separated => true,
        _ => false,
    };
    let one = if listed {
        parse_listed_attribute_at(s, from, limit)
    } else {
        parse_attribute_at(s, from, limit)
    };
    let (attribute, next) = match one {
        Ok(found) => found,
        Err(e) => {
            return Err(e);
        },
    };
    let separated = match style {
        ListStyle::Separated => true,
        _ => false,
    };
    if listed && s.punct_at(next, limit, ',') {
        Ok((attribute, next + 1))
    } else if separated && next < limit {
        Err(s.fail(next, ParseErrorKind::ExpectedAttributeSeparator))
    } else {
        Ok((attribute, next))
    }
}

/// The attributes from the token `from` on, and the token behind them.
pub fn parse_attributes_at(s: &Lexed, from: usize, limit: usize, style: ListStyle) -> (result:
    Result<(Vec<Attribute>, usize), ParseError>)
    requires
        s.wf(),
        from <= limit <= s.tokens.len(),
    ensures
        match result {
            Ok((attributes, next)) => attributes_at(
                s.chars@,
                s.tokens@,
                from as int,
                limit as int,
                style,
            ) == Ok::<(Seq<AttributeView>, int), ParseError>(
                (attributes_view(attributes@), next as int),
            ) && from <= next <= limit,
            Err(e) => attributes_at(s.chars@, s.tokens@, from as int, limit as int, style) == Err::<
                (Seq<AttributeView>, int),
                ParseError,
            >(e),
        },
{
    let ghost src = s.chars@;
    let ghost toks = s.tokens@;
    let mut attributes: Vec<Attribute> = Vec::new();
    let mut at = from;
    loop
        invariant
            s.wf(),
            src == s.chars@,
            toks == s.tokens@,
            from <= at <= limit <= s.tokens.len(),
            attributes_at(src, toks, from as int, limit as int, style) == attributes_then(
                attributes_view(attributes@),
                attributes_at(src, toks, at as int, limit as int, style),
            ),
        decreases limit - at,
    {
        if list_ends_at(s, at, limit, style) {
            proof {
                assert(attributes_view(attributes@) + Seq::<AttributeView>::empty()
                    == attributes_view(attributes@));
            }
            return Ok((attributes, at));
        }
        let (attribute, after) = match parse_list_item(s, at, limit, style) {
            Ok(found) => found,
            Err(e) => {
                return Err(e);
            },
        };
        proof {
            let rest = attributes_at(src, toks, after as int, limit as int, style);
            let before = attributes_view(attributes@);
            assert(attributes_view(attributes@.push(attribute)) == before.push(attribute@));
            match rest {
                Ok((more, end)) => {
                    assert(before + (seq![attribute@] + more) == before.push(attribute@) + more);
                },
                Err(_) => {},
            }
        }
        attributes.push(attribute);
        at = after;
    }
}

/// The attribute name that `source` spells.
pub open spec fn attribute_name_of(source: Seq<char>) -> Result<Seq<char>, ParseError> {
    match lexed_of(source) {
        Err(e) => Err(e),
        Ok(toks) => whole(source, toks, attribute_name_at(source, toks, 0, toks.len() as int)),
    }
}

/// Reads an attribute name, written without parentheses, that is all of
/// `source`.
pub fn parse_attribute_name(source: &str) -> (result: Result<AttributeName, ParseError>)
    ensures
        match result {
            Ok(name) => attribute_name_of(source@) == Ok::<Seq<char>, ParseError>(name@),
            Err(e) => attribute_name_of(source@) == Err::<Seq<char>, ParseError>(e),
        },
{
    let s = match lex(source) {
        Ok(s) => s,
        Err(e) => {
            return Err(e);
        },
    };
    match parse_attribute_name_at(&s, 0, s.tokens.len()) {
        Err(e) => Err(e),
        Ok((name, next)) => if next == s.tokens.len() {
            Ok(name)
        } else {
            Err(s.fail(next, ParseErrorKind::UnexpectedToken))
        },
    }
}

/// The attribute name that `source` begins with, and what of `source` is
/// left behind it.
pub open spec fn attribute_name_prefix_of(source: Seq<char>) -> Result<
    (Seq<char>, Seq<char>),
    ParseError,
> {
    match lexed_of(source) {
        Err(e) => Err(e),
        Ok(toks) => match attribute_name_at(source, toks, 0, toks.len() as int) {
            Err(e) => Err(e),
            Ok((name, next)) => Ok(
                (name, source.subrange(place(source, toks, next) as int, source.len() as int)),
            ),
        },
    }
}

/// Reads the attribute name, written without parentheses, that `source`
/// begins with, and hands back what is left of `source`.
pub fn parse_attribute_name_prefix(source: &str) -> (result: Result<
    (AttributeName, String),
    ParseError,
>)
    ensures
        match result {
            Ok((name, rest)) => attribute_name_prefix_of(source@) == Ok::<
                (Seq<char>, Seq<char>),
                ParseError,
            >((name@, rest@)),
            Err(e) => attribute_name_prefix_of(source@) == Err::<
                (Seq<char>, Seq<char>),
                ParseError,
            >(e),
        },
{
    let s = match lex(source) {
        Ok(s) => s,
        Err(e) => {
            return Err(e);
        },
    };
    match parse_attribute_name_at(&s, 0, s.tokens.len()) {
        Err(e) => Err(e),
        Ok((name, next)) => {
            let from = if next < s.tokens.len() {
                s.tokens[next].start
            } else {
                s.chars.len()
            };
            Ok((name, slice_to_string(&s.chars, from, s.chars.len())))
        },
    }
}

/// The attribute value that `source` spells.
pub open spec fn attribute_value_of(source: Seq<char>) -> Result<AttributeValueView, ParseError> {
    match lexed_of(source) {
        Err(e) => Err(e),
        Ok(toks) => whole(source, toks, attribute_value_at(source, toks, 0, toks.len() as int)),
    }
}

/// Reads an attribute value, as it is written behind a name without
/// parentheses, that is all of `source`.
pub fn parse_attribute_value(source: &str) -> (result: Result<AttributeValue, ParseError>)
    ensures
        match result {
            Ok(value) => attribute_value_of(source@) == Ok::<AttributeValueView, ParseError>(
                value@,
            ),
            Err(e) => attribute_value_of(source@) == Err::<AttributeValueView, ParseError>(e),
        },
{
    let s = match lex(source) {
        Ok(s) => s,
        Err(e) => {
            return Err(e);
        },
    };
    match parse_attribute_value_at(&s, 0, s.tokens.len()) {
        Err(e) => Err(e),
        Ok((value, next)) => if next == s.tokens.len() {
            Ok(value)
        } else {
            Err(s.fail(next, ParseErrorKind::UnexpectedToken))
        },
    }
}

/// The attribute that `source` spells.
pub open spec fn attribute_of(source: Seq<char>) -> Result<AttributeView, ParseError> {
    match lexed_of(source) {
        Err(e) => Err(e),
        Ok(toks) => whole(source, toks, attribute_at(source, toks, 0, toks.len() as int)),
    }
}

/// Reads an attribute, written without parentheses, that is all of
/// `source`.
pub fn parse_attribute(source: &str) -> (result: Result<Attribute, ParseError>)
    ensures
        match result {
            Ok(attribute) => attribute_of(source@) == Ok::<AttributeView, ParseError>(attribute@),
            Err(e) => attribute_of(source@) == Err::<AttributeView, ParseError>(e),
        },
{
    let s = match lex(source) {
        Ok(s) => s,
        Err(e) => {
            return Err(e);
        },
    };
    match parse_attribute_at(&s, 0, s.tokens.len()) {
        Err(e) => Err(e),
        Ok((attribute, next)) => if next == s.tokens.len() {
            Ok(attribute)
        } else {
            Err(s.fail(next, ParseErrorKind::UnexpectedToken))
        },
    }
}

/// The attributes that `source` spells, one behind the other.
pub open spec fn attributes_of(source: Seq<char>) -> Result<Seq<AttributeView>, ParseError> {
    match lexed_of(source) {
        Err(e) => Err(e),
        Ok(toks) => whole(
            source,
            toks,
            attributes_at(source, toks, 0, toks.len() as int, ListStyle::PlainToEnd),
        ),
    }
}

/// Reads a list of attributes, written without parentheses one behind the
/// other, that is all of `source`.
pub fn parse_attributes(source: &str) -> (result: Result<Vec<Attribute>, ParseError>)
    ensures
        match result {
            Ok(attributes) => attributes_of(source@) == Ok::<Seq<AttributeView>, ParseError>(
                attributes_view(attributes@),
            ),
            Err(e) => attributes_of(source@) == Err::<Seq<AttributeView>, ParseError>(e),
        },
{
    let s = match lex(source) {
        Ok(s) => s,
        Err(e) => {
            return Err(e);
        },
    };
    match parse_attributes_at(&s, 0, s.tokens.len(), ListStyle::PlainToEnd) {
        Err(e) => Err(e),
        Ok((attributes, next)) => if next == s.tokens.len() {
            Ok(attributes)
        } else {
            Err(s.fail(next, ParseErrorKind::UnexpectedToken))
        },
    }
}

/// The escape mode that `source` names.
pub open spec fn escape_mode_of(source: Seq<char>) -> Result<EscapeMode, ParseError> {
    match lexed_of(source) {
        Err(e) => Err(e),
        Ok(toks) => match escape_mode_at(source, toks, 0, toks.len() as int) {
            Err(e) => Err(e),
            Ok(mode) => if toks.len() == 1 {
                Ok(mode)
            } else {
                Err(failure(source, toks, 1, ParseErrorKind::UnexpectedToken))
            },
        },
    }
}

/// Reads an escape mode: `raw` or `html`.
pub fn parse_escape_mode(source: &str) -> (result: Result<EscapeMode, ParseError>)
    ensures
        result == escape_mode_of(source@),
{
    let s = match lex(source) {
        Ok(s) => s,
        Err(e) => {
            return Err(e);
        },
    };
    match parse_escape_mode_at(&s, 0, s.tokens.len()) {
        Err(e) => Err(e),
        Ok(mode) => if s.tokens.len() == 1 {
            Ok(mode)
        } else {
            Err(s.fail(1, ParseErrorKind::UnexpectedToken))
        },
    }
}

/// The expression in the delimiters `open` that `source` spells.
pub open spec fn delimited_of(source: Seq<char>, open: char) -> Result<ModedExpr, ParseError> {
    match lexed_of(source) {
        Err(e) => Err(e),
        Ok(toks) => if !open_at(source, toks, 0, toks.len() as int, open) {
            Err(failure(source, toks, 0, ParseErrorKind::ExpectedExpression))
        } else {
            whole(source, toks, group_expr(source, toks, 0, toks.len() as int))
        },
    }
}

fn parse_delimited(source: &str, open: char) -> (result: Result<
    (Expr, Option<EscapeMode>),
    ParseError,
>)
    ensures
        match result {
            Ok((expr, mode)) => delimited_of(source@, open) == Ok::<ModedExpr, ParseError>(
                ModedExpr { expr: expr@, escape_mode: mode },
            ),
            Err(e) => delimited_of(source@, open) == Err::<ModedExpr, ParseError>(e),
        },
{
    let s = match lex(source) {
        Ok(s) => s,
        Err(e) => {
            return Err(e);
        },
    };
    if !s.open_at(0, s.tokens.len(), open) {
        return Err(s.fail(0, ParseErrorKind::ExpectedExpression));
    }
    match parse_group_expr(&s, 0, s.tokens.len()) {
        Err(e) => Err(e),
        Ok((expr, mode, next)) => if next == s.tokens.len() {
            Ok((expr, mode))
        } else {
            Err(s.fail(next, ParseErrorKind::UnexpectedToken))
        },
    }
}

/// Reads `(expression)` or `(expression : mode)`.
pub fn parse_parenthesized_expression(source: &str) -> (result: Result<
    ParenthesizedExpression,
    ParseError,
>)
    ensures
        match result {
            Ok(expr) => delimited_of(source@, '(') == Ok::<ModedExpr, ParseError>(expr@),
            Err(e) => delimited_of(source@, '(') == Err::<ModedExpr, ParseError>(e),
        },
{
    match parse_delimited(source, '(') {
        Ok((expr, escape_mode)) => Ok(ParenthesizedExpression { expr, escape_mode }),
        Err(e) => Err(e),
    }
}

/// Reads `[expression]` or `[expression : mode]`.
pub fn parse_bracketed_expression(source: &str) -> (result: Result<
    BracketedExpression,
    ParseError,
>)
    ensures
        match result {
            Ok(expr) => delimited_of(source@, '[') == Ok::<ModedExpr, ParseError>(expr@),
            Err(e) => delimited_of(source@, '[') == Err::<ModedExpr, ParseError>(e),
        },
{
    match parse_delimited(source, '[') {
        Ok((expr, escape_mode)) => Ok(BracketedExpression { expr, escape_mode }),
        Err(e) => Err(e),
    }
}

} // verus!
