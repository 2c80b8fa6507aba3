//! The grammar of component definitions.
//!
//! A component is written like a function of the host language: what
//! stands before `fn`, a name, generic parameters, the declared parameters
//! in parentheses, a `where` clause, and a body of nodes. Apart from the
//! name, the names of the parameters and the body, all of it is host
//! language text, which is carried along.

use vstd::prelude::*;

use crate::ast::{
    definition_fields_view, ComponentDefinition, ComponentDefinitionField, DefinitionView, Expr,
    FieldView,
};
use crate::lexer::{Token, TokenKind};
use crate::parse::node::{body_at, parse_body_at};
use crate::parse::{
    close_index, failure, group_close, kind_at, lex, lexed_of, open_at, pair_at, punct_at,
    span_text, token_text, top_find, Lexed, ParseError, ParseErrorKind, Stop,
};

verus! {

/// Whether `>` at the token `i` closes angle brackets: it is no part of
/// `->` or `=>`.
pub open spec fn closes_angle(src: Seq<char>, toks: Seq<Token>, i: int, limit: int) -> bool {
    punct_at(src, toks, i, limit, '>') && !pair_at(src, toks, i - 1, limit, '-', '>') && !pair_at(
        src,
        toks,
        i - 1,
        limit,
        '=',
        '>',
    )
}

/// Where the type that begins at the token `from` ends: at the first comma
/// outside of every group and of all angle brackets, or at `limit`.
pub open spec fn type_end(src: Seq<char>, toks: Seq<Token>, from: int, limit: int, depth: nat) -> int
    decreases limit - from,
{
    if from >= limit || from < 0 || limit > toks.len() {
        limit
    } else if depth == 0 && punct_at(src, toks, from, limit, ',') {
        from
    } else if toks[from].kind == TokenKind::Open {
        let close = close_index(toks, from + 1, limit, 0);
        if from < close < limit {
            type_end(src, toks, close + 1, limit, depth)
        } else {
            limit
        }
    } else if punct_at(src, toks, from, limit, '<') {
        type_end(src, toks, from + 1, limit, depth + 1)
    } else if closes_angle(src, toks, from, limit) && depth > 0 {
        type_end(src, toks, from + 1, limit, (depth - 1) as nat)
    } else {
        type_end(src, toks, from + 1, limit, depth)
    }
}

/// The declared parameters from the token `from` to `limit`: each a name,
/// `:` and a type, with commas between them.
pub open spec fn declared_fields_in(src: Seq<char>, toks: Seq<Token>, from: int, limit: int) -> Result<
    Seq<FieldView>,
    ParseError,
>
    decreases limit - from,
{
    if from >= limit || from < 0 {
        Ok(Seq::empty())
    } else if !kind_at(toks, from, limit, TokenKind::Ident) {
        Err(failure(src, toks, from, ParseErrorKind::ExpectedName))
    } else if !punct_at(src, toks, from + 1, limit, ':') {
        Err(failure(src, toks, from + 1, ParseErrorKind::ExpectedColon))
    } else {
        let end = type_end(src, toks, from + 2, limit, 0);
        if end <= from + 2 || end > limit {
            Err(failure(src, toks, from + 2, ParseErrorKind::ExpectedExpression))
        } else {
            let field = FieldView {
                ident: token_text(src, toks, from),
                value: span_text(src, toks, from + 2, end),
            };
            let next = if end < limit {
                end + 1
            } else {
                end
            };
            match declared_fields_in(src, toks, next, limit) {
                Ok(rest) => Ok(seq![field] + rest),
                Err(e) => Err(e),
            }
        }
    }
}

/// `found` in front of the parameters that `rest` found.
pub open spec fn declared_then(found: Seq<FieldView>, rest: Result<Seq<FieldView>, ParseError>) -> Result<
    Seq<FieldView>,
    ParseError,
> {
    match rest {
        Ok(more) => Ok(found + more),
        Err(e) => Err(e),
    }
}

/// The declared parameters in the group that the token `open` opens, if a
/// group begins there, and the token behind them.
pub open spec fn parameters_at(src: Seq<char>, toks: Seq<Token>, open: int, limit: int) -> Result<
    (Seq<FieldView>, int),
    ParseError,
> {
    if !open_at(src, toks, open, limit, '(') {
        Ok((Seq::empty(), open))
    } else {
        match group_close(src, toks, open, limit) {
            None => Err(failure(src, toks, open, ParseErrorKind::UnbalancedDelimiter)),
            Some(close) => match declared_fields_in(src, toks, open + 1, close) {
                Ok(fields) => Ok((fields, close + 1)),
                Err(e) => Err(e),
            },
        }
    }
}

/// The component definition that the tokens `from..limit` spell.
pub open spec fn definition_at(src: Seq<char>, toks: Seq<Token>, from: int, limit: int) -> Result<
    DefinitionView,
    ParseError,
> {
    let keyword = top_find(src, toks, from, limit, Stop::Fn);
    let signature = top_find(src, toks, keyword + 2, limit, Stop::Signature);
    if !(from <= keyword < limit) {
        Err(failure(src, toks, limit, ParseErrorKind::ExpectedFn))
    } else if !kind_at(toks, keyword + 1, limit, TokenKind::Ident) {
        Err(failure(src, toks, keyword + 1, ParseErrorKind::ExpectedName))
    } else {
        match parameters_at(src, toks, signature, limit) {
            Err(e) => Err(e),
            Ok((fields, next)) => {
                let brace = top_find(src, toks, next, limit, Stop::Brace);
                match body_at(src, toks, brace, limit) {
                    Err(e) => Err(e),
                    Ok((body, end)) => if end != limit {
                        Err(failure(src, toks, end, ParseErrorKind::UnexpectedToken))
                    } else {
                        Ok(
                            DefinitionView {
                                prelude: span_text(src, toks, from, keyword),
                                ident: token_text(src, toks, keyword + 1),
                                generics: span_text(src, toks, keyword + 2, signature),
                                fields,
                                where_clause: span_text(src, toks, next, brace),
                                body,
                            },
                        )
                    },
                }
            },
        }
    }
}

/// The component definition that `source` spells.
pub open spec fn definition_of(source: Seq<char>) -> Result<DefinitionView, ParseError> {
    match lexed_of(source) {
        Err(e) => Err(e),
        Ok(toks) => definition_at(source, toks, 0, toks.len() as int),
    }
}

fn is_angle_close(s: &Lexed, i: usize, limit: usize) -> (r: bool)
    requires
        s.wf(),
        limit <= s.tokens.len(),
    ensures
        r == closes_angle(s.chars@, s.tokens@, i as int, limit as int),
{
    if !s.punct_at(i, limit, '>') {
        false
    } else if i > 0 && (s.pair_at(i - 1, limit, '-', '>') || s.pair_at(i - 1, limit, '=', '>')) {
        false
    } else {
        true
    }
}

fn find_type_end(s: &Lexed, from: usize, limit: usize) -> (end: usize)
    requires
        s.wf(),
        from <= limit <= s.tokens.len(),
    ensures
        end == type_end(s.chars@, s.tokens@, from as int, limit as int, 0),
        from <= end <= limit,
{
    let mut at = from;
    let mut depth: usize = 0;
    while at < limit
        invariant
            s.wf(),
            from <= at <= limit <= s.tokens.len(),
            depth <= at - from,
            type_end(s.chars@, s.tokens@, at as int, limit as int, depth as nat) == type_end(
                s.chars@,
                s.tokens@,
                from as int,
                limit as int,
                0,
            ),
        decreases limit - at,
    {
        if depth == 0 && s.punct_at(at, limit, ',') {
            return at;
        }
        if s.tokens[at].kind == TokenKind::Open {
            let close = s.close_index(at + 1, limit);
            if close < limit {
                at = close + 1;
            } else {
                return limit;
            }
        } else if s.punct_at(at, limit, '<') {
            depth += 1;
            at += 1;
        } else if is_angle_close(s, at, limit) && depth > 0 {
            depth -= 1;
            at += 1;
        } else {
            at += 1;
        }
    }
    limit
}

fn parse_declared_fields_in(s: &Lexed, from: usize, limit: usize) -> (result: Result<
    Vec<ComponentDefinitionField>,
    ParseError,
>)
    requires
        s.wf(),
        from <= limit <= s.tokens.len(),
    ensures
        match result {
            Ok(fields) => declared_fields_in(s.chars@, s.tokens@, from as int, limit as int)
                == Ok::<Seq<FieldView>, ParseError>(definition_fields_view(fields@)),
            Err(e) => declared_fields_in(s.chars@, s.tokens@, from as int, limit as int) == Err::<
                Seq<FieldView>,
                ParseError,
            >(e),
        },
{
    let ghost src = s.chars@;
    let ghost toks = s.tokens@;
    let mut fields: Vec<ComponentDefinitionField> = Vec::new();
    let mut at = from;
    while at < limit
        invariant
            s.wf(),
            src == s.chars@,
            toks == s.tokens@,
            from <= at <= limit <= s.tokens.len(),
            declared_fields_in(src, toks, from as int, limit as int) == declared_then(
                definition_fields_view(fields@),
                declared_fields_in(src, toks, at as int, limit as int),
            ),
        decreases limit - at,
    {
        if !s.kind_at(at, limit, TokenKind::Ident) {
            return Err(s.fail(at, ParseErrorKind::ExpectedName));
        }
        if !s.punct_at(at + 1, limit, ':') {
            return Err(s.fail(at + 1, ParseErrorKind::ExpectedColon));
        }
        let end = find_type_end(s, at + 2, limit);
        if end <= at + 2 {
            return Err(s.fail(at + 2, ParseErrorKind::ExpectedExpression));
        }
        let field = ComponentDefinitionField {
            ident: s.text(at),
            ty: Expr { source: s.span(at + 2, end) },
        };
        let next = if end < limit {
            end + 1
        } else {
            end
        };
        proof {
            let before = definition_fields_view(fields@);
            let rest = declared_fields_in(src, toks, next as int, limit as int);
            assert(definition_fields_view(fields@.push(field)) == before.push(field@));
            match rest {
                Ok(more) => {
                    assert(before + (seq![field@] + more) == before.push(field@) + more);
                },
                Err(_) => {},
            }
        }
        fields.push(field);
        at = next;
    }
    proof {
        assert(definition_fields_view(fields@) + Seq::<FieldView>::empty()
            == definition_fields_view(fields@));
    }
    Ok(fields)
}

fn parse_parameters_at(s: &Lexed, open: usize, limit: usize) -> (result: Result<
    (Vec<ComponentDefinitionField>, usize),
    ParseError,
>)
    requires
        s.wf(),
        open <= limit <= s.tokens.len(),
    ensures
        match result {
            Ok((fields, next)) => parameters_at(s.chars@, s.tokens@, open as int, limit as int)
                == Ok::<(Seq<FieldView>, int), ParseError>(
                (definition_fields_view(fields@), next as int),
            ) && open <= next <= limit,
            Err(e) => parameters_at(s.chars@, s.tokens@, open as int, limit as int) == Err::<
                (Seq<FieldView>, int),
                ParseError,
            >(e),
        },
{
    if !s.open_at(open, limit, '(') {
        let fields: Vec<ComponentDefinitionField> = Vec::new();
        assert(definition_fields_view(fields@) == Seq::<FieldView>::empty());
        return Ok((fields, open));
    }
    match s.group_close(open, limit) {
        None => Err(s.fail(open, ParseErrorKind::UnbalancedDelimiter)),
        Some(close) => match parse_declared_fields_in(s, open + 1, close) {
            Ok(fields) => Ok((fields, close + 1)),
            Err(e) => Err(e),
        },
    }
}

/// Reads the definition of a component.
pub fn parse_component(source: &str) -> (result: Result<ComponentDefinition, ParseError>)
    ensures
        match result {
            Ok(definition) => definition_of(source@) == Ok::<DefinitionView, ParseError>(
                definition@,
            ),
            Err(e) => definition_of(source@) == Err::<DefinitionView, ParseError>(e),
        },
{
    let s = match lex(source) {
        Ok(s) => s,
        Err(e) => {
            return Err(e);
        },
    };
    let limit = s.tokens.len();
    let keyword = s.top_find(0, limit, Stop::Fn);
    if keyword >= limit {
        return Err(s.fail(limit, ParseErrorKind::ExpectedFn));
    }
    if !s.kind_at(keyword + 1, limit, TokenKind::Ident) {
        return Err(s.fail(keyword + 1, ParseErrorKind::ExpectedName));
    }
    let signature = s.top_find(keyword + 2, limit, Stop::Signature);
    let (fields, next) = match parse_parameters_at(&s, signature, limit) {
        Ok(found) => found,
        Err(e) => {
            return Err(e);
        },
    };
    let brace = s.top_find(next, limit, Stop::Brace);
    let (body, end) = match parse_body_at(&s, brace, limit) {
        Ok(found) => found,
        Err(e) => {
            return Err(e);
        },
    };
    if end != limit {
        return Err(s.fail(end, ParseErrorKind::UnexpectedToken));
    }
    Ok(
        ComponentDefinition {
            prelude: Expr { source: s.span(0, keyword) },
            ident: s.text(keyword + 1),
            generics: Expr { source: s.span(keyword + 2, signature) },
            fields,
            where_clause: Expr { source: s.span(next, brace) },
            body,
        },
    )
}

} // verus!
