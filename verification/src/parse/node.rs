//! The grammar of nodes.

use vstd::prelude::*;
use vstd::string::StringExecFns;

use crate::ast::{
    arm_view, arms_view, attributes_view, call_fields_view, call_view, for_view, if_view,
    match_view, node_view, nodes_view, tag_view, ArmView, Attribute, AttributeView, CallView,
    ComponentCall, ComponentCallField, Element, ElseBranch, ElseView, Expr, FieldView, ForLoop,
    ForView, IfCondition, IfView, LetBinding, LetView, MatchArm, MatchExpression, MatchView,
    ModedExpr, Node, NodeView, ParenthesizedExpression, TagView,
};
use crate::escape::EscapeMode;
use crate::formatter::{is_void_element, is_void_name};
use crate::lexer::{Token, TokenKind};
use crate::parse::attribute::{
    attributes_at, group_expr, group_text, parse_attributes_at, parse_group_expr, parse_group_text,
    ListStyle,
};
use crate::parse::{
    failure, group_close, kebab_name, kind_at, lex, lexed_of, literal_value, open_at, pair_at,
    punct_at, span_text, to_kebab_case, token_text, top_find, whole, word_at, Lexed, ParseError,
    ParseErrorKind, Stop,
};

verus! {

/// The word `let`.
pub open spec fn word_let() -> Seq<char> {
    seq!['l', 'e', 't']
}

/// The word `else`.
pub open spec fn word_else() -> Seq<char> {
    seq!['e', 'l', 's', 'e']
}

/// The word `for`.
pub open spec fn word_for() -> Seq<char> {
    seq!['f', 'o', 'r']
}

/// The word `match`.
pub open spec fn word_match() -> Seq<char> {
    seq!['m', 'a', 't', 'c', 'h']
}

/// The word `doctype`.
pub open spec fn word_doctype() -> Seq<char> {
    seq!['d', 'o', 'c', 't', 'y', 'p', 'e']
}

/// The word `children`.
pub open spec fn word_children() -> Seq<char> {
    seq!['c', 'h', 'i', 'l', 'd', 'r', 'e', 'n']
}

/// What follows the first identifier of an element name, from the token
/// `from` on: hyphens, each with an identifier behind it.
pub open spec fn element_name_tail(src: Seq<char>, toks: Seq<Token>, from: int, limit: int) -> Result<
    (Seq<char>, int),
    ParseError,
>
    decreases limit - from,
{
    if !punct_at(src, toks, from, limit, '-') {
        Ok((Seq::empty(), from))
    } else if !kind_at(toks, from + 1, limit, TokenKind::Ident) {
        Err(failure(src, toks, from + 1, ParseErrorKind::ElementNameEndsWithHyphen))
    } else {
        match element_name_tail(src, toks, from + 2, limit) {
            Ok((rest, next)) => Ok(
                (seq!['-'] + kebab_name(token_text(src, toks, from + 1)) + rest, next),
            ),
            Err(e) => Err(e),
        }
    }
}

/// The element name that begins at the token `from`: identifiers, each in
/// kebab case, joined by hyphens.
pub open spec fn element_name_at(src: Seq<char>, toks: Seq<Token>, from: int, limit: int) -> Result<
    (Seq<char>, int),
    ParseError,
> {
    if !kind_at(toks, from, limit, TokenKind::Ident) {
        Err(failure(src, toks, from, ParseErrorKind::ExpectedElementName))
    } else {
        crate::parse::attribute::tail_then(
            kebab_name(token_text(src, toks, from)),
            element_name_tail(src, toks, from + 1, limit),
        )
    }
}

/// The `let` that begins at the token `from`: a pattern, with `=` and an
/// expression or without, up to `;`.
pub open spec fn let_at(src: Seq<char>, toks: Seq<Token>, from: int, limit: int) -> Result<
    (LetView, int),
    ParseError,
> {
    let semi = top_find(src, toks, from + 1, limit, Stop::Semicolon);
    let assign = top_find(src, toks, from + 1, semi, Stop::Assign);
    if !(from + 1 <= semi < limit) {
        Err(failure(src, toks, limit, ParseErrorKind::ExpectedSemicolon))
    } else if assign <= from + 1 {
        Err(failure(src, toks, from + 1, ParseErrorKind::ExpectedExpression))
    } else if assign >= semi {
        Ok((LetView { pattern: span_text(src, toks, from + 1, semi), expr: None }, semi + 1))
    } else if assign + 1 >= semi {
        Err(failure(src, toks, assign + 1, ParseErrorKind::ExpectedExpression))
    } else {
        Ok(
            (
                LetView {
                    pattern: span_text(src, toks, from + 1, assign),
                    expr: Some(span_text(src, toks, assign + 1, semi)),
                },
                semi + 1,
            ),
        )
    }
}

/// The path that begins at the token `from`: identifiers joined by `::`.
pub open spec fn path_end(src: Seq<char>, toks: Seq<Token>, from: int, limit: int) -> int
    decreases limit - from,
{
    if !kind_at(toks, from, limit, TokenKind::Ident) {
        from
    } else if pair_at(src, toks, from + 1, limit, ':', ':') && kind_at(
        toks,
        from + 3,
        limit,
        TokenKind::Ident,
    ) {
        path_end(src, toks, from + 3, limit)
    } else {
        from + 1
    }
}

/// The parameters of a call from the token `from` on, up to `;` or the end,
/// and the token behind them.
pub open spec fn fields_in(src: Seq<char>, toks: Seq<Token>, from: int, limit: int) -> Result<
    (Seq<FieldView>, int),
    ParseError,
>
    decreases limit - from,
{
    if from >= limit || from < 0 {
        Ok((Seq::empty(), from))
    } else if !kind_at(toks, from, limit, TokenKind::Ident) {
        Err(failure(src, toks, from, ParseErrorKind::ExpectedName))
    } else if !punct_at(src, toks, from + 1, limit, ':') {
        Err(failure(src, toks, from + 1, ParseErrorKind::ExpectedColon))
    } else {
        let end = top_find(src, toks, from + 2, limit, Stop::CommaOrSemicolon);
        if end <= from + 2 || end > limit {
            Err(failure(src, toks, from + 2, ParseErrorKind::ExpectedExpression))
        } else {
            let field = FieldView {
                ident: token_text(src, toks, from),
                value: span_text(src, toks, from + 2, end),
            };
            if punct_at(src, toks, end, limit, ',') {
                match fields_in(src, toks, end + 1, limit) {
                    Ok((rest, next)) => Ok((seq![field] + rest, next)),
                    Err(e) => Err(e),
                }
            } else if punct_at(src, toks, end, limit, ';') {
                Ok((seq![field], end + 1))
            } else {
                Ok((seq![field], end))
            }
        }
    }
}

/// `found` in front of the parameters that `rest` found.
pub open spec fn fields_then(found: Seq<FieldView>, rest: Result<(Seq<FieldView>, int), ParseError>) -> Result<
    (Seq<FieldView>, int),
    ParseError,
> {
    match rest {
        Ok((more, next)) => Ok((found + more, next)),
        Err(e) => Err(e),
    }
}

/// The parameters and the extra attributes of a call, which stand in the
/// group that the token `open` opens: parameters first; behind a `;`, the
/// attributes.
pub open spec fn call_arguments(src: Seq<char>, toks: Seq<Token>, open: int, limit: int) -> Result<
    (Seq<FieldView>, Seq<AttributeView>, int),
    ParseError,
> {
    match group_close(src, toks, open, limit) {
        None => Err(failure(src, toks, open, ParseErrorKind::UnbalancedDelimiter)),
        Some(close) => {
            let fields = if punct_at(src, toks, open + 1, close, ';') {
                Ok((Seq::empty(), open + 2))
            } else {
                fields_in(src, toks, open + 1, close)
            };
            match fields {
                Err(e) => Err(e),
                Ok((fields, next)) => if !(open < next <= close) {
                    Err(failure(src, toks, next, ParseErrorKind::UnexpectedToken))
                } else {
                    match attributes_at(src, toks, next, close, ListStyle::Separated) {
                        Err(e) => Err(e),
                        Ok((attributes, end)) => Ok((fields, attributes, close + 1)),
                    }
                },
            }
        },
    }
}

/// Where the `else` of a conditional continues, if `else` or `@else`
/// stands at the token `from`.
pub open spec fn else_at(src: Seq<char>, toks: Seq<Token>, from: int, limit: int) -> Option<int> {
    if word_at(src, toks, from, limit, word_else()) {
        Some(from + 1)
    } else if punct_at(src, toks, from, limit, '@') && word_at(
        src,
        toks,
        from + 1,
        limit,
        word_else(),
    ) {
        Some(from + 2)
    } else {
        None
    }
}

/// The nodes in the group of braces that the token `open` opens, and the
/// token behind the group.
pub open spec fn body_at(src: Seq<char>, toks: Seq<Token>, open: int, limit: int) -> Result<
    (Seq<NodeView>, int),
    ParseError,
>
    decreases limit - open, 0nat,
{
    if !open_at(src, toks, open, limit, '{') {
        Err(failure(src, toks, open, ParseErrorKind::ExpectedBody))
    } else {
        match group_close(src, toks, open, limit) {
            None => Err(failure(src, toks, open, ParseErrorKind::UnbalancedDelimiter)),
            Some(close) => if !(0 <= open < close < limit) {
                Err(failure(src, toks, open, ParseErrorKind::UnbalancedDelimiter))
            } else {
                match nodes_in(src, toks, open + 1, close) {
                    Ok(nodes) => Ok((nodes, close + 1)),
                    Err(e) => Err(e),
                }
            },
        }
    }
}

/// The host-language text from the token `from` to the first `{` outside
/// of every group, which must not be empty, and the place of that `{`.
pub open spec fn head_at(src: Seq<char>, toks: Seq<Token>, from: int, limit: int) -> Result<
    (Seq<char>, int),
    ParseError,
> {
    let brace = top_find(src, toks, from, limit, Stop::Brace);
    if brace <= from {
        Err(failure(src, toks, from, ParseErrorKind::ExpectedExpression))
    } else if brace >= limit {
        Err(failure(src, toks, limit, ParseErrorKind::ExpectedBody))
    } else {
        Ok((span_text(src, toks, from, brace), brace))
    }
}

/// The conditional whose `if` stands at the token `from`.
pub open spec fn if_at(src: Seq<char>, toks: Seq<Token>, from: int, limit: int) -> Result<
    (IfView, int),
    ParseError,
>
    decreases limit - from, 1nat,
{
    match head_at(src, toks, from + 1, limit) {
        Err(e) => Err(e),
        Ok((condition, brace)) => if !(from < brace < limit) {
            Err(failure(src, toks, from, ParseErrorKind::UnexpectedToken))
        } else {
            match body_at(src, toks, brace, limit) {
                Err(e) => Err(e),
                Ok((then_branch, after)) => match else_at(src, toks, after, limit) {
                    None => Ok((IfView { condition, then_branch, else_branch: None }, after)),
                    Some(next) => if word_at(src, toks, next, limit, crate::parse::word_if()) {
                        if !(from < next < limit) {
                            Err(failure(src, toks, from, ParseErrorKind::UnexpectedToken))
                        } else {
                            match if_at(src, toks, next, limit) {
                                Err(e) => Err(e),
                                Ok((inner, end)) => Ok(
                                    (
                                        IfView {
                                            condition,
                                            then_branch,
                                            else_branch: Some(ElseView::If(Box::new(inner))),
                                        },
                                        end,
                                    ),
                                ),
                            }
                        }
                    } else if !(from < next) {
                        Err(failure(src, toks, from, ParseErrorKind::UnexpectedToken))
                    } else {
                        match body_at(src, toks, next, limit) {
                            Err(e) => Err(e),
                            Ok((nodes, end)) => Ok(
                                (
                                    IfView {
                                        condition,
                                        then_branch,
                                        else_branch: Some(ElseView::Else(nodes)),
                                    },
                                    end,
                                ),
                            ),
                        }
                    },
                },
            }
        },
    }
}

/// The loop whose `for` stands at the token `from`.
pub open spec fn for_at(src: Seq<char>, toks: Seq<Token>, from: int, limit: int) -> Result<
    (ForView, int),
    ParseError,
>
    decreases limit - from, 1nat,
{
    let word = top_find(src, toks, from + 1, limit, Stop::In);
    if word <= from + 1 {
        Err(failure(src, toks, from + 1, ParseErrorKind::ExpectedExpression))
    } else if word >= limit {
        Err(failure(src, toks, limit, ParseErrorKind::ExpectedIn))
    } else {
        match head_at(src, toks, word + 1, limit) {
            Err(e) => Err(e),
            Ok((expression, brace)) => if !(from < brace < limit) {
                Err(failure(src, toks, from, ParseErrorKind::UnexpectedToken))
            } else {
                match body_at(src, toks, brace, limit) {
                    Err(e) => Err(e),
                    Ok((body, after)) => Ok(
                        (
                            ForView {
                                pattern: span_text(src, toks, from + 1, word),
                                expression,
                                body,
                            },
                            after,
                        ),
                    ),
                }
            },
        }
    }
}

/// The pattern and the guard of a match arm that begins at the token
/// `from`, and the place of its `=>`.
pub open spec fn arm_head_at(src: Seq<char>, toks: Seq<Token>, from: int, limit: int) -> Result<
    (Seq<char>, Option<Seq<char>>, int),
    ParseError,
> {
    let stop = top_find(src, toks, from, limit, Stop::IfOrArrow);
    if stop <= from {
        Err(failure(src, toks, from, ParseErrorKind::ExpectedExpression))
    } else if stop >= limit {
        Err(failure(src, toks, limit, ParseErrorKind::ExpectedArrow))
    } else if word_at(src, toks, stop, limit, crate::parse::word_if()) {
        let arrow = top_find(src, toks, stop + 1, limit, Stop::Arrow);
        if arrow <= stop + 1 {
            Err(failure(src, toks, stop + 1, ParseErrorKind::ExpectedExpression))
        } else if arrow >= limit {
            Err(failure(src, toks, limit, ParseErrorKind::ExpectedArrow))
        } else {
            Ok(
                (
                    span_text(src, toks, from, stop),
                    Some(span_text(src, toks, stop + 1, arrow)),
                    arrow,
                ),
            )
        }
    } else {
        Ok((span_text(src, toks, from, stop), None, stop))
    }
}

/// The match arm that begins at the token `from`, and the token behind it
/// and behind the comma that may follow it.
pub open spec fn arm_at(src: Seq<char>, toks: Seq<Token>, from: int, limit: int) -> Result<
    (ArmView, int),
    ParseError,
>
    decreases limit - from, 2nat,
{
    match arm_head_at(src, toks, from, limit) {
        Err(e) => Err(e),
        Ok((pattern, guard, arrow)) => if !(from < arrow && arrow + 2 <= limit) {
            Err(failure(src, toks, arrow, ParseErrorKind::UnexpectedToken))
        } else {
            match node_at(src, toks, arrow + 2, limit) {
                Err(e) => Err(e),
                Ok((body, next)) => Ok(
                    (
                        ArmView { pattern, guard, body: Box::new(body) },
                        if punct_at(src, toks, next, limit, ',') {
                            next + 1
                        } else {
                            next
                        },
                    ),
                ),
            }
        },
    }
}

/// The match arms from the token `from` to `limit`.
pub open spec fn arms_in(src: Seq<char>, toks: Seq<Token>, from: int, limit: int) -> Result<
    Seq<ArmView>,
    ParseError,
>
    decreases limit - from, 3nat,
{
    if from >= limit || from < 0 {
        Ok(Seq::empty())
    } else {
        match arm_at(src, toks, from, limit) {
            Err(e) => Err(e),
            Ok((arm, next)) => if !(from < next <= limit) {
                Err(failure(src, toks, from, ParseErrorKind::UnexpectedToken))
            } else {
                match arms_in(src, toks, next, limit) {
                    Ok(rest) => Ok(seq![arm] + rest),
                    Err(e) => Err(e),
                }
            },
        }
    }
}

/// `found` in front of the arms that `rest` found.
pub open spec fn arms_then(found: Seq<ArmView>, rest: Result<Seq<ArmView>, ParseError>) -> Result<
    Seq<ArmView>,
    ParseError,
> {
    match rest {
        Ok(more) => Ok(found + more),
        Err(e) => Err(e),
    }
}

/// The match whose `match` stands at the token `from`.
pub open spec fn match_at(src: Seq<char>, toks: Seq<Token>, from: int, limit: int) -> Result<
    (MatchView, int),
    ParseError,
>
    decreases limit - from, 1nat,
{
    match head_at(src, toks, from + 1, limit) {
        Err(e) => Err(e),
        Ok((expression, brace)) => match group_close(src, toks, brace, limit) {
            None => Err(failure(src, toks, brace, ParseErrorKind::UnbalancedDelimiter)),
            Some(close) => if !(from < brace < close < limit) {
                Err(failure(src, toks, from, ParseErrorKind::UnexpectedToken))
            } else {
                match arms_in(src, toks, brace + 1, close) {
                    Err(e) => Err(e),
                    Ok(arms) => Ok((MatchView { expression, arms }, close + 1)),
                }
            },
        },
    }
}

/// The call of a component whose `@` stands at the token `from`.
pub open spec fn call_at(src: Seq<char>, toks: Seq<Token>, from: int, limit: int) -> Result<
    (CallView, int),
    ParseError,
>
    decreases limit - from, 1nat,
{
    let end = path_end(src, toks, from + 1, limit);
    if end <= from + 1 {
        Err(failure(src, toks, from + 1, ParseErrorKind::ExpectedName))
    } else {
        let arguments = if open_at(src, toks, end, limit, '(') {
            call_arguments(src, toks, end, limit)
        } else {
            Ok((Seq::empty(), Seq::empty(), end))
        };
        match arguments {
            Err(e) => Err(e),
            Ok((fields, attributes, next)) => if !(from < next <= limit) {
                Err(failure(src, toks, from, ParseErrorKind::UnexpectedToken))
            } else {
                match body_at(src, toks, next, limit) {
                    Err(e) => Err(e),
                    Ok((children, after)) => Ok(
                        (
                            CallView {
                                path: span_text(src, toks, from + 1, end),
                                fields,
                                attributes,
                                children,
                            },
                            after,
                        ),
                    ),
                }
            },
        }
    }
}

/// The attributes of an element, which begin at the token `from`: a list
/// in parentheses, or attributes one behind the other.
pub open spec fn element_attributes_at(src: Seq<char>, toks: Seq<Token>, from: int, limit: int) -> Result<
    (Seq<AttributeView>, int),
    ParseError,
> {
    if open_at(src, toks, from, limit, '(') {
        match group_close(src, toks, from, limit) {
            None => Err(failure(src, toks, from, ParseErrorKind::UnbalancedDelimiter)),
            Some(close) => match attributes_at(src, toks, from + 1, close, ListStyle::Listed) {
                Err(e) => Err(e),
                Ok((attributes, end)) => Ok((attributes, close + 1)),
            },
        }
    } else {
        attributes_at(src, toks, from, limit, ListStyle::Plain)
    }
}

/// The element that begins at the token `from`.
///
/// A void element ends with `;` and has no children; every other element
/// has a body in braces.
pub open spec fn element_at(src: Seq<char>, toks: Seq<Token>, from: int, limit: int) -> Result<
    (TagView, int),
    ParseError,
>
    decreases limit - from, 1nat,
{
    match element_name_at(src, toks, from, limit) {
        Err(e) => Err(e),
        Ok((name, next)) => match element_attributes_at(src, toks, next, limit) {
            Err(e) => Err(e),
            Ok((attributes, after)) => if is_void_name(name) {
                if punct_at(src, toks, after, limit, ';') {
                    Ok(
                        (
                            TagView { name, is_void: true, attributes, children: Seq::empty() },
                            after + 1,
                        ),
                    )
                } else {
                    Err(failure(src, toks, after, ParseErrorKind::ExpectedSemicolonAfterVoid))
                }
            } else if !open_at(src, toks, after, limit, '{') {
                Err(failure(src, toks, after, ParseErrorKind::ExpectedElementBody))
            } else if !(from < after) {
                Err(failure(src, toks, from, ParseErrorKind::UnexpectedToken))
            } else {
                match body_at(src, toks, after, limit) {
                    Err(e) => Err(e),
                    Ok((children, end)) => Ok(
                        (TagView { name, is_void: false, attributes, children }, end),
                    ),
                }
            },
        },
    }
}

/// What follows `#` at the token `from`: an expression in parentheses whose
/// value is written as it stands, `doctype`, or `children`.
pub open spec fn pound_at(src: Seq<char>, toks: Seq<Token>, from: int, limit: int) -> Result<
    (NodeView, int),
    ParseError,
> {
    if open_at(src, toks, from + 1, limit, '(') {
        match group_text(src, toks, from + 1, limit) {
            Ok((expr, next)) => Ok(
                (
                    NodeView::Expression(ModedExpr { expr, escape_mode: Some(EscapeMode::Raw) }),
                    next,
                ),
            ),
            Err(e) => Err(e),
        }
    } else if word_at(src, toks, from + 1, limit, word_doctype()) {
        Ok((NodeView::Doctype, from + 2))
    } else if word_at(src, toks, from + 1, limit, word_children()) {
        Ok((NodeView::Children, from + 2))
    } else {
        Err(failure(src, toks, from + 1, ParseErrorKind::InvalidAfterPound))
    }
}

/// Which rule of the grammar a node begins with.
#[derive(Debug, Clone, Copy, PartialEq, Eq, Structural)]
pub enum NodeKind {
    /// No token is left.
    End,
    Text,
    Expression,
    Fragment,
    /// What begins with `#`.
    Pound,
    Let,
    /// A conditional, a loop or a match, with the place of its keyword.
    If(usize),
    For(usize),
    Match(usize),
    Embed,
    Call,
    Element,
}

/// Which rule of the grammar the node at the token `from` begins with.
pub open spec fn node_kind(src: Seq<char>, toks: Seq<Token>, from: int, limit: int) -> NodeKind {
    let keyword = if punct_at(src, toks, from, limit, '@') {
        from + 1
    } else {
        from
    };
    if !(0 <= from < limit <= toks.len()) {
        NodeKind::End
    } else if kind_at(toks, from, limit, TokenKind::Str) {
        NodeKind::Text
    } else if open_at(src, toks, from, limit, '(') {
        NodeKind::Expression
    } else if open_at(src, toks, from, limit, '{') {
        NodeKind::Fragment
    } else if punct_at(src, toks, from, limit, '#') {
        NodeKind::Pound
    } else if word_at(src, toks, from, limit, word_let()) {
        NodeKind::Let
    } else if word_at(src, toks, keyword, limit, crate::parse::word_if()) {
        NodeKind::If(keyword as usize)
    } else if word_at(src, toks, keyword, limit, word_for()) {
        NodeKind::For(keyword as usize)
    } else if word_at(src, toks, keyword, limit, word_match()) {
        NodeKind::Match(keyword as usize)
    } else if punct_at(src, toks, from, limit, '@') {
        if open_at(src, toks, from + 1, limit, '(') {
            NodeKind::Embed
        } else {
            NodeKind::Call
        }
    } else {
        NodeKind::Element
    }
}

/// The node that begins at the token `from`, and the token behind it.
pub open spec fn node_at(src: Seq<char>, toks: Seq<Token>, from: int, limit: int) -> Result<
    (NodeView, int),
    ParseError,
>
    decreases limit - from, 2nat,
{
    match node_kind(src, toks, from, limit) {
        NodeKind::End => Err(failure(src, toks, from, ParseErrorKind::UnexpectedToken)),
        NodeKind::Text => match literal_value(src, toks[from]) {
            Some(text) => Ok((NodeView::Text(text), from + 1)),
            None => Err(failure(src, toks, from, ParseErrorKind::UnsupportedEscape)),
        },
        NodeKind::Expression => match group_expr(src, toks, from, limit) {
            Ok((expr, next)) => Ok((NodeView::Expression(expr), next)),
            Err(e) => Err(e),
        },
        NodeKind::Fragment => match body_at(src, toks, from, limit) {
            Ok((nodes, next)) => Ok((NodeView::Fragment(nodes), next)),
            Err(e) => Err(e),
        },
        NodeKind::Pound => pound_at(src, toks, from, limit),
        NodeKind::Let => match let_at(src, toks, from, limit) {
            Ok((binding, next)) => Ok((NodeView::LetBinding(binding), next)),
            Err(e) => Err(e),
        },
        NodeKind::If(keyword) => if !(from <= keyword < limit) {
            Err(failure(src, toks, from, ParseErrorKind::UnexpectedToken))
        } else {
            match if_at(src, toks, keyword as int, limit) {
                Ok((condition, next)) => Ok((NodeView::IfCondition(condition), next)),
                Err(e) => Err(e),
            }
        },
        NodeKind::For(keyword) => if !(from <= keyword < limit) {
            Err(failure(src, toks, from, ParseErrorKind::UnexpectedToken))
        } else {
            match for_at(src, toks, keyword as int, limit) {
                Ok((for_loop, next)) => Ok((NodeView::ForLoop(for_loop), next)),
                Err(e) => Err(e),
            }
        },
        NodeKind::Match(keyword) => if !(from <= keyword < limit) {
            Err(failure(src, toks, from, ParseErrorKind::UnexpectedToken))
        } else {
            match match_at(src, toks, keyword as int, limit) {
                Ok((matching, next)) => Ok((NodeView::MatchExpression(matching), next)),
                Err(e) => Err(e),
            }
        },
        NodeKind::Embed => match group_text(src, toks, from + 1, limit) {
            Ok((expr, next)) => Ok((NodeView::HtmlDisplay(expr), next)),
            Err(e) => Err(e),
        },
        NodeKind::Call => match call_at(src, toks, from, limit) {
            Ok((call, next)) => Ok((NodeView::ComponentCall(call), next)),
            Err(e) => Err(e),
        },
        NodeKind::Element => match element_at(src, toks, from, limit) {
            Ok((element, next)) => Ok((NodeView::Element(element), next)),
            Err(e) => Err(e),
        },
    }
}

/// The nodes from the token `from` to `limit`.
pub open spec fn nodes_in(src: Seq<char>, toks: Seq<Token>, from: int, limit: int) -> Result<
    Seq<NodeView>,
    ParseError,
>
    decreases limit - from, 3nat,
{
    if from >= limit || from < 0 {
        Ok(Seq::empty())
    } else {
        match node_at(src, toks, from, limit) {
            Err(e) => Err(e),
            Ok((node, next)) => if !(from < next <= limit) {
                Err(failure(src, toks, from, ParseErrorKind::UnexpectedToken))
            } else {
                match nodes_in(src, toks, next, limit) {
                    Ok(rest) => Ok(seq![node] + rest),
                    Err(e) => Err(e),
                }
            },
        }
    }
}

/// `found` in front of the nodes that `rest` found.
pub open spec fn nodes_then(found: Seq<NodeView>, rest: Result<Seq<NodeView>, ParseError>) -> Result<
    Seq<NodeView>,
    ParseError,
> {
    match rest {
        Ok(more) => Ok(found + more),
        Err(e) => Err(e),
    }
}

/// The nodes that `source` spells.
pub open spec fn template_of(source: Seq<char>) -> Result<Seq<NodeView>, ParseError> {
    match lexed_of(source) {
        Err(e) => Err(e),
        Ok(toks) => nodes_in(source, toks, 0, toks.len() as int),
    }
}

/// The element name that begins at the token `from`.
pub fn parse_element_name_at(s: &Lexed, from: usize, limit: usize) -> (result: Result<
    (String, usize),
    ParseError,
>)
    requires
        s.wf(),
        limit <= s.tokens.len(),
    ensures
        match result {
            Ok((name, next)) => element_name_at(s.chars@, s.tokens@, from as int, limit as int)
                == Ok::<(Seq<char>, int), ParseError>((name@, next as int)) && from < next
                <= limit,
            Err(e) => element_name_at(s.chars@, s.tokens@, from as int, limit as int) == Err::<
                (Seq<char>, int),
                ParseError,
            >(e),
        },
{
    let ghost src = s.chars@;
    let ghost toks = s.tokens@;
    if !s.kind_at(from, limit, TokenKind::Ident) {
        return Err(s.fail(from, ParseErrorKind::ExpectedElementName));
    }
    let mut name = to_kebab_case(s.text(from).as_str());
    let ghost head = name@;
    let mut at = from + 1;
    loop
        invariant
            s.wf(),
            src == s.chars@,
            toks == s.tokens@,
            from < at <= limit <= s.tokens.len(),
            element_name_at(src, toks, from as int, limit as int)
                == crate::parse::attribute::tail_then(
                name@,
                element_name_tail(src, toks, at as int, limit as int),
            ),
        decreases limit - at,
    {
        if !s.punct_at(at, limit, '-') {
            proof {
                assert(name@ + Seq::<char>::empty() == name@);
            }
            return Ok((name, at));
        }
        if !s.kind_at(at + 1, limit, TokenKind::Ident) {
            return Err(s.fail(at + 1, ParseErrorKind::ElementNameEndsWithHyphen));
        }
        let ghost before = name@;
        let part = to_kebab_case(s.text(at + 1).as_str());
        name.push('-');
        name.append(part.as_str());
        proof {
            let rest = element_name_tail(src, toks, at + 2, limit as int);
            match rest {
                Ok((more, next)) => {
                    assert(before + (seq!['-'] + part@ + more) == name@ + more);
                },
                Err(_) => {},
            }
        }
        at += 2;
    }
}

/// The `let` that begins at the token `from`.
pub fn parse_let_at(s: &Lexed, from: usize, limit: usize) -> (result: Result<
    (LetBinding, usize),
    ParseError,
>)
    requires
        s.wf(),
        from < limit <= s.tokens.len(),
    ensures
        match result {
            Ok((binding, next)) => let_at(s.chars@, s.tokens@, from as int, limit as int) == Ok::<
                (LetView, int),
                ParseError,
            >((binding@, next as int)) && from < next <= limit,
            Err(e) => let_at(s.chars@, s.tokens@, from as int, limit as int) == Err::<
                (LetView, int),
                ParseError,
            >(e),
        },
{
    let semi = s.top_find(from + 1, limit, Stop::Semicolon);
    let assign = s.top_find(from + 1, semi, Stop::Assign);
    if semi >= limit {
        Err(s.fail(limit, ParseErrorKind::ExpectedSemicolon))
    } else if assign <= from + 1 {
        Err(s.fail(from + 1, ParseErrorKind::ExpectedExpression))
    } else if assign >= semi {
        Ok((LetBinding { pattern: Expr { source: s.span(from + 1, semi) }, expr: None }, semi + 1))
    } else if assign + 1 >= semi {
        Err(s.fail(assign + 1, ParseErrorKind::ExpectedExpression))
    } else {
        Ok(
            (
                LetBinding {
                    pattern: Expr { source: s.span(from + 1, assign) },
                    expr: Some(Expr { source: s.span(assign + 1, semi) }),
                },
                semi + 1,
            ),
        )
    }
}

fn find_path_end(s: &Lexed, from: usize, limit: usize) -> (end: usize)
    requires
        s.wf(),
        from <= limit <= s.tokens.len(),
    ensures
        end == path_end(s.chars@, s.tokens@, from as int, limit as int),
        from <= end <= limit,
{
    let mut at = from;
    loop
        invariant
            s.wf(),
            from <= at <= limit <= s.tokens.len(),
            path_end(s.chars@, s.tokens@, at as int, limit as int) == path_end(
                s.chars@,
                s.tokens@,
                from as int,
                limit as int,
            ),
        decreases limit - at,
    {
        if !s.kind_at(at, limit, TokenKind::Ident) {
            return at;
        }
        if s.pair_at(at + 1, limit, ':', ':') && s.kind_at(at + 3, limit, TokenKind::Ident) {
            at += 3;
        } else {
            return at + 1;
        }
    }
}

fn parse_fields_in(s: &Lexed, from: usize, limit: usize) -> (result: Result<
    (Vec<ComponentCallField>, usize),
    ParseError,
>)
    requires
        s.wf(),
        from <= limit <= s.tokens.len(),
    ensures
        match result {
            Ok((fields, next)) => fields_in(s.chars@, s.tokens@, from as int, limit as int) == Ok::<
                (Seq<FieldView>, int),
                ParseError,
            >((call_fields_view(fields@), next as int)) && from <= next <= limit,
            Err(e) => fields_in(s.chars@, s.tokens@, from as int, limit as int) == Err::<
                (Seq<FieldView>, int),
                ParseError,
            >(e),
        },
{
    let ghost src = s.chars@;
    let ghost toks = s.tokens@;
    let mut fields: Vec<ComponentCallField> = Vec::new();
    let mut at = from;
    loop
        invariant
            s.wf(),
            src == s.chars@,
            toks == s.tokens@,
            from <= at <= limit <= s.tokens.len(),
            fields_in(src, toks, from as int, limit as int) == fields_then(
                call_fields_view(fields@),
                fields_in(src, toks, at as int, limit as int),
            ),
        decreases limit - at,
    {
        if at >= limit {
            proof {
                assert(call_fields_view(fields@) + Seq::<FieldView>::empty() == call_fields_view(
                    fields@,
                ));
            }
            return Ok((fields, at));
        }
        if !s.kind_at(at, limit, TokenKind::Ident) {
            return Err(s.fail(at, ParseErrorKind::ExpectedName));
        }
        if !s.punct_at(at + 1, limit, ':') {
            return Err(s.fail(at + 1, ParseErrorKind::ExpectedColon));
        }
        let end = s.top_find(at + 2, limit, Stop::CommaOrSemicolon);
        if end <= at + 2 {
            return Err(s.fail(at + 2, ParseErrorKind::ExpectedExpression));
        }
        let field = ComponentCallField {
            ident: s.text(at),
            value: Expr { source: s.span(at + 2, end) },
        };
        let ghost before = call_fields_view(fields@);
        proof {
            assert(call_fields_view(fields@.push(field)) == before.push(field@));
            assert(before + seq![field@] == before.push(field@));
        }
        if s.punct_at(end, limit, ',') {
            proof {
                let rest = fields_in(src, toks, end + 1, limit as int);
                match rest {
                    Ok((more, next)) => {
                        assert(before + (seq![field@] + more) == before.push(field@) + more);
                    },
                    Err(_) => {},
                }
            }
            fields.push(field);
            at = end + 1;
        } else if s.punct_at(end, limit, ';') {
            fields.push(field);
            return Ok((fields, end + 1));
        } else {
            fields.push(field);
            return Ok((fields, end));
        }
    }
}

fn parse_call_arguments(s: &Lexed, open: usize, limit: usize) -> (result: Result<
    (Vec<ComponentCallField>, Vec<Attribute>, usize),
    ParseError,
>)
    requires
        s.wf(),
        limit <= s.tokens.len(),
    ensures
        match result {
            Ok((fields, attributes, next)) => call_arguments(
                s.chars@,
                s.tokens@,
                open as int,
                limit as int,
            ) == Ok::<(Seq<FieldView>, Seq<AttributeView>, int), ParseError>(
                (call_fields_view(fields@), attributes_view(attributes@), next as int),
            ) && open < next <= limit,
            Err(e) => call_arguments(s.chars@, s.tokens@, open as int, limit as int) == Err::<
                (Seq<FieldView>, Seq<AttributeView>, int),
                ParseError,
            >(e),
        },
{
    let close = match s.group_close(open, limit) {
        Some(close) => close,
        None => {
            return Err(s.fail(open, ParseErrorKind::UnbalancedDelimiter));
        },
    };
    let (fields, next) = if s.punct_at(open + 1, close, ';') {
        let none: Vec<ComponentCallField> = Vec::new();
        assert(call_fields_view(none@) == Seq::<FieldView>::empty());
        (none, open + 2)
    } else {
        match parse_fields_in(s, open + 1, close) {
            Ok(found) => found,
            Err(e) => {
                return Err(e);
            },
        }
    };
    match parse_attributes_at(s, next, close, ListStyle::Separated) {
        Err(e) => Err(e),
        Ok((attributes, end)) => Ok((fields, attributes, close + 1)),
    }
}

fn find_else(s: &Lexed, from: usize, limit: usize) -> (next: Option<usize>)
    requires
        s.wf(),
        limit <= s.tokens.len(),
    ensures
        match next {
            Some(n) => else_at(s.chars@, s.tokens@, from as int, limit as int) == Some(n as int)
                && from < n <= limit,
            None => else_at(s.chars@, s.tokens@, from as int, limit as int) is None,
        },
{
    proof {
        reveal_strlit("else");
        assert("else"@ == word_else());
    }
    if s.word_at(from, limit, "else") {
        Some(from + 1)
    } else if s.punct_at(from, limit, '@') && s.word_at(from + 1, limit, "else") {
        Some(from + 2)
    } else {
        None
    }
}

fn parse_head_at(s: &Lexed, from: usize, limit: usize) -> (result: Result<
    (Expr, usize),
    ParseError,
>)
    requires
        s.wf(),
        from <= limit <= s.tokens.len(),
    ensures
        match result {
            Ok((expr, brace)) => head_at(s.chars@, s.tokens@, from as int, limit as int) == Ok::<
                (Seq<char>, int),
                ParseError,
            >((expr@, brace as int)) && from < brace < limit,
            Err(e) => head_at(s.chars@, s.tokens@, from as int, limit as int) == Err::<
                (Seq<char>, int),
                ParseError,
            >(e),
        },
{
    let brace = s.top_find(from, limit, Stop::Brace);
    if brace <= from {
        Err(s.fail(from, ParseErrorKind::ExpectedExpression))
    } else if brace >= limit {
        Err(s.fail(limit, ParseErrorKind::ExpectedBody))
    } else {
        Ok((Expr { source: s.span(from, brace) }, brace))
    }
}

fn parse_arm_head_at(s: &Lexed, from: usize, limit: usize) -> (result: Result<
    (Expr, Option<Expr>, usize),
    ParseError,
>)
    requires
        s.wf(),
        from <= limit <= s.tokens.len(),
    ensures
        match result {
            Ok((pattern, guard, arrow)) => arm_head_at(
                s.chars@,
                s.tokens@,
                from as int,
                limit as int,
            ) == Ok::<(Seq<char>, Option<Seq<char>>, int), ParseError>(
                (pattern@, crate::ast::optional_expr_view(guard), arrow as int),
            ) && from < arrow < limit,
            Err(e) => arm_head_at(s.chars@, s.tokens@, from as int, limit as int) == Err::<
                (Seq<char>, Option<Seq<char>>, int),
                ParseError,
            >(e),
        },
{
    proof {
        reveal_strlit("if");
        assert("if"@ == crate::parse::word_if());
    }
    let stop = s.top_find(from, limit, Stop::IfOrArrow);
    if stop <= from {
        Err(s.fail(from, ParseErrorKind::ExpectedExpression))
    } else if stop >= limit {
        Err(s.fail(limit, ParseErrorKind::ExpectedArrow))
    } else if s.word_at(stop, limit, "if") {
        let arrow = s.top_find(stop + 1, limit, Stop::Arrow);
        if arrow <= stop + 1 {
            Err(s.fail(stop + 1, ParseErrorKind::ExpectedExpression))
        } else if arrow >= limit {
            Err(s.fail(limit, ParseErrorKind::ExpectedArrow))
        } else {
            Ok(
                (
                    Expr { source: s.span(from, stop) },
                    Some(Expr { source: s.span(stop + 1, arrow) }),
                    arrow,
                ),
            )
        }
    } else {
        Ok((Expr { source: s.span(from, stop) }, None, stop))
    }
}

fn parse_element_attributes_at(s: &Lexed, from: usize, limit: usize) -> (result: Result<
    (Vec<Attribute>, usize),
    ParseError,
>)
    requires
        s.wf(),
        from <= limit <= s.tokens.len(),
    ensures
        match result {
            Ok((attributes, next)) => element_attributes_at(
                s.chars@,
                s.tokens@,
                from as int,
                limit as int,
            ) == Ok::<(Seq<AttributeView>, int), ParseError>(
                (attributes_view(attributes@), next as int),
            ) && from <= next <= limit,
            Err(e) => element_attributes_at(s.chars@, s.tokens@, from as int, limit as int) == Err::<
                (Seq<AttributeView>, int),
                ParseError,
            >(e),
        },
{
    if s.open_at(from, limit, '(') {
        match s.group_close(from, limit) {
            None => Err(s.fail(from, ParseErrorKind::UnbalancedDelimiter)),
            Some(close) => match parse_attributes_at(s, from + 1, close, ListStyle::Listed) {
                Err(e) => Err(e),
                Ok((attributes, end)) => Ok((attributes, close + 1)),
            },
        }
    } else {
        parse_attributes_at(s, from, limit, ListStyle::Plain)
    }
}

fn parse_pound_at(s: &Lexed, from: usize, limit: usize) -> (result: Result<
    (Node, usize),
    ParseError,
>)
    requires
        s.wf(),
        from < limit <= s.tokens.len(),
    ensures
        match result {
            Ok((node, next)) => pound_at(s.chars@, s.tokens@, from as int, limit as int) == Ok::<
                (NodeView, int),
                ParseError,
            >((node_view(node), next as int)) && from < next <= limit,
            Err(e) => pound_at(s.chars@, s.tokens@, from as int, limit as int) == Err::<
                (NodeView, int),
                ParseError,
            >(e),
        },
{
    proof {
        reveal_strlit("doctype");
        reveal_strlit("children");
        assert("doctype"@ == word_doctype());
        assert("children"@ == word_children());
    }
    if s.open_at(from + 1, limit, '(') {
        match parse_group_text(s, from + 1, limit) {
            Ok((expr, next)) => Ok(
                (
                    Node::Expression(
                        ParenthesizedExpression { expr, escape_mode: Some(EscapeMode::Raw) },
                    ),
                    next,
                ),
            ),
            Err(e) => Err(e),
        }
    } else if s.word_at(from + 1, limit, "doctype") {
        Ok((Node::Doctype, from + 2))
    } else if s.word_at(from + 1, limit, "children") {
        Ok((Node::Children, from + 2))
    } else {
        Err(s.fail(from + 1, ParseErrorKind::InvalidAfterPound))
    }
}

fn find_node_kind(s: &Lexed, from: usize, limit: usize) -> (kind: NodeKind)
    requires
        s.wf(),
        limit <= s.tokens.len(),
    ensures
        kind == node_kind(s.chars@, s.tokens@, from as int, limit as int),
{
    proof {
        reveal_strlit("let");
        reveal_strlit("if");
        reveal_strlit("for");
        reveal_strlit("match");
        assert("let"@ == word_let());
        assert("if"@ == crate::parse::word_if());
        assert("for"@ == word_for());
        assert("match"@ == word_match());
    }
    if from >= limit {
        return NodeKind::End;
    }
    let keyword = if s.punct_at(from, limit, '@') {
        from + 1
    } else {
        from
    };
    if s.kind_at(from, limit, TokenKind::Str) {
        NodeKind::Text
    } else if s.open_at(from, limit, '(') {
        NodeKind::Expression
    } else if s.open_at(from, limit, '{') {
        NodeKind::Fragment
    } else if s.punct_at(from, limit, '#') {
        NodeKind::Pound
    } else if s.word_at(from, limit, "let") {
        NodeKind::Let
    } else if s.word_at(keyword, limit, "if") {
        NodeKind::If(keyword)
    } else if s.word_at(keyword, limit, "for") {
        NodeKind::For(keyword)
    } else if s.word_at(keyword, limit, "match") {
        NodeKind::Match(keyword)
    } else if s.punct_at(from, limit, '@') {
        if s.open_at(from + 1, limit, '(') {
            NodeKind::Embed
        } else {
            NodeKind::Call
        }
    } else {
        NodeKind::Element
    }
}

/// The nodes in the group of braces that the token `open` opens.
pub fn parse_body_at(s: &Lexed, open: usize, limit: usize) -> (result: Result<
    (Vec<Node>, usize),
    ParseError,
>)
    requires
        s.wf(),
        limit <= s.tokens.len(),
    ensures
        match result {
            Ok((nodes, next)) => body_at(s.chars@, s.tokens@, open as int, limit as int) == Ok::<
                (Seq<NodeView>, int),
                ParseError,
            >((nodes_view(nodes@), next as int)) && open < next <= limit,
            Err(e) => body_at(s.chars@, s.tokens@, open as int, limit as int) == Err::<
                (Seq<NodeView>, int),
                ParseError,
            >(e),
        },
    decreases limit - open, 0nat,
{
    if !s.open_at(open, limit, '{') {
        return Err(s.fail(open, ParseErrorKind::ExpectedBody));
    }
    match s.group_close(open, limit) {
        None => Err(s.fail(open, ParseErrorKind::UnbalancedDelimiter)),
        Some(close) => match parse_nodes_in(s, open + 1, close) {
            Ok(nodes) => Ok((nodes, close + 1)),
            Err(e) => Err(e),
        },
    }
}

/// The conditional whose `if` stands at the token `from`.
pub fn parse_if_at(s: &Lexed, from: usize, limit: usize) -> (result: Result<
    (IfCondition, usize),
    ParseError,
>)
    requires
        s.wf(),
        from < limit <= s.tokens.len(),
    ensures
        match result {
            Ok((condition, next)) => if_at(s.chars@, s.tokens@, from as int, limit as int) == Ok::<
                (IfView, int),
                ParseError,
            >((if_view(condition), next as int)) && from < next <= limit,
            Err(e) => if_at(s.chars@, s.tokens@, from as int, limit as int) == Err::<
                (IfView, int),
                ParseError,
            >(e),
        },
    decreases limit - from, 1nat,
{
    proof {
        reveal_strlit("if");
        assert("if"@ == crate::parse::word_if());
    }
    let (condition, brace) = match parse_head_at(s, from + 1, limit) {
        Ok(found) => found,
        Err(e) => {
            return Err(e);
        },
    };
    let (then_branch, after) = match parse_body_at(s, brace, limit) {
        Ok(found) => found,
        Err(e) => {
            return Err(e);
        },
    };
    match find_else(s, after, limit) {
        None => Ok((IfCondition { condition, then_branch, else_branch: None }, after)),
        Some(next) => if s.word_at(next, limit, "if") {
            match parse_if_at(s, next, limit) {
                Err(e) => Err(e),
                Ok((inner, end)) => Ok(
                    (
                        IfCondition {
                            condition,
                            then_branch,
                            else_branch: Some(ElseBranch::If(Box::new(inner))),
                        },
                        end,
                    ),
                ),
            }
        } else {
            match parse_body_at(s, next, limit) {
                Err(e) => Err(e),
                Ok((nodes, end)) => Ok(
                    (
                        IfCondition {
                            condition,
                            then_branch,
                            else_branch: Some(ElseBranch::Else(nodes)),
                        },
                        end,
                    ),
                ),
            }
        },
    }
}

/// The loop whose `for` stands at the token `from`.
pub fn parse_for_at(s: &Lexed, from: usize, limit: usize) -> (result: Result<
    (ForLoop, usize),
    ParseError,
>)
    requires
        s.wf(),
        from < limit <= s.tokens.len(),
    ensures
        match result {
            Ok((for_loop, next)) => for_at(s.chars@, s.tokens@, from as int, limit as int) == Ok::<
                (ForView, int),
                ParseError,
            >((for_view(for_loop), next as int)) && from < next <= limit,
            Err(e) => for_at(s.chars@, s.tokens@, from as int, limit as int) == Err::<
                (ForView, int),
                ParseError,
            >(e),
        },
    decreases limit - from, 1nat,
{
    let word = s.top_find(from + 1, limit, Stop::In);
    if word <= from + 1 {
        return Err(s.fail(from + 1, ParseErrorKind::ExpectedExpression));
    }
    if word >= limit {
        return Err(s.fail(limit, ParseErrorKind::ExpectedIn));
    }
    let (expression, brace) = match parse_head_at(s, word + 1, limit) {
        Ok(found) => found,
        Err(e) => {
            return Err(e);
        },
    };
    match parse_body_at(s, brace, limit) {
        Err(e) => Err(e),
        Ok((body, after)) => Ok(
            (ForLoop { pattern: Expr { source: s.span(from + 1, word) }, expression, body }, after),
        ),
    }
}

/// The match arm that begins at the token `from`.
pub fn parse_arm_at(s: &Lexed, from: usize, limit: usize) -> (result: Result<
    (MatchArm, usize),
    ParseError,
>)
    requires
        s.wf(),
        from < limit <= s.tokens.len(),
    ensures
        match result {
            Ok((arm, next)) => arm_at(s.chars@, s.tokens@, from as int, limit as int) == Ok::<
                (ArmView, int),
                ParseError,
            >((arm_view(arm), next as int)) && from < next <= limit,
            Err(e) => arm_at(s.chars@, s.tokens@, from as int, limit as int) == Err::<
                (ArmView, int),
                ParseError,
            >(e),
        },
    decreases limit - from, 2nat,
{
    let (pattern, guard, arrow) = match parse_arm_head_at(s, from, limit) {
        Ok(found) => found,
        Err(e) => {
            return Err(e);
        },
    };
    if limit - arrow < 2 {
        return Err(s.fail(arrow, ParseErrorKind::UnexpectedToken));
    }
    match parse_node_at(s, arrow + 2, limit) {
        Err(e) => Err(e),
        Ok((body, next)) => {
            let after = if s.punct_at(next, limit, ',') {
                next + 1
            } else {
                next
            };
            Ok((MatchArm { pattern, guard, body }, after))
        },
    }
}

/// The match arms from the token `from` to `limit`.
pub fn parse_arms_in(s: &Lexed, from: usize, limit: usize) -> (result: Result<
    Vec<MatchArm>,
    ParseError,
>)
    requires
        s.wf(),
        from <= limit <= s.tokens.len(),
    ensures
        match result {
            Ok(arms) => arms_in(s.chars@, s.tokens@, from as int, limit as int) == Ok::<
                Seq<ArmView>,
                ParseError,
            >(arms_view(arms@)),
            Err(e) => arms_in(s.chars@, s.tokens@, from as int, limit as int) == Err::<
                Seq<ArmView>,
                ParseError,
            >(e),
        },
    decreases limit - from, 3nat,
{
    let ghost src = s.chars@;
    let ghost toks = s.tokens@;
    let mut arms: Vec<MatchArm> = Vec::new();
    let mut at = from;
    while at < limit
        invariant
            s.wf(),
            src == s.chars@,
            toks == s.tokens@,
            from <= at <= limit <= s.tokens.len(),
            arms_in(src, toks, from as int, limit as int) == arms_then(
                arms_view(arms@),
                arms_in(src, toks, at as int, limit as int),
            ),
        decreases limit - at,
    {
        let (arm, next) = match parse_arm_at(s, at, limit) {
            Ok(found) => found,
            Err(e) => {
                return Err(e);
            },
        };
        proof {
            let rest = arms_in(src, toks, next as int, limit as int);
            let before = arms_view(arms@);
            assert(arms@.push(arm).drop_last() == arms@);
            assert(arms_view(arms@.push(arm)) == before.push(arm_view(arm)));
            match rest {
                Ok(more) => {
                    assert(before + (seq![arm_view(arm)] + more) == before.push(arm_view(arm))
                        + more);
                },
                Err(_) => {},
            }
        }
        arms.push(arm);
        at = next;
    }
    proof {
        assert(arms_view(arms@) + Seq::<ArmView>::empty() == arms_view(arms@));
    }
    Ok(arms)
}

/// The match whose `match` stands at the token `from`.
pub fn parse_match_at(s: &Lexed, from: usize, limit: usize) -> (result: Result<
    (MatchExpression, usize),
    ParseError,
>)
    requires
        s.wf(),
        from < limit <= s.tokens.len(),
    ensures
        match result {
            Ok((matching, next)) => match_at(s.chars@, s.tokens@, from as int, limit as int)
                == Ok::<(MatchView, int), ParseError>((match_view(matching), next as int)) && from
                < next <= limit,
            Err(e) => match_at(s.chars@, s.tokens@, from as int, limit as int) == Err::<
                (MatchView, int),
                ParseError,
            >(e),
        },
    decreases limit - from, 1nat,
{
    let (expression, brace) = match parse_head_at(s, from + 1, limit) {
        Ok(found) => found,
        Err(e) => {
            return Err(e);
        },
    };
    match s.group_close(brace, limit) {
        None => Err(s.fail(brace, ParseErrorKind::UnbalancedDelimiter)),
        Some(close) => match parse_arms_in(s, brace + 1, close) {
            Err(e) => Err(e),
            Ok(arms) => Ok((MatchExpression { expression, arms }, close + 1)),
        },
    }
}

/// The call of a component whose `@` stands at the token `from`.
pub fn parse_call_at(s: &Lexed, from: usize, limit: usize) -> (result: Result<
    (ComponentCall, usize),
    ParseError,
>)
    requires
        s.wf(),
        from < limit <= s.tokens.len(),
    ensures
        match result {
            Ok((call, next)) => call_at(s.chars@, s.tokens@, from as int, limit as int) == Ok::<
                (CallView, int),
                ParseError,
            >((call_view(call), next as int)) && from < next <= limit,
            Err(e) => call_at(s.chars@, s.tokens@, from as int, limit as int) == Err::<
                (CallView, int),
                ParseError,
            >(e),
        },
    decreases limit - from, 1nat,
{
    let end = find_path_end(s, from + 1, limit);
    if end <= from + 1 {
        return Err(s.fail(from + 1, ParseErrorKind::ExpectedName));
    }
    let (fields, attributes, next) = if s.open_at(end, limit, '(') {
        match parse_call_arguments(s, end, limit) {
            Ok(found) => found,
            Err(e) => {
                return Err(e);
            },
        }
    } else {
        let fields: Vec<ComponentCallField> = Vec::new();
        let attributes: Vec<Attribute> = Vec::new();
        assert(call_fields_view(fields@) == Seq::<FieldView>::empty());
        assert(attributes_view(attributes@) == Seq::<AttributeView>::empty());
        (fields, attributes, end)
    };
    match parse_body_at(s, next, limit) {
        Err(e) => Err(e),
        Ok((children, after)) => Ok(
            (ComponentCall { path: s.span(from + 1, end), fields, attributes, children }, after),
        ),
    }
}

/// The element that begins at the token `from`.
pub fn parse_element_at(s: &Lexed, from: usize, limit: usize) -> (result: Result<
    (Element, usize),
    ParseError,
>)
    requires
        s.wf(),
        from < limit <= s.tokens.len(),
    ensures
        match result {
            Ok((element, next)) => element_at(s.chars@, s.tokens@, from as int, limit as int)
                == Ok::<(TagView, int), ParseError>((tag_view(element), next as int)) && from
                < next <= limit,
            Err(e) => element_at(s.chars@, s.tokens@, from as int, limit as int) == Err::<
                (TagView, int),
                ParseError,
            >(e),
        },
    decreases limit - from, 1nat,
{
    let (name, next) = match parse_element_name_at(s, from, limit) {
        Ok(found) => found,
        Err(e) => {
            return Err(e);
        },
    };
    let (attributes, after) = match parse_element_attributes_at(s, next, limit) {
        Ok(found) => found,
        Err(e) => {
            return Err(e);
        },
    };
    if is_void_element(name.as_str()) {
        if s.punct_at(after, limit, ';') {
            let children: Vec<Node> = Vec::new();
            assert(nodes_view(children@) == Seq::<NodeView>::empty());
            Ok((Element { name, is_void: true, attributes, children }, after + 1))
        } else {
            Err(s.fail(after, ParseErrorKind::ExpectedSemicolonAfterVoid))
        }
    } else if !s.open_at(after, limit, '{') {
        Err(s.fail(after, ParseErrorKind::ExpectedElementBody))
    } else {
        match parse_body_at(s, after, limit) {
            Err(e) => Err(e),
            Ok((children, end)) => Ok((Element { name, is_void: false, attributes, children }, end)),
        }
    }
}

/// The node that begins at the token `from`, and the token behind it.
pub fn parse_node_at(s: &Lexed, from: usize, limit: usize) -> (result: Result<
    (Node, usize),
    ParseError,
>)
    requires
        s.wf(),
        limit <= s.tokens.len(),
    ensures
        match result {
            Ok((node, next)) => node_at(s.chars@, s.tokens@, from as int, limit as int) == Ok::<
                (NodeView, int),
                ParseError,
            >((node_view(node), next as int)) && from < next <= limit,
            Err(e) => node_at(s.chars@, s.tokens@, from as int, limit as int) == Err::<
                (NodeView, int),
                ParseError,
            >(e),
        },
    decreases limit - from, 2nat,
{
    match find_node_kind(s, from, limit) {
        NodeKind::End => Err(s.fail(from, ParseErrorKind::UnexpectedToken)),
        NodeKind::Text => match s.literal(from) {
            Some(text) => Ok((Node::Text(text), from + 1)),
            None => Err(s.fail(from, ParseErrorKind::UnsupportedEscape)),
        },
        NodeKind::Expression => match parse_group_expr(s, from, limit) {
            Ok((expr, escape_mode, next)) => Ok(
                (Node::Expression(ParenthesizedExpression { expr, escape_mode }), next),
            ),
            Err(e) => Err(e),
        },
        NodeKind::Fragment => match parse_body_at(s, from, limit) {
            Ok((nodes, next)) => Ok((Node::Fragment(nodes), next)),
            Err(e) => Err(e),
        },
        NodeKind::Pound => parse_pound_at(s, from, limit),
        NodeKind::Let => match parse_let_at(s, from, limit) {
            Ok((binding, next)) => Ok((Node::LetBinding(binding), next)),
            Err(e) => Err(e),
        },
        NodeKind::If(keyword) => match parse_if_at(s, keyword, limit) {
            Ok((condition, next)) => Ok((Node::IfCondition(condition), next)),
            Err(e) => Err(e),
        },
        NodeKind::For(keyword) => match parse_for_at(s, keyword, limit) {
            Ok((for_loop, next)) => Ok((Node::ForLoop(for_loop), next)),
            Err(e) => Err(e),
        },
        NodeKind::Match(keyword) => match parse_match_at(s, keyword, limit) {
            Ok((matching, next)) => Ok((Node::MatchExpression(matching), next)),
            Err(e) => Err(e),
        },
        NodeKind::Embed => match parse_group_text(s, from + 1, limit) {
            Ok((expr, next)) => Ok((Node::HtmlDisplay(expr), next)),
            Err(e) => Err(e),
        },
        NodeKind::Call => match parse_call_at(s, from, limit) {
            Ok((call, next)) => Ok((Node::ComponentCall(call), next)),
            Err(e) => Err(e),
        },
        NodeKind::Element => match parse_element_at(s, from, limit) {
            Ok((element, next)) => Ok((Node::Element(element), next)),
            Err(e) => Err(e),
        },
    }
}

/// The nodes from the token `from` to `limit`.
pub fn parse_nodes_in(s: &Lexed, from: usize, limit: usize) -> (result: Result<
    Vec<Node>,
    ParseError,
>)
    requires
        s.wf(),
        from <= limit <= s.tokens.len(),
    ensures
        match result {
            Ok(nodes) => nodes_in(s.chars@, s.tokens@, from as int, limit as int) == Ok::<
                Seq<NodeView>,
                ParseError,
            >(nodes_view(nodes@)),
            Err(e) => nodes_in(s.chars@, s.tokens@, from as int, limit as int) == Err::<
                Seq<NodeView>,
                ParseError,
            >(e),
        },
    decreases limit - from, 3nat,
{
    let ghost src = s.chars@;
    let ghost toks = s.tokens@;
    let mut nodes: Vec<Node> = Vec::new();
    let mut at = from;
    while at < limit
        invariant
            s.wf(),
            src == s.chars@,
            toks == s.tokens@,
            from <= at <= limit <= s.tokens.len(),
            nodes_in(src, toks, from as int, limit as int) == nodes_then(
                nodes_view(nodes@),
                nodes_in(src, toks, at as int, limit as int),
            ),
        decreases limit - at,
    {
        let (node, next) = match parse_node_at(s, at, limit) {
            Ok(found) => found,
            Err(e) => {
                return Err(e);
            },
        };
        proof {
            let rest = nodes_in(src, toks, next as int, limit as int);
            let before = nodes_view(nodes@);
            assert(nodes@.push(node).drop_last() == nodes@);
            assert(nodes_view(nodes@.push(node)) == before.push(node_view(node)));
            match rest {
                Ok(more) => {
                    assert(before + (seq![node_view(node)] + more) == before.push(node_view(node))
                        + more);
                },
                Err(_) => {},
            }
        }
        nodes.push(node);
        at = next;
    }
    proof {
        assert(nodes_view(nodes@) + Seq::<NodeView>::empty() == nodes_view(nodes@));
    }
    Ok(nodes)
}

/// Reads a template.
///
/// The result is the node tree that the grammar gives to the source text,
/// or the first failure, with its place.
pub fn parse_template(source: &str) -> (result: Result<Vec<Node>, ParseError>)
    ensures
        match result {
            Ok(nodes) => template_of(source@) == Ok::<Seq<NodeView>, ParseError>(
                nodes_view(nodes@),
            ),
            Err(e) => template_of(source@) == Err::<Seq<NodeView>, ParseError>(e),
        },
{
    match lex(source) {
        Err(e) => Err(e),
        Ok(s) => parse_nodes_in(&s, 0, s.tokens.len()),
    }
}

/// The node that `source` spells.
pub open spec fn node_of(source: Seq<char>) -> Result<NodeView, ParseError> {
    match lexed_of(source) {
        Err(e) => Err(e),
        Ok(toks) => whole(source, toks, node_at(source, toks, 0, toks.len() as int)),
    }
}

/// Reads one node that is all of `source`.
pub fn parse_node(source: &str) -> (result: Result<Node, ParseError>)
    ensures
        match result {
            Ok(node) => node_of(source@) == Ok::<NodeView, ParseError>(node_view(node)),
            Err(e) => node_of(source@) == Err::<NodeView, ParseError>(e),
        },
{
    let s = match lex(source) {
        Ok(s) => s,
        Err(e) => {
            return Err(e);
        },
    };
    match parse_node_at(&s, 0, s.tokens.len()) {
        Err(e) => Err(e),
        Ok((node, next)) => if next == s.tokens.len() {
            Ok(node)
        } else {
            Err(s.fail(next, ParseErrorKind::UnexpectedToken))
        },
    }
}

/// The conditional that `source` spells.
pub open spec fn if_condition_of(source: Seq<char>) -> Result<IfView, ParseError> {
    match lexed_of(source) {
        Err(e) => Err(e),
        Ok(toks) => if !word_at(source, toks, 0, toks.len() as int, crate::parse::word_if()) {
            Err(failure(source, toks, 0, ParseErrorKind::UnexpectedToken))
        } else {
            whole(source, toks, if_at(source, toks, 0, toks.len() as int))
        },
    }
}

/// Reads a conditional, with its `else` branches, that is all of `source`.
pub fn parse_if_condition(source: &str) -> (result: Result<IfCondition, ParseError>)
    ensures
        match result {
            Ok(condition) => if_condition_of(source@) == Ok::<IfView, ParseError>(
                if_view(condition),
            ),
            Err(e) => if_condition_of(source@) == Err::<IfView, ParseError>(e),
        },
{
    proof {
        reveal_strlit("if");
        assert("if"@ == crate::parse::word_if());
    }
    let s = match lex(source) {
        Ok(s) => s,
        Err(e) => {
            return Err(e);
        },
    };
    if !s.word_at(0, s.tokens.len(), "if") {
        return Err(s.fail(0, ParseErrorKind::UnexpectedToken));
    }
    match parse_if_at(&s, 0, s.tokens.len()) {
        Err(e) => Err(e),
        Ok((condition, next)) => if next == s.tokens.len() {
            Ok(condition)
        } else {
            Err(s.fail(next, ParseErrorKind::UnexpectedToken))
        },
    }
}

/// The names of the void elements are their own kebab case.
pub proof fn lemma_void_names_are_kebab(name: Seq<char>)
    requires
        is_void_name(name),
    ensures
        kebab_name(name) == name,
{
    reveal_strlit("area");
    reveal_strlit("base");
    reveal_strlit("br");
    reveal_strlit("col");
    reveal_strlit("embed");
    reveal_strlit("hr");
    reveal_strlit("img");
    reveal_strlit("input");
    reveal_strlit("link");
    reveal_strlit("meta");
    reveal_strlit("param");
    reveal_strlit("source");
    reveal_strlit("track");
    reveal_strlit("wbr");
    assert(crate::escape::url::all_ascii(name));
    assert(crate::parse::ascii_kebab(name) =~= name);
}

/// A void element has no children: where its name is followed by anything
/// but `;` behind its attributes, and so by a body, it is rejected; and
/// where it is read, it is read without children.
pub proof fn lemma_void_element_has_no_children(
    src: Seq<char>,
    toks: Seq<Token>,
    from: int,
    limit: int,
)
    ensures
        element_at(src, toks, from, limit) matches Ok((tag, _)) ==> tag.is_void == is_void_name(
            tag.name,
        ) && (tag.is_void ==> tag.children.len() == 0),
        ({
            &&& element_name_at(src, toks, from, limit) matches Ok((name, next))
            &&& is_void_name(name)
            &&& element_attributes_at(src, toks, next, limit) matches Ok((attributes, after))
            &&& !punct_at(src, toks, after, limit, ';')
        }) ==> element_at(src, toks, from, limit) is Err,
        // an identifier that is the name of a void element names that element
        kind_at(toks, from, limit, TokenKind::Ident) && is_void_name(token_text(src, toks, from))
            && !punct_at(src, toks, from + 1, limit, '-') ==> element_name_at(
            src,
            toks,
            from,
            limit,
        ) == Ok::<(Seq<char>, int), ParseError>((token_text(src, toks, from), from + 1)),
{
    if kind_at(toks, from, limit, TokenKind::Ident) && is_void_name(token_text(src, toks, from))
        && !punct_at(src, toks, from + 1, limit, '-') {
        lemma_void_names_are_kebab(token_text(src, toks, from));
        assert(token_text(src, toks, from) + Seq::<char>::empty() == token_text(src, toks, from));
    }
}

} // verus!
