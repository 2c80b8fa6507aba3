//! Lowering: from the node tree to the operations that write it.
//!
//! A template is lowered once, into a sequence of operations in document
//! order. Each operation is a call of the formatter, or a construct of the
//! host language (a conditional, a loop, a match, a binding, the call of a
//! component) around the operations of its branches. Expressions of the
//! host language pass through unread.

use vstd::prelude::*;

use crate::ast::{
    arm_view, arms_view, attributes_view, call_fields_view, call_view, for_view, if_view,
    match_view, node_view, nodes_view, tag_view, ArmView, Attribute, AttributeValue,
    AttributeValueView, AttributeView, ComponentCall, ComponentCallField, ComponentDefinition,
    DefinitionView, Element, ElseBranch, ElseView, FieldView, ForLoop, IfCondition, IfView,
    LetBinding, MatchArm, MatchExpression, Node, NodeView, TagView,
};
use crate::escape::EscapeMode;
use crate::lexer::TokenKind;
use crate::parse::attribute::attributes_of;
use crate::parse::component::definition_of;
use crate::parse::node::{node_at, parse_node_at, template_of};
use crate::parse::{
    failure, kind_at, lex, lexed_of, parse_attributes, parse_component, parse_template, punct_at,
    token_text, whole, ParseError, ParseErrorKind,
};

verus! {

/// Where a value that is written comes from.
#[derive(Debug)]
pub enum Source {
    /// Text of the template itself.
    Literal(String),
    /// An expression of the host language.
    Expr(String),
}

/// One arm of a lowered match.
#[derive(Debug)]
pub struct Arm {
    pub pattern: String,
    pub guard: Option<String>,
    pub body: Vec<Op>,
}

/// A parameter given at the call of a component.
#[derive(Debug)]
pub struct Field {
    pub ident: String,
    pub value: String,
}

/// An operation of a lowered template.
#[derive(Debug)]
#[allow(inconsistent_fields)]
pub enum Op {
    /// Start the element `name`.
    StartElement { name: String },
    /// Write an attribute of the open start tag.
    WriteAttribute { name: String, value: Source, escape_mode: Option<EscapeMode> },
    /// Write an attribute if the expression has a value: with the value, or
    /// as a boolean attribute where the value is `true`.
    WriteOptionalAttribute { name: String, expr: String, escape_mode: Option<EscapeMode> },
    /// Write a boolean attribute: always, or if the condition holds.
    WriteBooleanAttribute { name: String, condition: Option<String> },
    /// Merge in a collection of attributes.
    SpreadAttributes { expr: String },
    /// Write content.
    WriteContent { value: Source, escape_mode: Option<EscapeMode> },
    /// Write markup that an expression holds.
    Embed { expr: String },
    /// Project the children given at the call of the component.
    Children,
    /// End the innermost element.
    EndElement,
    /// A binding of the host language.
    Let { pattern: String, expr: Option<String> },
    /// A conditional of the host language around two blocks, of which one
    /// is run.
    If { condition: String, then_ops: Vec<Op>, else_ops: Vec<Op> },
    /// A loop of the host language around a block, which is run once for
    /// each turn.
    For { pattern: String, expression: String, body: Vec<Op> },
    /// A match of the host language, of whose arms one is run.
    Match { expression: String, arms: Vec<Arm> },
    /// The call of a component, with the operations that write the extra
    /// attributes and the children given at the call.
    Component { path: String, fields: Vec<Field>, attributes: Vec<Op>, children: Vec<Op> },
}

/// Where a value that is written comes from.
pub enum SourceView {
    Literal(Seq<char>),
    Expr(Seq<char>),
}

/// What a lowered arm holds.
pub struct ArmOps {
    pub pattern: Seq<char>,
    pub guard: Option<Seq<char>>,
    pub body: Seq<OpView>,
}

/// What an operation holds.
#[allow(inconsistent_fields)]
pub enum OpView {
    StartElement { name: Seq<char> },
    WriteAttribute { name: Seq<char>, value: SourceView, escape_mode: Option<EscapeMode> },
    WriteOptionalAttribute { name: Seq<char>, expr: Seq<char>, escape_mode: Option<EscapeMode> },
    WriteBooleanAttribute { name: Seq<char>, condition: Option<Seq<char>> },
    SpreadAttributes { expr: Seq<char> },
    WriteContent { value: SourceView, escape_mode: Option<EscapeMode> },
    Embed { expr: Seq<char> },
    Children,
    EndElement,
    Let { pattern: Seq<char>, expr: Option<Seq<char>> },
    If { condition: Seq<char>, then_ops: Seq<OpView>, else_ops: Seq<OpView> },
    For { pattern: Seq<char>, expression: Seq<char>, body: Seq<OpView> },
    Match { expression: Seq<char>, arms: Seq<ArmOps> },
    Component {
        path: Seq<char>,
        fields: Seq<FieldView>,
        attributes: Seq<OpView>,
        children: Seq<OpView>,
    },
}

impl View for Source {
    type V = SourceView;

    open spec fn view(&self) -> SourceView {
        match self {
            Source::Literal(text) => SourceView::Literal(text@),
            Source::Expr(expr) => SourceView::Expr(expr@),
        }
    }
}

impl View for Field {
    type V = FieldView;

    open spec fn view(&self) -> FieldView {
        FieldView { ident: self.ident@, value: self.value@ }
    }
}

/// The text of an optional string.
pub open spec fn optional_view(text: Option<String>) -> Option<Seq<char>> {
    match text {
        Some(t) => Some(t@),
        None => None,
    }
}

/// What a list of parameters holds.
pub open spec fn fields_view(fields: Seq<Field>) -> Seq<FieldView> {
    Seq::new(fields.len(), |i: int| fields[i]@)
}

/// What an operation holds.
pub open spec fn op_view(op: Op) -> OpView
    decreases op,
{
    match op {
        Op::StartElement { name } => OpView::StartElement { name: name@ },
        Op::WriteAttribute { name, value, escape_mode } => OpView::WriteAttribute {
            name: name@,
            value: value@,
            escape_mode,
        },
        Op::WriteOptionalAttribute { name, expr, escape_mode } => OpView::WriteOptionalAttribute {
            name: name@,
            expr: expr@,
            escape_mode,
        },
        Op::WriteBooleanAttribute { name, condition } => OpView::WriteBooleanAttribute {
            name: name@,
            condition: optional_view(condition),
        },
        Op::SpreadAttributes { expr } => OpView::SpreadAttributes { expr: expr@ },
        Op::WriteContent { value, escape_mode } => OpView::WriteContent {
            value: value@,
            escape_mode,
        },
        Op::Embed { expr } => OpView::Embed { expr: expr@ },
        Op::Children => OpView::Children,
        Op::EndElement => OpView::EndElement,
        Op::Let { pattern, expr } => OpView::Let { pattern: pattern@, expr: optional_view(expr) },
        Op::If { condition, then_ops, else_ops } => OpView::If {
            condition: condition@,
            then_ops: ops_view(then_ops@),
            else_ops: ops_view(else_ops@),
        },
        Op::For { pattern, expression, body } => OpView::For {
            pattern: pattern@,
            expression: expression@,
            body: ops_view(body@),
        },
        Op::Match { expression, arms } => OpView::Match {
            expression: expression@,
            arms: arm_ops_view(arms@),
        },
        Op::Component { path, fields, attributes, children } => OpView::Component {
            path: path@,
            fields: fields_view(fields@),
            attributes: ops_view(attributes@),
            children: ops_view(children@),
        },
    }
}

/// What a list of operations holds.
pub open spec fn ops_view(ops: Seq<Op>) -> Seq<OpView>
    decreases ops,
{
    if ops.len() == 0 {
        Seq::empty()
    } else {
        ops_view(ops.drop_last()).push(op_view(ops.last()))
    }
}

/// What a lowered arm holds.
pub open spec fn arm_op_view(arm: Arm) -> ArmOps
    decreases arm,
{
    ArmOps { pattern: arm.pattern@, guard: optional_view(arm.guard), body: ops_view(arm.body@) }
}

/// What a list of lowered arms holds.
pub open spec fn arm_ops_view(arms: Seq<Arm>) -> Seq<ArmOps>
    decreases arms,
{
    if arms.len() == 0 {
        Seq::empty()
    } else {
        arm_ops_view(arms.drop_last()).push(arm_op_view(arms.last()))
    }
}

/// The views of two lists, one behind the other, are the view of the
/// joined list.
pub proof fn lemma_ops_view_concat(a: Seq<Op>, b: Seq<Op>)
    ensures
        ops_view(a + b) == ops_view(a) + ops_view(b),
    decreases b.len(),
{
    if b.len() == 0 {
        assert(a + b == a);
        assert(ops_view(a) + Seq::<OpView>::empty() == ops_view(a));
    } else {
        assert((a + b).drop_last() == a + b.drop_last());
        assert((a + b).last() == b.last());
        lemma_ops_view_concat(a, b.drop_last());
        assert(ops_view(a + b) == (ops_view(a) + ops_view(b.drop_last())).push(op_view(b.last())));
    }
}

/// The document type declaration.
pub open spec fn doctype_text() -> Seq<char> {
    seq!['<', '!', 'D', 'O', 'C', 'T', 'Y', 'P', 'E', ' ', 'h', 't', 'm', 'l', '>']
}

/// The operation that writes an attribute.
///
/// Text behind `=` is written as it stands; text behind `:` and the value
/// of an expression are escaped as the attribute asks, unless an escape
/// mode was asked for. An attribute without a value is a boolean attribute
/// that is always written.
pub open spec fn lowered_attribute(attribute: AttributeView) -> OpView {
    match attribute {
        AttributeView::Spread { expr } => OpView::SpreadAttributes { expr },
        AttributeView::NameValue { name, value } => match value {
            None => OpView::WriteBooleanAttribute { name, condition: None },
            Some(AttributeValueView::Literal(text)) => OpView::WriteAttribute {
                name,
                value: SourceView::Literal(text),
                escape_mode: Some(EscapeMode::Raw),
            },
            Some(AttributeValueView::Text(text)) => OpView::WriteAttribute {
                name,
                value: SourceView::Literal(text),
                escape_mode: None,
            },
            Some(AttributeValueView::Dynamic(expr)) => OpView::WriteAttribute {
                name,
                value: SourceView::Expr(expr.expr),
                escape_mode: expr.escape_mode,
            },
            Some(AttributeValueView::Optional(expr)) => OpView::WriteOptionalAttribute {
                name,
                expr: expr.expr,
                escape_mode: expr.escape_mode,
            },
            Some(AttributeValueView::Boolean(expr)) => OpView::WriteBooleanAttribute {
                name,
                condition: Some(expr),
            },
        },
    }
}

/// The operations that write a list of attributes: one for each, in source
/// order.
pub open spec fn lowered_attributes(attributes: Seq<AttributeView>) -> Seq<OpView> {
    Seq::new(attributes.len(), |i: int| lowered_attribute(attributes[i]))
}

/// The operations that write a node.
///
/// An element is its start, the operations of its attributes in source
/// order, those of its children in order unless it is void, and its end.
/// Text and expressions are written as content. A conditional, a loop, a
/// match and the call of a component stay what they are, around the
/// operations of their branches. A fragment is the operations of its nodes.
pub open spec fn lowered_node(node: NodeView) -> Seq<OpView>
    decreases node,
{
    match node {
        NodeView::Text(text) => seq![
            OpView::WriteContent { value: SourceView::Literal(text), escape_mode: None },
        ],
        NodeView::Expression(expr) => seq![
            OpView::WriteContent {
                value: SourceView::Expr(expr.expr),
                escape_mode: expr.escape_mode,
            },
        ],
        NodeView::Doctype => seq![
            OpView::WriteContent {
                value: SourceView::Literal(doctype_text()),
                escape_mode: Some(EscapeMode::Raw),
            },
        ],
        NodeView::Children => seq![OpView::Children],
        NodeView::LetBinding(binding) => seq![
            OpView::Let { pattern: binding.pattern, expr: binding.expr },
        ],
        NodeView::IfCondition(condition) => seq![lowered_if(condition)],
        NodeView::ForLoop(for_loop) => seq![
            OpView::For {
                pattern: for_loop.pattern,
                expression: for_loop.expression,
                body: lowered_nodes(for_loop.body),
            },
        ],
        NodeView::MatchExpression(matching) => seq![
            OpView::Match { expression: matching.expression, arms: lowered_arms(matching.arms) },
        ],
        NodeView::ComponentCall(call) => seq![
            OpView::Component {
                path: call.path,
                fields: call.fields,
                attributes: lowered_attributes(call.attributes),
                children: lowered_nodes(call.children),
            },
        ],
        NodeView::HtmlDisplay(expr) => seq![OpView::Embed { expr }],
        NodeView::Element(element) => seq![OpView::StartElement { name: element.name }]
            + lowered_attributes(element.attributes) + (if element.is_void {
            Seq::empty()
        } else {
            lowered_nodes(element.children)
        }) + seq![OpView::EndElement],
        NodeView::Fragment(nodes) => lowered_nodes(nodes),
    }
}

/// The operations that write a list of nodes, in order.
pub open spec fn lowered_nodes(nodes: Seq<NodeView>) -> Seq<OpView>
    decreases nodes,
{
    if nodes.len() == 0 {
        Seq::empty()
    } else {
        lowered_nodes(nodes.drop_last()) + lowered_node(nodes.last())
    }
}

/// The operation that a conditional becomes. What follows `else if` is a
/// conditional in the `else` block.
pub open spec fn lowered_if(condition: IfView) -> OpView
    decreases condition,
{
    OpView::If {
        condition: condition.condition,
        then_ops: lowered_nodes(condition.then_branch),
        else_ops: match condition.else_branch {
            None => Seq::empty(),
            Some(ElseView::Else(nodes)) => lowered_nodes(nodes),
            Some(ElseView::If(inner)) => seq![lowered_if(*inner)],
        },
    }
}

/// The lowered arms of a match.
pub open spec fn lowered_arms(arms: Seq<ArmView>) -> Seq<ArmOps>
    decreases arms,
{
    if arms.len() == 0 {
        Seq::empty()
    } else {
        lowered_arms(arms.drop_last()).push(
            ArmOps {
                pattern: arms.last().pattern,
                guard: arms.last().guard,
                body: lowered_node(*arms.last().body),
            },
        )
    }
}

/// The view of a list with one more node.
pub proof fn lemma_nodes_view_push(nodes: Seq<Node>, node: Node)
    ensures
        nodes_view(nodes.push(node)) == nodes_view(nodes).push(node_view(node)),
{
    assert(nodes.push(node).drop_last() == nodes);
}

/// The view of a list with one more operation.
pub proof fn lemma_ops_view_push(ops: Seq<Op>, op: Op)
    ensures
        ops_view(ops.push(op)) == ops_view(ops).push(op_view(op)),
        ops_view(ops.push(op)) == ops_view(ops) + seq![op_view(op)],
{
    assert(ops.push(op).drop_last() == ops);
    assert(ops_view(ops).push(op_view(op)) == ops_view(ops) + seq![op_view(op)]);
}

/// The operations of a list with one more node.
pub proof fn lemma_lowered_nodes_push(nodes: Seq<NodeView>, node: NodeView)
    ensures
        lowered_nodes(nodes.push(node)) == lowered_nodes(nodes) + lowered_node(node),
{
    assert(nodes.push(node).drop_last() == nodes);
}

fn clone_optional(text: &Option<String>) -> (copy: Option<String>)
    ensures
        optional_view(copy) == optional_view(*text),
{
    match text {
        Some(t) => Some(t.clone()),
        None => None,
    }
}

fn clone_optional_expr(expr: &Option<crate::ast::Expr>) -> (copy: Option<String>)
    ensures
        optional_view(copy) == crate::ast::optional_expr_view(*expr),
{
    match expr {
        Some(e) => Some(e.source.clone()),
        None => None,
    }
}

/// The operation that writes an attribute.
pub fn lower_attribute(attribute: &Attribute) -> (op: Op)
    ensures
        op_view(op) == lowered_attribute(attribute@),
{
    match attribute {
        Attribute::Spread { expr } => Op::SpreadAttributes { expr: expr.source.clone() },
        Attribute::NameValue { name, value } => {
            let name = name.name.clone();
            match value {
                None => Op::WriteBooleanAttribute { name, condition: None },
                Some(AttributeValue::Literal { value }) => Op::WriteAttribute {
                    name,
                    value: Source::Literal(value.clone()),
                    escape_mode: Some(EscapeMode::Raw),
                },
                Some(AttributeValue::Text { value }) => Op::WriteAttribute {
                    name,
                    value: Source::Literal(value.clone()),
                    escape_mode: None,
                },
                Some(AttributeValue::Dynamic { expr }) => Op::WriteAttribute {
                    name,
                    value: Source::Expr(expr.expr.source.clone()),
                    escape_mode: expr.escape_mode,
                },
                Some(AttributeValue::Optional { expr }) => Op::WriteOptionalAttribute {
                    name,
                    expr: expr.expr.source.clone(),
                    escape_mode: expr.escape_mode,
                },
                Some(AttributeValue::Boolean { expr }) => Op::WriteBooleanAttribute {
                    name,
                    condition: Some(expr.source.clone()),
                },
            }
        },
    }
}

/// Appends the operation that writes `attribute`.
pub fn push_statements_for_attribute(statements: &mut Vec<Op>, attribute: &Attribute)
    ensures
        ops_view(final(statements)@) == ops_view(old(statements)@) + seq![
            lowered_attribute(attribute@),
        ],
{
    let op = lower_attribute(attribute);
    proof {
        lemma_ops_view_push(statements@, op);
    }
    statements.push(op);
}

/// Appends the operations that write `attributes`, in order.
pub fn push_statements_for_attributes(statements: &mut Vec<Op>, attributes: &Vec<Attribute>)
    ensures
        ops_view(final(statements)@) == ops_view(old(statements)@) + lowered_attributes(
            attributes_view(attributes@),
        ),
{
    let ghost before = ops_view(statements@);
    let ghost wanted = lowered_attributes(attributes_view(attributes@));
    let mut i: usize = 0;
    while i < attributes.len()
        invariant
            i <= attributes.len(),
            wanted == lowered_attributes(attributes_view(attributes@)),
            ops_view(statements@) == before + wanted.take(i as int),
        decreases attributes.len() - i,
    {
        push_statements_for_attribute(statements, &attributes[i]);
        proof {
            assert(wanted.take(i as int + 1) == wanted.take(i as int) + seq![wanted[i as int]]);
            assert(wanted[i as int] == lowered_attribute(attributes@[i as int]@));
        }
        i += 1;
    }
    proof {
        assert(wanted.take(attributes.len() as int) == wanted);
    }
}

/// The operations that write a list of attributes into a collection.
pub fn lower_attributes(attributes: &Vec<Attribute>) -> (ops: Vec<Op>)
    ensures
        ops_view(ops@) == lowered_attributes(attributes_view(attributes@)),
{
    let mut ops: Vec<Op> = Vec::new();
    push_statements_for_attributes(&mut ops, attributes);
    proof {
        assert(Seq::<OpView>::empty() + lowered_attributes(attributes_view(attributes@))
            == lowered_attributes(attributes_view(attributes@)));
    }
    ops
}

fn lower_fields(fields: &Vec<ComponentCallField>) -> (lowered: Vec<Field>)
    ensures
        fields_view(lowered@) == call_fields_view(fields@),
{
    let mut lowered: Vec<Field> = Vec::new();
    let mut i: usize = 0;
    while i < fields.len()
        invariant
            i <= fields.len(),
            lowered@.len() == i,
            forall|k: int| 0 <= k < i ==> (#[trigger] lowered@[k])@ == fields@[k]@,
        decreases fields.len() - i,
    {
        lowered.push(
            Field { ident: fields[i].ident.clone(), value: fields[i].value.source.clone() },
        );
        i += 1;
    }
    proof {
        assert(fields_view(lowered@) == call_fields_view(fields@));
    }
    lowered
}

/// Appends the operations that write `node`.
pub fn push_statements_for_node(statements: &mut Vec<Op>, node: &Node)
    ensures
        ops_view(final(statements)@) == ops_view(old(statements)@) + lowered_node(
            node_view(*node),
        ),
    decreases *node, 0nat,
{
    let ghost before = statements@;
    match node {
        Node::Text(text) => {
            let op = Op::WriteContent { value: Source::Literal(text.clone()), escape_mode: None };
            proof {
                lemma_ops_view_push(before, op);
            }
            statements.push(op);
        },
        Node::Expression(expr) => {
            let op = Op::WriteContent {
                value: Source::Expr(expr.expr.source.clone()),
                escape_mode: expr.escape_mode,
            };
            proof {
                lemma_ops_view_push(before, op);
            }
            statements.push(op);
        },
        Node::Doctype => {
            proof {
                reveal_strlit("<!DOCTYPE html>");
                assert("<!DOCTYPE html>"@ == doctype_text());
            }
            let op = Op::WriteContent {
                value: Source::Literal("<!DOCTYPE html>".to_owned()),
                escape_mode: Some(EscapeMode::Raw),
            };
            proof {
                lemma_ops_view_push(before, op);
            }
            statements.push(op);
        },
        Node::Children => {
            proof {
                lemma_ops_view_push(before, Op::Children);
            }
            statements.push(Op::Children);
        },
        Node::LetBinding(binding) => {
            let op = Op::Let {
                pattern: binding.pattern.source.clone(),
                expr: clone_optional_expr(&binding.expr),
            };
            proof {
                lemma_ops_view_push(before, op);
            }
            statements.push(op);
        },
        Node::IfCondition(condition) => {
            push_statements_for_if_condition(statements, condition);
        },
        Node::ForLoop(for_loop) => {
            push_statements_for_for_loop(statements, for_loop);
        },
        Node::MatchExpression(matching) => {
            push_statements_for_match_expression(statements, matching);
        },
        Node::ComponentCall(call) => {
            push_statements_for_component_call(statements, call);
        },
        Node::HtmlDisplay(expr) => {
            let op = Op::Embed { expr: expr.source.clone() };
            proof {
                lemma_ops_view_push(before, op);
            }
            statements.push(op);
        },
        Node::Element(element) => {
            push_statements_for_element(statements, element);
        },
        Node::Fragment(nodes) => {
            push_statements_for_nodes(statements, nodes);
        },
    }
}

/// Appends the operations that write `nodes`, in order.
pub fn push_statements_for_nodes(statements: &mut Vec<Op>, nodes: &Vec<Node>)
    ensures
        ops_view(final(statements)@) == ops_view(old(statements)@) + lowered_nodes(
            nodes_view(nodes@),
        ),
    decreases *nodes, 0nat,
{
    let ghost before = ops_view(statements@);
    let mut i: usize = 0;
    proof {
        assert(nodes@.take(0) == Seq::<Node>::empty());
        assert(before + Seq::<OpView>::empty() == before);
    }
    while i < nodes.len()
        invariant
            i <= nodes.len(),
            ops_view(statements@) == before + lowered_nodes(nodes_view(nodes@.take(i as int))),
        decreases nodes.len() - i,
    {
        push_statements_for_node(statements, &nodes[i]);
        proof {
            let seen = nodes@.take(i as int);
            assert(nodes@.take(i as int + 1) == seen.push(nodes@[i as int]));
            lemma_nodes_view_push(seen, nodes@[i as int]);
            lemma_lowered_nodes_push(nodes_view(seen), node_view(nodes@[i as int]));
            assert(before + lowered_nodes(nodes_view(seen)) + lowered_node(
                node_view(nodes@[i as int]),
            ) == before + (lowered_nodes(nodes_view(seen)) + lowered_node(
                node_view(nodes@[i as int]),
            )));
        }
        i += 1;
    }
    proof {
        assert(nodes@.take(nodes.len() as int) == nodes@);
    }
}

/// The operations that write `nodes`.
pub fn lower_nodes(nodes: &Vec<Node>) -> (ops: Vec<Op>)
    ensures
        ops_view(ops@) == lowered_nodes(nodes_view(nodes@)),
    decreases *nodes, 1nat,
{
    let mut ops: Vec<Op> = Vec::new();
    push_statements_for_nodes(&mut ops, nodes);
    proof {
        assert(Seq::<OpView>::empty() + lowered_nodes(nodes_view(nodes@)) == lowered_nodes(
            nodes_view(nodes@),
        ));
    }
    ops
}

/// Appends the operations that write `element`.
pub fn push_statements_for_element(statements: &mut Vec<Op>, element: &Element)
    ensures
        ops_view(final(statements)@) == ops_view(old(statements)@) + lowered_node(
            NodeView::Element(tag_view(*element)),
        ),
    decreases *element, 0nat,
{
    let ghost before = ops_view(statements@);
    let start = Op::StartElement { name: element.name.clone() };
    proof {
        lemma_ops_view_push(statements@, start);
    }
    statements.push(start);
    push_statements_for_attributes(statements, &element.attributes);
    if !element.is_void {
        push_statements_for_nodes(statements, &element.children);
    }
    let ghost inner = ops_view(statements@);
    proof {
        lemma_ops_view_push(statements@, Op::EndElement);
    }
    statements.push(Op::EndElement);
    proof {
        let view = tag_view(*element);
        let children = if view.is_void {
            Seq::<OpView>::empty()
        } else {
            lowered_nodes(view.children)
        };
        assert(inner == before + seq![OpView::StartElement { name: view.name }]
            + lowered_attributes(view.attributes) + children);
        assert(ops_view(statements@) == before + (seq![OpView::StartElement { name: view.name }]
            + lowered_attributes(view.attributes) + children + seq![OpView::EndElement]));
    }
}

/// The operation that a conditional becomes.
pub fn lower_if_condition(condition: &IfCondition) -> (op: Op)
    ensures
        op_view(op) == lowered_if(if_view(*condition)),
    decreases *condition, 0nat,
{
    let then_ops = lower_nodes(&condition.then_branch);
    let else_ops = match &condition.else_branch {
        None => {
            let none: Vec<Op> = Vec::new();
            none
        },
        Some(ElseBranch::Else(nodes)) => lower_nodes(nodes),
        Some(ElseBranch::If(inner)) => {
            let nested = lower_if_condition(&**inner);
            let mut ops: Vec<Op> = Vec::new();
            proof {
                lemma_ops_view_push(ops@, nested);
                assert(Seq::<OpView>::empty() + seq![op_view(nested)] == seq![op_view(nested)]);
            }
            ops.push(nested);
            ops
        },
    };
    Op::If { condition: condition.condition.source.clone(), then_ops, else_ops }
}

/// Appends the operation that a conditional becomes.
pub fn push_statements_for_if_condition(statements: &mut Vec<Op>, condition: &IfCondition)
    ensures
        ops_view(final(statements)@) == ops_view(old(statements)@) + lowered_node(
            NodeView::IfCondition(if_view(*condition)),
        ),
    decreases *condition, 1nat,
{
    let op = lower_if_condition(condition);
    proof {
        lemma_ops_view_push(statements@, op);
    }
    statements.push(op);
}

/// Appends the operation that a loop becomes.
pub fn push_statements_for_for_loop(statements: &mut Vec<Op>, for_loop: &ForLoop)
    ensures
        ops_view(final(statements)@) == ops_view(old(statements)@) + lowered_node(
            NodeView::ForLoop(for_view(*for_loop)),
        ),
    decreases *for_loop, 0nat,
{
    let body = lower_nodes(&for_loop.body);
    let op = Op::For {
        pattern: for_loop.pattern.source.clone(),
        expression: for_loop.expression.source.clone(),
        body,
    };
    proof {
        lemma_ops_view_push(statements@, op);
    }
    statements.push(op);
}

/// The lowered arm of a match.
pub fn push_statement_for_match_arm(arms: &mut Vec<Arm>, arm: &MatchArm)
    ensures
        arm_ops_view(final(arms)@) == arm_ops_view(old(arms)@).push(
            ArmOps {
                pattern: arm_view(*arm).pattern,
                guard: arm_view(*arm).guard,
                body: lowered_node(*arm_view(*arm).body),
            },
        ),
    decreases *arm, 0nat,
{
    let mut body: Vec<Op> = Vec::new();
    push_statements_for_node(&mut body, &arm.body);
    proof {
        assert(Seq::<OpView>::empty() + lowered_node(node_view(arm.body)) == lowered_node(
            node_view(arm.body),
        ));
    }
    let lowered = Arm {
        pattern: arm.pattern.source.clone(),
        guard: clone_optional_expr(&arm.guard),
        body,
    };
    let ghost wanted = arm_op_view(lowered);
    proof {
        assert(arms@.push(lowered).drop_last() == arms@);
        assert(arms@.push(lowered).last() == lowered);
        assert(arm_ops_view(arms@.push(lowered)) == arm_ops_view(arms@).push(wanted));
        assert(wanted.body == lowered_node(node_view(arm.body)));
        assert(*arm_view(*arm).body == node_view(arm.body));
    }
    arms.push(lowered);
}

/// Appends the operation that a match becomes.
pub fn push_statements_for_match_expression(statements: &mut Vec<Op>, matching: &MatchExpression)
    ensures
        ops_view(final(statements)@) == ops_view(old(statements)@) + lowered_node(
            NodeView::MatchExpression(match_view(*matching)),
        ),
    decreases *matching, 0nat,
{
    let mut arms: Vec<Arm> = Vec::new();
    let mut i: usize = 0;
    proof {
        assert(matching.arms@.take(0) == Seq::<MatchArm>::empty());
    }
    while i < matching.arms.len()
        invariant
            i <= matching.arms.len(),
            arm_ops_view(arms@) == lowered_arms(arms_view(matching.arms@.take(i as int))),
        decreases matching.arms.len() - i,
    {
        push_statement_for_match_arm(&mut arms, &matching.arms[i]);
        proof {
            let seen = matching.arms@.take(i as int);
            let next = matching.arms@.take(i as int + 1);
            assert(next == seen.push(matching.arms@[i as int]));
            assert(next.drop_last() == seen);
            assert(arms_view(next) == arms_view(seen).push(arm_view(matching.arms@[i as int])));
            assert(arms_view(next).drop_last() == arms_view(seen));
        }
        i += 1;
    }
    proof {
        assert(matching.arms@.take(matching.arms.len() as int) == matching.arms@);
    }
    let op = Op::Match { expression: matching.expression.source.clone(), arms };
    proof {
        lemma_ops_view_push(statements@, op);
    }
    statements.push(op);
}

/// Appends the operation that the call of a component becomes.
pub fn push_statements_for_component_call(statements: &mut Vec<Op>, call: &ComponentCall)
    ensures
        ops_view(final(statements)@) == ops_view(old(statements)@) + lowered_node(
            NodeView::ComponentCall(call_view(*call)),
        ),
    decreases *call, 0nat,
{
    let fields = lower_fields(&call.fields);
    let attributes = lower_attributes(&call.attributes);
    let children = lower_nodes(&call.children);
    let op = Op::Component { path: call.path.clone(), fields, attributes, children };
    proof {
        lemma_ops_view_push(statements@, op);
    }
    statements.push(op);
}

/// The operations that a template is lowered to.
pub open spec fn html_ops_of(source: Seq<char>) -> Result<Seq<OpView>, ParseError> {
    match template_of(source) {
        Ok(nodes) => Ok(lowered_nodes(nodes)),
        Err(e) => Err(e),
    }
}

/// Compiles a template: reads it and lowers it.
///
/// A template that cannot be read gives no operations at all.
pub fn html_impl(source: &str) -> (result: Result<Vec<Op>, ParseError>)
    ensures
        match result {
            Ok(ops) => html_ops_of(source@) == Ok::<Seq<OpView>, ParseError>(ops_view(ops@)),
            Err(e) => html_ops_of(source@) == Err::<Seq<OpView>, ParseError>(e),
        },
{
    match parse_template(source) {
        Ok(nodes) => Ok(lower_nodes(&nodes)),
        Err(e) => Err(e),
    }
}

/// The operations that a list of attributes is lowered to.
pub open spec fn attrs_ops_of(source: Seq<char>) -> Result<Seq<OpView>, ParseError> {
    match attributes_of(source) {
        Ok(attributes) => Ok(lowered_attributes(attributes)),
        Err(e) => Err(e),
    }
}

/// Compiles a list of attributes, written one behind the other, into the
/// operations that build the collection.
pub fn attrs_impl(source: &str) -> (result: Result<Vec<Op>, ParseError>)
    ensures
        match result {
            Ok(ops) => attrs_ops_of(source@) == Ok::<Seq<OpView>, ParseError>(ops_view(ops@)),
            Err(e) => attrs_ops_of(source@) == Err::<Seq<OpView>, ParseError>(e),
        },
{
    match parse_attributes(source) {
        Ok(attributes) => Ok(lower_attributes(&attributes)),
        Err(e) => Err(e),
    }
}

/// The name of a formatter and the operations of the node behind it, as
/// `source` spells them: `formatter, node`.
pub open spec fn render_ops_of(source: Seq<char>) -> Result<(Seq<char>, Seq<OpView>), ParseError> {
    match lexed_of(source) {
        Err(e) => Err(e),
        Ok(toks) => {
            let limit = toks.len() as int;
            if !kind_at(toks, 0, limit, TokenKind::Ident) {
                Err(failure(source, toks, 0, ParseErrorKind::ExpectedName))
            } else if !punct_at(source, toks, 1, limit, ',') {
                Err(failure(source, toks, 1, ParseErrorKind::UnexpectedToken))
            } else {
                match whole(source, toks, node_at(source, toks, 2, limit)) {
                    Ok(node) => Ok((token_text(source, toks, 0), lowered_node(node))),
                    Err(e) => Err(e),
                }
            }
        },
    }
}

/// Compiles one node for a formatter that the caller holds: `source` names
/// the formatter and, behind a comma, spells the node.
pub fn render_impl(source: &str) -> (result: Result<(String, Vec<Op>), ParseError>)
    ensures
        match result {
            Ok((formatter, ops)) => render_ops_of(source@) == Ok::<
                (Seq<char>, Seq<OpView>),
                ParseError,
            >((formatter@, ops_view(ops@))),
            Err(e) => render_ops_of(source@) == Err::<(Seq<char>, Seq<OpView>), ParseError>(e),
        },
{
    let s = match lex(source) {
        Ok(s) => s,
        Err(e) => {
            return Err(e);
        },
    };
    let limit = s.tokens.len();
    if !s.kind_at(0, limit, TokenKind::Ident) {
        return Err(s.fail(0, ParseErrorKind::ExpectedName));
    }
    if !s.punct_at(1, limit, ',') {
        return Err(s.fail(1, ParseErrorKind::UnexpectedToken));
    }
    match parse_node_at(&s, 2, limit) {
        Err(e) => Err(e),
        Ok((node, next)) => {
            if next != limit {
                return Err(s.fail(next, ParseErrorKind::UnexpectedToken));
            }
            let mut ops: Vec<Op> = Vec::new();
            push_statements_for_node(&mut ops, &node);
            proof {
                assert(Seq::<OpView>::empty() + lowered_node(node_view(node)) == lowered_node(
                    node_view(node),
                ));
            }
            Ok((s.text(0), ops))
        },
    }
}

/// A compiled component: its name, the names of its parameters, and the
/// operations of its body.
#[derive(Debug)]
pub struct Component {
    pub name: String,
    pub parameters: Vec<String>,
    pub body: Vec<Op>,
}

/// What a compiled component holds.
pub struct ComponentView {
    pub name: Seq<char>,
    pub parameters: Seq<Seq<char>>,
    pub body: Seq<OpView>,
}

impl View for Component {
    type V = ComponentView;

    open spec fn view(&self) -> ComponentView {
        ComponentView {
            name: self.name@,
            parameters: Seq::new(self.parameters@.len(), |i: int| self.parameters@[i]@),
            body: ops_view(self.body@),
        }
    }
}

/// The component that a definition is lowered to.
pub open spec fn lowered_component(definition: DefinitionView) -> ComponentView {
    ComponentView {
        name: definition.ident,
        parameters: Seq::new(definition.fields.len(), |i: int| definition.fields[i].ident),
        body: lowered_nodes(definition.body),
    }
}

/// The component that `source` defines.
pub open spec fn component_of(source: Seq<char>) -> Result<ComponentView, ParseError> {
    match definition_of(source) {
        Ok(definition) => Ok(lowered_component(definition)),
        Err(e) => Err(e),
    }
}

/// Lowers the definition of a component.
pub fn lower_component(definition: &ComponentDefinition) -> (component: Component)
    ensures
        component@ == lowered_component(definition@),
{
    let mut parameters: Vec<String> = Vec::new();
    let mut i: usize = 0;
    while i < definition.fields.len()
        invariant
            i <= definition.fields.len(),
            parameters@.len() == i,
            forall|k: int| 0 <= k < i ==> (#[trigger] parameters@[k])@ == definition.fields@[k].ident@,
        decreases definition.fields.len() - i,
    {
        parameters.push(definition.fields[i].ident.clone());
        i += 1;
    }
    let component = Component {
        name: definition.ident.clone(),
        parameters,
        body: lower_nodes(&definition.body),
    };
    proof {
        assert(component@.parameters == lowered_component(definition@).parameters);
    }
    component
}

/// Compiles the definition of a component: reads it and lowers its body.
pub fn component_impl(source: &str) -> (result: Result<Component, ParseError>)
    ensures
        match result {
            Ok(component) => component_of(source@) == Ok::<ComponentView, ParseError>(component@),
            Err(e) => component_of(source@) == Err::<ComponentView, ParseError>(e),
        },
{
    match parse_component(source) {
        Ok(definition) => Ok(lower_component(&definition)),
        Err(e) => Err(e),
    }
}

/// A void element is lowered without children and without a closing tag of
/// its own: to its start, its attributes and its end, which closes the
/// start tag and writes nothing else.
pub proof fn lemma_void_element_lowering(element: TagView)
    requires
        element.is_void,
    ensures
        lowered_node(NodeView::Element(element)) == seq![
            OpView::StartElement { name: element.name },
        ] + lowered_attributes(element.attributes) + seq![
            OpView::EndElement,
        ],
{
    assert(seq![OpView::StartElement { name: element.name }]
        + lowered_attributes(element.attributes) + Seq::empty()
        == seq![OpView::StartElement { name: element.name }]
        + lowered_attributes(element.attributes));
}

} // verus!
