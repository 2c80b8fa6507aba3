//! The node tree that a template is parsed into.
//!
//! Expressions, patterns, types and paths of the host language are carried
//! as the source text that spells them, and never looked into.

use vstd::prelude::*;

use crate::escape::EscapeMode;

verus! {

/// A piece of host-language source text: an expression, a pattern, a type.
#[derive(Debug)]
pub struct Expr {
    pub source: String,
}

/// An expression in parentheses, with the escape mode asked for, if any.
#[derive(Debug)]
pub struct ParenthesizedExpression {
    pub expr: Expr,
    pub escape_mode: Option<EscapeMode>,
}

/// An expression in square brackets, with the escape mode asked for, if any.
#[derive(Debug)]
pub struct BracketedExpression {
    pub expr: Expr,
    pub escape_mode: Option<EscapeMode>,
}

/// The name of an attribute, as it is written into the markup.
#[derive(Debug)]
pub struct AttributeName {
    pub name: String,
}

/// The value of an attribute.
#[derive(Debug)]
#[allow(inconsistent_fields)]
pub enum AttributeValue {
    /// Literal text behind `=`: written as it stands.
    Literal { value: String },
    /// Literal text behind `:`: escaped as the attribute asks.
    Text { value: String },
    /// An expression whose value is written.
    Dynamic { expr: ParenthesizedExpression },
    /// An expression that may have no value: the attribute is written only
    /// if it has one.
    Optional { expr: BracketedExpression },
    /// A condition: the attribute is written, without a value, if it holds.
    Boolean { expr: Expr },
}

/// An attribute of an element.
#[derive(Debug)]
pub enum Attribute {
    /// A name with a value; without a value the attribute is a boolean
    /// attribute that is always written.
    NameValue { name: AttributeName, value: Option<AttributeValue> },
    /// A collection of attributes, built elsewhere, that is merged in.
    Spread { expr: Expr },
}

/// An element.
#[derive(Debug)]
pub struct Element {
    pub name: String,
    pub is_void: bool,
    pub attributes: Vec<Attribute>,
    pub children: Vec<Node>,
}

/// A `let` that binds names for the nodes behind it.
#[derive(Debug)]
pub struct LetBinding {
    pub pattern: Expr,
    pub expr: Option<Expr>,
}

/// A conditional.
#[derive(Debug)]
pub struct IfCondition {
    pub condition: Expr,
    pub then_branch: Vec<Node>,
    pub else_branch: Option<ElseBranch>,
}

/// What follows `else`.
#[derive(Debug)]
pub enum ElseBranch {
    If(Box<IfCondition>),
    Else(Vec<Node>),
}

/// A loop.
#[derive(Debug)]
pub struct ForLoop {
    pub pattern: Expr,
    pub expression: Expr,
    pub body: Vec<Node>,
}

/// One arm of a match.
#[derive(Debug)]
pub struct MatchArm {
    pub pattern: Expr,
    pub guard: Option<Expr>,
    pub body: Node,
}

/// A match.
#[derive(Debug)]
pub struct MatchExpression {
    pub expression: Expr,
    pub arms: Vec<MatchArm>,
}

/// A parameter of a component given at a call.
#[derive(Debug)]
pub struct ComponentCallField {
    pub ident: String,
    pub value: Expr,
}

/// The call of a component.
#[derive(Debug)]
pub struct ComponentCall {
    pub path: String,
    pub fields: Vec<ComponentCallField>,
    pub attributes: Vec<Attribute>,
    pub children: Vec<Node>,
}

/// A declared parameter of a component.
#[derive(Debug)]
pub struct ComponentDefinitionField {
    pub ident: String,
    pub ty: Expr,
}

/// The definition of a component.
#[derive(Debug)]
pub struct ComponentDefinition {
    /// What stands before `fn`: attributes and visibility.
    pub prelude: Expr,
    pub ident: String,
    /// What stands between the name and the parameters.
    pub generics: Expr,
    pub fields: Vec<ComponentDefinitionField>,
    /// What stands between the parameters and the body.
    pub where_clause: Expr,
    pub body: Vec<Node>,
}

/// A node of a template.
#[derive(Debug)]
pub enum Node {
    /// Literal text.
    Text(String),
    /// An expression whose value is written as content.
    Expression(ParenthesizedExpression),
    /// The document type declaration.
    Doctype,
    /// The place in a component where the children given at the call go.
    Children,
    LetBinding(LetBinding),
    IfCondition(IfCondition),
    ForLoop(ForLoop),
    MatchExpression(MatchExpression),
    ComponentCall(ComponentCall),
    /// An expression whose value is markup already.
    HtmlDisplay(Expr),
    Element(Element),
    /// A group of nodes without an element around it.
    Fragment(Vec<Node>),
}

/// An expression with the escape mode asked for.
pub struct ModedExpr {
    pub expr: Seq<char>,
    pub escape_mode: Option<EscapeMode>,
}

/// What the value of an attribute holds.
pub enum AttributeValueView {
    Literal(Seq<char>),
    Text(Seq<char>),
    Dynamic(ModedExpr),
    Optional(ModedExpr),
    Boolean(Seq<char>),
}

/// What an attribute holds.
pub enum AttributeView {
    NameValue { name: Seq<char>, value: Option<AttributeValueView> },
    Spread { expr: Seq<char> },
}

/// What an element holds.
pub struct TagView {
    pub name: Seq<char>,
    pub is_void: bool,
    pub attributes: Seq<AttributeView>,
    pub children: Seq<NodeView>,
}

/// What a `let` holds.
pub struct LetView {
    pub pattern: Seq<char>,
    pub expr: Option<Seq<char>>,
}

/// What a conditional holds.
pub struct IfView {
    pub condition: Seq<char>,
    pub then_branch: Seq<NodeView>,
    pub else_branch: Option<ElseView>,
}

/// What follows `else`.
pub enum ElseView {
    If(Box<IfView>),
    Else(Seq<NodeView>),
}

/// What a loop holds.
pub struct ForView {
    pub pattern: Seq<char>,
    pub expression: Seq<char>,
    pub body: Seq<NodeView>,
}

/// What a match arm holds.
pub struct ArmView {
    pub pattern: Seq<char>,
    pub guard: Option<Seq<char>>,
    pub body: Box<NodeView>,
}

/// What a match holds.
pub struct MatchView {
    pub expression: Seq<char>,
    pub arms: Seq<ArmView>,
}

/// What a parameter holds: its name, and the text of its value or of its
/// type.
pub struct FieldView {
    pub ident: Seq<char>,
    pub value: Seq<char>,
}

/// What the call of a component holds.
pub struct CallView {
    pub path: Seq<char>,
    pub fields: Seq<FieldView>,
    pub attributes: Seq<AttributeView>,
    pub children: Seq<NodeView>,
}

/// What the definition of a component holds.
pub struct DefinitionView {
    pub prelude: Seq<char>,
    pub ident: Seq<char>,
    pub generics: Seq<char>,
    pub fields: Seq<FieldView>,
    pub where_clause: Seq<char>,
    pub body: Seq<NodeView>,
}

/// What a node holds.
pub enum NodeView {
    Text(Seq<char>),
    Expression(ModedExpr),
    Doctype,
    Children,
    LetBinding(LetView),
    IfCondition(IfView),
    ForLoop(ForView),
    MatchExpression(MatchView),
    ComponentCall(CallView),
    HtmlDisplay(Seq<char>),
    Element(TagView),
    Fragment(Seq<NodeView>),
}

impl View for Expr {
    type V = Seq<char>;

    open spec fn view(&self) -> Seq<char> {
        self.source@
    }
}

impl View for ParenthesizedExpression {
    type V = ModedExpr;

    open spec fn view(&self) -> ModedExpr {
        ModedExpr { expr: self.expr@, escape_mode: self.escape_mode }
    }
}

impl View for BracketedExpression {
    type V = ModedExpr;

    open spec fn view(&self) -> ModedExpr {
        ModedExpr { expr: self.expr@, escape_mode: self.escape_mode }
    }
}

impl View for AttributeName {
    type V = Seq<char>;

    open spec fn view(&self) -> Seq<char> {
        self.name@
    }
}

/// The text of an optional expression.
pub open spec fn optional_expr_view(expr: Option<Expr>) -> Option<Seq<char>> {
    match expr {
        Some(e) => Some(e@),
        None => None,
    }
}

impl View for AttributeValue {
    type V = AttributeValueView;

    open spec fn view(&self) -> AttributeValueView {
        match self {
            AttributeValue::Literal { value } => AttributeValueView::Literal(value@),
            AttributeValue::Text { value } => AttributeValueView::Text(value@),
            AttributeValue::Dynamic { expr } => AttributeValueView::Dynamic(expr@),
            AttributeValue::Optional { expr } => AttributeValueView::Optional(expr@),
            AttributeValue::Boolean { expr } => AttributeValueView::Boolean(expr@),
        }
    }
}

impl View for Attribute {
    type V = AttributeView;

    open spec fn view(&self) -> AttributeView {
        match self {
            Attribute::NameValue { name, value } => AttributeView::NameValue {
                name: name@,
                value: match value {
                    Some(v) => Some(v@),
                    None => None,
                },
            },
            Attribute::Spread { expr } => AttributeView::Spread { expr: expr@ },
        }
    }
}

/// What a list of attributes holds.
pub open spec fn attributes_view(attributes: Seq<Attribute>) -> Seq<AttributeView> {
    Seq::new(attributes.len(), |i: int| attributes[i]@)
}

impl View for LetBinding {
    type V = LetView;

    open spec fn view(&self) -> LetView {
        LetView { pattern: self.pattern@, expr: optional_expr_view(self.expr) }
    }
}

impl View for ComponentCallField {
    type V = FieldView;

    open spec fn view(&self) -> FieldView {
        FieldView { ident: self.ident@, value: self.value@ }
    }
}

impl View for ComponentDefinitionField {
    type V = FieldView;

    open spec fn view(&self) -> FieldView {
        FieldView { ident: self.ident@, value: self.ty@ }
    }
}

/// What a list of call parameters holds.
pub open spec fn call_fields_view(fields: Seq<ComponentCallField>) -> Seq<FieldView> {
    Seq::new(fields.len(), |i: int| fields[i]@)
}

/// What a list of declared parameters holds.
pub open spec fn definition_fields_view(fields: Seq<ComponentDefinitionField>) -> Seq<FieldView> {
    Seq::new(fields.len(), |i: int| fields[i]@)
}

/// What a node holds.
pub open spec fn node_view(node: Node) -> NodeView
    decreases node,
{
    match node {
        Node::Text(text) => NodeView::Text(text@),
        Node::Expression(expr) => NodeView::Expression(expr@),
        Node::Doctype => NodeView::Doctype,
        Node::Children => NodeView::Children,
        Node::LetBinding(binding) => NodeView::LetBinding(binding@),
        Node::IfCondition(condition) => NodeView::IfCondition(if_view(condition)),
        Node::ForLoop(for_loop) => NodeView::ForLoop(for_view(for_loop)),
        Node::MatchExpression(matching) => NodeView::MatchExpression(match_view(matching)),
        Node::ComponentCall(call) => NodeView::ComponentCall(call_view(call)),
        Node::HtmlDisplay(expr) => NodeView::HtmlDisplay(expr@),
        Node::Element(element) => NodeView::Element(tag_view(element)),
        Node::Fragment(nodes) => NodeView::Fragment(nodes_view(nodes@)),
    }
}

/// What a list of nodes holds.
pub open spec fn nodes_view(nodes: Seq<Node>) -> Seq<NodeView>
    decreases nodes,
{
    if nodes.len() == 0 {
        Seq::empty()
    } else {
        nodes_view(nodes.drop_last()).push(node_view(nodes.last()))
    }
}

/// What an element holds.
pub open spec fn tag_view(element: Element) -> TagView
    decreases element,
{
    TagView {
        name: element.name@,
        is_void: element.is_void,
        attributes: attributes_view(element.attributes@),
        children: nodes_view(element.children@),
    }
}

/// What a loop holds.
pub open spec fn for_view(for_loop: ForLoop) -> ForView
    decreases for_loop,
{
    ForView {
        pattern: for_loop.pattern@,
        expression: for_loop.expression@,
        body: nodes_view(for_loop.body@),
    }
}

/// What a match holds.
pub open spec fn match_view(matching: MatchExpression) -> MatchView
    decreases matching,
{
    MatchView { expression: matching.expression@, arms: arms_view(matching.arms@) }
}

/// What a call holds.
pub open spec fn call_view(call: ComponentCall) -> CallView
    decreases call,
{
    CallView {
        path: call.path@,
        fields: call_fields_view(call.fields@),
        attributes: attributes_view(call.attributes@),
        children: nodes_view(call.children@),
    }
}

/// What a conditional holds.
pub open spec fn if_view(condition: IfCondition) -> IfView
    decreases condition,
{
    IfView {
        condition: condition.condition@,
        then_branch: nodes_view(condition.then_branch@),
        else_branch: match condition.else_branch {
            Some(ElseBranch::If(inner)) => Some(ElseView::If(Box::new(if_view(*inner)))),
            Some(ElseBranch::Else(nodes)) => Some(ElseView::Else(nodes_view(nodes@))),
            None => None,
        },
    }
}

/// What a match arm holds.
pub open spec fn arm_view(arm: MatchArm) -> ArmView
    decreases arm,
{
    ArmView {
        pattern: arm.pattern@,
        guard: optional_expr_view(arm.guard),
        body: Box::new(node_view(arm.body)),
    }
}

/// What a list of match arms holds.
pub open spec fn arms_view(arms: Seq<MatchArm>) -> Seq<ArmView>
    decreases arms,
{
    if arms.len() == 0 {
        Seq::empty()
    } else {
        arms_view(arms.drop_last()).push(arm_view(arms.last()))
    }
}

impl View for ComponentDefinition {
    type V = DefinitionView;

    open spec fn view(&self) -> DefinitionView {
        DefinitionView {
            prelude: self.prelude@,
            ident: self.ident@,
            generics: self.generics@,
            fields: definition_fields_view(self.fields@),
            where_clause: self.where_clause@,
            body: nodes_view(self.body@),
        }
    }
}

} // verus!
