//! Running a lowered template against a formatter.
//!
//! The operations are run in order. Where an operation names an expression
//! of the host language, the host's scopes are asked for its value; where
//! it is a construct of the host language, the value says which block is
//! run, and how often. Nothing else decides what is written.

use vstd::prelude::*;

use crate::attributes::{added, merged, with_entry, AttributesView};
use crate::error::Error;
use crate::escape::{attribute_mode, content_mode, EscapeMode};
use crate::formatter::{
    content_allowed, content_written, element_ended, element_started, tag_pending,
    with_attributes, FormatterView, HtmlFormatter,
};
use crate::html::{Html, PreEscaped};
use crate::attributes::Attributes;
use crate::formatter::FormatterState;
use crate::lower::{
    arm_op_view, arm_ops_view, attrs_impl, attrs_ops_of, component_impl, component_of, html_impl,
    html_ops_of, op_view, ops_view, Arm, Component, ComponentView, Op, OpView, Source,
    SourceView,
};
use crate::parse::ParseError;
use crate::render::{text_rejected, text_rendered};
use crate::scope::{frames_value, Frames, Scope, Value};
use crate::text::str_eq;

verus! {

/// Why a render failed.
#[derive(Debug, Clone, Copy, PartialEq, Eq, Structural)]
pub enum RenderError {
    /// The operations broke the formatter's state machine.
    Formatter(Error),
    /// An expression has no value in the scopes around it.
    Unbound,
    /// The value of an expression cannot be used where the expression
    /// stands.
    Mismatch,
    /// A component is called that was never defined.
    UnknownComponent,
    /// The children or the extra attributes of a call are asked for
    /// outside of a component.
    OutsideComponent,
    /// Blocks are nested deeper than [`MAX_DEPTH`] levels. The limit is
    /// there so that every render ends, within the machine's stack, also
    /// where a component calls itself.
    TooDeep,
}

/// How deep blocks may be nested in one render: 256 levels.
///
/// A level is a block that is being run: a branch of a conditional, the
/// body of a loop, an arm of a match, the body of a component that is
/// called, or the children or extra attributes that a component asks for.
/// Elements inside each other are no levels.
///
/// The run descends by one call of `run_op` for each level, on the stack of
/// the thread that renders, and a component may call itself: so the depth
/// of a render is not bounded by the length of the templates, and without a
/// limit a render might never end, or end with the stack used up. With the
/// limit every render ends, and none descends further than 256 levels. A
/// render that needs more fails with [`RenderError::TooDeep`]; it writes no
/// markup. Nothing else depends on the number, which is far above the depth
/// of a template that was written by hand.
pub const MAX_DEPTH: usize = 256;

/// The components that a template may call.
///
/// Every component of a library was lowered from a definition that was
/// read, or from nodes that keep the rule of void elements.
pub struct Library {
    components: Vec<Component>,
}

/// What a call hands to the component: the operations that write its extra
/// attributes and its children, and the place of the call, where they are
/// run.
pub struct Projection<'a> {
    pub attributes: &'a Vec<Op>,
    pub children: &'a Vec<Op>,
    pub context: &'a Context<'a>,
}

/// A place in a render: the scopes around it and, inside a component, what
/// the call handed over.
pub struct Context<'a> {
    pub frames: Option<&'a Frames<'a>>,
    pub projection: Option<&'a Projection<'a>>,
}

/// What a call hands to the component.
pub struct ProjectionView {
    pub attributes: Seq<OpView>,
    pub children: Seq<OpView>,
    pub context: Box<ContextView>,
}

/// A place in a render.
pub struct ContextView {
    /// The scopes around the place, the outermost first.
    pub frames: Seq<Scope>,
    pub projection: Option<ProjectionView>,
}

/// The scopes of a chain of frames, the outermost first.
pub open spec fn frames_view(frames: Option<&Frames>) -> Seq<Scope> {
    match frames {
        None => Seq::empty(),
        Some(f) => f.scopes(),
    }
}

/// What a place in a render holds.
pub open spec fn context_view(context: Context) -> ContextView
    decreases context,
{
    ContextView {
        frames: frames_view(context.frames),
        projection: match context.projection {
            None => None,
            Some(p) => Some(
                ProjectionView {
                    attributes: ops_view(p.attributes@),
                    children: ops_view(p.children@),
                    context: Box::new(context_view(*p.context)),
                },
            ),
        },
    }
}

/// What a library holds.
pub closed spec fn library_view(library: Library) -> Seq<ComponentView> {
    Seq::new(library.components@.len(), |i: int| library.components@[i]@)
}

/// The first index at or after `from` of a component named `name`, or the
/// number of components.
pub open spec fn component_index(library: Seq<ComponentView>, name: Seq<char>, from: int) -> int
    decreases library.len() - from,
{
    if from >= library.len() || from < 0 {
        library.len() as int
    } else if library[from].name == name {
        from
    } else {
        component_index(library, name, from + 1)
    }
}

/// The text of a value that can be written, and whether it is markup
/// already, which is written as it stands.
pub open spec fn value_text(value: Value) -> Option<(Seq<char>, bool)> {
    match value {
        Value::Text(text) => Some((text@, false)),
        Value::Markup(text) => Some((text@, true)),
        Value::Flag(flag) => Some(
            (
                if flag {
                    "true"@
                } else {
                    "false"@
                },
                true,
            ),
        ),
        Value::Absent => Some((Seq::empty(), true)),
        _ => None,
    }
}

/// The formatter after an attribute was written: the text is escaped as the
/// attribute asks unless it is markup; a URL that is not safe leaves the
/// attribute out.
pub open spec fn attribute_put(
    view: FormatterView,
    name: Seq<char>,
    text: Seq<char>,
    markup: bool,
    escape_mode: Option<EscapeMode>,
) -> Result<FormatterView, RenderError> {
    let mode = attribute_mode(name, escape_mode);
    let held = view.stack.last().attributes;
    if !tag_pending(view) {
        Err(RenderError::Formatter(Error::AttributeOutsideTag))
    } else if markup {
        Ok(with_attributes(view, added(held, name, text)))
    } else if text_rejected(text, mode) {
        Ok(with_attributes(view, held))
    } else {
        Ok(with_attributes(view, added(held, name, text_rendered(text, mode))))
    }
}

/// The formatter after a boolean attribute was written, if `value` holds.
pub open spec fn flag_put(view: FormatterView, name: Seq<char>, value: bool) -> Result<
    FormatterView,
    RenderError,
> {
    let held = view.stack.last().attributes;
    if !tag_pending(view) {
        Err(RenderError::Formatter(Error::AttributeOutsideTag))
    } else {
        Ok(
            with_attributes(
                view,
                AttributesView {
                    classes: held.classes,
                    entries: if value {
                        with_entry(held.entries, name, None)
                    } else {
                        held.entries
                    },
                },
            ),
        )
    }
}

/// The formatter after attributes were merged in.
pub open spec fn spread_put(view: FormatterView, attributes: AttributesView) -> Result<
    FormatterView,
    RenderError,
> {
    if !tag_pending(view) {
        Err(RenderError::Formatter(Error::AttributeOutsideTag))
    } else {
        Ok(with_attributes(view, merged(view.stack.last().attributes, attributes)))
    }
}

/// The formatter after content was written: the text is escaped unless it
/// is markup.
pub open spec fn content_put(
    view: FormatterView,
    text: Seq<char>,
    markup: bool,
    escape_mode: Option<EscapeMode>,
) -> Result<FormatterView, RenderError> {
    if !content_allowed(view) {
        Err(RenderError::Formatter(Error::ContentInVoidElement))
    } else if markup {
        Ok(content_written(view, text))
    } else {
        Ok(content_written(view, text_rendered(text, content_mode(escape_mode))))
    }
}

/// The place `context` with one more scope around it.
pub open spec fn inside(context: ContextView, scope: Scope) -> ContextView {
    ContextView { frames: context.frames.push(scope), projection: context.projection }
}

/// The word `attrs`, under which a component finds the extra attributes of
/// its call.
pub open spec fn attrs_word() -> Seq<char> {
    seq!['a', 't', 't', 'r', 's']
}

/// The formatter after one operation that is no block was run.
pub open spec fn plain_op_ran(op: OpView, context: ContextView, view: FormatterView) -> Result<
    FormatterView,
    RenderError,
> {
    match op {
        OpView::StartElement { name } => Ok(element_started(view, name)),
        OpView::EndElement => if view.stack.len() == 0 {
            Err(RenderError::Formatter(Error::NoElementToClose))
        } else {
            Ok(element_ended(view))
        },
        OpView::WriteAttribute { name, value, escape_mode } => match value {
            SourceView::Literal(text) => attribute_put(view, name, text, false, escape_mode),
            SourceView::Expr(expr) => match frames_value(context.frames, expr) {
                None => Err(RenderError::Unbound),
                Some(value) => match value_text(value) {
                    None => Err(RenderError::Mismatch),
                    Some((text, markup)) => attribute_put(view, name, text, markup, escape_mode),
                },
            },
        },
        OpView::WriteOptionalAttribute { name, expr, escape_mode } => match frames_value(
            context.frames,
            expr,
        ) {
            None => Err(RenderError::Unbound),
            Some(Value::Text(text)) => attribute_put(view, name, text@, false, escape_mode),
            Some(Value::Markup(text)) => attribute_put(view, name, text@, true, escape_mode),
            Some(Value::Flag(flag)) => flag_put(view, name, flag),
            Some(Value::Absent) => flag_put(view, name, false),
            Some(_) => Err(RenderError::Mismatch),
        },
        OpView::WriteBooleanAttribute { name, condition } => match condition {
            None => flag_put(view, name, true),
            Some(expr) => match frames_value(context.frames, expr) {
                None => Err(RenderError::Unbound),
                Some(Value::Flag(flag)) => flag_put(view, name, flag),
                Some(_) => Err(RenderError::Mismatch),
            },
        },
        OpView::WriteContent { value, escape_mode } => match value {
            SourceView::Literal(text) => content_put(view, text, false, escape_mode),
            SourceView::Expr(expr) => match frames_value(context.frames, expr) {
                None => Err(RenderError::Unbound),
                Some(value) => match value_text(value) {
                    None => Err(RenderError::Mismatch),
                    Some((text, markup)) => content_put(view, text, markup, escape_mode),
                },
            },
        },
        OpView::Embed { expr } => match frames_value(context.frames, expr) {
            None => Err(RenderError::Unbound),
            Some(Value::Markup(text)) => content_put(view, text@, true, None),
            Some(Value::Text(text)) => content_put(view, text@, false, None),
            Some(_) => Err(RenderError::Mismatch),
        },
        OpView::Let { pattern, expr } => Ok(view),
        _ => Ok(view),
    }
}

/// Whether an operation is a block: it runs other operations.
pub open spec fn is_block(op: OpView, context: ContextView) -> bool {
    match op {
        OpView::If { .. } => true,
        OpView::For { .. } => true,
        OpView::Match { .. } => true,
        OpView::Component { .. } => true,
        OpView::Children => true,
        OpView::SpreadAttributes { .. } => true,
        _ => false,
    }
}

/// The formatter after one operation was run.
///
/// Of a conditional, the block of the branch that the host's value picks is
/// run, and no other; of a loop, its block once for each turn, in order; of
/// a match, the block of the arm that the host's value picks. A component
/// runs its own operations, in its own scope; where they ask for the
/// children or the extra attributes of the call, the operations given at
/// the call are run, at the place of the call.
pub open spec fn op_ran(
    op: OpView,
    library: Seq<ComponentView>,
    context: ContextView,
    view: FormatterView,
    fuel: nat,
) -> Result<FormatterView, RenderError>
    decreases fuel, 0nat, 0nat,
{
    if !is_block(op, context) {
        plain_op_ran(op, context, view)
    } else if fuel == 0 {
        Err(RenderError::TooDeep)
    } else {
        let less = (fuel - 1) as nat;
        match op {
            OpView::SpreadAttributes { expr } => if expr == attrs_word()
                && context.projection is Some {
                let given = context.projection->0;
                ran(given.attributes, library, *given.context, view, less)
            } else {
                match frames_value(context.frames, expr) {
                    None => Err(RenderError::Unbound),
                    Some(Value::Attributes(attributes)) => spread_put(view, attributes@),
                    Some(_) => Err(RenderError::Mismatch),
                }
            },
            OpView::Children => match context.projection {
                None => Err(RenderError::OutsideComponent),
                Some(given) => ran(given.children, library, *given.context, view, less),
            },
            OpView::If { condition, then_ops, else_ops } => match frames_value(
                context.frames,
                condition,
            ) {
                None => Err(RenderError::Unbound),
                Some(Value::Flag(true)) => ran(then_ops, library, context, view, less),
                Some(Value::Flag(false)) => ran(else_ops, library, context, view, less),
                Some(Value::Absent) => ran(else_ops, library, context, view, less),
                Some(Value::Bound(scope)) => ran(
                    then_ops,
                    library,
                    inside(context, scope),
                    view,
                    less,
                ),
                Some(_) => Err(RenderError::Mismatch),
            },
            OpView::For { pattern, expression, body } => match frames_value(
                context.frames,
                expression,
            ) {
                None => Err(RenderError::Unbound),
                Some(Value::Items(items)) => turns_ran(body, items@, 0, library, context, view, less),
                Some(_) => Err(RenderError::Mismatch),
            },
            OpView::Match { expression, arms } => match frames_value(context.frames, expression) {
                None => Err(RenderError::Unbound),
                Some(Value::Arm(index, scope)) => if index < arms.len() {
                    ran(arms[index as int].body, library, inside(context, scope), view, less)
                } else {
                    Err(RenderError::Mismatch)
                },
                Some(_) => Err(RenderError::Mismatch),
            },
            OpView::Component { path, fields, attributes, children } => {
                let found = component_index(library, path, 0);
                let given = ProjectionView { attributes, children, context: Box::new(context) };
                if !(0 <= found < library.len()) {
                    Err(RenderError::UnknownComponent)
                } else {
                    match frames_value(context.frames, path) {
                        None => ran(
                            library[found].body,
                            library,
                            ContextView { frames: Seq::empty(), projection: Some(given) },
                            view,
                            less,
                        ),
                        Some(Value::Bound(scope)) => ran(
                            library[found].body,
                            library,
                            ContextView { frames: seq![scope], projection: Some(given) },
                            view,
                            less,
                        ),
                        Some(_) => Err(RenderError::Mismatch),
                    }
                }
            },
            _ => Ok(view),
        }
    }
}

/// The formatter after the block `body` was run once for each of the turns
/// `items[from..]`, each in its scope.
pub open spec fn turns_ran(
    body: Seq<OpView>,
    items: Seq<Scope>,
    from: int,
    library: Seq<ComponentView>,
    context: ContextView,
    view: FormatterView,
    fuel: nat,
) -> Result<FormatterView, RenderError>
    decreases fuel, 2nat, items.len() - from,
{
    if from >= items.len() || from < 0 {
        Ok(view)
    } else {
        match ran(body, library, inside(context, items[from]), view, fuel) {
            Err(e) => Err(e),
            Ok(next) => turns_ran(body, items, from + 1, library, context, next, fuel),
        }
    }
}

/// The formatter after the operations `ops` were run in order, or the first
/// failure.
pub open spec fn ran(
    ops: Seq<OpView>,
    library: Seq<ComponentView>,
    context: ContextView,
    view: FormatterView,
    fuel: nat,
) -> Result<FormatterView, RenderError>
    decreases fuel, 1nat, ops.len(),
{
    if ops.len() == 0 {
        Ok(view)
    } else {
        match op_ran(ops[0], library, context, view, fuel) {
            Err(e) => Err(e),
            Ok(next) => ran(ops.skip(1), library, context, next, fuel),
        }
    }
}

/// Whether a run ended as the semantics say: well, with the formatter as
/// they say, or with the failure that they say.
pub open spec fn agrees(
    result: Result<(), RenderError>,
    after: FormatterView,
    expected: Result<FormatterView, RenderError>,
) -> bool {
    match expected {
        Ok(view) => result is Ok && after == view,
        Err(e) => result == Err::<(), RenderError>(e),
    }
}

/// The view of a list of operations has the views of the operations, each
/// in its place.
pub proof fn lemma_ops_view_index(ops: Seq<Op>)
    ensures
        ops_view(ops).len() == ops.len(),
        forall|i: int| 0 <= i < ops.len() ==> #[trigger] ops_view(ops)[i] == op_view(ops[i]),
    decreases ops.len(),
{
    if ops.len() > 0 {
        lemma_ops_view_index(ops.drop_last());
    }
}

/// The view of a list of arms has the views of the arms, each in its place.
pub proof fn lemma_arm_ops_view_index(arms: Seq<Arm>)
    ensures
        arm_ops_view(arms).len() == arms.len(),
        forall|i: int| 0 <= i < arms.len() ==> #[trigger] arm_ops_view(arms)[i] == arm_op_view(
            arms[i],
        ),
    decreases arms.len(),
{
    if arms.len() > 0 {
        lemma_arm_ops_view_index(arms.drop_last());
    }
}

fn put_attribute(
    f: &mut HtmlFormatter,
    name: &str,
    text: &str,
    markup: bool,
    escape_mode: Option<EscapeMode>,
) -> (result: Result<(), RenderError>)
    ensures
        agrees(result, final(f)@, attribute_put(old(f)@, name@, text@, markup, escape_mode)),
{
    let written = if markup {
        f.write_attribute(name, PreEscaped(text), escape_mode)
    } else {
        f.write_attribute(name, text, escape_mode)
    };
    match written {
        Ok(()) => Ok(()),
        Err(e) => Err(RenderError::Formatter(e)),
    }
}

fn put_flag(f: &mut HtmlFormatter, name: &str, value: bool) -> (result: Result<(), RenderError>)
    ensures
        agrees(result, final(f)@, flag_put(old(f)@, name@, value)),
{
    match f.write_boolean_attribute(name, value) {
        Ok(()) => Ok(()),
        Err(e) => Err(RenderError::Formatter(e)),
    }
}

fn put_content(f: &mut HtmlFormatter, text: &str, markup: bool, escape_mode: Option<EscapeMode>) -> (result:
    Result<(), RenderError>)
    ensures
        agrees(result, final(f)@, content_put(old(f)@, text@, markup, escape_mode)),
{
    let written = if markup {
        f.write_content(PreEscaped(text), escape_mode)
    } else {
        f.write_content(text, escape_mode)
    };
    match written {
        Ok(()) => Ok(()),
        Err(e) => Err(RenderError::Formatter(e)),
    }
}

fn text_of_value(value: &Value) -> (text: Option<(&str, bool)>)
    ensures
        match text {
            Some((t, markup)) => value_text(*value) == Some((t@, markup)),
            None => value_text(*value) is None,
        },
{
    proof {
        reveal_strlit("");
        assert(""@ == Seq::<char>::empty());
    }
    match value {
        Value::Text(text) => Some((text.as_str(), false)),
        Value::Markup(text) => Some((text.as_str(), true)),
        Value::Flag(flag) => Some(
            (
                if *flag {
                    "true"
                } else {
                    "false"
                },
                true,
            ),
        ),
        Value::Absent => Some(("", true)),
        _ => None,
    }
}

impl<'a> Context<'a> {
    /// The value that the scopes around this place give to `expr`.
    pub fn value(&self, expr: &str) -> (value: Option<&'a Value>)
        ensures
            match value {
                Some(v) => frames_value(context_view(*self).frames, expr@) == Some(*v),
                None => frames_value(context_view(*self).frames, expr@) is None,
            },
    {
        match self.frames {
            None => None,
            Some(frames) => frames.get(expr),
        }
    }
}

fn run_plain_op(op: &Op, context: &Context, f: &mut HtmlFormatter) -> (result: Result<
    (),
    RenderError,
>)
    requires
        !is_block(op_view(*op), context_view(*context)),
    ensures
        agrees(result, final(f)@, plain_op_ran(op_view(*op), context_view(*context), old(f)@)),
{
    match op {
        Op::StartElement { name } => {
            f.start_element(name.as_str());
            Ok(())
        },
        Op::EndElement => match f.end_element() {
            Ok(()) => Ok(()),
            Err(e) => Err(RenderError::Formatter(e)),
        },
        Op::WriteAttribute { name, value, escape_mode } => match value {
            Source::Literal(text) => put_attribute(
                f,
                name.as_str(),
                text.as_str(),
                false,
                *escape_mode,
            ),
            Source::Expr(expr) => match context.value(expr.as_str()) {
                None => Err(RenderError::Unbound),
                Some(value) => match text_of_value(value) {
                    None => Err(RenderError::Mismatch),
                    Some((text, markup)) => put_attribute(
                        f,
                        name.as_str(),
                        text,
                        markup,
                        *escape_mode,
                    ),
                },
            },
        },
        Op::WriteOptionalAttribute { name, expr, escape_mode } => match context.value(
            expr.as_str(),
        ) {
            None => Err(RenderError::Unbound),
            Some(Value::Text(text)) => put_attribute(
                f,
                name.as_str(),
                text.as_str(),
                false,
                *escape_mode,
            ),
            Some(Value::Markup(text)) => put_attribute(
                f,
                name.as_str(),
                text.as_str(),
                true,
                *escape_mode,
            ),
            Some(Value::Flag(flag)) => put_flag(f, name.as_str(), *flag),
            Some(Value::Absent) => put_flag(f, name.as_str(), false),
            Some(_) => Err(RenderError::Mismatch),
        },
        Op::WriteBooleanAttribute { name, condition } => match condition {
            None => put_flag(f, name.as_str(), true),
            Some(expr) => match context.value(expr.as_str()) {
                None => Err(RenderError::Unbound),
                Some(Value::Flag(flag)) => put_flag(f, name.as_str(), *flag),
                Some(_) => Err(RenderError::Mismatch),
            },
        },
        Op::WriteContent { value, escape_mode } => match value {
            Source::Literal(text) => put_content(f, text.as_str(), false, *escape_mode),
            Source::Expr(expr) => match context.value(expr.as_str()) {
                None => Err(RenderError::Unbound),
                Some(value) => match text_of_value(value) {
                    None => Err(RenderError::Mismatch),
                    Some((text, markup)) => put_content(f, text, markup, *escape_mode),
                },
            },
        },
        Op::Embed { expr } => match context.value(expr.as_str()) {
            None => Err(RenderError::Unbound),
            Some(Value::Markup(text)) => put_content(f, text.as_str(), true, None),
            Some(Value::Text(text)) => put_content(f, text.as_str(), false, None),
            Some(_) => Err(RenderError::Mismatch),
        },
        _ => Ok(()),
    }
}

fn op_is_block(op: &Op) -> (r: bool)
    ensures
        forall|context: ContextView| r == #[trigger] is_block(op_view(*op), context),
{
    match op {
        Op::If { .. } => true,
        Op::For { .. } => true,
        Op::Match { .. } => true,
        Op::Component { .. } => true,
        Op::Children => true,
        Op::SpreadAttributes { .. } => true,
        _ => false,
    }
}

impl Library {
    #[verifier::type_invariant]
    closed spec fn holds_lowered_components(&self) -> bool {
        crate::safety::library_lowered(library_view(*self))
    }

    /// A library without components.
    pub fn new() -> (library: Self)
        ensures
            library_view(library) == Seq::<ComponentView>::empty(),
    {
        Library { components: Vec::new() }
    }

    /// The number of components.
    pub fn len(&self) -> (len: usize)
        ensures
            len == library_view(*self).len(),
            crate::safety::library_lowered(library_view(*self)),
    {
        proof {
            use_type_invariant(self);
        }
        self.components.len()
    }

    /// Adds a compiled component. Of two components with one name the one
    /// added first is the one that is called.
    pub fn add(&mut self, component: Component)
        requires
            crate::safety::lowered_from_nodes(component@.body),
        ensures
            library_view(*final(self)) == library_view(*old(self)).push(component@),
    {
        proof {
            use_type_invariant(&*self);
        }
        let ghost before = library_view(*self);
        let mut taken = Library { components: Vec::new() };
        std::mem::swap(self, &mut taken);
        let mut components = taken.components;
        components.push(component);
        proof {
            let extended = before.push(component@);
            assert(Seq::new(components@.len(), |i: int| components@[i]@) =~= extended);
            assert forall|i: int| 0 <= i < extended.len() implies crate::safety::lowered_from_nodes(
                (#[trigger] extended[i]).body,
            ) by {
                if i < before.len() {
                    assert(extended[i] == before[i]);
                }
            }
        }
        *self = Library { components };
    }

    /// Compiles the definition of a component and adds it.
    pub fn define(&mut self, source: &str) -> (result: Result<(), ParseError>)
        ensures
            match result {
                Ok(()) => component_of(source@) is Ok && library_view(*final(self)) == library_view(
                    *old(self),
                ).push(component_of(source@)->Ok_0),
                Err(e) => component_of(source@) == Err::<ComponentView, ParseError>(e)
                    && library_view(*final(self)) == library_view(*old(self)),
            },
    {
        match component_impl(source) {
            Ok(component) => {
                proof {
                    crate::safety::lemma_definition_sound(source@);
                    let definition = crate::parse::component::definition_of(source@)->Ok_0;
                    assert(component@.body == crate::lower::lowered_nodes(definition.body));
                }
                self.add(component);
                Ok(())
            },
            Err(e) => Err(e),
        }
    }

    /// The place of the component named `name`.
    pub fn find(&self, name: &str) -> (found: Option<usize>)
        ensures
            match found {
                Some(i) => component_index(library_view(*self), name@, 0) == i && i
                    < library_view(*self).len(),
                None => component_index(library_view(*self), name@, 0) == library_view(
                    *self,
                ).len(),
            },
    {
        let ghost library = library_view(*self);
        let mut i: usize = 0;
        while i < self.components.len()
            invariant
                i <= self.components.len(),
                library == library_view(*self),
                component_index(library, name@, i as int) == component_index(library, name@, 0),
            decreases self.components.len() - i,
        {
            if str_eq(self.components[i].name.as_str(), name) {
                return Some(i);
            }
            i += 1;
        }
        None
    }
}

/// Runs one operation.
pub fn run_op(op: &Op, library: &Library, context: &Context, f: &mut HtmlFormatter, fuel: usize) -> (result:
    Result<(), RenderError>)
    ensures
        agrees(
            result,
            final(f)@,
            op_ran(op_view(*op), library_view(*library), context_view(*context), old(f)@, fuel as nat),
        ),
    decreases fuel, 0nat, 0nat,
{
    if !op_is_block(op) {
        return run_plain_op(op, context, f);
    }
    if fuel == 0 {
        return Err(RenderError::TooDeep);
    }
    let less = fuel - 1;
    proof {
        reveal_strlit("attrs");
        assert("attrs"@ == attrs_word());
    }
    match op {
        Op::SpreadAttributes { expr } => {
            if str_eq(expr.as_str(), "attrs") {
                match context.projection {
                    Some(given) => {
                        return run_ops(given.attributes, library, given.context, f, less);
                    },
                    None => {},
                }
            }
            match context.value(expr.as_str()) {
                None => Err(RenderError::Unbound),
                Some(Value::Attributes(attributes)) => match f.spread_attributes(attributes.clone()) {
                    Ok(()) => Ok(()),
                    Err(e) => Err(RenderError::Formatter(e)),
                },
                Some(_) => Err(RenderError::Mismatch),
            }
        },
        Op::Children => match context.projection {
            None => Err(RenderError::OutsideComponent),
            Some(given) => run_ops(given.children, library, given.context, f, less),
        },
        Op::If { condition, then_ops, else_ops } => match context.value(condition.as_str()) {
            None => Err(RenderError::Unbound),
            Some(Value::Flag(true)) => run_ops(then_ops, library, context, f, less),
            Some(Value::Flag(false)) => run_ops(else_ops, library, context, f, less),
            Some(Value::Absent) => run_ops(else_ops, library, context, f, less),
            Some(Value::Bound(scope)) => {
                let frames = Frames { scope, outer: context.frames };
                let inner = Context { frames: Some(&frames), projection: context.projection };
                proof {
                    assert(context_view(inner).frames == context_view(*context).frames.push(*scope));
                    assert(context_view(inner) == inside(context_view(*context), *scope));
                }
                run_ops(then_ops, library, &inner, f, less)
            },
            Some(_) => Err(RenderError::Mismatch),
        },
        Op::For { pattern, expression, body } => match context.value(expression.as_str()) {
            None => Err(RenderError::Unbound),
            Some(Value::Items(items)) => run_turns(body, items, library, context, f, less),
            Some(_) => Err(RenderError::Mismatch),
        },
        Op::Match { expression, arms } => match context.value(expression.as_str()) {
            None => Err(RenderError::Unbound),
            Some(Value::Arm(index, scope)) => {
                proof {
                    lemma_arm_ops_view_index(arms@);
                }
                if *index < arms.len() {
                    let frames = Frames { scope, outer: context.frames };
                    let inner = Context { frames: Some(&frames), projection: context.projection };
                    proof {
                        assert(context_view(inner).frames == context_view(*context).frames.push(
                            *scope,
                        ));
                        assert(context_view(inner) == inside(context_view(*context), *scope));
                    }
                    run_ops(&arms[*index].body, library, &inner, f, less)
                } else {
                    Err(RenderError::Mismatch)
                }
            },
            Some(_) => Err(RenderError::Mismatch),
        },
        Op::Component { path, fields, attributes, children } => {
            let found = match library.find(path.as_str()) {
                Some(found) => found,
                None => {
                    return Err(RenderError::UnknownComponent);
                },
            };
            let given = Projection { attributes, children, context };
            let body = &library.components[found].body;
            proof {
                assert(library_view(*library)[found as int].body == ops_view(body@));
            }
            match context.value(path.as_str()) {
                None => {
                    let inner = Context { frames: None, projection: Some(&given) };
                    run_ops(body, library, &inner, f, less)
                },
                Some(Value::Bound(scope)) => {
                    let frames = Frames { scope, outer: None };
                    let inner = Context { frames: Some(&frames), projection: Some(&given) };
                    run_ops(body, library, &inner, f, less)
                },
                Some(_) => Err(RenderError::Mismatch),
            }
        },
        _ => Ok(()),
    }
}

/// Runs a block once for each turn of a loop.
fn run_turns(
    body: &Vec<Op>,
    items: &Vec<Scope>,
    library: &Library,
    context: &Context,
    f: &mut HtmlFormatter,
    fuel: usize,
) -> (result: Result<(), RenderError>)
    ensures
        agrees(
            result,
            final(f)@,
            turns_ran(
                ops_view(body@),
                items@,
                0,
                library_view(*library),
                context_view(*context),
                old(f)@,
                fuel as nat,
            ),
        ),
    decreases fuel, 2nat, items.len(),
{
    let ghost wanted = turns_ran(
        ops_view(body@),
        items@,
        0,
        library_view(*library),
        context_view(*context),
        f@,
        fuel as nat,
    );
    let mut i: usize = 0;
    while i < items.len()
        invariant
            i <= items.len(),
            wanted == turns_ran(
                ops_view(body@),
                items@,
                0,
                library_view(*library),
                context_view(*context),
                old(f)@,
                fuel as nat,
            ),
            wanted == turns_ran(
                ops_view(body@),
                items@,
                i as int,
                library_view(*library),
                context_view(*context),
                f@,
                fuel as nat,
            ),
        decreases items.len() - i,
    {
        let frames = Frames { scope: &items[i], outer: context.frames };
        let inner = Context { frames: Some(&frames), projection: context.projection };
        proof {
            assert(context_view(inner).frames == context_view(*context).frames.push(items@[i as int]));
            assert(context_view(inner) == inside(context_view(*context), items@[i as int]));
        }
        match run_ops(body, library, &inner, f, fuel) {
            Ok(()) => {},
            Err(e) => {
                return Err(e);
            },
        }
        i += 1;
    }
    Ok(())
}

/// Runs operations in order, up to the first failure.
pub fn run_ops(ops: &Vec<Op>, library: &Library, context: &Context, f: &mut HtmlFormatter, fuel: usize) -> (result:
    Result<(), RenderError>)
    ensures
        agrees(
            result,
            final(f)@,
            ran(ops_view(ops@), library_view(*library), context_view(*context), old(f)@, fuel as nat),
        ),
    decreases fuel, 1nat, ops.len(),
{
    let ghost all = ops_view(ops@);
    let ghost wanted = ran(
        all,
        library_view(*library),
        context_view(*context),
        f@,
        fuel as nat,
    );
    proof {
        lemma_ops_view_index(ops@);
        assert(all.skip(0) == all);
    }
    let mut i: usize = 0;
    while i < ops.len()
        invariant
            i <= ops.len(),
            all == ops_view(ops@),
            all.len() == ops.len(),
            forall|k: int| 0 <= k < ops.len() ==> #[trigger] all[k] == op_view(ops@[k]),
            wanted == ran(
                all,
                library_view(*library),
                context_view(*context),
                old(f)@,
                fuel as nat,
            ),
            wanted == ran(
                all.skip(i as int),
                library_view(*library),
                context_view(*context),
                f@,
                fuel as nat,
            ),
        decreases ops.len() - i,
    {
        proof {
            assert(all.skip(i as int)[0] == all[i as int]);
            assert(all.skip(i as int).skip(1) == all.skip(i as int + 1));
        }
        match run_op(&ops[i], library, context, f, fuel) {
            Ok(()) => {},
            Err(e) => {
                return Err(e);
            },
        }
        i += 1;
    }
    Ok(())
}

/// Why a template could not be rendered: it could not be read, or the
/// render failed.
#[derive(Debug, Clone, Copy, PartialEq, Eq, Structural)]
pub enum TemplateError {
    Parse(ParseError),
    Render(RenderError),
}

/// A formatter that has written nothing.
pub open spec fn fresh() -> FormatterView {
    FormatterView { output: Seq::empty(), stack: Seq::empty(), state: FormatterState::Idle }
}

/// The place at which a render begins: in the scope `scope`, outside of
/// every component.
pub open spec fn root(scope: Scope) -> ContextView {
    ContextView { frames: seq![scope], projection: None }
}

/// The markup that the operations `ops` write, run from the beginning.
///
/// Blocks are run down to [`MAX_DEPTH`] levels; below that the run fails
/// with [`RenderError::TooDeep`].
pub open spec fn ops_rendered(ops: Seq<OpView>, library: Seq<ComponentView>, scope: Scope) -> Result<
    Seq<char>,
    RenderError,
> {
    match ran(ops, library, root(scope), fresh(), MAX_DEPTH as nat) {
        Ok(view) => Ok(view.output),
        Err(e) => Err(e),
    }
}

/// Runs the operations `ops` against a formatter on a buffer of its own,
/// and hands back the buffer.
///
/// A render that fails hands back no markup. One in which blocks are
/// nested deeper than [`MAX_DEPTH`] levels fails with
/// [`RenderError::TooDeep`]: the limit bounds the descent on the machine's
/// stack, and it is what ends the render of a component that calls itself.
pub fn render_ops(ops: &Vec<Op>, library: &Library, scope: &Scope) -> (result: Result<
    Html,
    RenderError,
>)
    ensures
        match result {
            Ok(html) => ops_rendered(ops_view(ops@), library_view(*library), *scope) == Ok::<
                Seq<char>,
                RenderError,
            >(html@),
            Err(e) => ops_rendered(ops_view(ops@), library_view(*library), *scope) == Err::<
                Seq<char>,
                RenderError,
            >(e),
        },
{
    let mut buffer = Html::new();
    let mut f = HtmlFormatter::new(&mut buffer);
    let frames = Frames { scope, outer: None };
    let context = Context { frames: Some(&frames), projection: None };
    proof {
        assert(f@.output =~= fresh().output);
        assert(f@.stack =~= fresh().stack);
        assert(f@ == fresh());
        assert(context_view(context) == root(*scope));
    }
    match run_ops(ops, library, &context, &mut f, MAX_DEPTH) {
        Ok(()) => Ok(f.as_html().clone()),
        Err(e) => Err(e),
    }
}

/// The markup that a template writes.
pub open spec fn template_rendered(source: Seq<char>, library: Seq<ComponentView>, scope: Scope) -> Result<
    Seq<char>,
    TemplateError,
> {
    match html_ops_of(source) {
        Err(e) => Err(TemplateError::Parse(e)),
        Ok(ops) => match ops_rendered(ops, library, scope) {
            Ok(text) => Ok(text),
            Err(e) => Err(TemplateError::Render(e)),
        },
    }
}

impl Library {
    /// Compiles a template and renders it, with the components of this
    /// library and the values of `scope`.
    ///
    /// The operations of a template never break the formatter: where the
    /// render fails, it fails for a reason of the host. One such reason is
    /// [`RenderError::TooDeep`]: blocks are run down to [`MAX_DEPTH`] levels
    /// and no further, so that the render ends, within the machine's stack,
    /// also where a component calls itself.
    pub fn render(&self, source: &str, scope: &Scope) -> (result: Result<Html, TemplateError>)
        ensures
            result matches Err(TemplateError::Render(e)) ==> crate::safety::host_failure(e),
            match result {
                Ok(html) => template_rendered(source@, library_view(*self), *scope) == Ok::<
                    Seq<char>,
                    TemplateError,
                >(html@),
                Err(e) => template_rendered(source@, library_view(*self), *scope) == Err::<
                    Seq<char>,
                    TemplateError,
                >(e),
            },
    {
        proof {
            use_type_invariant(self);
            crate::safety::lemma_template_never_breaks_the_formatter(
                source@,
                library_view(*self),
                *scope,
            );
        }
        let ops = match html_impl(source) {
            Ok(ops) => ops,
            Err(e) => {
                return Err(TemplateError::Parse(e));
            },
        };
        match render_ops(&ops, self, scope) {
            Ok(html) => Ok(html),
            Err(e) => Err(TemplateError::Render(e)),
        }
    }
}

/// Compiles a template that calls no component and renders it with the
/// values of `scope`.
///
/// Where the render fails, it fails for a reason of the host. A template
/// whose blocks are nested deeper than [`MAX_DEPTH`] levels is such a
/// failure, [`RenderError::TooDeep`]: the limit bounds the descent on the
/// machine's stack.
pub fn render_template(source: &str, scope: &Scope) -> (result: Result<Html, TemplateError>)
    ensures
        result matches Err(TemplateError::Render(e)) ==> crate::safety::host_failure(e),
        match result {
            Ok(html) => template_rendered(source@, Seq::empty(), *scope) == Ok::<
                Seq<char>,
                TemplateError,
            >(html@),
            Err(e) => template_rendered(source@, Seq::empty(), *scope) == Err::<
                Seq<char>,
                TemplateError,
            >(e),
        },
{
    let library = Library::new();
    library.render(source, scope)
}

/// The collection that the attribute operations `ops` build.
pub open spec fn ops_collected(ops: Seq<OpView>, scope: Scope) -> Result<
    AttributesView,
    RenderError,
> {
    match ran(
        ops,
        Seq::empty(),
        root(scope),
        element_started(fresh(), Seq::empty()),
        MAX_DEPTH as nat,
    ) {
        Ok(view) => if view.stack.len() > 0 {
            Ok(view.stack.last().attributes)
        } else {
            Err(RenderError::Formatter(Error::AttributeOutsideTag))
        },
        Err(e) => Err(e),
    }
}

/// The collection that a list of attributes builds.
pub open spec fn attributes_built(source: Seq<char>, scope: Scope) -> Result<
    AttributesView,
    TemplateError,
> {
    match attrs_ops_of(source) {
        Err(e) => Err(TemplateError::Parse(e)),
        Ok(ops) => match ops_collected(ops, scope) {
            Ok(attributes) => Ok(attributes),
            Err(e) => Err(TemplateError::Render(e)),
        },
    }
}

/// Compiles a list of attributes, written one behind the other, and builds
/// the collection with the values of `scope`.
pub fn build_attributes(source: &str, scope: &Scope) -> (result: Result<Attributes, TemplateError>)
    ensures
        match result {
            Ok(attributes) => attributes_built(source@, *scope) == Ok::<
                AttributesView,
                TemplateError,
            >(attributes@),
            Err(e) => attributes_built(source@, *scope) == Err::<AttributesView, TemplateError>(e),
        },
{
    let ops = match attrs_impl(source) {
        Ok(ops) => ops,
        Err(e) => {
            return Err(TemplateError::Parse(e));
        },
    };
    proof {
        reveal_strlit("");
        assert(""@ == Seq::<char>::empty());
    }
    let library = Library::new();
    let mut buffer = Html::new();
    let mut f = HtmlFormatter::new(&mut buffer);
    proof {
        assert(f@.output =~= fresh().output);
        assert(f@.stack =~= fresh().stack);
        assert(f@ == fresh());
    }
    f.start_element("");
    let frames = Frames { scope, outer: None };
    let context = Context { frames: Some(&frames), projection: None };
    proof {
        assert(context_view(context) == root(*scope));
    }
    match run_ops(&ops, &library, &context, &mut f, MAX_DEPTH) {
        Ok(()) => if f.depth() > 0 {
            Ok(f.attributes_so_far())
        } else {
            Err(TemplateError::Render(RenderError::Formatter(Error::AttributeOutsideTag)))
        },
        Err(e) => Err(TemplateError::Render(e)),
    }
}

} // verus!
