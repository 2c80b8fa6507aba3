//! Why a template that was read never breaks the formatter.
//!
//! The formatter fails when operations come in an order that no document
//! allows. The operations that lowering gives never come in such an order:
//! whatever values the host gives to the expressions, a render fails only
//! for a reason of the host (a value is missing or of the wrong kind, a
//! component is unknown, blocks are nested too deep).
//!
//! The last part is about a component that hands on what its call gave: the
//! extra attributes are run once, for the start tag of the element that
//! takes them, and the children once, inside that element.

use vstd::prelude::*;

use crate::ast::{ArmView, AttributeView, ElseView, FieldView, IfView, NodeView, TagView};
use crate::formatter::{
    content_allowed, element_ended, element_started, is_void_name, tag_pending, with_attributes,
    FormatterState, FormatterView,
};
use crate::lexer::Token;
use crate::lower::{
    component_of, html_ops_of, lowered_arms, lowered_attribute, lowered_attributes, lowered_if,
    lowered_node, lowered_nodes, ComponentView, OpView,
};
use crate::parse::component::{definition_of, parameters_at};
use crate::parse::node::{
    arm_at, arm_head_at, arms_in, body_at, call_arguments, call_at, element_at,
    element_attributes_at, element_name_at, else_at, for_at, head_at, if_at, match_at, node_at,
    node_kind, nodes_in, path_end, template_of, NodeKind,
};
use crate::parse::{group_close, lexed_of, open_at, top_find, word_at, word_if, Stop};
use crate::run::{
    component_index, fresh, inside, is_block, op_ran, plain_op_ran, ran, root,
    template_rendered, turns_ran, ContextView, ProjectionView, RenderError, TemplateError,
};
use crate::scope::{frames_value, Scope, Value};

verus! {

/// Whether a node keeps the rule of void elements, in all its parts: an
/// element is marked void exactly if its name is that of a void element,
/// and a void element has no children.
pub open spec fn node_sound(node: NodeView) -> bool
    decreases node,
{
    match node {
        NodeView::Element(element) => element.is_void == is_void_name(element.name) && (
        element.is_void ==> element.children.len() == 0) && nodes_sound(element.children),
        NodeView::Fragment(nodes) => nodes_sound(nodes),
        NodeView::IfCondition(condition) => if_sound(condition),
        NodeView::ForLoop(for_loop) => nodes_sound(for_loop.body),
        NodeView::MatchExpression(matching) => arms_sound(matching.arms),
        NodeView::ComponentCall(call) => nodes_sound(call.children),
        _ => true,
    }
}

/// Whether all nodes of a list keep the rule of void elements.
pub open spec fn nodes_sound(nodes: Seq<NodeView>) -> bool
    decreases nodes,
{
    forall|i: int| 0 <= i < nodes.len() ==> node_sound(#[trigger] nodes[i])
}

/// Whether the branches of a conditional keep the rule of void elements.
pub open spec fn if_sound(condition: IfView) -> bool
    decreases condition,
{
    nodes_sound(condition.then_branch) && match condition.else_branch {
        None => true,
        Some(ElseView::Else(nodes)) => nodes_sound(nodes),
        Some(ElseView::If(inner)) => if_sound(*inner),
    }
}

/// Whether the arms of a match keep the rule of void elements.
pub open spec fn arms_sound(arms: Seq<ArmView>) -> bool
    decreases arms,
{
    forall|i: int| 0 <= i < arms.len() ==> node_sound(*(#[trigger] arms[i]).body)
}

/// What is read as a node keeps the rule of void elements.
pub proof fn lemma_node_at_sound(src: Seq<char>, toks: Seq<Token>, from: int, limit: int)
    ensures
        node_at(src, toks, from, limit) matches Ok((node, _)) ==> node_sound(node),
    decreases limit - from, 2nat,
{
    match node_kind(src, toks, from, limit) {
        NodeKind::Fragment => {
            lemma_body_at_sound(src, toks, from, limit);
        },
        NodeKind::If(keyword) => {
            if from <= keyword < limit {
                lemma_if_at_sound(src, toks, keyword as int, limit);
            }
        },
        NodeKind::For(keyword) => {
            if from <= keyword < limit {
                lemma_for_at_sound(src, toks, keyword as int, limit);
            }
        },
        NodeKind::Match(keyword) => {
            if from <= keyword < limit {
                lemma_match_at_sound(src, toks, keyword as int, limit);
            }
        },
        NodeKind::Call => {
            lemma_call_at_sound(src, toks, from, limit);
        },
        NodeKind::Element => {
            lemma_element_at_sound(src, toks, from, limit);
        },
        _ => {},
    }
}

/// What is read as a list of nodes keeps the rule of void elements.
pub proof fn lemma_nodes_in_sound(src: Seq<char>, toks: Seq<Token>, from: int, limit: int)
    ensures
        nodes_in(src, toks, from, limit) matches Ok(nodes) ==> nodes_sound(nodes),
    decreases limit - from, 3nat,
{
    if 0 <= from < limit {
        lemma_node_at_sound(src, toks, from, limit);
        match node_at(src, toks, from, limit) {
            Ok((node, next)) => {
                if from < next <= limit {
                    lemma_nodes_in_sound(src, toks, next, limit);
                    match nodes_in(src, toks, next, limit) {
                        Ok(rest) => {
                            let all = seq![node] + rest;
                            assert forall|i: int| 0 <= i < all.len() implies node_sound(
                                #[trigger] all[i],
                            ) by {
                                if i > 0 {
                                    assert(all[i] == rest[i - 1]);
                                }
                            }
                        },
                        Err(_) => {},
                    }
                }
            },
            Err(_) => {},
        }
    }
}

/// What is read as a body in braces keeps the rule of void elements.
pub proof fn lemma_body_at_sound(src: Seq<char>, toks: Seq<Token>, open: int, limit: int)
    ensures
        body_at(src, toks, open, limit) matches Ok((nodes, _)) ==> nodes_sound(nodes),
    decreases limit - open, 0nat,
{
    if open_at(src, toks, open, limit, '{') {
        match group_close(src, toks, open, limit) {
            Some(close) => {
                if 0 <= open < close < limit {
                    lemma_nodes_in_sound(src, toks, open + 1, close);
                }
            },
            None => {},
        }
    }
}

/// What is read as a conditional keeps the rule of void elements.
pub proof fn lemma_if_at_sound(src: Seq<char>, toks: Seq<Token>, from: int, limit: int)
    ensures
        if_at(src, toks, from, limit) matches Ok((condition, _)) ==> if_sound(condition),
    decreases limit - from, 1nat,
{
    match head_at(src, toks, from + 1, limit) {
        Ok((condition, brace)) => {
            if from < brace < limit {
                lemma_body_at_sound(src, toks, brace, limit);
                match body_at(src, toks, brace, limit) {
                    Ok((then_branch, after)) => match else_at(src, toks, after, limit) {
                        Some(next) => {
                            if word_at(src, toks, next, limit, word_if()) {
                                if from < next < limit {
                                    lemma_if_at_sound(src, toks, next, limit);
                                }
                            } else if from < next {
                                lemma_body_at_sound(src, toks, next, limit);
                            }
                        },
                        None => {},
                    },
                    Err(_) => {},
                }
            }
        },
        Err(_) => {},
    }
}

/// What is read as a loop keeps the rule of void elements.
pub proof fn lemma_for_at_sound(src: Seq<char>, toks: Seq<Token>, from: int, limit: int)
    ensures
        for_at(src, toks, from, limit) matches Ok((for_loop, _)) ==> nodes_sound(for_loop.body),
    decreases limit - from, 1nat,
{
    let word = top_find(src, toks, from + 1, limit, Stop::In);
    if from + 1 < word < limit {
        match head_at(src, toks, word + 1, limit) {
            Ok((expression, brace)) => {
                if from < brace < limit {
                    lemma_body_at_sound(src, toks, brace, limit);
                }
            },
            Err(_) => {},
        }
    }
}

/// What is read as a match arm keeps the rule of void elements.
pub proof fn lemma_arm_at_sound(src: Seq<char>, toks: Seq<Token>, from: int, limit: int)
    ensures
        arm_at(src, toks, from, limit) matches Ok((arm, _)) ==> node_sound(*arm.body),
    decreases limit - from, 2nat,
{
    match arm_head_at(src, toks, from, limit) {
        Ok((pattern, guard, arrow)) => {
            if from < arrow && arrow + 2 <= limit {
                lemma_node_at_sound(src, toks, arrow + 2, limit);
            }
        },
        Err(_) => {},
    }
}

/// What is read as the arms of a match keeps the rule of void elements.
pub proof fn lemma_arms_in_sound(src: Seq<char>, toks: Seq<Token>, from: int, limit: int)
    ensures
        arms_in(src, toks, from, limit) matches Ok(arms) ==> arms_sound(arms),
    decreases limit - from, 3nat,
{
    if 0 <= from < limit {
        lemma_arm_at_sound(src, toks, from, limit);
        match arm_at(src, toks, from, limit) {
            Ok((arm, next)) => {
                if from < next <= limit {
                    lemma_arms_in_sound(src, toks, next, limit);
                    match arms_in(src, toks, next, limit) {
                        Ok(rest) => {
                            let all = seq![arm] + rest;
                            assert forall|i: int| 0 <= i < all.len() implies node_sound(
                                *(#[trigger] all[i]).body,
                            ) by {
                                if i > 0 {
                                    assert(all[i] == rest[i - 1]);
                                }
                            }
                        },
                        Err(_) => {},
                    }
                }
            },
            Err(_) => {},
        }
    }
}

/// What is read as a match keeps the rule of void elements.
pub proof fn lemma_match_at_sound(src: Seq<char>, toks: Seq<Token>, from: int, limit: int)
    ensures
        match_at(src, toks, from, limit) matches Ok((matching, _)) ==> arms_sound(matching.arms),
    decreases limit - from, 1nat,
{
    match head_at(src, toks, from + 1, limit) {
        Ok((expression, brace)) => match group_close(src, toks, brace, limit) {
            Some(close) => {
                if from < brace < close < limit {
                    lemma_arms_in_sound(src, toks, brace + 1, close);
                }
            },
            None => {},
        },
        Err(_) => {},
    }
}

/// What is read as the call of a component keeps the rule of void
/// elements.
pub proof fn lemma_call_at_sound(src: Seq<char>, toks: Seq<Token>, from: int, limit: int)
    ensures
        call_at(src, toks, from, limit) matches Ok((call, _)) ==> nodes_sound(call.children),
    decreases limit - from, 1nat,
{
    let end = path_end(src, toks, from + 1, limit);
    if end > from + 1 {
        let arguments = if open_at(src, toks, end, limit, '(') {
            call_arguments(src, toks, end, limit)
        } else {
            Ok((Seq::empty(), Seq::empty(), end))
        };
        match arguments {
            Ok((fields, attributes, next)) => {
                if from < next <= limit {
                    lemma_body_at_sound(src, toks, next, limit);
                }
            },
            Err(_) => {},
        }
    }
}

/// What is read as an element keeps the rule of void elements.
pub proof fn lemma_element_at_sound(src: Seq<char>, toks: Seq<Token>, from: int, limit: int)
    ensures
        element_at(src, toks, from, limit) matches Ok((element, _)) ==> node_sound(
            NodeView::Element(element),
        ),
    decreases limit - from, 1nat,
{
    match element_name_at(src, toks, from, limit) {
        Ok((name, next)) => match element_attributes_at(src, toks, next, limit) {
            Ok((attributes, after)) => {
                if !is_void_name(name) && open_at(src, toks, after, limit, '{') && from < after {
                    lemma_body_at_sound(src, toks, after, limit);
                }
            },
            Err(_) => {},
        },
        Err(_) => {},
    }
}

/// A template that is read keeps the rule of void elements: no void
/// element in it has children.
pub proof fn lemma_template_sound(source: Seq<char>)
    ensures
        template_of(source) matches Ok(nodes) ==> nodes_sound(nodes),
{
    match lexed_of(source) {
        Ok(toks) => {
            lemma_nodes_in_sound(source, toks, 0, toks.len() as int);
        },
        Err(_) => {},
    }
}

/// The body of a component that is read keeps the rule of void elements.
pub proof fn lemma_definition_sound(source: Seq<char>)
    ensures
        definition_of(source) matches Ok(definition) ==> nodes_sound(definition.body),
{
    match lexed_of(source) {
        Ok(toks) => {
            let limit = toks.len() as int;
            let keyword = top_find(source, toks, 0, limit, Stop::Fn);
            let signature = top_find(source, toks, keyword + 2, limit, Stop::Signature);
            match parameters_at(source, toks, signature, limit) {
                Ok((fields, next)) => {
                    let brace = top_find(source, toks, next, limit, Stop::Brace);
                    lemma_body_at_sound(source, toks, brace, limit);
                },
                Err(_) => {},
            }
        },
        Err(_) => {},
    }
}

/// Whether a failure is one of the host: any but a failure of the
/// formatter.
pub open spec fn host_failure(error: RenderError) -> bool {
    !(error is Formatter)
}

/// Whether a formatter, after content was written, has the open elements
/// that it had, and no start tag pending that was not pending.
pub open spec fn settled(before: FormatterView, after: FormatterView) -> bool {
    after.stack == before.stack && (after.state == before.state || after.state
        != FormatterState::TagOpened)
}

/// Whether a formatter, after attributes were written, still has its start
/// tag pending, and nothing changed but the attributes of that tag.
pub open spec fn pending_kept(before: FormatterView, after: FormatterView) -> bool {
    &&& tag_pending(after)
    &&& after.output == before.output
    &&& after.stack.len() == before.stack.len()
    &&& after.stack.drop_last() == before.stack.drop_last()
    &&& after.stack.last().name == before.stack.last().name
    &&& after.stack.last().is_void == before.stack.last().is_void
}

/// Whether operations are what lowering makes of nodes that keep the rule
/// of void elements.
pub open spec fn lowered_from_nodes(ops: Seq<OpView>) -> bool {
    exists|nodes: Seq<NodeView>| nodes_sound(nodes) && ops == #[trigger] lowered_nodes(nodes)
}

/// Whether operations are what lowering makes of attributes.
pub open spec fn lowered_from_attributes(ops: Seq<OpView>) -> bool {
    exists|attributes: Seq<AttributeView>| ops == #[trigger] lowered_attributes(attributes)
}

/// Whether all that calls have handed over, at a place in a render, is what
/// lowering makes.
pub open spec fn context_lowered(context: ContextView) -> bool
    decreases context,
{
    match context.projection {
        None => true,
        Some(given) => lowered_from_attributes(given.attributes) && lowered_from_nodes(
            given.children,
        ) && context_lowered(*given.context),
    }
}

/// Whether the bodies of all components are what lowering makes.
pub open spec fn library_lowered(library: Seq<ComponentView>) -> bool {
    forall|i: int| 0 <= i < library.len() ==> lowered_from_nodes((#[trigger] library[i]).body)
}

/// Running one list of operations behind another is running the first and
/// then, if that went well, the second.
pub proof fn lemma_ran_concat(
    first: Seq<OpView>,
    second: Seq<OpView>,
    library: Seq<ComponentView>,
    context: ContextView,
    view: FormatterView,
    fuel: nat,
)
    ensures
        ran(first + second, library, context, view, fuel) == (match ran(
            first,
            library,
            context,
            view,
            fuel,
        ) {
            Ok(between) => ran(second, library, context, between, fuel),
            Err(e) => Err(e),
        }),
    decreases first.len(),
{
    if first.len() == 0 {
        assert(first + second == second);
    } else {
        assert((first + second)[0] == first[0]);
        assert((first + second).skip(1) == first.skip(1) + second);
        match op_ran(first[0], library, context, view, fuel) {
            Ok(next) => {
                lemma_ran_concat(first.skip(1), second, library, context, next, fuel);
            },
            Err(_) => {},
        }
    }
}

/// Running a single operation.
pub proof fn lemma_ran_one(
    op: OpView,
    library: Seq<ComponentView>,
    context: ContextView,
    view: FormatterView,
    fuel: nat,
)
    ensures
        ran(seq![op], library, context, view, fuel) == op_ran(op, library, context, view, fuel),
{
    assert(seq![op].skip(1).len() == 0);
    match op_ran(op, library, context, view, fuel) {
        Ok(next) => {
            assert(ran(seq![op].skip(1), library, context, next, fuel) == Ok::<
                FormatterView,
                RenderError,
            >(next));
        },
        Err(_) => {},
    }
}

/// Other attributes for the pending start tag leave it pending.
pub proof fn lemma_with_attributes_keeps(view: FormatterView)
    requires
        tag_pending(view),
    ensures
        forall|attributes: crate::attributes::AttributesView|
            pending_kept(view, #[trigger] with_attributes(view, attributes)),
{
    assert forall|attributes: crate::attributes::AttributesView|
        pending_kept(view, #[trigger] with_attributes(view, attributes)) by {
        let after = with_attributes(view, attributes);
        assert(after.stack.drop_last() == view.stack.drop_last());
    }
}

/// An attribute that is written while the start tag is pending leaves it
/// pending, or fails for a reason of the host.
pub proof fn lemma_attribute_safe(
    attribute: AttributeView,
    library: Seq<ComponentView>,
    context: ContextView,
    view: FormatterView,
    fuel: nat,
)
    requires
        library_lowered(library),
        context_lowered(context),
        tag_pending(view),
    ensures
        match op_ran(lowered_attribute(attribute), library, context, view, fuel) {
            Ok(after) => pending_kept(view, after),
            Err(e) => host_failure(e),
        },
    decreases fuel, 0nat, 0nat,
{
    let op = lowered_attribute(attribute);
    lemma_with_attributes_keeps(view);
    match attribute {
        AttributeView::Spread { expr } => {
            if fuel > 0 && expr == crate::run::attrs_word() && context.projection is Some {
                let given = context.projection->0;
                let attributes = choose|attributes: Seq<AttributeView>|
                    given.attributes == #[trigger] lowered_attributes(attributes);
                lemma_attributes_safe(
                    attributes,
                    0,
                    library,
                    *given.context,
                    view,
                    (fuel - 1) as nat,
                );
                assert(lowered_attributes(attributes).skip(0) == lowered_attributes(attributes));
            }
        },
        AttributeView::NameValue { name, value } => {
            assert(!is_block(op, context));
            assert(op_ran(op, library, context, view, fuel) == plain_op_ran(op, context, view));
        },
    }
}

/// Attributes that are written while the start tag is pending leave it
/// pending, or fail for a reason of the host.
pub proof fn lemma_attributes_safe(
    attributes: Seq<AttributeView>,
    from: int,
    library: Seq<ComponentView>,
    context: ContextView,
    view: FormatterView,
    fuel: nat,
)
    requires
        library_lowered(library),
        context_lowered(context),
        tag_pending(view),
        0 <= from <= attributes.len(),
    ensures
        match ran(lowered_attributes(attributes).skip(from), library, context, view, fuel) {
            Ok(after) => pending_kept(view, after),
            Err(e) => host_failure(e),
        },
    decreases fuel, 1nat, attributes.len() - from,
{
    let ops = lowered_attributes(attributes).skip(from);
    if from < attributes.len() {
        assert(ops[0] == lowered_attribute(attributes[from]));
        assert(ops.skip(1) == lowered_attributes(attributes).skip(from + 1));
        lemma_attribute_safe(attributes[from], library, context, view, fuel);
        match op_ran(ops[0], library, context, view, fuel) {
            Ok(next) => {
                lemma_attributes_safe(attributes, from + 1, library, context, next, fuel);
            },
            Err(_) => {},
        }
    } else {
        assert(ops.len() == 0);
    }
}

/// The lowered arms of a match are the arms, each in its place, with the
/// operations of its body.
pub proof fn lemma_lowered_arms_index(arms: Seq<ArmView>)
    ensures
        lowered_arms(arms).len() == arms.len(),
        forall|i: int|
            0 <= i < arms.len() ==> (#[trigger] lowered_arms(arms)[i]).body == lowered_node(
                *arms[i].body,
            ),
    decreases arms.len(),
{
    if arms.len() > 0 {
        lemma_lowered_arms_index(arms.drop_last());
    }
}

/// Content that is written where content is allowed leaves the open
/// elements as they are, or fails for a reason of the host.
pub proof fn lemma_content_safe(
    op: OpView,
    library: Seq<ComponentView>,
    context: ContextView,
    view: FormatterView,
    fuel: nat,
)
    requires
        content_allowed(view),
        op is WriteContent || op is Embed || op is Let,
    ensures
        match ran(seq![op], library, context, view, fuel) {
            Ok(after) => settled(view, after),
            Err(e) => host_failure(e),
        },
{
    lemma_ran_one(op, library, context, view, fuel);
    assert(!is_block(op, context));
    assert(op_ran(op, library, context, view, fuel) == plain_op_ran(op, context, view));
}

/// The operations of a node, run where content is allowed, leave the open
/// elements as they are, or fail for a reason of the host.
pub proof fn lemma_node_safe(
    node: NodeView,
    library: Seq<ComponentView>,
    context: ContextView,
    view: FormatterView,
    fuel: nat,
)
    requires
        node_sound(node),
        library_lowered(library),
        context_lowered(context),
        content_allowed(view),
    ensures
        match ran(lowered_node(node), library, context, view, fuel) {
            Ok(after) => settled(view, after),
            Err(e) => host_failure(e),
        },
    decreases fuel, 1nat, node, 0nat,
{
    let ops = lowered_node(node);
    match node {
        NodeView::Text(_) => {
            lemma_content_safe(ops[0], library, context, view, fuel);
            assert(ops == seq![ops[0]]);
        },
        NodeView::Expression(_) => {
            lemma_content_safe(ops[0], library, context, view, fuel);
            assert(ops == seq![ops[0]]);
        },
        NodeView::Doctype => {
            lemma_content_safe(ops[0], library, context, view, fuel);
            assert(ops == seq![ops[0]]);
        },
        NodeView::HtmlDisplay(_) => {
            lemma_content_safe(ops[0], library, context, view, fuel);
            assert(ops == seq![ops[0]]);
        },
        NodeView::LetBinding(_) => {
            lemma_content_safe(ops[0], library, context, view, fuel);
            assert(ops == seq![ops[0]]);
        },
        NodeView::Children => {
            lemma_ran_one(OpView::Children, library, context, view, fuel);
            if fuel > 0 && context.projection is Some {
                let given = context.projection->0;
                let nodes = choose|nodes: Seq<NodeView>|
                    nodes_sound(nodes) && given.children == #[trigger] lowered_nodes(nodes);
                lemma_nodes_safe(nodes, library, *given.context, view, (fuel - 1) as nat);
            }
        },
        NodeView::IfCondition(condition) => {
            lemma_ran_one(lowered_if(condition), library, context, view, fuel);
            lemma_if_safe(condition, library, context, view, fuel);
        },
        NodeView::ForLoop(for_loop) => {
            lemma_ran_one(ops[0], library, context, view, fuel);
            assert(ops == seq![ops[0]]);
            if fuel > 0 {
                match frames_value(context.frames, for_loop.expression) {
                    Some(Value::Items(items)) => {
                        lemma_turns_safe(
                            for_loop.body,
                            items@,
                            0,
                            library,
                            context,
                            view,
                            (fuel - 1) as nat,
                        );
                    },
                    _ => {},
                }
            }
        },
        NodeView::MatchExpression(matching) => {
            lemma_ran_one(ops[0], library, context, view, fuel);
            assert(ops == seq![ops[0]]);
            lemma_lowered_arms_index(matching.arms);
            if fuel > 0 {
                match frames_value(context.frames, matching.expression) {
                    Some(Value::Arm(index, scope)) => {
                        if index < matching.arms.len() {
                            lemma_node_safe(
                                *matching.arms[index as int].body,
                                library,
                                inside(context, scope),
                                view,
                                (fuel - 1) as nat,
                            );
                        }
                    },
                    _ => {},
                }
            }
        },
        NodeView::ComponentCall(call) => {
            lemma_ran_one(ops[0], library, context, view, fuel);
            assert(ops == seq![ops[0]]);
            let found = component_index(library, call.path, 0);
            if fuel > 0 && 0 <= found < library.len() {
                let given = ProjectionView {
                    attributes: lowered_attributes(call.attributes),
                    children: lowered_nodes(call.children),
                    context: Box::new(context),
                };
                let body = choose|nodes: Seq<NodeView>|
                    nodes_sound(nodes) && library[found].body == #[trigger] lowered_nodes(nodes);
                match frames_value(context.frames, call.path) {
                    None => {
                        let instance = ContextView {
                            frames: Seq::empty(),
                            projection: Some(given),
                        };
                        assert(context_lowered(instance));
                        lemma_nodes_safe(body, library, instance, view, (fuel - 1) as nat);
                    },
                    Some(Value::Bound(scope)) => {
                        let instance = ContextView {
                            frames: seq![scope],
                            projection: Some(given),
                        };
                        assert(context_lowered(instance));
                        lemma_nodes_safe(body, library, instance, view, (fuel - 1) as nat);
                    },
                    Some(_) => {},
                }
            }
        },
        NodeView::Element(element) => {
            lemma_element_safe(element, library, context, view, fuel);
        },
        NodeView::Fragment(nodes) => {
            lemma_nodes_safe(nodes, library, context, view, fuel);
        },
    }
}

/// The operations of a list of nodes, run where content is allowed, leave
/// the open elements as they are, or fail for a reason of the host.
pub proof fn lemma_nodes_safe(
    nodes: Seq<NodeView>,
    library: Seq<ComponentView>,
    context: ContextView,
    view: FormatterView,
    fuel: nat,
)
    requires
        nodes_sound(nodes),
        library_lowered(library),
        context_lowered(context),
        content_allowed(view),
    ensures
        match ran(lowered_nodes(nodes), library, context, view, fuel) {
            Ok(after) => settled(view, after),
            Err(e) => host_failure(e),
        },
    decreases fuel, 1nat, nodes, 0nat,
{
    if nodes.len() > 0 {
        let front = nodes.drop_last();
        assert(nodes_sound(front)) by {
            assert forall|i: int| 0 <= i < front.len() implies node_sound(#[trigger] front[i]) by {
                assert(front[i] == nodes[i]);
            }
        }
        assert(node_sound(nodes.last()));
        lemma_nodes_safe(front, library, context, view, fuel);
        lemma_ran_concat(
            lowered_nodes(front),
            lowered_node(nodes.last()),
            library,
            context,
            view,
            fuel,
        );
        match ran(lowered_nodes(front), library, context, view, fuel) {
            Ok(between) => {
                lemma_node_safe(nodes.last(), library, context, between, fuel);
            },
            Err(_) => {},
        }
    }
}

/// The block of a loop, run once for each turn where content is allowed,
/// leaves the open elements as they are, or fails for a reason of the host.
pub proof fn lemma_turns_safe(
    body: Seq<NodeView>,
    items: Seq<Scope>,
    from: int,
    library: Seq<ComponentView>,
    context: ContextView,
    view: FormatterView,
    fuel: nat,
)
    requires
        nodes_sound(body),
        library_lowered(library),
        context_lowered(context),
        content_allowed(view),
        0 <= from <= items.len(),
    ensures
        match turns_ran(lowered_nodes(body), items, from, library, context, view, fuel) {
            Ok(after) => settled(view, after),
            Err(e) => host_failure(e),
        },
    decreases fuel, 1nat, body, 1 + items.len() - from,
{
    if from < items.len() {
        lemma_nodes_safe(body, library, inside(context, items[from]), view, fuel);
        match ran(lowered_nodes(body), library, inside(context, items[from]), view, fuel) {
            Ok(next) => {
                lemma_turns_safe(body, items, from + 1, library, context, next, fuel);
            },
            Err(_) => {},
        }
    }
}

/// The block that a conditional runs, run where content is allowed, leaves
/// the open elements as they are, or fails for a reason of the host.
pub proof fn lemma_if_safe(
    condition: IfView,
    library: Seq<ComponentView>,
    context: ContextView,
    view: FormatterView,
    fuel: nat,
)
    requires
        if_sound(condition),
        library_lowered(library),
        context_lowered(context),
        content_allowed(view),
    ensures
        match op_ran(lowered_if(condition), library, context, view, fuel) {
            Ok(after) => settled(view, after),
            Err(e) => host_failure(e),
        },
    decreases fuel, 1nat, condition, 0nat,
{
    if fuel > 0 {
        let less = (fuel - 1) as nat;
        match frames_value(context.frames, condition.condition) {
            Some(Value::Flag(true)) => {
                lemma_nodes_safe(condition.then_branch, library, context, view, less);
            },
            Some(Value::Bound(scope)) => {
                lemma_nodes_safe(condition.then_branch, library, inside(context, scope), view, less);
            },
            Some(Value::Flag(false)) => {
                lemma_else_safe(condition, library, context, view, less);
            },
            Some(Value::Absent) => {
                lemma_else_safe(condition, library, context, view, less);
            },
            _ => {},
        }
    }
}

/// What stands behind `else`, run where content is allowed, leaves the open
/// elements as they are, or fails for a reason of the host.
pub proof fn lemma_else_safe(
    condition: IfView,
    library: Seq<ComponentView>,
    context: ContextView,
    view: FormatterView,
    fuel: nat,
)
    requires
        if_sound(condition),
        library_lowered(library),
        context_lowered(context),
        content_allowed(view),
    ensures
        match ran(lowered_if(condition)->else_ops, library, context, view, fuel) {
            Ok(after) => settled(view, after),
            Err(e) => host_failure(e),
        },
    decreases fuel, 1nat, condition, 1nat,
{
    match condition.else_branch {
        None => {},
        Some(ElseView::Else(nodes)) => {
            lemma_nodes_safe(nodes, library, context, view, fuel);
        },
        Some(ElseView::If(inner)) => {
            lemma_ran_one(lowered_if(*inner), library, context, view, fuel);
            lemma_if_safe(*inner, library, context, view, fuel);
        },
    }
}

/// The operations of an element, run where content is allowed, leave the
/// open elements as they are, or fail for a reason of the host.
pub proof fn lemma_element_safe(
    element: TagView,
    library: Seq<ComponentView>,
    context: ContextView,
    view: FormatterView,
    fuel: nat,
)
    requires
        node_sound(NodeView::Element(element)),
        library_lowered(library),
        context_lowered(context),
    ensures
        match ran(lowered_node(NodeView::Element(element)), library, context, view, fuel) {
            Ok(after) => settled(view, after),
            Err(e) => host_failure(e),
        },
    decreases fuel, 1nat, element, 0nat,
{
    let start = seq![OpView::StartElement { name: element.name }];
    let attributes = lowered_attributes(element.attributes);
    let children = if element.is_void {
        Seq::<OpView>::empty()
    } else {
        lowered_nodes(element.children)
    };
    let end = seq![OpView::EndElement];
    assert(lowered_node(NodeView::Element(element)) == start + attributes + children + end);
    lemma_ran_concat(start + attributes + children, end, library, context, view, fuel);
    lemma_ran_concat(start + attributes, children, library, context, view, fuel);
    lemma_ran_concat(start, attributes, library, context, view, fuel);
    lemma_ran_one(start[0], library, context, view, fuel);
    assert(start == seq![start[0]]);
    let started = element_started(view, element.name);
    assert(!is_block(start[0], context));
    assert(ran(start, library, context, view, fuel) == Ok::<FormatterView, RenderError>(started));
    assert(started.stack.drop_last() == view.stack);
    assert(attributes.skip(0) == attributes);
    lemma_attributes_safe(element.attributes, 0, library, context, started, fuel);
    match ran(attributes, library, context, started, fuel) {
        Ok(filled) => {
            if !element.is_void {
                lemma_nodes_safe(element.children, library, context, filled, fuel);
            }
            match ran(children, library, context, filled, fuel) {
                Ok(inner) => {
                    lemma_ran_one(OpView::EndElement, library, context, inner, fuel);
                    assert(!is_block(OpView::EndElement, context));
                    assert(inner.stack.len() > 0);
                    assert(element_ended(inner).stack == view.stack);
                },
                Err(_) => {},
            }
        },
        Err(_) => {},
    }
}

/// A template that was read never breaks the formatter: rendered with
/// components that were read, it gives markup or fails for a reason of the
/// host, whatever values the host gives.
pub proof fn lemma_template_never_breaks_the_formatter(
    source: Seq<char>,
    library: Seq<ComponentView>,
    scope: Scope,
)
    requires
        library_lowered(library),
    ensures
        template_rendered(source, library, scope) matches Err(TemplateError::Render(e))
            ==> host_failure(e),
{
    lemma_template_sound(source);
    match html_ops_of(source) {
        Ok(ops) => {
            let nodes = template_of(source)->Ok_0;
            lemma_nodes_safe(nodes, library, root(scope), fresh(), crate::run::MAX_DEPTH as nat);
        },
        Err(_) => {},
    }
}

/// A library of components that were read holds what lowering makes: with
/// one more component that was read, it still does.
pub proof fn lemma_defined_component_is_lowered(library: Seq<ComponentView>, source: Seq<char>)
    requires
        library_lowered(library),
        component_of(source) is Ok,
    ensures
        library_lowered(library.push(component_of(source)->Ok_0)),
        library_lowered(Seq::empty()),
{
    lemma_definition_sound(source);
    let definition = definition_of(source)->Ok_0;
    let extended = library.push(component_of(source)->Ok_0);
    assert forall|i: int| 0 <= i < extended.len() implies lowered_from_nodes(
        (#[trigger] extended[i]).body,
    ) by {
        if i < library.len() {
            assert(extended[i] == library[i]);
        } else {
            assert(extended[i].body == lowered_nodes(definition.body));
        }
    }
}

/// The element `name(#attrs) { #children }`: it takes the extra attributes
/// of the call and holds the children of the call.
pub open spec fn projecting_element(name: Seq<char>) -> NodeView {
    NodeView::Element(
        TagView {
            name,
            is_void: false,
            attributes: seq![AttributeView::Spread { expr: crate::run::attrs_word() }],
            children: seq![NodeView::Children],
        },
    )
}

/// What a call writes whose component is the element `name` around what the
/// call gave: `<name` is written; the attributes of the call are run once,
/// for the start tag that is pending; the children of the call are run once
/// behind them; the element is ended. Attributes and children are run at the
/// place of the call.
pub open spec fn projected(
    name: Seq<char>,
    attributes: Seq<OpView>,
    children: Seq<OpView>,
    library: Seq<ComponentView>,
    context: ContextView,
    view: FormatterView,
    fuel: nat,
) -> Result<FormatterView, RenderError> {
    match ran(attributes, library, context, element_started(view, name), fuel) {
        Err(e) => Err(e),
        Ok(attributed) => match ran(children, library, context, attributed, fuel) {
            Err(e) => Err(e),
            Ok(filled) => plain_op_ran(OpView::EndElement, context, filled),
        },
    }
}

/// The operations of the element that projects.
proof fn lemma_projecting_element_lowered(name: Seq<char>)
    ensures
        lowered_nodes(seq![projecting_element(name)]) == seq![
            OpView::StartElement { name },
            OpView::SpreadAttributes { expr: crate::run::attrs_word() },
            OpView::Children,
            OpView::EndElement,
        ],
{
    let element = projecting_element(name);
    let nodes = seq![element];
    let kids = seq![NodeView::Children];
    let spread = seq![AttributeView::Spread { expr: crate::run::attrs_word() }];
    assert(nodes.drop_last() =~= Seq::<NodeView>::empty());
    assert(kids.drop_last() =~= Seq::<NodeView>::empty());
    assert(lowered_nodes(Seq::<NodeView>::empty()) =~= Seq::<OpView>::empty());
    assert(kids.last() == NodeView::Children);
    assert(lowered_node(NodeView::Children) =~= seq![OpView::Children]);
    assert(lowered_nodes(kids) == lowered_nodes(kids.drop_last()) + lowered_node(kids.last()));
    assert(lowered_nodes(kids) =~= seq![OpView::Children]);
    assert(lowered_attributes(spread) =~= seq![
        OpView::SpreadAttributes { expr: crate::run::attrs_word() },
    ]);
    assert(lowered_node(element) =~= seq![
        OpView::StartElement { name },
        OpView::SpreadAttributes { expr: crate::run::attrs_word() },
        OpView::Children,
        OpView::EndElement,
    ]);
    assert(nodes.last() == element);
    assert(lowered_nodes(nodes) == lowered_nodes(nodes.drop_last()) + lowered_node(nodes.last()));
    assert(lowered_nodes(nodes) =~= lowered_node(element));
}

/// A component whose body is `name(#attrs) { #children }` runs what the
/// call gave, each once and in its place: the attributes behind `<name`,
/// before anything else is written; the children behind the attributes and
/// before the element is ended.
///
/// The call must name a component of the library, and what the host gives
/// for the call, if anything, must be a scope. Two levels of depth are used
/// up before the attributes and the children are run.
pub proof fn lemma_component_projects_attributes_and_children(
    name: Seq<char>,
    path: Seq<char>,
    fields: Seq<FieldView>,
    attributes: Seq<OpView>,
    children: Seq<OpView>,
    library: Seq<ComponentView>,
    context: ContextView,
    view: FormatterView,
    fuel: nat,
)
    requires
        fuel >= 2,
        0 <= component_index(library, path, 0) < library.len(),
        library[component_index(library, path, 0)].body == lowered_nodes(
            seq![projecting_element(name)],
        ),
        frames_value(context.frames, path) matches Some(value) ==> value is Bound,
    ensures
        op_ran(
            OpView::Component { path, fields, attributes, children },
            library,
            context,
            view,
            fuel,
        ) == projected(name, attributes, children, library, context, view, (fuel - 2) as nat),
{
    let call = OpView::Component { path, fields, attributes, children };
    let found = component_index(library, path, 0);
    let given = ProjectionView { attributes, children, context: Box::new(context) };
    let frames = match frames_value(context.frames, path) {
        Some(Value::Bound(scope)) => seq![scope],
        _ => Seq::empty(),
    };
    let inner = ContextView { frames, projection: Some(given) };
    let less = (fuel - 1) as nat;
    let least = (fuel - 2) as nat;
    let start = OpView::StartElement { name };
    let spread = OpView::SpreadAttributes { expr: crate::run::attrs_word() };
    let end = OpView::EndElement;
    let body = library[found].body;
    lemma_projecting_element_lowered(name);
    assert(is_block(call, context));
    assert(op_ran(call, library, context, view, fuel) == ran(body, library, inner, view, less));
    let behind_start = seq![spread] + (seq![OpView::Children] + seq![end]);
    let behind_spread = seq![OpView::Children] + seq![end];
    assert(body =~= seq![start] + behind_start);
    let started = element_started(view, name);
    lemma_ran_concat(seq![start], behind_start, library, inner, view, less);
    lemma_ran_one(start, library, inner, view, less);
    assert(!is_block(start, inner));
    assert(ran(body, library, inner, view, less) == ran(
        behind_start,
        library,
        inner,
        started,
        less,
    ));
    lemma_ran_concat(seq![spread], behind_spread, library, inner, started, less);
    lemma_ran_one(spread, library, inner, started, less);
    assert(is_block(spread, inner));
    assert(op_ran(spread, library, inner, started, less) == ran(
        attributes,
        library,
        context,
        started,
        least,
    ));
    match ran(attributes, library, context, started, least) {
        Err(_) => {},
        Ok(attributed) => {
            lemma_ran_concat(seq![OpView::Children], seq![end], library, inner, attributed, less);
            lemma_ran_one(OpView::Children, library, inner, attributed, less);
            assert(is_block(OpView::Children, inner));
            assert(op_ran(OpView::Children, library, inner, attributed, less) == ran(
                children,
                library,
                context,
                attributed,
                least,
            ));
            match ran(children, library, context, attributed, least) {
                Err(_) => {},
                Ok(filled) => {
                    lemma_ran_one(end, library, inner, filled, less);
                    assert(!is_block(end, inner));
                },
            }
        },
    }
}

/// In such a call, made by a template that was read: the attributes of the
/// call put nothing out and leave the start tag `<name` pending, so that
/// they stand in that tag and before its `>`; the children leave the open
/// elements as they are, so that the element that is ended behind them is
/// the one that was started.
pub proof fn lemma_projected_parts_keep_their_places(
    name: Seq<char>,
    attributes: Seq<AttributeView>,
    children: Seq<NodeView>,
    library: Seq<ComponentView>,
    context: ContextView,
    view: FormatterView,
    fuel: nat,
)
    requires
        library_lowered(library),
        context_lowered(context),
        nodes_sound(children),
        !is_void_name(name),
    ensures
        match ran(
            lowered_attributes(attributes),
            library,
            context,
            element_started(view, name),
            fuel,
        ) {
            Err(e) => host_failure(e),
            Ok(attributed) => pending_kept(element_started(view, name), attributed) && match ran(
                lowered_nodes(children),
                library,
                context,
                attributed,
                fuel,
            ) {
                Err(e) => host_failure(e),
                Ok(filled) => settled(attributed, filled) && filled.stack.len() > 0
                    && filled.stack.last().name == name,
            },
        },
{
    let started = element_started(view, name);
    assert(lowered_attributes(attributes).skip(0) =~= lowered_attributes(attributes));
    lemma_attributes_safe(attributes, 0, library, context, started, fuel);
    match ran(lowered_attributes(attributes), library, context, started, fuel) {
        Err(_) => {},
        Ok(attributed) => {
            assert(started.stack.last().name == name);
            assert(!started.stack.last().is_void);
            lemma_nodes_safe(children, library, context, attributed, fuel);
        },
    }
}

} // verus!
