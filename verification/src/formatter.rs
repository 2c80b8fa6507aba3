//! The state machine that writes well-formed markup.

use vstd::prelude::*;

use crate::attributes::{
    added, merged, no_attributes, tag_text, with_entry, Attributes, AttributesView,
};
use crate::error::Error;
use crate::escape::{attribute_mode, content_mode, resolve_escape_mode_for_element, EscapeMode};
use crate::html::Html;
use crate::render::Render;
use crate::text::str_eq;

verus! {

/// Whether `name` names a void element: one that has neither content nor a
/// closing tag.
pub open spec fn is_void_name(name: Seq<char>) -> bool {
    name == "area"@ || name == "base"@ || name == "br"@ || name == "col"@ || name == "embed"@
        || name == "hr"@ || name == "img"@ || name == "input"@ || name == "link"@ || name
        == "meta"@ || name == "param"@ || name == "source"@ || name == "track"@ || name == "wbr"@
}

/// Whether `name` names a void element. The name is held against the list
/// as it stands: in lower case.
pub fn is_void_element(name: &str) -> (is_void: bool)
    ensures
        is_void == is_void_name(name@),
{
    str_eq(name, "area") || str_eq(name, "base") || str_eq(name, "br") || str_eq(name, "col")
        || str_eq(name, "embed") || str_eq(name, "hr") || str_eq(name, "img") || str_eq(
        name,
        "input",
    ) || str_eq(name, "link") || str_eq(name, "meta") || str_eq(name, "param") || str_eq(
        name,
        "source",
    ) || str_eq(name, "track") || str_eq(name, "wbr")
}

/// Where the formatter stands.
#[derive(Debug, Clone, Copy, PartialEq, Eq, Structural)]
pub enum FormatterState {
    /// No element is open.
    Idle,
    /// A start tag has been begun and not closed: attributes may be added.
    TagOpened,
    /// The start tag of the innermost element is closed: content may follow.
    InContent,
}

/// An open element as the formatter holds it.
pub struct ElementEntry {
    name: String,
    is_void: bool,
    attributes: Attributes,
}

/// An open element.
pub struct ElementView {
    /// Its name.
    pub name: Seq<char>,
    /// Whether it is a void element.
    pub is_void: bool,
    /// The attributes gathered for it so far.
    pub attributes: AttributesView,
}

impl View for ElementEntry {
    type V = ElementView;

    closed spec fn view(&self) -> ElementView {
        ElementView { name: self.name@, is_void: self.is_void, attributes: self.attributes@ }
    }
}

/// What a formatter holds.
pub struct FormatterView {
    /// What has been written to the buffer.
    pub output: Seq<char>,
    /// The open elements, outermost first.
    pub stack: Seq<ElementView>,
    /// The state.
    pub state: FormatterState,
}

/// Whether a start tag is pending: begun and not closed.
pub open spec fn tag_pending(view: FormatterView) -> bool {
    view.state == FormatterState::TagOpened && view.stack.len() > 0
}

/// The formatter after the pending start tag, if there is one, was closed:
/// the attributes gathered for it are written, the class attribute first,
/// then `>`.
pub open spec fn pending_closed(view: FormatterView) -> FormatterView {
    if tag_pending(view) {
        FormatterView {
            output: view.output + tag_text(view.stack.last().attributes) + seq!['>'],
            stack: view.stack,
            state: FormatterState::InContent,
        }
    } else {
        view
    }
}

/// The formatter after an element was started: a pending tag is closed,
/// `<name` is written and the element is open with no attributes yet.
pub open spec fn element_started(view: FormatterView, name: Seq<char>) -> FormatterView {
    let closed = pending_closed(view);
    FormatterView {
        output: closed.output + seq!['<'] + name,
        stack: closed.stack.push(
            ElementView { name, is_void: is_void_name(name), attributes: no_attributes() },
        ),
        state: FormatterState::TagOpened,
    }
}

/// The formatter with other attributes for its innermost element.
pub open spec fn with_attributes(view: FormatterView, attributes: AttributesView) -> FormatterView {
    let top = view.stack.last();
    FormatterView {
        output: view.output,
        stack: view.stack.update(
            view.stack.len() - 1,
            ElementView { name: top.name, is_void: top.is_void, attributes },
        ),
        state: view.state,
    }
}

/// Whether content may be written: not into a void element whose start tag
/// is still open.
pub open spec fn content_allowed(view: FormatterView) -> bool {
    !(view.stack.len() > 0 && view.stack.last().is_void && view.state == FormatterState::TagOpened)
}

/// The formatter after content was written: a pending tag is closed, then
/// the text follows.
pub open spec fn content_written(view: FormatterView, text: Seq<char>) -> FormatterView {
    let closed = pending_closed(view);
    FormatterView { output: closed.output + text, stack: closed.stack, state: closed.state }
}

/// The formatter after its innermost element was ended: a pending tag is
/// closed, and `</name>` is written unless the element is void.
pub open spec fn element_ended(view: FormatterView) -> FormatterView {
    let top = view.stack.last();
    let closed = pending_closed(view);
    FormatterView {
        output: if top.is_void {
            closed.output
        } else {
            closed.output + seq!['<', '/'] + top.name + seq!['>']
        },
        stack: view.stack.drop_last(),
        state: if view.stack.len() == 1 {
            FormatterState::Idle
        } else {
            FormatterState::InContent
        },
    }
}

/// No attribute can be written once content has been written.
pub proof fn lemma_no_attribute_after_content(view: FormatterView, text: Seq<char>)
    ensures
        !tag_pending(content_written(view, text)),
        view.state == FormatterState::InContent ==> !tag_pending(view),
{
}

/// A void element is never closed by a closing tag: started and ended, with
/// whatever attributes in between, it is `<name`, its attributes and `>`.
pub proof fn lemma_void_element_has_no_closing_tag(
    view: FormatterView,
    name: Seq<char>,
    attributes: AttributesView,
)
    requires
        is_void_name(name),
    ensures
        element_ended(with_attributes(element_started(view, name), attributes)).output
            == pending_closed(view).output + seq!['<'] + name + tag_text(attributes) + seq!['>'],
        element_ended(with_attributes(element_started(view, name), attributes)).stack
            == pending_closed(view).stack,
        !content_allowed(with_attributes(element_started(view, name), attributes)),
{
    let started = element_started(view, name);
    let filled = with_attributes(started, attributes);
    assert(filled.stack.last().is_void);
    assert(filled.stack.last().attributes == attributes);
    assert(filled.stack.drop_last() == pending_closed(view).stack);
}

/// A stateful writer of markup onto a buffer.
///
/// Elements are opened and closed in order, attributes are gathered while a
/// start tag is open and written when it closes, and everything that is
/// written is escaped for its place.
pub struct HtmlFormatter<'a> {
    output: &'a mut Html,
    element_stack: Vec<ElementEntry>,
    state: FormatterState,
}

impl<'a> View for HtmlFormatter<'a> {
    type V = FormatterView;

    closed spec fn view(&self) -> FormatterView {
        FormatterView {
            output: (*self.output)@,
            stack: Seq::new(self.element_stack@.len(), |i: int| self.element_stack@[i]@),
            state: self.state,
        }
    }
}

impl<'a> HtmlFormatter<'a> {
    /// A formatter that writes to `output`, behind what `output` holds.
    pub fn new(output: &'a mut Html) -> (formatter: Self)
        ensures
            formatter@.output == old(output)@,
            formatter@.stack.len() == 0,
            formatter@.state == FormatterState::Idle,
    {
        HtmlFormatter { output, element_stack: Vec::new(), state: FormatterState::Idle }
    }

    /// What has been written to the buffer.
    pub fn as_html(&self) -> (html: &Html)
        ensures
            html@ == self@.output,
    {
        &*self.output
    }

    /// Where the formatter stands.
    pub fn state(&self) -> (state: FormatterState)
        ensures
            state == self@.state,
    {
        self.state
    }

    /// The number of open elements.
    pub fn depth(&self) -> (depth: usize)
        ensures
            depth == self@.stack.len(),
    {
        self.element_stack.len()
    }

    /// Closes the pending start tag if there is one.
    fn close_pending_tag(&mut self)
        ensures
            final(self)@ == pending_closed(old(self)@),
    {
        if self.state == FormatterState::TagOpened && self.element_stack.len() > 0 {
            let top = self.element_stack.len() - 1;
            self.element_stack[top].attributes.write_tag_attributes(self.output);
            self.output.push('>');
            self.state = FormatterState::InContent;
            assert(self@.stack == old(self)@.stack);
            assert(self@.output == old(self)@.output + tag_text(old(self)@.stack.last().attributes)
                + seq!['>']);
        }
    }

    /// Writes `text` as it stands, behind a pending start tag if there is
    /// one. The state machine is not asked.
    pub fn write_str(&mut self, text: &str, escape_mode: EscapeMode)
        ensures
            final(self)@.output == old(self)@.output + crate::render::text_rendered(
                text@,
                escape_mode,
            ),
            final(self)@.stack == old(self)@.stack,
            final(self)@.state == old(self)@.state,
    {
        crate::render::write_text(self.output, text, escape_mode);
        assert(self@.stack == old(self)@.stack);
    }

    /// Starts the element `name`.
    ///
    /// A pending start tag is closed first. The name is taken as it stands;
    /// it is a void element if it is on the list of void elements in lower
    /// case.
    pub fn start_element(&mut self, name: &str)
        ensures
            final(self)@ == element_started(old(self)@, name@),
    {
        self.close_pending_tag();
        let ghost closed = self@;
        self.output.push('<');
        self.output.push_str(name);
        self.element_stack.push(
            ElementEntry {
                name: name.to_owned(),
                is_void: is_void_element(name),
                attributes: Attributes::new(),
            },
        );
        self.state = FormatterState::TagOpened;
        proof {
            assert(self@.output == closed.output + seq!['<'] + name@) by {
                assert(closed.output.push('<') == closed.output + seq!['<']);
            }
            let top = self.element_stack@.last()@;
            assert(top.attributes == no_attributes());
            assert(self@.stack == closed.stack.push(top));
        }
    }

    /// Replaces the attributes of the innermost element.
    fn set_attributes(&mut self, attributes: Attributes)
        requires
            old(self)@.stack.len() > 0,
        ensures
            final(self)@ == with_attributes(old(self)@, attributes@),
    {
        let entry = self.element_stack.pop().unwrap();
        let replaced = ElementEntry { name: entry.name, is_void: entry.is_void, attributes };
        self.element_stack.push(replaced);
        assert(self@.stack == old(self)@.stack.update(
            old(self)@.stack.len() - 1,
            ElementView {
                name: old(self)@.stack.last().name,
                is_void: old(self)@.stack.last().is_void,
                attributes: attributes@,
            },
        ));
    }

    /// The attributes gathered for the innermost element so far.
    pub fn attributes_so_far(&self) -> (attributes: Attributes)
        requires
            self@.stack.len() > 0,
        ensures
            attributes@ == self@.stack.last().attributes,
    {
        self.element_stack[self.element_stack.len() - 1].attributes.clone()
    }

    /// Writes an attribute of the innermost element.
    ///
    /// This is allowed while the start tag is open, and fails with
    /// `AttributeOutsideTag` in every other state.
    pub fn write_attribute(
        &mut self,
        name: &str,
        value: impl Render,
        escape_mode: Option<EscapeMode>,
    ) -> (result: Result<(), Error>)
        ensures
            result is Ok <==> tag_pending(old(self)@),
            result matches Err(e) ==> e == Error::AttributeOutsideTag && final(self)@ == old(
                self,
            )@,
            result is Ok ==> final(self)@ == with_attributes(
                old(self)@,
                if value.rejected(attribute_mode(name@, escape_mode)) {
                    old(self)@.stack.last().attributes
                } else {
                    added(
                        old(self)@.stack.last().attributes,
                        name@,
                        value.rendered(attribute_mode(name@, escape_mode)),
                    )
                },
            ),
    {
        if self.state != FormatterState::TagOpened || self.element_stack.len() == 0 {
            return Err(Error::AttributeOutsideTag);
        }
        let mut attributes = self.attributes_so_far();
        attributes.add(name, value, escape_mode);
        self.set_attributes(attributes);
        Ok(())
    }

    /// Writes an attribute of the innermost element if there is a value.
    pub fn write_optional_attribute(
        &mut self,
        name: &str,
        value: Option<impl Render>,
        escape_mode: Option<EscapeMode>,
    ) -> (result: Result<(), Error>)
        ensures
            result is Ok <==> tag_pending(old(self)@),
            result matches Err(e) ==> e == Error::AttributeOutsideTag && final(self)@ == old(
                self,
            )@,
            result is Ok ==> final(self)@ == with_attributes(
                old(self)@,
                match value {
                    Some(v) => if v.rejected(attribute_mode(name@, escape_mode)) {
                        old(self)@.stack.last().attributes
                    } else {
                        added(
                            old(self)@.stack.last().attributes,
                            name@,
                            v.rendered(attribute_mode(name@, escape_mode)),
                        )
                    },
                    None => old(self)@.stack.last().attributes,
                },
            ),
    {
        if self.state != FormatterState::TagOpened || self.element_stack.len() == 0 {
            return Err(Error::AttributeOutsideTag);
        }
        let mut attributes = self.attributes_so_far();
        attributes.add_optional(name, value, escape_mode);
        self.set_attributes(attributes);
        Ok(())
    }

    /// Writes a boolean attribute of the innermost element if `value` holds.
    pub fn write_boolean_attribute(&mut self, name: &str, value: bool) -> (result: Result<
        (),
        Error,
    >)
        ensures
            result is Ok <==> tag_pending(old(self)@),
            result matches Err(e) ==> e == Error::AttributeOutsideTag && final(self)@ == old(
                self,
            )@,
            result is Ok ==> final(self)@ == with_attributes(
                old(self)@,
                AttributesView {
                    classes: old(self)@.stack.last().attributes.classes,
                    entries: if value {
                        with_entry(old(self)@.stack.last().attributes.entries, name@, None)
                    } else {
                        old(self)@.stack.last().attributes.entries
                    },
                },
            ),
    {
        if self.state != FormatterState::TagOpened || self.element_stack.len() == 0 {
            return Err(Error::AttributeOutsideTag);
        }
        let mut attributes = self.attributes_so_far();
        attributes.add_boolean(name, value);
        self.set_attributes(attributes);
        Ok(())
    }

    /// Merges a collection of attributes into those of the innermost
    /// element: classes join the class list, other attributes overwrite.
    pub fn spread_attributes(&mut self, attributes: Attributes) -> (result: Result<(), Error>)
        ensures
            result is Ok <==> tag_pending(old(self)@),
            result matches Err(e) ==> e == Error::AttributeOutsideTag && final(self)@ == old(
                self,
            )@,
            result is Ok ==> final(self)@ == with_attributes(
                old(self)@,
                merged(old(self)@.stack.last().attributes, attributes@),
            ),
    {
        if self.state != FormatterState::TagOpened || self.element_stack.len() == 0 {
            return Err(Error::AttributeOutsideTag);
        }
        let mut gathered = self.attributes_so_far();
        gathered.merge(attributes);
        self.set_attributes(gathered);
        Ok(())
    }

    /// Writes content into the innermost element, or at the top level.
    ///
    /// A pending start tag is closed first. This fails with
    /// `ContentInVoidElement` if that tag is the one of a void element.
    pub fn write_content(&mut self, content: impl Render, escape_mode: Option<EscapeMode>) -> (result:
        Result<(), Error>)
        ensures
            result is Ok <==> content_allowed(old(self)@),
            result matches Err(e) ==> e == Error::ContentInVoidElement && final(self)@ == old(
                self,
            )@,
            result is Ok ==> final(self)@ == content_written(
                old(self)@,
                content.rendered(content_mode(escape_mode)),
            ),
    {
        if self.element_stack.len() > 0 && self.state == FormatterState::TagOpened {
            if self.element_stack[self.element_stack.len() - 1].is_void {
                return Err(Error::ContentInVoidElement);
            }
        }
        self.close_pending_tag();
        let mode = resolve_escape_mode_for_element(None, escape_mode);
        content.render_to(self.output, mode);
        assert(self@.stack == pending_closed(old(self)@).stack);
        Ok(())
    }

    /// Ends the innermost element.
    ///
    /// A pending start tag is closed first; a closing tag is written unless
    /// the element is void. This fails with `NoElementToClose` if no element
    /// is open.
    pub fn end_element(&mut self) -> (result: Result<(), Error>)
        ensures
            result is Ok <==> old(self)@.stack.len() > 0,
            result matches Err(e) ==> e == Error::NoElementToClose && final(self)@ == old(self)@,
            result is Ok ==> final(self)@ == element_ended(old(self)@),
    {
        if self.element_stack.len() == 0 {
            return Err(Error::NoElementToClose);
        }
        self.close_pending_tag();
        let ghost closed = self@;
        let entry = self.element_stack.pop().unwrap();
        if !entry.is_void {
            proof {
                reveal_strlit("</");
                assert("</"@ == seq!['<', '/']);
            }
            self.output.push_str("</");
            self.output.push_str(entry.name.as_str());
            self.output.push('>');
            assert(self@.output == closed.output + seq!['<', '/'] + entry.name@ + seq!['>']);
        }
        self.state = if self.element_stack.len() == 0 {
            FormatterState::Idle
        } else {
            FormatterState::InContent
        };
        assert(self@.stack == old(self)@.stack.drop_last());
        Ok(())
    }
}

} // verus!
