//! The pieces of markup, each of which writes itself.
//!
//! These are the writes of a start tag, an attribute, a piece of content
//! and a closing tag as single values. They write at once and in the order
//! in which they are asked to; nothing is gathered or merged.

use vstd::prelude::*;

use crate::escape::html::{escape_html, html_escaped};
use crate::escape::url::{is_url_safe, url_is_safe};
use crate::escape::EscapeMode;
use crate::html::Html;
use crate::maybe_attr::MaybeAttributeValue;
use crate::render::Render;

verus! {

/// Something that writes itself as markup.
pub trait HtmlDisplay {
    /// The markup.
    spec fn html_text(&self) -> Seq<char>;

    /// Appends the markup to `w`.
    fn html_fmt(&self, w: &mut Html)
        ensures
            final(w)@ == old(w)@ + self.html_text(),
    ;
}

impl<T: HtmlDisplay> HtmlDisplay for &T {
    open spec fn html_text(&self) -> Seq<char> {
        (**self).html_text()
    }

    fn html_fmt(&self, w: &mut Html) {
        (**self).html_fmt(w)
    }
}

impl HtmlDisplay for &str {
    open spec fn html_text(&self) -> Seq<char> {
        html_escaped(self@)
    }

    fn html_fmt(&self, w: &mut Html) {
        escape_html(w, *self)
    }
}

impl HtmlDisplay for Html {
    open spec fn html_text(&self) -> Seq<char> {
        self@
    }

    fn html_fmt(&self, w: &mut Html) {
        w.push_str(self.as_str())
    }
}

/// ` name="`, which opens an attribute with a value.
pub open spec fn attribute_open(name: Seq<char>) -> Seq<char> {
    seq![' '] + name + seq!['=', '"']
}

/// An attribute with the value `value`, as it stands in a start tag.
pub open spec fn valued_attribute(name: Seq<char>, value: Seq<char>) -> Seq<char> {
    attribute_open(name) + value + seq!['"']
}

fn write_attribute_open(w: &mut Html, name: &str)
    ensures
        final(w)@ == old(w)@ + attribute_open(name@),
{
    proof {
        reveal_strlit("=\"");
        assert("=\""@ == seq!['=', '"']);
    }
    w.push(' ');
    w.push_str(name);
    w.push_str("=\"");
    assert(w@ == old(w)@ + (seq![' '] + name@ + seq!['=', '"']));
}

/// The beginning of a start tag: `<name`.
pub struct OpenStartTag {
    pub name: &'static str,
}

impl HtmlDisplay for OpenStartTag {
    open spec fn html_text(&self) -> Seq<char> {
        seq!['<'] + self.name@
    }

    fn html_fmt(&self, w: &mut Html) {
        w.push('<');
        w.push_str(self.name);
        assert(w@ == old(w)@ + (seq!['<'] + self.name@));
    }
}

/// The end of a start tag: `>`.
pub struct CloseStartTag;

impl HtmlDisplay for CloseStartTag {
    open spec fn html_text(&self) -> Seq<char> {
        seq!['>']
    }

    fn html_fmt(&self, w: &mut Html) {
        w.push('>');
        assert(w@ == old(w)@ + seq!['>']);
    }
}

/// A closing tag: `</name>`.
pub struct CloseTag {
    pub name: &'static str,
}

impl HtmlDisplay for CloseTag {
    open spec fn html_text(&self) -> Seq<char> {
        seq!['<', '/'] + self.name@ + seq!['>']
    }

    fn html_fmt(&self, w: &mut Html) {
        proof {
            reveal_strlit("</");
            assert("</"@ == seq!['<', '/']);
        }
        w.push_str("</");
        w.push_str(self.name);
        w.push('>');
        assert(w@ == old(w)@ + (seq!['<', '/'] + self.name@ + seq!['>']));
    }
}

/// Content that is escaped.
pub struct Text<T>(pub T);

impl<T: Render> HtmlDisplay for Text<T> {
    open spec fn html_text(&self) -> Seq<char> {
        self.0.rendered(EscapeMode::Html)
    }

    fn html_fmt(&self, w: &mut Html) {
        self.0.render_to(w, EscapeMode::Html)
    }
}

/// Content that is written as it stands.
pub struct Raw<T>(pub T);

impl<T: Render> HtmlDisplay for Raw<T> {
    open spec fn html_text(&self) -> Seq<char> {
        self.0.rendered(EscapeMode::Raw)
    }

    fn html_fmt(&self, w: &mut Html) {
        self.0.render_to(w, EscapeMode::Raw)
    }
}

/// An attribute whose value is escaped.
pub struct Attribute<T> {
    pub name: &'static str,
    pub value: T,
}

impl<T: Render> HtmlDisplay for Attribute<T> {
    open spec fn html_text(&self) -> Seq<char> {
        valued_attribute(self.name@, self.value.rendered(EscapeMode::Html))
    }

    fn html_fmt(&self, w: &mut Html) {
        write_attribute_open(w, self.name);
        self.value.render_to(w, EscapeMode::Html);
        w.push('"');
        assert(w@ == old(w)@ + (attribute_open(self.name@) + self.value.rendered(EscapeMode::Html)
            + seq!['"']));
    }
}

/// An attribute whose value is written as it stands.
pub struct RawAttribute<T> {
    pub name: &'static str,
    pub value: T,
}

impl<T: Render> HtmlDisplay for RawAttribute<T> {
    open spec fn html_text(&self) -> Seq<char> {
        valued_attribute(self.name@, self.value.rendered(EscapeMode::Raw))
    }

    fn html_fmt(&self, w: &mut Html) {
        write_attribute_open(w, self.name);
        self.value.render_to(w, EscapeMode::Raw);
        w.push('"');
        assert(w@ == old(w)@ + (attribute_open(self.name@) + self.value.rendered(EscapeMode::Raw)
            + seq!['"']));
    }
}

/// An attribute that holds a URL: it is written, escaped, if the URL is
/// safe, and left out if it is not.
pub struct UrlAttribute<'a> {
    pub name: &'static str,
    pub value: &'a str,
}

/// A URL attribute as it stands in a start tag.
pub open spec fn url_attribute(name: Seq<char>, value: Seq<char>) -> Seq<char> {
    if url_is_safe(value) {
        valued_attribute(name, html_escaped(value))
    } else {
        Seq::empty()
    }
}

impl<'a> HtmlDisplay for UrlAttribute<'a> {
    open spec fn html_text(&self) -> Seq<char> {
        url_attribute(self.name@, self.value@)
    }

    fn html_fmt(&self, w: &mut Html) {
        if is_url_safe(self.value) {
            write_attribute_open(w, self.name);
            escape_html(w, self.value);
            w.push('"');
            assert(w@ == old(w)@ + (attribute_open(self.name@) + html_escaped(self.value@)
                + seq!['"']));
        } else {
            assert(w@ + Seq::<char>::empty() == w@);
        }
    }
}

/// An attribute as a value that may be missing gives it: nothing, the bare
/// name, or the name with the value under `mode`.
pub open spec fn maybe_attribute<T: MaybeAttributeValue>(
    name: Seq<char>,
    value: T,
    mode: EscapeMode,
) -> Seq<char> {
    if !value.written() {
        Seq::empty()
    } else if value.valued() {
        valued_attribute(name, value.value_text(mode))
    } else {
        seq![' '] + name
    }
}

fn write_maybe_attribute<T: MaybeAttributeValue>(w: &mut Html, name: &str, value: &T, mode: EscapeMode)
    ensures
        final(w)@ == old(w)@ + maybe_attribute(name@, *value, mode),
{
    if !value.should_write() {
        assert(w@ + Seq::<char>::empty() == w@);
    } else if value.has_value() {
        write_attribute_open(w, name);
        value.write(w, mode);
        w.push('"');
        assert(w@ == old(w)@ + (attribute_open(name@) + value.value_text(mode) + seq!['"']));
    } else {
        w.push(' ');
        w.push_str(name);
        assert(w@ == old(w)@ + (seq![' '] + name@));
    }
}

/// An attribute that is written if its value says so, the value escaped.
pub struct MaybeAttribute<T> {
    pub name: &'static str,
    pub value: T,
}

impl<T: MaybeAttributeValue> HtmlDisplay for MaybeAttribute<T> {
    open spec fn html_text(&self) -> Seq<char> {
        maybe_attribute(self.name@, self.value, EscapeMode::Html)
    }

    fn html_fmt(&self, w: &mut Html) {
        write_maybe_attribute(w, self.name, &self.value, EscapeMode::Html)
    }
}

/// An attribute that is written if its value says so, the value as it
/// stands.
pub struct RawMaybeAttribute<T> {
    pub name: &'static str,
    pub value: T,
}

impl<T: MaybeAttributeValue> HtmlDisplay for RawMaybeAttribute<T> {
    open spec fn html_text(&self) -> Seq<char> {
        maybe_attribute(self.name@, self.value, EscapeMode::Raw)
    }

    fn html_fmt(&self, w: &mut Html) {
        write_maybe_attribute(w, self.name, &self.value, EscapeMode::Raw)
    }
}

/// An attribute that holds a URL, if there is one.
pub struct UrlMaybeAttribute<'a> {
    pub name: &'static str,
    pub value: Option<&'a str>,
}

impl<'a> HtmlDisplay for UrlMaybeAttribute<'a> {
    open spec fn html_text(&self) -> Seq<char> {
        match self.value {
            Some(value) => url_attribute(self.name@, value@),
            None => Seq::empty(),
        }
    }

    fn html_fmt(&self, w: &mut Html) {
        match self.value {
            Some(value) => UrlAttribute { name: self.name, value }.html_fmt(w),
            None => {
                assert(w@ + Seq::<char>::empty() == w@);
            },
        }
    }
}

} // verus!
