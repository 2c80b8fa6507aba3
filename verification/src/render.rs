//! Values that can be written into markup.

use vstd::prelude::*;

use crate::escape::html::{escape_html, html_escaped};
use crate::escape::url::{escape_url, is_url_safe, url_escaped, url_is_safe};
use crate::escape::EscapeMode;
use crate::html::{Html, PreEscaped};

verus! {

/// What a piece of text becomes under an escape mode.
pub open spec fn text_rendered(text: Seq<char>, mode: EscapeMode) -> Seq<char> {
    match mode {
        EscapeMode::Raw => text,
        EscapeMode::Html => html_escaped(text),
        EscapeMode::Url => url_escaped(text),
    }
}

/// Whether a piece of text is turned away under an escape mode: under `Url`,
/// when it is no safe URL.
pub open spec fn text_rejected(text: Seq<char>, mode: EscapeMode) -> bool {
    mode == EscapeMode::Url && !url_is_safe(text)
}

/// A value that can be written into markup under an escape mode.
///
/// Text is escaped as the mode asks. Numbers and booleans hold nothing that
/// needs escaping, and markup that is already safe is never escaped again.
pub trait Render {
    /// What the value writes under `mode`.
    spec fn rendered(&self, mode: EscapeMode) -> Seq<char>;

    /// Whether `mode` turns the value away. Where an attribute is being
    /// written, such a value leaves the attribute out; where only text can
    /// be written, `rendered` holds an inert placeholder.
    spec fn rejected(&self, mode: EscapeMode) -> bool;

    /// Appends the value to `output` under `mode`.
    fn render_to(&self, output: &mut Html, mode: EscapeMode)
        ensures
            final(output)@ == old(output)@ + self.rendered(mode),
    ;

    /// Whether `mode` turns the value away.
    fn is_rejected(&self, mode: EscapeMode) -> (rejected: bool)
        ensures
            rejected == self.rejected(mode),
    ;
}

/// The markup of `value`, with text escaped.
pub fn render(value: impl Render) -> (html: Html)
    ensures
        html@ == value.rendered(EscapeMode::Html),
{
    render_with_capacity(0, value)
}

/// The markup of `value`, with text escaped, in a buffer with room for
/// `capacity` bytes.
pub fn render_with_capacity(capacity: usize, value: impl Render) -> (html: Html)
    ensures
        html@ == value.rendered(EscapeMode::Html),
{
    let mut html = Html::with_capacity(capacity);
    value.render_to(&mut html, EscapeMode::Html);
    assert(Seq::<char>::empty() + value.rendered(EscapeMode::Html) == value.rendered(
        EscapeMode::Html,
    ));
    html
}

/// Appends `text` to `output` under `mode`.
pub fn write_text(output: &mut Html, text: &str, mode: EscapeMode)
    ensures
        final(output)@ == old(output)@ + text_rendered(text@, mode),
{
    match mode {
        EscapeMode::Raw => output.push_str(text),
        EscapeMode::Html => escape_html(output, text),
        EscapeMode::Url => escape_url(output, text),
    }
}

/// Whether `mode` turns `text` away.
pub fn is_text_rejected(text: &str, mode: EscapeMode) -> (rejected: bool)
    ensures
        rejected == text_rejected(text@, mode),
{
    match mode {
        EscapeMode::Url => !is_url_safe(text),
        _ => false,
    }
}

impl Render for str {
    open spec fn rendered(&self, mode: EscapeMode) -> Seq<char> {
        text_rendered(self@, mode)
    }

    open spec fn rejected(&self, mode: EscapeMode) -> bool {
        text_rejected(self@, mode)
    }

    fn render_to(&self, output: &mut Html, mode: EscapeMode) {
        write_text(output, self, mode)
    }

    fn is_rejected(&self, mode: EscapeMode) -> (rejected: bool) {
        is_text_rejected(self, mode)
    }
}

impl Render for String {
    open spec fn rendered(&self, mode: EscapeMode) -> Seq<char> {
        text_rendered(self@, mode)
    }

    open spec fn rejected(&self, mode: EscapeMode) -> bool {
        text_rejected(self@, mode)
    }

    fn render_to(&self, output: &mut Html, mode: EscapeMode) {
        write_text(output, self.as_str(), mode)
    }

    fn is_rejected(&self, mode: EscapeMode) -> (rejected: bool) {
        is_text_rejected(self.as_str(), mode)
    }
}

impl<'a> Render for PreEscaped<'a> {
    open spec fn rendered(&self, mode: EscapeMode) -> Seq<char> {
        self@
    }

    open spec fn rejected(&self, mode: EscapeMode) -> bool {
        false
    }

    fn render_to(&self, output: &mut Html, mode: EscapeMode) {
        output.push_str(self.0)
    }

    fn is_rejected(&self, mode: EscapeMode) -> (rejected: bool) {
        false
    }
}

impl Render for Html {
    open spec fn rendered(&self, mode: EscapeMode) -> Seq<char> {
        self@
    }

    open spec fn rejected(&self, mode: EscapeMode) -> bool {
        false
    }

    fn render_to(&self, output: &mut Html, mode: EscapeMode) {
        output.push_str(self.as_str())
    }

    fn is_rejected(&self, mode: EscapeMode) -> (rejected: bool) {
        false
    }
}

impl Render for bool {
    open spec fn rendered(&self, mode: EscapeMode) -> Seq<char> {
        if *self {
            "true"@
        } else {
            "false"@
        }
    }

    open spec fn rejected(&self, mode: EscapeMode) -> bool {
        false
    }

    fn render_to(&self, output: &mut Html, mode: EscapeMode) {
        if *self {
            output.push_str("true")
        } else {
            output.push_str("false")
        }
    }

    fn is_rejected(&self, mode: EscapeMode) -> (rejected: bool) {
        false
    }
}

impl Render for char {
    open spec fn rendered(&self, mode: EscapeMode) -> Seq<char> {
        text_rendered(seq![*self], mode)
    }

    open spec fn rejected(&self, mode: EscapeMode) -> bool {
        text_rejected(seq![*self], mode)
    }

    fn render_to(&self, output: &mut Html, mode: EscapeMode) {
        let mut text = String::new();
        text.push(*self);
        assert(text@ == seq![*self]);
        write_text(output, text.as_str(), mode)
    }

    fn is_rejected(&self, mode: EscapeMode) -> (rejected: bool) {
        let mut text = String::new();
        text.push(*self);
        assert(text@ == seq![*self]);
        is_text_rejected(text.as_str(), mode)
    }
}

impl<T: Render + ?Sized> Render for &T {
    open spec fn rendered(&self, mode: EscapeMode) -> Seq<char> {
        (**self).rendered(mode)
    }

    open spec fn rejected(&self, mode: EscapeMode) -> bool {
        (**self).rejected(mode)
    }

    fn render_to(&self, output: &mut Html, mode: EscapeMode) {
        (**self).render_to(output, mode)
    }

    fn is_rejected(&self, mode: EscapeMode) -> (rejected: bool) {
        (**self).is_rejected(mode)
    }
}

impl<T: Render> Render for Option<T> {
    open spec fn rendered(&self, mode: EscapeMode) -> Seq<char> {
        match self {
            Some(value) => value.rendered(mode),
            None => Seq::empty(),
        }
    }

    open spec fn rejected(&self, mode: EscapeMode) -> bool {
        match self {
            Some(value) => value.rejected(mode),
            None => false,
        }
    }

    fn render_to(&self, output: &mut Html, mode: EscapeMode) {
        match self {
            Some(value) => value.render_to(output, mode),
            None => {
                assert(output@ + Seq::<char>::empty() == output@);
            },
        }
    }

    fn is_rejected(&self, mode: EscapeMode) -> (rejected: bool) {
        match self {
            Some(value) => value.is_rejected(mode),
            None => false,
        }
    }
}

/// The character of the decimal digit `d`.
pub open spec fn digit_char(d: int) -> char {
    ((48 + d) as u8) as char
}

/// The decimal digits of `n`, without leading zeros.
pub open spec fn decimal_digits(n: nat) -> Seq<char>
    decreases n,
{
    if n < 10 {
        seq![digit_char(n as int)]
    } else {
        decimal_digits(n / 10).push(digit_char((n % 10) as int))
    }
}

/// `n` written in decimal, with `-` before a negative number.
pub open spec fn decimal_text(n: int) -> Seq<char> {
    if n < 0 {
        seq!['-'] + decimal_digits((-n) as nat)
    } else {
        decimal_digits(n as nat)
    }
}

/// `itoa::Buffer::format` on a signed integer: the number in decimal.
#[verifier::external_body]
pub(crate) fn format_signed(n: i128) -> (text: String)
    ensures
        text@ == decimal_text(n as int),
{
    itoa::Buffer::new().format(n).to_owned()
}

/// `itoa::Buffer::format` on an unsigned integer: the number in decimal.
#[verifier::external_body]
pub(crate) fn format_unsigned(n: u128) -> (text: String)
    ensures
        text@ == decimal_text(n as int),
{
    itoa::Buffer::new().format(n).to_owned()
}

} // verus!
