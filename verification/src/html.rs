//! Text that is known to be safe markup.

use vstd::prelude::*;
use vstd::string::StringExecFns;

verus! {

/// An owned string of escaped markup.
///
/// Whatever is appended to an `Html` has been escaped for its place, or was
/// explicitly marked as already safe. Rendering an `Html` again copies it
/// verbatim.
#[derive(Debug, Hash)]
pub struct Html(pub(crate) String);

impl View for Html {
    type V = Seq<char>;

    closed spec fn view(&self) -> Seq<char> {
        self.0@
    }
}

/// A borrowed string slice that is known to hold safe, already escaped markup.
#[derive(Debug, Clone, Copy)]
pub struct PreEscaped<'a>(pub &'a str);

impl<'a> View for PreEscaped<'a> {
    type V = Seq<char>;

    open spec fn view(&self) -> Seq<char> {
        self.0@
    }
}

impl Html {
    /// An empty buffer.
    pub fn new() -> (html: Self)
        ensures
            html@ == Seq::<char>::empty(),
    {
        Html(String::new())
    }

    /// An empty buffer; `capacity` is a hint only.
    pub fn with_capacity(capacity: usize) -> (html: Self)
        ensures
            html@ == Seq::<char>::empty(),
    {
        Html(String::new())
    }

    /// The content, marked as already escaped.
    pub fn as_pre_escaped(&self) -> (pre: PreEscaped<'_>)
        ensures
            pre@ == self@,
    {
        PreEscaped(self.0.as_str())
    }

    /// The content as a string slice.
    pub fn as_str(&self) -> (s: &str)
        ensures
            s@ == self@,
    {
        self.0.as_str()
    }

    /// The content as an owned string.
    pub fn into_string(self) -> (s: String)
        ensures
            s@ == self@,
    {
        self.0
    }

    /// A copy of the content as an owned string.
    pub fn to_string(&self) -> (s: String)
        ensures
            s@ == self@,
    {
        self.0.clone()
    }

    /// Whether nothing has been written.
    pub fn is_empty(&self) -> (empty: bool)
        ensures
            empty == (self@.len() == 0),
    {
        self.0.as_str().is_empty()
    }

    /// Appends `s` verbatim.
    pub(crate) fn push_str(&mut self, s: &str)
        ensures
            final(self)@ == old(self)@ + s@,
    {
        self.0.append(s);
    }

    /// Appends one character verbatim.
    pub(crate) fn push(&mut self, c: char)
        ensures
            final(self)@ == old(self)@.push(c),
    {
        self.0.push(c);
    }
}

impl Clone for Html {
    fn clone(&self) -> (copy: Self)
        ensures
            copy@ == self@,
    {
        Html(self.0.clone())
    }
}

impl Default for Html {
    fn default() -> (html: Self)
        ensures
            html@ == Seq::<char>::empty(),
    {
        Html::new()
    }
}

impl PartialEq for Html {
    fn eq(&self, other: &Html) -> (same: bool) {
        self.0 == other.0
    }
}

impl Eq for Html {}

impl vstd::std_specs::cmp::PartialEqSpecImpl for Html {
    open spec fn obeys_eq_spec() -> bool {
        true
    }

    open spec fn eq_spec(&self, other: &Html) -> bool {
        self@ == other@
    }
}

impl<'a> PartialEq<&'a str> for Html {
    fn eq(&self, other: &&'a str) -> (same: bool) {
        crate::text::str_eq(self.0.as_str(), *other)
    }
}

impl<'a> vstd::std_specs::cmp::PartialEqSpecImpl<&'a str> for Html {
    open spec fn obeys_eq_spec() -> bool {
        true
    }

    open spec fn eq_spec(&self, other: &&'a str) -> bool {
        self@ == other@
    }
}

impl std::ops::Deref for Html {
    type Target = str;

    fn deref(&self) -> (s: &str)
        ensures
            s@ == self@,
    {
        self.0.as_str()
    }
}

} // verus!
