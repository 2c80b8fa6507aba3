//! Values that may or may not give an attribute.

use vstd::prelude::*;

use crate::escape::EscapeMode;
use crate::html::Html;
use crate::render::Render;

verus! {

/// A value that decides whether an attribute is written, and whether with
/// a value.
///
/// `true` gives a boolean attribute and `false` none; an optional value
/// gives the attribute with the value if there is one.
pub trait MaybeAttributeValue {
    /// Whether the attribute is written.
    spec fn written(&self) -> bool;

    /// Whether the attribute is written with a value.
    spec fn valued(&self) -> bool;

    /// What the value writes under `mode`.
    spec fn value_text(&self, mode: EscapeMode) -> Seq<char>;

    /// Whether the attribute is written.
    fn should_write(&self) -> (write: bool)
        ensures
            write == self.written(),
    ;

    /// Whether the attribute is written with a value.
    fn has_value(&self) -> (has: bool)
        ensures
            has == self.valued(),
    ;

    /// Appends the value to `w` under `mode`.
    fn write(&self, w: &mut Html, mode: EscapeMode)
        ensures
            final(w)@ == old(w)@ + self.value_text(mode),
    ;
}

impl MaybeAttributeValue for bool {
    open spec fn written(&self) -> bool {
        *self
    }

    open spec fn valued(&self) -> bool {
        false
    }

    open spec fn value_text(&self, mode: EscapeMode) -> Seq<char> {
        Seq::empty()
    }

    fn should_write(&self) -> (write: bool) {
        *self
    }

    fn has_value(&self) -> (has: bool) {
        false
    }

    fn write(&self, w: &mut Html, mode: EscapeMode) {
        assert(w@ + Seq::<char>::empty() == w@);
    }
}

impl<T: Render> MaybeAttributeValue for Option<T> {
    open spec fn written(&self) -> bool {
        self is Some
    }

    open spec fn valued(&self) -> bool {
        self is Some
    }

    open spec fn value_text(&self, mode: EscapeMode) -> Seq<char> {
        match self {
            Some(value) => value.rendered(mode),
            None => Seq::empty(),
        }
    }

    fn should_write(&self) -> (write: bool) {
        self.is_some()
    }

    fn has_value(&self) -> (has: bool) {
        self.is_some()
    }

    fn write(&self, w: &mut Html, mode: EscapeMode) {
        match self {
            Some(value) => value.render_to(w, mode),
            None => {
                assert(w@ + Seq::<char>::empty() == w@);
            },
        }
    }
}

impl<T: MaybeAttributeValue> MaybeAttributeValue for &T {
    open spec fn written(&self) -> bool {
        (**self).written()
    }

    open spec fn valued(&self) -> bool {
        (**self).valued()
    }

    open spec fn value_text(&self, mode: EscapeMode) -> Seq<char> {
        (**self).value_text(mode)
    }

    fn should_write(&self) -> (write: bool) {
        (**self).should_write()
    }

    fn has_value(&self) -> (has: bool) {
        (**self).has_value()
    }

    fn write(&self, w: &mut Html, mode: EscapeMode) {
        (**self).write(w, mode)
    }
}

} // verus!
