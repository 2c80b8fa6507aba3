//! What can go wrong while a render is in progress.

use vstd::prelude::*;

verus! {

/// A violation of the formatter's state machine.
///
/// Each variant means that the operations were issued in an order that no
/// well-formed document allows; the render in progress cannot go on.
#[derive(Debug, Clone, Copy, PartialEq, Eq, Structural)]
pub enum Error {
    /// An attribute was written while no start tag was open.
    AttributeOutsideTag,
    /// An element was closed while none was open.
    NoElementToClose,
    /// Content was written into a void element.
    ContentInVoidElement,
}

impl Error {
    /// The message that describes the error.
    pub fn message(&self) -> (text: &'static str)
        ensures
            text@ == (match *self {
                Error::AttributeOutsideTag => "attempted to write an attribute outside of a tag"@,
                Error::NoElementToClose => "attempted to close an element when no element is open"@,
                Error::ContentInVoidElement => "attempted to write content to a void element"@,
            }),
    {
        match self {
            Error::AttributeOutsideTag => "attempted to write an attribute outside of a tag",
            Error::NoElementToClose => "attempted to close an element when no element is open",
            Error::ContentInVoidElement => "attempted to write content to a void element",
        }
    }
}

} // verus!
