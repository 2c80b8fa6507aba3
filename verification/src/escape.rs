//! Escape modes and how the default for a place is found.

use vstd::prelude::*;

use crate::text::str_eq;

pub mod html;
pub mod url;

pub use self::html::{escape_html, needs_html_escape};
pub use self::url::{
    decode_references, escape_url, is_allowed_scheme, is_decoded_url_safe, is_url_safe,
    parse_scheme, BLOCKED_URL_FALLBACK,
};

verus! {

/// How a value is transformed before it is put into the output.
#[derive(Debug, Clone, Copy, PartialEq, Eq, Structural)]
pub enum EscapeMode {
    /// The value is already safe: it is written verbatim.
    Raw,
    /// The five markup characters are replaced by their entities.
    Html,
    /// The value is checked as a URL, then escaped as under `Html`.
    Url,
}

/// Whether an attribute of this name holds a URL.
pub open spec fn is_url_attribute_name(name: Seq<char>) -> bool {
    name == "href"@ || name == "src"@ || name == "action"@ || name == "formaction"@ || name
        == "poster"@ || name == "cite"@ || name == "data"@ || name == "profile"@ || name
        == "manifest"@ || name == "icon"@ || name == "background"@ || name == "xlink:href"@
}

/// The mode that applies to an attribute: the one asked for, else `Url` for
/// a URL attribute, else `Html`.
pub open spec fn attribute_mode(name: Seq<char>, provided: Option<EscapeMode>) -> EscapeMode {
    match provided {
        Some(mode) => mode,
        None => if is_url_attribute_name(name) {
            EscapeMode::Url
        } else {
            EscapeMode::Html
        },
    }
}

/// The mode that applies to element content: the one asked for, else `Html`.
pub open spec fn content_mode(provided: Option<EscapeMode>) -> EscapeMode {
    match provided {
        Some(mode) => mode,
        None => EscapeMode::Html,
    }
}

/// Whether an attribute of this name holds a URL.
pub fn is_url_attribute(name: &str) -> (is_url: bool)
    ensures
        is_url == is_url_attribute_name(name@),
{
    str_eq(name, "href") || str_eq(name, "src") || str_eq(name, "action") || str_eq(
        name,
        "formaction",
    ) || str_eq(name, "poster") || str_eq(name, "cite") || str_eq(name, "data") || str_eq(
        name,
        "profile",
    ) || str_eq(name, "manifest") || str_eq(name, "icon") || str_eq(name, "background")
        || str_eq(name, "xlink:href")
}

/// Resolves the escape mode for content of the element `name`.
///
/// The element's name does not change the default.
pub fn resolve_escape_mode_for_element(name: Option<&str>, provided: Option<EscapeMode>) -> (mode:
    EscapeMode)
    ensures
        mode == content_mode(provided),
{
    match provided {
        Some(mode) => mode,
        None => EscapeMode::Html,
    }
}

/// Resolves the escape mode for the attribute `name`.
pub fn resolve_escape_mode_for_attribute(name: &str, provided: Option<EscapeMode>) -> (mode:
    EscapeMode)
    ensures
        mode == attribute_mode(name@, provided),
{
    match provided {
        Some(mode) => mode,
        None => if is_url_attribute(name) {
            EscapeMode::Url
        } else {
            EscapeMode::Html
        },
    }
}

} // verus!
