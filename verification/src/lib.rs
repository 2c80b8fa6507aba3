//! A templating engine for well-formed, injection-safe markup.
//!
//! Template source text is parsed into a node tree, lowered into an ordered
//! sequence of formatter operations and run against an [`HtmlFormatter`], a
//! state machine that escapes every dynamic value for the place it is written
//! to, merges `class` contributions and never closes a void element.

pub mod ast;
pub mod attributes;
pub mod classes;
pub mod display;
pub mod error;
pub mod escape;
pub mod formatter;
pub mod html;
pub mod lexer;
pub mod lower;
pub mod maybe_attr;
pub mod parse;
pub mod render;
pub mod render_int;
pub mod run;
pub mod safety;
pub mod scope;
pub mod text;

pub use crate::attributes::Attributes;
pub use crate::classes::{ClassPart, Classes};
pub use crate::display::HtmlDisplay;
pub use crate::error::Error;
pub use crate::escape::url::{escape_url, is_url_safe};
pub use crate::escape::{
    escape_html, needs_html_escape, resolve_escape_mode_for_attribute,
    resolve_escape_mode_for_element, EscapeMode,
};
pub use crate::formatter::{is_void_element, FormatterState, HtmlFormatter};
pub use crate::html::{Html, PreEscaped};
pub use crate::maybe_attr::MaybeAttributeValue;
pub use crate::lower::{
    attrs_impl, component_impl, html_impl, push_statements_for_node, render_impl, Op,
};
pub use crate::parse::{ParseError, ParseErrorKind};
pub use crate::render::{render, render_with_capacity, Render};
pub use crate::run::{
    build_attributes, render_ops, render_template, Library, RenderError, TemplateError,
};
pub use crate::scope::{Scope, Value};
