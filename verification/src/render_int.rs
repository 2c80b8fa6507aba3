//! Integers are written in decimal, whatever the escape mode.

use vstd::prelude::*;

use crate::escape::EscapeMode;
use crate::html::Html;
use crate::render::{decimal_text, format_signed, format_unsigned, Render};

verus! {

impl Render for i8 {
    open spec fn rendered(&self, mode: EscapeMode) -> Seq<char> {
        decimal_text(*self as int)
    }

    open spec fn rejected(&self, mode: EscapeMode) -> bool {
        false
    }

    fn render_to(&self, output: &mut Html, mode: EscapeMode) {
        let text = format_signed(*self as i128);
        output.push_str(text.as_str())
    }

    fn is_rejected(&self, mode: EscapeMode) -> (rejected: bool) {
        false
    }
}

impl Render for i16 {
    open spec fn rendered(&self, mode: EscapeMode) -> Seq<char> {
        decimal_text(*self as int)
    }

    open spec fn rejected(&self, mode: EscapeMode) -> bool {
        false
    }

    fn render_to(&self, output: &mut Html, mode: EscapeMode) {
        let text = format_signed(*self as i128);
        output.push_str(text.as_str())
    }

    fn is_rejected(&self, mode: EscapeMode) -> (rejected: bool) {
        false
    }
}

impl Render for i32 {
    open spec fn rendered(&self, mode: EscapeMode) -> Seq<char> {
        decimal_text(*self as int)
    }

    open spec fn rejected(&self, mode: EscapeMode) -> bool {
        false
    }

    fn render_to(&self, output: &mut Html, mode: EscapeMode) {
        let text = format_signed(*self as i128);
        output.push_str(text.as_str())
    }

    fn is_rejected(&self, mode: EscapeMode) -> (rejected: bool) {
        false
    }
}

impl Render for i64 {
    open spec fn rendered(&self, mode: EscapeMode) -> Seq<char> {
        decimal_text(*self as int)
    }

    open spec fn rejected(&self, mode: EscapeMode) -> bool {
        false
    }

    fn render_to(&self, output: &mut Html, mode: EscapeMode) {
        let text = format_signed(*self as i128);
        output.push_str(text.as_str())
    }

    fn is_rejected(&self, mode: EscapeMode) -> (rejected: bool) {
        false
    }
}

impl Render for i128 {
    open spec fn rendered(&self, mode: EscapeMode) -> Seq<char> {
        decimal_text(*self as int)
    }

    open spec fn rejected(&self, mode: EscapeMode) -> bool {
        false
    }

    fn render_to(&self, output: &mut Html, mode: EscapeMode) {
        let text = format_signed(*self as i128);
        output.push_str(text.as_str())
    }

    fn is_rejected(&self, mode: EscapeMode) -> (rejected: bool) {
        false
    }
}

impl Render for isize {
    open spec fn rendered(&self, mode: EscapeMode) -> Seq<char> {
        decimal_text(*self as int)
    }

    open spec fn rejected(&self, mode: EscapeMode) -> bool {
        false
    }

    fn render_to(&self, output: &mut Html, mode: EscapeMode) {
        let text = format_signed(*self as i128);
        output.push_str(text.as_str())
    }

    fn is_rejected(&self, mode: EscapeMode) -> (rejected: bool) {
        false
    }
}

impl Render for u8 {
    open spec fn rendered(&self, mode: EscapeMode) -> Seq<char> {
        decimal_text(*self as int)
    }

    open spec fn rejected(&self, mode: EscapeMode) -> bool {
        false
    }

    fn render_to(&self, output: &mut Html, mode: EscapeMode) {
        let text = format_unsigned(*self as u128);
        output.push_str(text.as_str())
    }

    fn is_rejected(&self, mode: EscapeMode) -> (rejected: bool) {
        false
    }
}

impl Render for u16 {
    open spec fn rendered(&self, mode: EscapeMode) -> Seq<char> {
        decimal_text(*self as int)
    }

    open spec fn rejected(&self, mode: EscapeMode) -> bool {
        false
    }

    fn render_to(&self, output: &mut Html, mode: EscapeMode) {
        let text = format_unsigned(*self as u128);
        output.push_str(text.as_str())
    }

    fn is_rejected(&self, mode: EscapeMode) -> (rejected: bool) {
        false
    }
}

impl Render for u32 {
    open spec fn rendered(&self, mode: EscapeMode) -> Seq<char> {
        decimal_text(*self as int)
    }

    open spec fn rejected(&self, mode: EscapeMode) -> bool {
        false
    }

    fn render_to(&self, output: &mut Html, mode: EscapeMode) {
        let text = format_unsigned(*self as u128);
        output.push_str(text.as_str())
    }

    fn is_rejected(&self, mode: EscapeMode) -> (rejected: bool) {
        false
    }
}

impl Render for u64 {
    open spec fn rendered(&self, mode: EscapeMode) -> Seq<char> {
        decimal_text(*self as int)
    }

    open spec fn rejected(&self, mode: EscapeMode) -> bool {
        false
    }

    fn render_to(&self, output: &mut Html, mode: EscapeMode) {
        let text = format_unsigned(*self as u128);
        output.push_str(text.as_str())
    }

    fn is_rejected(&self, mode: EscapeMode) -> (rejected: bool) {
        false
    }
}

impl Render for u128 {
    open spec fn rendered(&self, mode: EscapeMode) -> Seq<char> {
        decimal_text(*self as int)
    }

    open spec fn rejected(&self, mode: EscapeMode) -> bool {
        false
    }

    fn render_to(&self, output: &mut Html, mode: EscapeMode) {
        let text = format_unsigned(*self as u128);
        output.push_str(text.as_str())
    }

    fn is_rejected(&self, mode: EscapeMode) -> (rejected: bool) {
        false
    }
}

impl Render for usize {
    open spec fn rendered(&self, mode: EscapeMode) -> Seq<char> {
        decimal_text(*self as int)
    }

    open spec fn rejected(&self, mode: EscapeMode) -> bool {
        false
    }

    fn render_to(&self, output: &mut Html, mode: EscapeMode) {
        let text = format_unsigned(*self as u128);
        output.push_str(text.as_str())
    }

    fn is_rejected(&self, mode: EscapeMode) -> (rejected: bool) {
        false
    }
}

} // verus!
