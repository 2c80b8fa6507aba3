//! Joining the parts of a `class` attribute.

use vstd::prelude::*;
use vstd::string::StringExecFns;

use crate::escape::EscapeMode;
use crate::html::Html;
use crate::render::{is_text_rejected, text_rejected, text_rendered, write_text, Render};

verus! {

/// Something that can add to the value of a `class` attribute.
///
/// A part that is skipped adds nothing, not even the space that separates
/// parts.
pub trait ClassPart {
    /// What the part writes.
    spec fn class_text(&self) -> Seq<char>;

    /// Whether the part is skipped.
    spec fn skipped(&self) -> bool;

    /// Appends the part to `output`.
    fn write_to(&self, output: &mut String)
        ensures
            final(output)@ == old(output)@ + self.class_text(),
    ;

    /// Whether the part is skipped.
    fn should_skip(&self) -> (skip: bool)
        ensures
            skip == self.skipped(),
    ;
}

impl ClassPart for &str {
    open spec fn class_text(&self) -> Seq<char> {
        self@
    }

    open spec fn skipped(&self) -> bool {
        self@.len() == 0
    }

    fn write_to(&self, output: &mut String) {
        output.append(*self);
    }

    fn should_skip(&self) -> (skip: bool) {
        self.is_empty()
    }
}

impl<T: ClassPart> ClassPart for Option<T> {
    open spec fn class_text(&self) -> Seq<char> {
        match self {
            Some(part) => part.class_text(),
            None => Seq::empty(),
        }
    }

    open spec fn skipped(&self) -> bool {
        match self {
            Some(part) => part.skipped(),
            None => true,
        }
    }

    fn write_to(&self, output: &mut String) {
        match self {
            Some(part) => part.write_to(output),
            None => {
                assert(output@ + Seq::<char>::empty() == output@);
            },
        }
    }

    fn should_skip(&self) -> (skip: bool) {
        match self {
            Some(part) => part.should_skip(),
            None => true,
        }
    }
}

impl<T: ClassPart> ClassPart for &T {
    open spec fn class_text(&self) -> Seq<char> {
        (**self).class_text()
    }

    open spec fn skipped(&self) -> bool {
        (**self).skipped()
    }

    fn write_to(&self, output: &mut String) {
        (**self).write_to(output)
    }

    fn should_skip(&self) -> (skip: bool) {
        (**self).should_skip()
    }
}

/// What has been joined so far, and whether a part has been written.
pub struct Joined {
    pub text: Seq<char>,
    pub any: bool,
}

/// Nothing joined yet.
pub open spec fn nothing_joined() -> Joined {
    Joined { text: Seq::empty(), any: false }
}

/// `joined` with one more part: a part that is skipped changes nothing; one
/// that is not goes behind a space, unless it is the first.
pub open spec fn join_part(joined: Joined, skipped: bool, text: Seq<char>) -> Joined {
    if skipped {
        joined
    } else if joined.any {
        Joined { text: joined.text + seq![' '] + text, any: true }
    } else {
        Joined { text: joined.text + text, any: true }
    }
}

/// Appends one more part to `output`, which holds what was there before the
/// join and then `joined`.
fn write_part<T: ClassPart>(
    output: &mut String,
    part: &T,
    any: bool,
    Ghost(before): Ghost<Seq<char>>,
    Ghost(joined): Ghost<Joined>,
) -> (now: bool)
    requires
        old(output)@ == before + joined.text,
        any == joined.any,
    ensures
        final(output)@ == before + join_part(joined, part.skipped(), part.class_text()).text,
        now == join_part(joined, part.skipped(), part.class_text()).any,
{
    if part.should_skip() {
        any
    } else {
        if any {
            output.push(' ');
        }
        part.write_to(output);
        proof {
            if any {
                assert(before + joined.text + seq![' '] + part.class_text() == before + (joined.text
                    + seq![' '] + part.class_text()));
                assert(output@ == (before + joined.text).push(' ') + part.class_text());
                assert((before + joined.text).push(' ') == before + joined.text + seq![' ']);
            } else {
                assert(before + joined.text + part.class_text() == before + (joined.text
                    + part.class_text()));
            }
        }
        true
    }
}

/// Several class parts that are written as one value: the parts that are
/// not skipped, joined by single spaces.
pub struct Classes<T>(pub T);

impl<T: ClassPart> ClassPart for Classes<T> {
    open spec fn class_text(&self) -> Seq<char> {
        self.0.class_text()
    }

    open spec fn skipped(&self) -> bool {
        self.0.skipped()
    }

    fn write_to(&self, output: &mut String) {
        self.0.write_to(output)
    }

    fn should_skip(&self) -> (skip: bool) {
        self.0.should_skip()
    }
}

impl<T: ClassPart> Classes<T> {
    /// The value: nothing if all parts are skipped.
    pub open spec fn value(&self) -> Seq<char> {
        if self.0.skipped() {
            Seq::empty()
        } else {
            self.0.class_text()
        }
    }

    /// The value as a string.
    pub fn to_string(&self) -> (text: String)
        ensures
            text@ == self.value(),
    {
        let mut text = String::new();
        if !self.0.should_skip() {
            self.0.write_to(&mut text);
            assert(Seq::<char>::empty() + self.0.class_text() == self.0.class_text());
        }
        text
    }
}

impl<T: ClassPart> Render for Classes<T> {
    open spec fn rendered(&self, mode: EscapeMode) -> Seq<char> {
        text_rendered(self.value(), mode)
    }

    open spec fn rejected(&self, mode: EscapeMode) -> bool {
        text_rejected(self.value(), mode)
    }

    fn render_to(&self, output: &mut Html, mode: EscapeMode) {
        let text = self.to_string();
        write_text(output, text.as_str(), mode)
    }

    fn is_rejected(&self, mode: EscapeMode) -> (rejected: bool) {
        let text = self.to_string();
        is_text_rejected(text.as_str(), mode)
    }
}

impl<A: ClassPart> ClassPart for (A,) {
    open spec fn class_text(&self) -> Seq<char> {
        join_part(
            nothing_joined(),
            self.0.skipped(),
            self.0.class_text(),
        ).text
    }

    open spec fn skipped(&self) -> bool {
        self.0.skipped()
    }

    fn write_to(&self, output: &mut String) {
        let ghost before = output@;
        let ghost mut joined = nothing_joined();
        let mut any = false;
        assert(before + joined.text == before);
        any = write_part(output, &self.0, any, Ghost(before), Ghost(joined));
        proof {
            joined = join_part(joined, self.0.skipped(), self.0.class_text());
        }
    }

    fn should_skip(&self) -> (skip: bool) {
        self.0.should_skip()
    }
}

impl<A: ClassPart, B: ClassPart> ClassPart for (A, B) {
    open spec fn class_text(&self) -> Seq<char> {
        join_part(
            join_part(
                nothing_joined(),
                self.0.skipped(),
                self.0.class_text(),
            ),
            self.1.skipped(),
            self.1.class_text(),
        ).text
    }

    open spec fn skipped(&self) -> bool {
        self.0.skipped() && self.1.skipped()
    }

    fn write_to(&self, output: &mut String) {
        let ghost before = output@;
        let ghost mut joined = nothing_joined();
        let mut any = false;
        assert(before + joined.text == before);
        any = write_part(output, &self.0, any, Ghost(before), Ghost(joined));
        proof {
            joined = join_part(joined, self.0.skipped(), self.0.class_text());
        }
        any = write_part(output, &self.1, any, Ghost(before), Ghost(joined));
        proof {
            joined = join_part(joined, self.1.skipped(), self.1.class_text());
        }
    }

    fn should_skip(&self) -> (skip: bool) {
        self.0.should_skip() && self.1.should_skip()
    }
}

impl<A: ClassPart, B: ClassPart, C: ClassPart> ClassPart for (A, B, C) {
    open spec fn class_text(&self) -> Seq<char> {
        join_part(
            join_part(
                join_part(
                    nothing_joined(),
                    self.0.skipped(),
                    self.0.class_text(),
                ),
                self.1.skipped(),
                self.1.class_text(),
            ),
            self.2.skipped(),
            self.2.class_text(),
        ).text
    }

    open spec fn skipped(&self) -> bool {
        self.0.skipped() && self.1.skipped() && self.2.skipped()
    }

    fn write_to(&self, output: &mut String) {
        let ghost before = output@;
        let ghost mut joined = nothing_joined();
        let mut any = false;
        assert(before + joined.text == before);
        any = write_part(output, &self.0, any, Ghost(before), Ghost(joined));
        proof {
            joined = join_part(joined, self.0.skipped(), self.0.class_text());
        }
        any = write_part(output, &self.1, any, Ghost(before), Ghost(joined));
        proof {
            joined = join_part(joined, self.1.skipped(), self.1.class_text());
        }
        any = write_part(output, &self.2, any, Ghost(before), Ghost(joined));
        proof {
            joined = join_part(joined, self.2.skipped(), self.2.class_text());
        }
    }

    fn should_skip(&self) -> (skip: bool) {
        self.0.should_skip() && self.1.should_skip() && self.2.should_skip()
    }
}

impl<A: ClassPart, B: ClassPart, C: ClassPart, D: ClassPart> ClassPart for (A, B, C, D) {
    open spec fn class_text(&self) -> Seq<char> {
        join_part(
            join_part(
                join_part(
                    join_part(
                        nothing_joined(),
                        self.0.skipped(),
                        self.0.class_text(),
                    ),
                    self.1.skipped(),
                    self.1.class_text(),
                ),
                self.2.skipped(),
                self.2.class_text(),
            ),
            self.3.skipped(),
            self.3.class_text(),
        ).text
    }

    open spec fn skipped(&self) -> bool {
        self.0.skipped() && self.1.skipped() && self.2.skipped() && self.3.skipped()
    }

    fn write_to(&self, output: &mut String) {
        let ghost before = output@;
        let ghost mut joined = nothing_joined();
        let mut any = false;
        assert(before + joined.text == before);
        any = write_part(output, &self.0, any, Ghost(before), Ghost(joined));
        proof {
            joined = join_part(joined, self.0.skipped(), self.0.class_text());
        }
        any = write_part(output, &self.1, any, Ghost(before), Ghost(joined));
        proof {
            joined = join_part(joined, self.1.skipped(), self.1.class_text());
        }
        any = write_part(output, &self.2, any, Ghost(before), Ghost(joined));
        proof {
            joined = join_part(joined, self.2.skipped(), self.2.class_text());
        }
        any = write_part(output, &self.3, any, Ghost(before), Ghost(joined));
        proof {
            joined = join_part(joined, self.3.skipped(), self.3.class_text());
        }
    }

    fn should_skip(&self) -> (skip: bool) {
        self.0.should_skip() && self.1.should_skip() && self.2.should_skip() && self.3.should_skip()
    }
}

impl<A: ClassPart, B: ClassPart, C: ClassPart, D: ClassPart, E: ClassPart> ClassPart for (A, B, C, D, E) {
    open spec fn class_text(&self) -> Seq<char> {
        join_part(
            join_part(
                join_part(
                    join_part(
                        join_part(
                            nothing_joined(),
                            self.0.skipped(),
                            self.0.class_text(),
                        ),
                        self.1.skipped(),
                        self.1.class_text(),
                    ),
                    self.2.skipped(),
                    self.2.class_text(),
                ),
                self.3.skipped(),
                self.3.class_text(),
            ),
            self.4.skipped(),
            self.4.class_text(),
        ).text
    }

    open spec fn skipped(&self) -> bool {
        self.0.skipped() && self.1.skipped() && self.2.skipped() && self.3.skipped() && self.4.skipped()
    }

    fn write_to(&self, output: &mut String) {
        let ghost before = output@;
        let ghost mut joined = nothing_joined();
        let mut any = false;
        assert(before + joined.text == before);
        any = write_part(output, &self.0, any, Ghost(before), Ghost(joined));
        proof {
            joined = join_part(joined, self.0.skipped(), self.0.class_text());
        }
        any = write_part(output, &self.1, any, Ghost(before), Ghost(joined));
        proof {
            joined = join_part(joined, self.1.skipped(), self.1.class_text());
        }
        any = write_part(output, &self.2, any, Ghost(before), Ghost(joined));
        proof {
            joined = join_part(joined, self.2.skipped(), self.2.class_text());
        }
        any = write_part(output, &self.3, any, Ghost(before), Ghost(joined));
        proof {
            joined = join_part(joined, self.3.skipped(), self.3.class_text());
        }
        any = write_part(output, &self.4, any, Ghost(before), Ghost(joined));
        proof {
            joined = join_part(joined, self.4.skipped(), self.4.class_text());
        }
    }

    fn should_skip(&self) -> (skip: bool) {
        self.0.should_skip() && self.1.should_skip() && self.2.should_skip() && self.3.should_skip() && self.4.should_skip()
    }
}

impl<A: ClassPart, B: ClassPart, C: ClassPart, D: ClassPart, E: ClassPart, F: ClassPart> ClassPart for (A, B, C, D, E, F) {
    open spec fn class_text(&self) -> Seq<char> {
        join_part(
            join_part(
                join_part(
                    join_part(
                        join_part(
                            join_part(
                                nothing_joined(),
                                self.0.skipped(),
                                self.0.class_text(),
                            ),
                            self.1.skipped(),
                            self.1.class_text(),
                        ),
                        self.2.skipped(),
                        self.2.class_text(),
                    ),
                    self.3.skipped(),
                    self.3.class_text(),
                ),
                self.4.skipped(),
                self.4.class_text(),
            ),
            self.5.skipped(),
            self.5.class_text(),
        ).text
    }

    open spec fn skipped(&self) -> bool {
        self.0.skipped() && self.1.skipped() && self.2.skipped() && self.3.skipped() && self.4.skipped() && self.5.skipped()
    }

    fn write_to(&self, output: &mut String) {
        let ghost before = output@;
        let ghost mut joined = nothing_joined();
        let mut any = false;
        assert(before + joined.text == before);
        any = write_part(output, &self.0, any, Ghost(before), Ghost(joined));
        proof {
            joined = join_part(joined, self.0.skipped(), self.0.class_text());
        }
        any = write_part(output, &self.1, any, Ghost(before), Ghost(joined));
        proof {
            joined = join_part(joined, self.1.skipped(), self.1.class_text());
        }
        any = write_part(output, &self.2, any, Ghost(before), Ghost(joined));
        proof {
            joined = join_part(joined, self.2.skipped(), self.2.class_text());
        }
        any = write_part(output, &self.3, any, Ghost(before), Ghost(joined));
        proof {
            joined = join_part(joined, self.3.skipped(), self.3.class_text());
        }
        any = write_part(output, &self.4, any, Ghost(before), Ghost(joined));
        proof {
            joined = join_part(joined, self.4.skipped(), self.4.class_text());
        }
        any = write_part(output, &self.5, any, Ghost(before), Ghost(joined));
        proof {
            joined = join_part(joined, self.5.skipped(), self.5.class_text());
        }
    }

    fn should_skip(&self) -> (skip: bool) {
        self.0.should_skip() && self.1.should_skip() && self.2.should_skip() && self.3.should_skip() && self.4.should_skip() && self.5.should_skip()
    }
}

impl<A: ClassPart, B: ClassPart, C: ClassPart, D: ClassPart, E: ClassPart, F: ClassPart, G: ClassPart> ClassPart for (A, B, C, D, E, F, G) {
    open spec fn class_text(&self) -> Seq<char> {
        join_part(
            join_part(
                join_part(
                    join_part(
                        join_part(
                            join_part(
                                join_part(
                                    nothing_joined(),
                                    self.0.skipped(),
                                    self.0.class_text(),
                                ),
                                self.1.skipped(),
                                self.1.class_text(),
                            ),
                            self.2.skipped(),
                            self.2.class_text(),
                        ),
                        self.3.skipped(),
                        self.3.class_text(),
                    ),
                    self.4.skipped(),
                    self.4.class_text(),
                ),
                self.5.skipped(),
                self.5.class_text(),
            ),
            self.6.skipped(),
            self.6.class_text(),
        ).text
    }

    open spec fn skipped(&self) -> bool {
        self.0.skipped() && self.1.skipped() && self.2.skipped() && self.3.skipped() && self.4.skipped() && self.5.skipped() && self.6.skipped()
    }

    fn write_to(&self, output: &mut String) {
        let ghost before = output@;
        let ghost mut joined = nothing_joined();
        let mut any = false;
        assert(before + joined.text == before);
        any = write_part(output, &self.0, any, Ghost(before), Ghost(joined));
        proof {
            joined = join_part(joined, self.0.skipped(), self.0.class_text());
        }
        any = write_part(output, &self.1, any, Ghost(before), Ghost(joined));
        proof {
            joined = join_part(joined, self.1.skipped(), self.1.class_text());
        }
        any = write_part(output, &self.2, any, Ghost(before), Ghost(joined));
        proof {
            joined = join_part(joined, self.2.skipped(), self.2.class_text());
        }
        any = write_part(output, &self.3, any, Ghost(before), Ghost(joined));
        proof {
            joined = join_part(joined, self.3.skipped(), self.3.class_text());
        }
        any = write_part(output, &self.4, any, Ghost(before), Ghost(joined));
        proof {
            joined = join_part(joined, self.4.skipped(), self.4.class_text());
        }
        any = write_part(output, &self.5, any, Ghost(before), Ghost(joined));
        proof {
            joined = join_part(joined, self.5.skipped(), self.5.class_text());
        }
        any = write_part(output, &self.6, any, Ghost(before), Ghost(joined));
        proof {
            joined = join_part(joined, self.6.skipped(), self.6.class_text());
        }
    }

    fn should_skip(&self) -> (skip: bool) {
        self.0.should_skip() && self.1.should_skip() && self.2.should_skip() && self.3.should_skip() && self.4.should_skip() && self.5.should_skip() && self.6.should_skip()
    }
}

impl<A: ClassPart, B: ClassPart, C: ClassPart, D: ClassPart, E: ClassPart, F: ClassPart, G: ClassPart, H: ClassPart> ClassPart for (A, B, C, D, E, F, G, H) {
    open spec fn class_text(&self) -> Seq<char> {
        join_part(
            join_part(
                join_part(
                    join_part(
                        join_part(
                            join_part(
                                join_part(
                                    join_part(
                                        nothing_joined(),
                                        self.0.skipped(),
                                        self.0.class_text(),
                                    ),
                                    self.1.skipped(),
                                    self.1.class_text(),
                                ),
                                self.2.skipped(),
                                self.2.class_text(),
                            ),
                            self.3.skipped(),
                            self.3.class_text(),
                        ),
                        self.4.skipped(),
                        self.4.class_text(),
                    ),
                    self.5.skipped(),
                    self.5.class_text(),
                ),
                self.6.skipped(),
                self.6.class_text(),
            ),
            self.7.skipped(),
            self.7.class_text(),
        ).text
    }

    open spec fn skipped(&self) -> bool {
        self.0.skipped() && self.1.skipped() && self.2.skipped() && self.3.skipped() && self.4.skipped() && self.5.skipped() && self.6.skipped() && self.7.skipped()
    }

    fn write_to(&self, output: &mut String) {
        let ghost before = output@;
        let ghost mut joined = nothing_joined();
        let mut any = false;
        assert(before + joined.text == before);
        any = write_part(output, &self.0, any, Ghost(before), Ghost(joined));
        proof {
            joined = join_part(joined, self.0.skipped(), self.0.class_text());
        }
        any = write_part(output, &self.1, any, Ghost(before), Ghost(joined));
        proof {
            joined = join_part(joined, self.1.skipped(), self.1.class_text());
        }
        any = write_part(output, &self.2, any, Ghost(before), Ghost(joined));
        proof {
            joined = join_part(joined, self.2.skipped(), self.2.class_text());
        }
        any = write_part(output, &self.3, any, Ghost(before), Ghost(joined));
        proof {
            joined = join_part(joined, self.3.skipped(), self.3.class_text());
        }
        any = write_part(output, &self.4, any, Ghost(before), Ghost(joined));
        proof {
            joined = join_part(joined, self.4.skipped(), self.4.class_text());
        }
        any = write_part(output, &self.5, any, Ghost(before), Ghost(joined));
        proof {
            joined = join_part(joined, self.5.skipped(), self.5.class_text());
        }
        any = write_part(output, &self.6, any, Ghost(before), Ghost(joined));
        proof {
            joined = join_part(joined, self.6.skipped(), self.6.class_text());
        }
        any = write_part(output, &self.7, any, Ghost(before), Ghost(joined));
        proof {
            joined = join_part(joined, self.7.skipped(), self.7.class_text());
        }
    }

    fn should_skip(&self) -> (skip: bool) {
        self.0.should_skip() && self.1.should_skip() && self.2.should_skip() && self.3.should_skip() && self.4.should_skip() && self.5.should_skip() && self.6.should_skip() && self.7.should_skip()
    }
}

} // verus!
