//! What the host knows: the values of the expressions of a template.

use vstd::prelude::*;

use crate::attributes::Attributes;
use crate::text::str_eq;

verus! {

/// The value that the host gives to an expression.
pub enum Value {
    /// Text, which is escaped where it is written.
    Text(String),
    /// Markup that is safe already, which is written as it stands.
    Markup(String),
    /// A truth value.
    Flag(bool),
    /// No value.
    Absent,
    /// What a loop walks: for each turn, what its pattern binds.
    Items(Vec<Scope>),
    /// Which arm of a match is taken, and what its pattern binds.
    Arm(usize, Scope),
    /// A pattern that matched, or the parameters of a component, with what
    /// they bind.
    Bound(Scope),
    /// A collection of attributes.
    Attributes(Attributes),
}

/// An expression, given by its source text, with its value.
pub struct Binding {
    pub key: String,
    pub value: Value,
}

/// The values of the expressions that stand in one block of a template.
pub struct Scope {
    pub bindings: Vec<Binding>,
}

/// The scopes around a place in a template, the innermost first.
pub struct Frames<'a> {
    pub scope: &'a Scope,
    pub outer: Option<&'a Frames<'a>>,
}

/// The first index at or after `from` whose binding has the key `key`, or
/// the number of bindings.
pub open spec fn binding_index(bindings: Seq<Binding>, key: Seq<char>, from: int) -> int
    decreases bindings.len() - from,
{
    if from >= bindings.len() || from < 0 {
        bindings.len() as int
    } else if bindings[from].key@ == key {
        from
    } else {
        binding_index(bindings, key, from + 1)
    }
}

/// The value that `scope` gives to the expression `key`: that of the first
/// binding with this key.
pub open spec fn scope_value(scope: Scope, key: Seq<char>) -> Option<Value> {
    let at = binding_index(scope.bindings@, key, 0);
    if 0 <= at < scope.bindings@.len() {
        Some(scope.bindings@[at].value)
    } else {
        None
    }
}

/// The value that the scopes `frames`, the outermost first, give to the
/// expression `key`: that of the innermost scope that has one.
pub open spec fn frames_value(frames: Seq<Scope>, key: Seq<char>) -> Option<Value>
    decreases frames.len(),
{
    if frames.len() == 0 {
        None
    } else {
        match scope_value(frames.last(), key) {
            Some(value) => Some(value),
            None => frames_value(frames.drop_last(), key),
        }
    }
}

impl<'a> Frames<'a> {
    /// The scopes, the outermost first.
    pub open spec fn scopes(self) -> Seq<Scope>
        decreases self,
    {
        match self.outer {
            None => seq![*self.scope],
            Some(outer) => outer.scopes().push(*self.scope),
        }
    }

    /// The value of the expression `key`.
    pub fn get(&self, key: &str) -> (value: Option<&'a Value>)
        ensures
            match value {
                Some(v) => frames_value(self.scopes(), key@) == Some(*v),
                None => frames_value(self.scopes(), key@) is None,
            },
        decreases *self,
    {
        proof {
            assert(self.scopes().last() == *self.scope);
            match self.outer {
                None => {
                    assert(self.scopes().drop_last() == Seq::<Scope>::empty());
                },
                Some(outer) => {
                    assert(self.scopes().drop_last() == outer.scopes());
                },
            }
        }
        let ghost all = self.scopes();
        assert(all.len() > 0);
        match self.scope.get(key) {
            Some(value) => {
                assert(scope_value(all.last(), key@) == Some(*value));
                assert(frames_value(all, key@) == Some(*value));
                Some(value)
            },
            None => match self.outer {
                None => {
                    assert(frames_value(all.drop_last(), key@) is None);
                    None
                },
                Some(outer) => {
                    let found = outer.get(key);
                    assert(frames_value(all, key@) == frames_value(outer.scopes(), key@));
                    found
                },
            },
        }
    }
}

impl Scope {
    /// A scope without bindings.
    pub fn new() -> (scope: Self)
        ensures
            scope.bindings@.len() == 0,
    {
        Scope { bindings: Vec::new() }
    }

    /// Gives `key` the value `value`, behind the bindings that are there. A
    /// key that is bound already keeps its first value.
    pub fn bind(&mut self, key: &str, value: Value)
        ensures
            final(self).bindings@.len() == old(self).bindings@.len() + 1,
            final(self).bindings@.drop_last() == old(self).bindings@,
            final(self).bindings@.last().key@ == key@,
            final(self).bindings@.last().value == value,
    {
        self.bindings.push(Binding { key: key.to_owned(), value });
    }

    /// The value of the expression `key`.
    pub fn get(&self, key: &str) -> (value: Option<&Value>)
        ensures
            match value {
                Some(v) => scope_value(*self, key@) == Some(*v),
                None => scope_value(*self, key@) is None,
            },
    {
        let mut i: usize = 0;
        while i < self.bindings.len()
            invariant
                i <= self.bindings.len(),
                binding_index(self.bindings@, key@, i as int) == binding_index(
                    self.bindings@,
                    key@,
                    0,
                ),
            decreases self.bindings.len() - i,
        {
            if str_eq(self.bindings[i].key.as_str(), key) {
                return Some(&self.bindings[i].value);
            }
            i += 1;
        }
        None
    }
}

} // verus!
