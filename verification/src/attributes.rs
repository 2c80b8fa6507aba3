//! The attributes of one element, gathered before its start tag is closed.

use indexmap::{IndexMap, IndexSet};
use vstd::prelude::*;

use crate::escape::url::{char_is_whitespace, is_whitespace};
use crate::escape::{attribute_mode, resolve_escape_mode_for_attribute, EscapeMode};
use crate::html::Html;
use crate::render::Render;
use crate::text::{slice_to_string, str_eq, to_chars};

verus! {

/// `indexmap::IndexSet`: a set that walks its items in the order of their
/// first insertion.
#[verifier::external_type_specification]
#[verifier::external_body]
#[verifier::reject_recursive_types(T)]
#[verifier::reject_recursive_types(S)]
pub struct ExIndexSet<T, S>(IndexSet<T, S>);

/// `indexmap::IndexMap`: a map that walks its entries in the order in which
/// their keys were first inserted.
#[verifier::external_type_specification]
#[verifier::external_body]
#[verifier::reject_recursive_types(K)]
#[verifier::reject_recursive_types(V)]
#[verifier::reject_recursive_types(S)]
pub struct ExIndexMap<K, V, S>(IndexMap<K, V, S>);

/// The items of an `IndexSet` of strings, in the order in which the set
/// walks them: the order of their first insertion.
pub uninterp spec fn set_items(set: IndexSet<String>) -> Seq<Seq<char>>;

/// The entries of an `IndexMap` from strings to optional strings, in the
/// order in which the map walks them: the order in which their keys were
/// first inserted.
pub uninterp spec fn map_entries(map: IndexMap<String, Option<String>>) -> Seq<
    (Seq<char>, Option<Seq<char>>),
>;

/// The text of an optional string.
pub open spec fn optional_text(value: Option<String>) -> Option<Seq<char>> {
    match value {
        Some(text) => Some(text@),
        None => None,
    }
}

/// One attribute as it is held: its name, and its value unless it is a
/// boolean attribute.
pub type Entry = (Seq<char>, Option<Seq<char>>);

/// What a collection of attributes holds.
pub struct AttributesView {
    /// The class tokens, each once, in the order in which they were first
    /// seen.
    pub classes: Seq<Seq<char>>,
    /// The other attributes, each name once, in the order in which the names
    /// were first written.
    pub entries: Seq<Entry>,
}

/// No attributes.
pub open spec fn no_attributes() -> AttributesView {
    AttributesView { classes: Seq::empty(), entries: Seq::empty() }
}

/// Where the run of characters that are no white space, begun at `from`,
/// ends.
pub open spec fn token_end(s: Seq<char>, from: int) -> int
    decreases s.len() - from,
{
    if from >= s.len() || is_whitespace(s[from]) {
        from
    } else {
        token_end(s, from + 1)
    }
}

/// The class tokens of `s` from `from` on: its maximal runs of characters
/// that are no white space, in order.
pub open spec fn class_tokens(s: Seq<char>, from: int) -> Seq<Seq<char>>
    decreases s.len() - from,
{
    if from >= s.len() || from < 0 {
        Seq::empty()
    } else if is_whitespace(s[from]) {
        class_tokens(s, from + 1)
    } else {
        let end = token_end(s, from);
        if from < end <= s.len() {
            seq![s.subrange(from, end)] + class_tokens(s, end)
        } else {
            Seq::empty()
        }
    }
}

/// `classes` with `token` added at the end, unless it is there already.
pub open spec fn with_class(classes: Seq<Seq<char>>, token: Seq<char>) -> Seq<Seq<char>> {
    if classes.contains(token) {
        classes
    } else {
        classes.push(token)
    }
}

/// `classes` with the tokens of `more` from `from` on added in turn.
pub open spec fn with_classes(classes: Seq<Seq<char>>, more: Seq<Seq<char>>, from: int) -> Seq<
    Seq<char>,
>
    decreases more.len() - from,
{
    if from >= more.len() || from < 0 {
        classes
    } else {
        with_classes(with_class(classes, more[from]), more, from + 1)
    }
}

/// The first index at or after `from` whose entry has the name `name`, or
/// the number of entries.
pub open spec fn entry_index(entries: Seq<Entry>, name: Seq<char>, from: int) -> int
    decreases entries.len() - from,
{
    if from >= entries.len() || from < 0 {
        entries.len() as int
    } else if entries[from].0 == name {
        from
    } else {
        entry_index(entries, name, from + 1)
    }
}

/// `entries` after `name` was written with `value`: the entry of that name
/// keeps its place and takes the value; a new name goes to the end.
pub open spec fn with_entry(entries: Seq<Entry>, name: Seq<char>, value: Option<Seq<char>>) -> Seq<
    Entry,
> {
    let at = entry_index(entries, name, 0);
    if 0 <= at < entries.len() {
        entries.update(at, (name, value))
    } else {
        entries.push((name, value))
    }
}

/// `entries` after the entries of `more` from `from` on were written in
/// turn.
pub open spec fn with_entries(entries: Seq<Entry>, more: Seq<Entry>, from: int) -> Seq<Entry>
    decreases more.len() - from,
{
    if from >= more.len() || from < 0 {
        entries
    } else {
        with_entries(with_entry(entries, more[from].0, more[from].1), more, from + 1)
    }
}

/// The name of the attribute whose values are merged.
pub open spec fn class_name() -> Seq<char> {
    seq!['c', 'l', 'a', 's', 's']
}

/// The collection after a value was added under `name`: class tokens join
/// the class list, any other name is overwritten.
pub open spec fn added(view: AttributesView, name: Seq<char>, value: Seq<char>) -> AttributesView {
    if name == class_name() {
        AttributesView {
            classes: with_classes(view.classes, class_tokens(value, 0), 0),
            entries: view.entries,
        }
    } else {
        AttributesView { classes: view.classes, entries: with_entry(view.entries, name, Some(value)) }
    }
}

/// The collection after `other` was merged in: its classes join the class
/// list, its other attributes overwrite.
pub open spec fn merged(view: AttributesView, other: AttributesView) -> AttributesView {
    AttributesView {
        classes: with_classes(view.classes, other.classes, 0),
        entries: with_entries(view.entries, other.entries, 0),
    }
}

/// The class tokens joined by single spaces.
pub open spec fn class_list_text(classes: Seq<Seq<char>>) -> Seq<char>
    decreases classes.len(),
{
    if classes.len() == 0 {
        Seq::empty()
    } else if classes.len() == 1 {
        classes[0]
    } else {
        class_list_text(classes.drop_last()) + seq![' '] + classes.last()
    }
}

/// ` class="`, which opens the class attribute.
pub open spec fn class_open_text() -> Seq<char> {
    seq![' ', 'c', 'l', 'a', 's', 's', '=', '"']
}

/// The class attribute as it stands in a start tag, or nothing when there
/// is no class.
pub open spec fn class_attribute_text(classes: Seq<Seq<char>>) -> Seq<char> {
    if classes.len() == 0 {
        Seq::empty()
    } else {
        class_open_text() + class_list_text(classes) + seq!['"']
    }
}

/// One attribute as it stands in a start tag: ` name`, or ` name="value"`.
pub open spec fn entry_text(entry: Entry) -> Seq<char> {
    match entry.1 {
        Some(value) => seq![' '] + entry.0 + seq!['=', '"'] + value + seq!['"'],
        None => seq![' '] + entry.0,
    }
}

/// The attributes as they stand in a start tag, in order.
pub open spec fn entries_text(entries: Seq<Entry>) -> Seq<char>
    decreases entries.len(),
{
    if entries.len() == 0 {
        Seq::empty()
    } else {
        entries_text(entries.drop_last()) + entry_text(entries.last())
    }
}

/// All attributes as they stand in a start tag: the class attribute first,
/// then the others in the order of their first writing, each after a space.
pub open spec fn tag_text(view: AttributesView) -> Seq<char> {
    class_attribute_text(view.classes) + entries_text(view.entries)
}

/// All attributes as they stand alone: as in a start tag, without the
/// leading space.
pub open spec fn attributes_text(view: AttributesView) -> Seq<char> {
    if tag_text(view).len() == 0 {
        Seq::empty()
    } else {
        tag_text(view).skip(1)
    }
}

/// Whether no item stands twice in `items`.
pub open spec fn distinct(items: Seq<Seq<char>>) -> bool {
    forall|i: int, j: int| 0 <= i < j < items.len() ==> items[i] != items[j]
}

/// Whether no name stands twice in `entries`.
pub open spec fn distinct_names(entries: Seq<Entry>) -> bool {
    forall|i: int, j: int| 0 <= i < j < entries.len() ==> entries[i].0 != entries[j].0
}

/// What holds of every collection: each class token and each name stands
/// once.
pub open spec fn well_formed(view: AttributesView) -> bool {
    distinct(view.classes) && distinct_names(view.entries)
}

/// Adding a token keeps the tokens distinct and in their places.
pub proof fn lemma_with_class(classes: Seq<Seq<char>>, token: Seq<char>)
    requires
        distinct(classes),
    ensures
        distinct(with_class(classes, token)),
        with_class(classes, token).contains(token),
        classes.len() <= with_class(classes, token).len(),
        with_class(classes, token).take(classes.len() as int) == classes,
        forall|t: Seq<char>| #[trigger]
            with_class(classes, token).contains(t) <==> classes.contains(t) || t == token,
{
    let after = with_class(classes, token);
    if classes.contains(token) {
        assert(after.take(classes.len() as int) == classes);
    } else {
        assert(after[classes.len() as int] == token);
        assert(after.take(classes.len() as int) == classes);
        assert forall|t: Seq<char>| #[trigger] after.contains(t) implies classes.contains(t) || t
            == token by {
            let i = choose|i: int| 0 <= i < after.len() && after[i] == t;
            if i < classes.len() {
                assert(classes[i] == t);
            }
        }
        assert forall|t: Seq<char>| classes.contains(t) || t == token implies #[trigger]
            after.contains(t) by {
            if classes.contains(t) {
                let i = choose|i: int| 0 <= i < classes.len() && classes[i] == t;
                assert(after[i] == t);
            }
        }
    }
}

/// Class merging: the tokens stay distinct, those that were there keep their
/// places, every new token is there afterwards, and nothing else is.
pub proof fn lemma_with_classes(classes: Seq<Seq<char>>, more: Seq<Seq<char>>, from: int)
    requires
        distinct(classes),
        0 <= from <= more.len(),
    ensures
        distinct(with_classes(classes, more, from)),
        classes.len() <= with_classes(classes, more, from).len(),
        with_classes(classes, more, from).take(classes.len() as int) == classes,
        forall|t: Seq<char>| #[trigger]
            with_classes(classes, more, from).contains(t) <==> classes.contains(t) || exists|
                k: int,
            |
                from <= k < more.len() && more[k] == t,
    decreases more.len() - from,
{
    let after = with_classes(classes, more, from);
    if from < more.len() {
        let next = with_class(classes, more[from]);
        lemma_with_class(classes, more[from]);
        lemma_with_classes(next, more, from + 1);
        assert(after.take(classes.len() as int) == after.take(next.len() as int).take(
            classes.len() as int,
        ));
        assert forall|t: Seq<char>| #[trigger] after.contains(t) implies classes.contains(t)
            || exists|k: int| from <= k < more.len() && more[k] == t by {
            if !next.contains(t) {
                let k = choose|k: int| from + 1 <= k < more.len() && more[k] == t;
                assert(from <= k < more.len() && more[k] == t);
            } else if !classes.contains(t) {
                assert(from <= from < more.len() && more[from] == t);
            }
        }
        assert forall|t: Seq<char>|
            classes.contains(t) || exists|k: int|
                from <= k < more.len() && more[k] == t implies #[trigger] after.contains(t) by {
            if classes.contains(t) {
                assert(next.contains(t));
            } else {
                let k = choose|k: int| from <= k < more.len() && more[k] == t;
                if k == from {
                    assert(next.contains(t));
                } else {
                    assert(from + 1 <= k < more.len() && more[k] == t);
                }
            }
        }
    } else {
        assert(after.take(classes.len() as int) == classes);
        assert forall|t: Seq<char>| #[trigger] after.contains(t) implies classes.contains(t)
            || exists|k: int| from <= k < more.len() && more[k] == t by {}
    }
}

/// `entry_index` finds the first entry of the name, if there is one.
pub proof fn lemma_entry_index(entries: Seq<Entry>, name: Seq<char>, from: int)
    requires
        0 <= from <= entries.len(),
    ensures
        from <= entry_index(entries, name, from) <= entries.len(),
        entry_index(entries, name, from) < entries.len() ==> entries[entry_index(
            entries,
            name,
            from,
        )].0 == name,
        forall|i: int| from <= i < entry_index(entries, name, from) ==> entries[i].0 != name,
    decreases entries.len() - from,
{
    if from < entries.len() && entries[from].0 != name {
        lemma_entry_index(entries, name, from + 1);
    }
}

/// Writing under a name keeps the names distinct and in their places, and
/// the name holds the value written last.
pub proof fn lemma_with_entry(entries: Seq<Entry>, name: Seq<char>, value: Option<Seq<char>>)
    requires
        distinct_names(entries),
    ensures
        distinct_names(with_entry(entries, name, value)),
        entries.len() <= with_entry(entries, name, value).len() <= entries.len() + 1,
        forall|i: int| 0 <= i < entries.len() ==> (#[trigger] with_entry(entries, name, value)[i]).0
            == entries[i].0,
        forall|i: int|
            0 <= i < entries.len() && entries[i].0 != name ==> #[trigger] with_entry(
                entries,
                name,
                value,
            )[i] == entries[i],
        ({
            let after = with_entry(entries, name, value);
            let at = entry_index(after, name, 0);
            0 <= at < after.len() && after[at] == (name, value)
        }),
{
    let after = with_entry(entries, name, value);
    let at = entry_index(entries, name, 0);
    lemma_entry_index(entries, name, 0);
    lemma_entry_index(after, name, 0);
    if at < entries.len() {
        assert(after[at].0 == name);
        let found = entry_index(after, name, 0);
        if found < at {
            assert(after[found].0 == entries[found].0);
        }
    } else {
        assert(after[entries.len() as int].0 == name);
        let found = entry_index(after, name, 0);
        if found < entries.len() {
            assert(after[found].0 == entries[found].0);
        }
    }
}

/// Merging entries keeps the names distinct.
pub proof fn lemma_with_entries(entries: Seq<Entry>, more: Seq<Entry>, from: int)
    requires
        distinct_names(entries),
        0 <= from <= more.len(),
    ensures
        distinct_names(with_entries(entries, more, from)),
    decreases more.len() - from,
{
    if from < more.len() {
        lemma_with_entry(entries, more[from].0, more[from].1);
        lemma_with_entries(with_entry(entries, more[from].0, more[from].1), more, from + 1);
    }
}

/// Attribute overwrite: of two values written under one name other than
/// `class`, the second is the one that is held, in the place that the name
/// had after the first.
pub proof fn lemma_attribute_overwrite(
    view: AttributesView,
    name: Seq<char>,
    first: Seq<char>,
    second: Seq<char>,
)
    requires
        well_formed(view),
        name != class_name(),
    ensures
        added(added(view, name, first), name, second) == added(view, name, second),
        ({
            let entries = added(added(view, name, first), name, second).entries;
            let at = entry_index(entries, name, 0);
            &&& 0 <= at < entries.len()
            &&& entries[at] == (name, Some(second))
            &&& forall|i: int| 0 <= i < entries.len() && i != at ==> entries[i].0 != name
        }),
{
    let once = with_entry(view.entries, name, Some(first));
    let twice = with_entry(once, name, Some(second));
    let direct = with_entry(view.entries, name, Some(second));
    lemma_entry_index(view.entries, name, 0);
    lemma_with_entry(view.entries, name, Some(first));
    lemma_with_entry(once, name, Some(second));
    lemma_with_entry(view.entries, name, Some(second));
    lemma_entry_index(once, name, 0);
    let at = entry_index(view.entries, name, 0);
    if at < view.entries.len() {
        assert(entry_index(once, name, 0) == at) by {
            let found = entry_index(once, name, 0);
            assert(once[at].0 == name);
            if found < at {
                assert(once[found].0 == view.entries[found].0);
            }
        }
    } else {
        assert(entry_index(once, name, 0) == view.entries.len()) by {
            let found = entry_index(once, name, 0);
            assert(once[view.entries.len() as int].0 == name);
            if found < view.entries.len() {
                assert(once[found].0 == view.entries[found].0);
            }
        }
    }
    assert(twice == direct);
    lemma_entry_index(twice, name, 0);
    let place = entry_index(twice, name, 0);
    assert forall|i: int| 0 <= i < twice.len() && i != place implies twice[i].0 != name by {
        if twice[i].0 == name {
            if i < place {
            } else {
                assert(twice[place].0 == twice[i].0);
            }
        }
    }
}

/// Well-formedness is kept by adding and by merging.
pub proof fn lemma_well_formed(view: AttributesView, other: AttributesView, name: Seq<char>, value: Seq<char>)
    requires
        well_formed(view),
    ensures
        well_formed(added(view, name, value)),
        well_formed(merged(view, other)),
{
    lemma_with_classes(view.classes, class_tokens(value, 0), 0);
    lemma_with_entry(view.entries, name, Some(value));
    lemma_with_classes(view.classes, other.classes, 0);
    lemma_with_entries(view.entries, other.entries, 0);
}

/// `IndexSet::new`: a set without items.
#[verifier::external_body]
fn set_new() -> (set: IndexSet<String>)
    ensures
        set_items(set) == Seq::<Seq<char>>::empty(),
{
    IndexSet::new()
}


/// `IndexSet::len`: the number of items.
#[verifier::external_body]
fn set_len(set: &IndexSet<String>) -> (len: usize)
    ensures
        len == set_items(*set).len(),
{
    set.len()
}

/// `IndexSet::get_index`: the item at a place in the order.
#[verifier::external_body]
fn set_get(set: &IndexSet<String>, index: usize) -> (item: &String)
    requires
        index < set_items(*set).len(),
    ensures
        item@ == set_items(*set)[index as int],
{
    set.get_index(index).unwrap()
}

/// `IndexSet::clone`: a set with the same items in the same order.
#[verifier::external_body]
fn set_clone(set: &IndexSet<String>) -> (copy: IndexSet<String>)
    ensures
        set_items(copy) == set_items(*set),
{
    set.clone()
}

/// `IndexMap::with_capacity`: a map without entries.
#[verifier::external_body]
fn map_with_capacity(capacity: usize) -> (map: IndexMap<String, Option<String>>)
    ensures
        map_entries(map) == Seq::<Entry>::empty(),
{
    IndexMap::with_capacity(capacity)
}


/// `IndexMap::len`: the number of entries.
#[verifier::external_body]
fn map_len(map: &IndexMap<String, Option<String>>) -> (len: usize)
    ensures
        len == map_entries(*map).len(),
{
    map.len()
}

/// `IndexMap::get_index`: the entry at a place in the order.
#[verifier::external_body]
fn map_get(map: &IndexMap<String, Option<String>>, index: usize) -> (entry: (
    &String,
    &Option<String>,
))
    requires
        index < map_entries(*map).len(),
    ensures
        entry.0@ == map_entries(*map)[index as int].0,
        optional_text(*entry.1) == map_entries(*map)[index as int].1,
{
    map.get_index(index).unwrap()
}

/// `IndexMap::clone`: a map with the same entries in the same order.
#[verifier::external_body]
fn map_clone(map: &IndexMap<String, Option<String>>) -> (copy: IndexMap<String, Option<String>>)
    ensures
        map_entries(copy) == map_entries(*map),
{
    map.clone()
}

/// A collection of the attributes of one element.
///
/// Values written under `class` are split into tokens and joined to one
/// list, each token once, in the order in which the tokens were first seen.
/// A value written under any other name replaces what was written under
/// that name before; the name keeps the place of its first writing.
pub struct Attributes {
    classes: IndexSet<String>,
    attributes: IndexMap<String, Option<String>>,
}

impl Attributes {
    #[verifier::type_invariant]
    closed spec fn holds_each_once(&self) -> bool {
        distinct(set_items(self.classes)) && distinct_names(map_entries(self.attributes))
    }
}

impl View for Attributes {
    type V = AttributesView;

    closed spec fn view(&self) -> AttributesView {
        AttributesView {
            classes: set_items(self.classes),
            entries: map_entries(self.attributes),
        }
    }
}

/// `IndexSet::insert` on the class set: a token that the set holds already
/// changes nothing; a new one goes to the end. It returns whether the token
/// was new.
#[verifier::external_body]
fn insert_class(attributes: &mut Attributes, token: String) -> (is_new: bool)
    ensures
        is_new == !old(attributes)@.classes.contains(token@),
        final(attributes)@.classes == with_class(old(attributes)@.classes, token@),
        final(attributes)@.entries == old(attributes)@.entries,
{
    attributes.classes.insert(token)
}

/// `IndexMap::insert` on the attribute map: a name that the map holds
/// already keeps its place and takes the new value; a new name goes to the
/// end with its value.
#[verifier::external_body]
fn insert_entry(attributes: &mut Attributes, name: String, value: Option<String>)
    ensures
        final(attributes)@.classes == old(attributes)@.classes,
        final(attributes)@.entries == with_entry(
            old(attributes)@.entries,
            name@,
            optional_text(value),
        ),
{
    attributes.attributes.insert(name, value);
}

/// The class tokens of `text`, in order.
pub fn split_classes(text: &str) -> (tokens: Vec<String>)
    ensures
        tokens@.len() == class_tokens(text@, 0).len(),
        forall|i: int| 0 <= i < tokens@.len() ==> (#[trigger] tokens@[i])@ == class_tokens(text@, 0)[i],
{
    let chars = to_chars(text);
    let ghost s = chars@;
    let mut tokens: Vec<String> = Vec::new();
    let ghost mut found: Seq<Seq<char>> = Seq::empty();
    let mut i: usize = 0;
    while i < chars.len()
        invariant
            i <= chars.len(),
            s == chars@,
            found.len() == tokens@.len(),
            forall|k: int| 0 <= k < tokens@.len() ==> (#[trigger] tokens@[k])@ == found[k],
            found + class_tokens(s, i as int) == class_tokens(s, 0),
        decreases chars.len() - i,
    {
        if char_is_whitespace(chars[i]) {
            i += 1;
        } else {
            let start = i;
            while i < chars.len() && !char_is_whitespace(chars[i])
                invariant
                    start <= i <= chars.len(),
                    s == chars@,
                    token_end(s, i as int) == token_end(s, start as int),
                decreases chars.len() - i,
            {
                i += 1;
            }
            let token = slice_to_string(&chars, start, i);
            proof {
                assert(token_end(s, start as int) == i);
                assert(class_tokens(s, start as int) == seq![s.subrange(start as int, i as int)]
                    + class_tokens(s, i as int));
                assert(found.push(token@) + class_tokens(s, i as int) == found + class_tokens(
                    s,
                    start as int,
                ));
                found = found.push(token@);
            }
            tokens.push(token);
        }
    }
    proof {
        assert(found + Seq::<Seq<char>>::empty() == found);
    }
    tokens
}

impl Attributes {
    /// An empty collection.
    pub fn new() -> (attributes: Self)
        ensures
            attributes@ == no_attributes(),
    {
        Attributes { classes: set_new(), attributes: map_with_capacity(0) }
    }

    /// An empty collection with room for `capacity` attributes.
    pub fn with_capacity(capacity: usize) -> (attributes: Self)
        ensures
            attributes@ == no_attributes(),
    {
        Attributes { classes: set_new(), attributes: map_with_capacity(capacity) }
    }

    /// Adds `value` under `name`.
    ///
    /// The value is rendered under the escape mode that `escape_mode` and the
    /// name resolve to. Under `class` its tokens join the class list; under
    /// any other name it replaces the value written before. A value that its
    /// mode turns away (an unsafe URL) is left out.
    pub fn add(&mut self, name: &str, value: impl Render, escape_mode: Option<EscapeMode>)
        ensures
            final(self)@ == (if value.rejected(attribute_mode(name@, escape_mode)) {
                old(self)@
            } else {
                added(old(self)@, name@, value.rendered(attribute_mode(name@, escape_mode)))
            }),
    {
        let mode = resolve_escape_mode_for_attribute(name, escape_mode);
        if value.is_rejected(mode) {
            return ;
        }
        let mut rendered = Html::new();
        value.render_to(&mut rendered, mode);
        assert(rendered@ == value.rendered(mode)) by {
            assert(Seq::<char>::empty() + value.rendered(mode) == value.rendered(mode));
        }
        self.add_rendered(name, rendered.as_str());
    }

    /// Adds text that is written as it stands under `name`.
    pub fn add_rendered(&mut self, name: &str, value: &str)
        ensures
            final(self)@ == added(old(self)@, name@, value@),
    {
        proof {
            reveal_strlit("class");
            assert("class"@ == class_name());
        }
        if str_eq(name, "class") {
            let tokens = split_classes(value);
            let ghost wanted = class_tokens(value@, 0);
            let ghost before = self@.classes;
            let mut i: usize = 0;
            while i < tokens.len()
                invariant
                    i <= tokens.len(),
                    tokens@.len() == wanted.len(),
                    forall|k: int| 0 <= k < tokens@.len() ==> (#[trigger] tokens@[k])@ == wanted[k],
                    self@.entries == old(self)@.entries,
                    with_classes(self@.classes, wanted, i as int) == with_classes(before, wanted, 0),
                decreases tokens.len() - i,
            {
                let token = tokens[i].clone();
                proof {
                    use_type_invariant(&*self);
                    lemma_with_class(self@.classes, token@);
                }
                insert_class(self, token);
                i += 1;
            }
        } else {
            proof {
                use_type_invariant(&*self);
                lemma_with_entry(self@.entries, name@, Some(value@));
            }
            insert_entry(self, name.to_owned(), Some(value.to_owned()));
        }
    }

    /// Adds `value` under `name` if there is one.
    pub fn add_optional(
        &mut self,
        name: &str,
        value: Option<impl Render>,
        escape_mode: Option<EscapeMode>,
    )
        ensures
            final(self)@ == (match value {
                Some(v) => if v.rejected(attribute_mode(name@, escape_mode)) {
                    old(self)@
                } else {
                    added(old(self)@, name@, v.rendered(attribute_mode(name@, escape_mode)))
                },
                None => old(self)@,
            }),
    {
        if let Some(v) = value {
            self.add(name, v, escape_mode);
        }
    }

    /// Adds the boolean attribute `name` if `value` holds.
    ///
    /// A boolean attribute has no value; this holds of `class` too.
    pub fn add_boolean(&mut self, name: &str, value: bool)
        ensures
            final(self)@.classes == old(self)@.classes,
            final(self)@.entries == (if value {
                with_entry(old(self)@.entries, name@, None)
            } else {
                old(self)@.entries
            }),
    {
        if value {
            proof {
                use_type_invariant(&*self);
                lemma_with_entry(self@.entries, name@, None);
            }
            insert_entry(self, name.to_owned(), None);
        }
    }

    /// Merges `other` into this collection: its classes join the class list,
    /// its other attributes are written over those of the same name.
    pub fn merge(&mut self, other: Attributes)
        ensures
            final(self)@ == merged(old(self)@, other@),
    {
        let ghost classes = other@.classes;
        let ghost entries = other@.entries;
        let class_count = set_len(&other.classes);
        let mut i: usize = 0;
        while i < class_count
            invariant
                i <= class_count,
                class_count == classes.len(),
                classes == set_items(other.classes),
                entries == map_entries(other.attributes),
                self@.entries == old(self)@.entries,
                with_classes(self@.classes, classes, i as int) == with_classes(
                    old(self)@.classes,
                    classes,
                    0,
                ),
            decreases class_count - i,
        {
            let class = set_get(&other.classes, i).clone();
            proof {
                use_type_invariant(&*self);
                lemma_with_class(self@.classes, class@);
            }
            insert_class(self, class);
            i += 1;
        }
        let entry_count = map_len(&other.attributes);
        let mut j: usize = 0;
        while j < entry_count
            invariant
                j <= entry_count,
                entry_count == entries.len(),
                entries == map_entries(other.attributes),
                self@.classes == with_classes(old(self)@.classes, classes, 0),
                with_entries(self@.entries, entries, j as int) == with_entries(
                    old(self)@.entries,
                    entries,
                    0,
                ),
            decreases entry_count - j,
        {
            let (name, value) = map_get(&other.attributes, j);
            let name = name.clone();
            let value = match value {
                Some(text) => Some(text.clone()),
                None => None,
            };
            proof {
                use_type_invariant(&*self);
                lemma_with_entry(self@.entries, name@, optional_text(value));
            }
            insert_entry(self, name, value);
            j += 1;
        }
    }

    /// Whether the collection holds neither a class nor an attribute.
    ///
    /// Every collection is well formed; this is where a caller learns it.
    pub fn is_empty(&self) -> (empty: bool)
        ensures
            empty == (self@.classes.len() == 0 && self@.entries.len() == 0),
            well_formed(self@),
    {
        proof {
            use_type_invariant(self);
        }
        set_len(&self.classes) == 0 && map_len(&self.attributes) == 0
    }

    /// The number of class tokens.
    pub fn class_count(&self) -> (count: usize)
        ensures
            count == self@.classes.len(),
    {
        set_len(&self.classes)
    }

    /// The number of attributes other than `class`.
    pub fn attribute_count(&self) -> (count: usize)
        ensures
            count == self@.entries.len(),
    {
        map_len(&self.attributes)
    }

    /// Whether `class` is one of the class tokens.
    pub fn has_class(&self, class: &str) -> (found: bool)
        ensures
            found == self@.classes.contains(class@),
    {
        let count = set_len(&self.classes);
        let mut i: usize = 0;
        while i < count
            invariant
                i <= count,
                count == self@.classes.len(),
                forall|k: int| 0 <= k < i ==> self@.classes[k] != class@,
            decreases count - i,
        {
            if str_eq(set_get(&self.classes, i).as_str(), class) {
                return true;
            }
            i += 1;
        }
        false
    }

    /// The class tokens, in order.
    pub fn classes(&self) -> (tokens: Vec<String>)
        ensures
            tokens@.len() == self@.classes.len(),
            forall|i: int| 0 <= i < tokens@.len() ==> (#[trigger] tokens@[i])@ == self@.classes[i],
    {
        let count = set_len(&self.classes);
        let mut tokens: Vec<String> = Vec::new();
        let mut i: usize = 0;
        while i < count
            invariant
                i <= count,
                count == self@.classes.len(),
                tokens@.len() == i,
                forall|k: int| 0 <= k < i ==> (#[trigger] tokens@[k])@ == self@.classes[k],
            decreases count - i,
        {
            tokens.push(set_get(&self.classes, i).clone());
            i += 1;
        }
        tokens
    }

    /// What is held under `name`: nothing, a boolean attribute (the inner
    /// `None`), or a value.
    pub fn get(&self, name: &str) -> (held: Option<Option<String>>)
        ensures
            ({
                let at = entry_index(self@.entries, name@, 0);
                match held {
                    Some(value) => 0 <= at < self@.entries.len() && optional_text(value)
                        == self@.entries[at].1,
                    None => at == self@.entries.len(),
                }
            }),
    {
        let count = map_len(&self.attributes);
        let mut i: usize = 0;
        while i < count
            invariant
                i <= count,
                count == self@.entries.len(),
                entry_index(self@.entries, name@, i as int) == entry_index(self@.entries, name@, 0),
            decreases count - i,
        {
            let (key, value) = map_get(&self.attributes, i);
            if str_eq(key.as_str(), name) {
                let value = match value {
                    Some(text) => Some(text.clone()),
                    None => None,
                };
                return Some(value);
            }
            i += 1;
        }
        None
    }

    /// Appends the attributes to `output` as they stand in a start tag: each
    /// after a space, the class attribute first.
    pub fn write_tag_attributes(&self, output: &mut Html)
        ensures
            final(output)@ == old(output)@ + tag_text(self@),
    {
        let ghost before = output@;
        let ghost classes = self@.classes;
        let ghost entries = self@.entries;
        let class_count = set_len(&self.classes);
        if class_count > 0 {
            proof {
                reveal_strlit(" class=\"");
                assert(" class=\""@ == class_open_text());
            }
            output.push_str(" class=\"");
            let mut i: usize = 0;
            while i < class_count
                invariant
                    i <= class_count,
                    class_count == classes.len(),
                    classes == self@.classes,
                    output@ == before + class_open_text() + class_list_text(classes.take(i as int)),
                decreases class_count - i,
            {
                proof {
                    let next = classes.take(i as int + 1);
                    assert(next.drop_last() == classes.take(i as int));
                    assert(next.last() == classes[i as int]);
                    if i == 0 {
                        assert(class_list_text(classes.take(0)) == Seq::<char>::empty());
                        assert(class_list_text(next) == classes[0]);
                    }
                }
                if i > 0 {
                    output.push(' ');
                }
                output.push_str(set_get(&self.classes, i).as_str());
                proof {
                    let next = classes.take(i as int + 1);
                    if i > 0 {
                        assert(class_list_text(next) == class_list_text(classes.take(i as int))
                            + seq![' '] + classes[i as int]);
                    }
                    assert(output@ == before + class_open_text() + class_list_text(next));
                }
                i += 1;
            }
            output.push('"');
            proof {
                assert(classes.take(class_count as int) == classes);
                assert(output@ == before + class_attribute_text(classes));
            }
        } else {
            assert(output@ == before + class_attribute_text(classes));
        }
        let entry_count = map_len(&self.attributes);
        let mut j: usize = 0;
        proof {
            assert(entries_text(entries.take(0)) == Seq::<char>::empty());
            assert(output@ == before + class_attribute_text(classes) + entries_text(
                entries.take(0),
            ));
        }
        while j < entry_count
            invariant
                j <= entry_count,
                entry_count == entries.len(),
                entries == self@.entries,
                output@ == before + class_attribute_text(classes) + entries_text(
                    entries.take(j as int),
                ),
            decreases entry_count - j,
        {
            let (name, value) = map_get(&self.attributes, j);
            let ghost start = output@;
            output.push(' ');
            output.push_str(name.as_str());
            match value {
                Some(text) => {
                    proof {
                        reveal_strlit("=\"");
                        assert("=\""@ == seq!['=', '"']);
                    }
                    output.push_str("=\"");
                    output.push_str(text.as_str());
                    output.push('"');
                },
                None => {},
            }
            proof {
                let next = entries.take(j as int + 1);
                assert(next.drop_last() == entries.take(j as int));
                assert(next.last() == entries[j as int]);
                assert(output@ == start + entry_text(entries[j as int]));
                assert(output@ == before + class_attribute_text(classes) + entries_text(next));
            }
            j += 1;
        }
        proof {
            assert(entries.take(entry_count as int) == entries);
            assert(output@ == before + (class_attribute_text(classes) + entries_text(entries)));
        }
    }

    /// Appends the attributes to `output` as they stand alone: separated by
    /// single spaces, the class attribute first.
    pub fn write_to(&self, output: &mut Html)
        ensures
            final(output)@ == old(output)@ + attributes_text(self@),
    {
        let mut text = Html::new();
        self.write_tag_attributes(&mut text);
        assert(text@ == tag_text(self@)) by {
            assert(Seq::<char>::empty() + tag_text(self@) == tag_text(self@));
        }
        let chars = to_chars(text.as_str());
        if chars.len() > 0 {
            let rest = slice_to_string(&chars, 1, chars.len());
            assert(rest@ == tag_text(self@).skip(1));
            output.push_str(rest.as_str());
        } else {
            assert(output@ + Seq::<char>::empty() == output@);
        }
    }
}

impl Clone for Attributes {
    fn clone(&self) -> (copy: Self)
        ensures
            copy@ == self@,
    {
        proof {
            use_type_invariant(self);
        }
        Attributes { classes: set_clone(&self.classes), attributes: map_clone(&self.attributes) }
    }
}

impl Default for Attributes {
    fn default() -> (attributes: Self)
        ensures
            attributes@ == no_attributes(),
    {
        Attributes::new()
    }
}

impl Render for Attributes {
    open spec fn rendered(&self, mode: EscapeMode) -> Seq<char> {
        attributes_text(self@)
    }

    open spec fn rejected(&self, mode: EscapeMode) -> bool {
        false
    }

    fn render_to(&self, output: &mut Html, mode: EscapeMode) {
        self.write_to(output)
    }

    fn is_rejected(&self, mode: EscapeMode) -> (rejected: bool) {
        false
    }
}

} // verus!
