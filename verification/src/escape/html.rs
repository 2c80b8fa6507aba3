//! Replacing the five markup characters by their entities.

use vstd::prelude::*;
use vstd::std_specs::iter::IteratorSpec;

use crate::html::Html;

verus! {

/// Whether `c` is one of the five characters that markup gives a meaning to.
pub open spec fn is_html_special(c: char) -> bool {
    c == '&' || c == '<' || c == '>' || c == '"' || c == '\''
}

/// What stands for `c` in escaped text: its entity, or `c` itself.
pub open spec fn entity_of(c: char) -> Seq<char> {
    if c == '&' {
        seq!['&', 'a', 'm', 'p', ';']
    } else if c == '<' {
        seq!['&', 'l', 't', ';']
    } else if c == '>' {
        seq!['&', 'g', 't', ';']
    } else if c == '"' {
        seq!['&', 'q', 'u', 'o', 't', ';']
    } else if c == '\'' {
        seq!['&', '#', '3', '9', ';']
    } else {
        seq![c]
    }
}

/// `s` with every special character replaced by its entity.
pub open spec fn html_escaped(s: Seq<char>) -> Seq<char>
    decreases s.len(),
{
    if s.len() == 0 {
        Seq::empty()
    } else {
        entity_of(s[0]) + html_escaped(s.skip(1))
    }
}

/// Whether `s` holds a special character.
pub open spec fn has_html_special(s: Seq<char>) -> bool {
    exists|i: int| 0 <= i < s.len() && is_html_special(#[trigger] s[i])
}

/// Whether `t` begins with `p`.
pub open spec fn begins_with(t: Seq<char>, p: Seq<char>) -> bool {
    p.len() <= t.len() && t.subrange(0, p.len() as int) == p
}

/// The special character whose entity `t` begins with, if it begins with one.
pub open spec fn leading_entity(t: Seq<char>) -> Option<char> {
    if begins_with(t, entity_of('&')) {
        Some('&')
    } else if begins_with(t, entity_of('<')) {
        Some('<')
    } else if begins_with(t, entity_of('>')) {
        Some('>')
    } else if begins_with(t, entity_of('"')) {
        Some('"')
    } else if begins_with(t, entity_of('\'')) {
        Some('\'')
    } else {
        None
    }
}

/// `t` with each of the five entities replaced by its character, read from
/// the left.
pub open spec fn html_decoded(t: Seq<char>) -> Seq<char>
    decreases t.len(),
{
    if t.len() == 0 {
        Seq::empty()
    } else {
        match leading_entity(t) {
            Some(c) => seq![c] + html_decoded(t.skip(entity_of(c).len() as int)),
            None => seq![t[0]] + html_decoded(t.skip(1)),
        }
    }
}

/// Escaping distributes over concatenation.
pub proof fn lemma_escaped_concat(a: Seq<char>, b: Seq<char>)
    ensures
        html_escaped(a + b) == html_escaped(a) + html_escaped(b),
    decreases a.len(),
{
    if a.len() == 0 {
        assert(a + b == b);
    } else {
        assert((a + b).skip(1) == a.skip(1) + b);
        lemma_escaped_concat(a.skip(1), b);
    }
}

/// Escaping one more character appends what stands for it.
pub proof fn lemma_escaped_push(s: Seq<char>, c: char)
    ensures
        html_escaped(s.push(c)) == html_escaped(s) + entity_of(c),
{
    lemma_escaped_concat(s, seq![c]);
    assert(s.push(c) == s + seq![c]);
    assert(seq![c].skip(1) == Seq::<char>::empty());
    assert(html_escaped(seq![c]) == entity_of(c) + html_escaped(seq![c].skip(1)));
}

/// Text without special characters is its own escaped form.
pub proof fn lemma_escaped_plain(s: Seq<char>)
    requires
        !has_html_special(s),
    ensures
        html_escaped(s) == s,
    decreases s.len(),
{
    if s.len() > 0 {
        assert(!is_html_special(s[0]));
        assert forall|i: int| 0 <= i < s.skip(1).len() implies !is_html_special(
            #[trigger] s.skip(1)[i],
        ) by {
            assert(s.skip(1)[i] == s[i + 1]);
        }
        lemma_escaped_plain(s.skip(1));
        assert(seq![s[0]] + s.skip(1) == s);
    }
}

/// Escaped text holds none of `<`, `>`, `"`, `'`, and each `&` in it begins
/// one of the five entities.
pub proof fn lemma_escaped_is_inert(s: Seq<char>)
    ensures
        forall|i: int|
            0 <= i < html_escaped(s).len() ==> {
                let c = #[trigger] html_escaped(s)[i];
                &&& c != '<' && c != '>' && c != '"' && c != '\''
                &&& c == '&' ==> leading_entity(html_escaped(s).skip(i)) is Some
            },
    decreases s.len(),
{
    let e = html_escaped(s);
    if s.len() > 0 {
        let head = entity_of(s[0]);
        let tail = html_escaped(s.skip(1));
        lemma_escaped_is_inert(s.skip(1));
        assert forall|i: int| 0 <= i < e.len() implies {
            let c = #[trigger] e[i];
            &&& c != '<' && c != '>' && c != '"' && c != '\''
            &&& c == '&' ==> leading_entity(e.skip(i)) is Some
        } by {
            if i < head.len() {
                assert(e[i] == head[i]);
                if e[i] == '&' {
                    assert(i == 0);
                    assert(is_html_special(s[0]));
                    assert(e.skip(0) == e);
                    assert(e.subrange(0, head.len() as int) == head);
                    assert(begins_with(e, entity_of(s[0])));
                }
            } else {
                let j = i - head.len();
                assert(e[i] == tail[j]);
                assert(e.skip(i) == tail.skip(j));
            }
        }
    }
}

/// Decoding the entities of escaped text gives the text back.
pub proof fn lemma_escape_round_trip(s: Seq<char>)
    ensures
        html_decoded(html_escaped(s)) == s,
    decreases s.len(),
{
    if s.len() > 0 {
        let c = s[0];
        let head = entity_of(c);
        let tail = html_escaped(s.skip(1));
        let e = head + tail;
        assert(e == html_escaped(s));
        lemma_escape_round_trip(s.skip(1));
        assert(e[0] == head[0]);
        if is_html_special(c) {
            assert(e.subrange(0, head.len() as int) == head);
            assert(begins_with(e, head));
            assert(forall|d: char|
                is_html_special(d) && d != c ==> !begins_with(e, #[trigger] entity_of(d))) by {
                assert forall|d: char| is_html_special(d) && d != c implies !begins_with(
                    e,
                    #[trigger] entity_of(d),
                ) by {
                    if begins_with(e, entity_of(d)) {
                        let p = entity_of(d);
                        assert(e.subrange(0, p.len() as int)[1] == p[1]);
                        assert(e.subrange(0, p.len() as int)[2] == p[2]);
                        assert(e[1] == head[1]);
                        assert(e[2] == head[2]);
                    }
                }
            }
            assert(leading_entity(e) == Some(c));
            assert(e.skip(head.len() as int) == tail);
        } else {
            assert(e[0] == c);
            assert(c != '&');
            assert forall|d: char| is_html_special(d) implies !begins_with(
                e,
                #[trigger] entity_of(d),
            ) by {
                if begins_with(e, entity_of(d)) {
                    let p = entity_of(d);
                    assert(e.subrange(0, p.len() as int)[0] == p[0]);
                }
            }
            assert(leading_entity(e) is None);
            assert(e.skip(1) == tail);
        }
        assert(seq![c] + s.skip(1) == s);
    }
}

/// Whether `s` holds a character that escaping would replace.
pub fn needs_html_escape(s: &str) -> (needed: bool)
    ensures
        needed == has_html_special(s@),
{
    broadcast use vstd::string::group_string_axioms;

    let mut needed = false;
    for c in it: s.chars()
        invariant
            it.seq() == s@,
            needed == has_html_special(s@.take(it.index() as int)),
    {
        let ghost seen = s@.take(it.index() as int);
        let ghost next = s@.take(it.index() as int + 1);
        proof {
            assert(next == seen.push(c));
            if has_html_special(seen) {
                let k = choose|k: int| 0 <= k < seen.len() && is_html_special(#[trigger] seen[k]);
                assert(is_html_special(next[k]));
            }
            if has_html_special(next) && !is_html_special(c) {
                let k = choose|k: int| 0 <= k < next.len() && is_html_special(#[trigger] next[k]);
                assert(is_html_special(seen[k]));
            }
            if is_html_special(c) {
                assert(is_html_special(next[next.len() - 1]));
            }
        }
        if c == '&' || c == '<' || c == '>' || c == '"' || c == '\'' {
            needed = true;
        }
    }
    proof {
        assert(s@.take(s@.len() as int) == s@);
    }
    needed
}

/// Appends the escaped form of `s` to `output`.
///
/// Text that holds no special character is appended in one piece.
pub fn escape_html(output: &mut Html, s: &str)
    ensures
        final(output)@ == old(output)@ + html_escaped(s@),
{
    broadcast use vstd::string::group_string_axioms;

    if !needs_html_escape(s) {
        proof {
            lemma_escaped_plain(s@);
        }
        output.push_str(s);
        return ;
    }
    let ghost before = output@;
    for c in it: s.chars()
        invariant
            it.seq() == s@,
            output@ == before + html_escaped(s@.take(it.index() as int)),
    {
        proof {
            assert(s@.take(it.index() as int + 1) == s@.take(it.index() as int).push(c));
            lemma_escaped_push(s@.take(it.index() as int), c);
        }
        escape_char(output, c);
    }
    proof {
        assert(s@.take(s@.len() as int) == s@);
    }
}

/// Appends what stands for `c` in escaped text.
pub fn escape_char(output: &mut Html, c: char)
    ensures
        final(output)@ == old(output)@ + entity_of(c),
{
    if c == '&' {
        proof {
            reveal_strlit("&amp;");
        }
        assert("&amp;"@ == entity_of('&'));
        output.push_str("&amp;");
    } else if c == '<' {
        proof {
            reveal_strlit("&lt;");
        }
        assert("&lt;"@ == entity_of('<'));
        output.push_str("&lt;");
    } else if c == '>' {
        proof {
            reveal_strlit("&gt;");
        }
        assert("&gt;"@ == entity_of('>'));
        output.push_str("&gt;");
    } else if c == '"' {
        proof {
            reveal_strlit("&quot;");
        }
        assert("&quot;"@ == entity_of('"'));
        output.push_str("&quot;");
    } else if c == '\'' {
        proof {
            reveal_strlit("&#39;");
        }
        assert("&#39;"@ == entity_of('\''));
        output.push_str("&#39;");
    } else {
        output.push(c);
        assert(old(output)@.push(c) == old(output)@ + seq![c]);
    }
}

} // verus!
