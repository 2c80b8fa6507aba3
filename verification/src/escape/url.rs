//! Deciding whether a URL may be written into an attribute.
//!
//! A URL is decoded the way a browser would come to read it (percent
//! escapes, twice; character references; control characters dropped; outer
//! white space dropped) and its scheme, if it has one, is held against a
//! short allow-list. A URL without a scheme is relative and passes.
//!
//! A URL that is rejected never reaches the output. Where an attribute is
//! being written, the attribute is left out; where only text can be written,
//! the inert `about:invalid` stands for the URL. A URL whose percent escapes
//! do not spell UTF-8 is rejected like a dangerous one.

use vstd::prelude::*;
use vstd::utf8::{
    decode_utf8, encode_utf8, encode_utf8_decode_utf8, encode_utf8_valid_utf8, is_ascii_chars,
    is_ascii_chars_encode_utf8, valid_utf8,
};

use crate::escape::html::{escape_html, html_escaped};
use crate::html::Html;
use crate::text::{contains_char, push_chars, slice_to_string, str_eq, to_chars};

verus! {

/// What stands in the output for a URL that was rejected.
pub const BLOCKED_URL_FALLBACK: &'static str = "about:invalid";

/// An ASCII letter.
pub open spec fn is_ascii_alpha(c: char) -> bool {
    ('a' <= c && c <= 'z') || ('A' <= c && c <= 'Z')
}

/// An ASCII decimal digit.
pub open spec fn is_ascii_digit(c: char) -> bool {
    '0' <= c && c <= '9'
}

/// A character that may follow the first letter of a scheme.
pub open spec fn is_scheme_char(c: char) -> bool {
    is_ascii_alpha(c) || is_ascii_digit(c) || c == '+' || c == '-' || c == '.'
}

/// A character that ends the part of a URL in which a scheme can stand.
pub open spec fn is_path_mark(c: char) -> bool {
    c == '/' || c == '?' || c == '#'
}

/// An ASCII white-space or control character.
pub open spec fn is_ascii_gap(c: char) -> bool {
    c <= ' ' || c == '\u{7f}'
}

/// A control character (general category Cc).
pub open spec fn is_control(c: char) -> bool {
    c <= '\u{1f}' || ('\u{7f}' <= c && c <= '\u{9f}')
}

/// A white-space character (property White_Space).
pub open spec fn is_whitespace(c: char) -> bool {
    ('\u{9}' <= c && c <= '\u{d}') || c == ' ' || c == '\u{85}' || c == '\u{a0}' || c
        == '\u{1680}' || ('\u{2000}' <= c && c <= '\u{200a}') || c == '\u{2028}' || c
        == '\u{2029}' || c == '\u{202f}' || c == '\u{205f}' || c == '\u{3000}'
}

/// `c`, or its lower-case form if it is an ASCII capital.
pub open spec fn ascii_lower(c: char) -> char {
    if 'A' <= c && c <= 'Z' {
        ((c as u8) + 32) as char
    } else {
        c
    }
}

/// `s` with every ASCII capital made lower-case.
pub open spec fn ascii_lowered(s: Seq<char>) -> Seq<char> {
    Seq::new(s.len(), |i: int| ascii_lower(s[i]))
}

/// The first index at or after `from` at which `c` stands, or the length of
/// `s`.
pub open spec fn index_of(s: Seq<char>, c: char, from: int) -> int
    decreases s.len() - from,
{
    if from >= s.len() {
        s.len() as int
    } else if s[from] == c {
        from
    } else {
        index_of(s, c, from + 1)
    }
}

/// Where the run of scheme characters that begins at `from` ends, at `limit`
/// at the latest.
pub open spec fn scheme_run_end(s: Seq<char>, from: int, limit: int) -> int
    decreases limit - from,
{
    if from >= limit || !is_scheme_char(s[from]) {
        from
    } else {
        scheme_run_end(s, from + 1, limit)
    }
}

/// The scheme of `s`, in lower case, if `s` begins with one.
///
/// A scheme is an ASCII letter, then letters, digits, `+`, `-` and `.`, then
/// ASCII white space or controls if any, then the first `:` of `s`; none of
/// `/`, `?`, `#` may stand before that `:`.
pub open spec fn scheme_of(s: Seq<char>) -> Option<Seq<char>> {
    let colon = index_of(s, ':', 0);
    if colon >= s.len() {
        None
    } else if exists|i: int| 0 <= i < colon && is_path_mark(#[trigger] s[i]) {
        None
    } else if colon == 0 || !is_ascii_alpha(s[0]) {
        None
    } else {
        let end = scheme_run_end(s, 1, colon);
        if forall|i: int| end <= i < colon ==> is_ascii_gap(#[trigger] s[i]) {
            Some(ascii_lowered(s.subrange(0, end)))
        } else {
            None
        }
    }
}

/// Whether links with this scheme are let through.
pub open spec fn is_allowed_scheme_name(scheme: Seq<char>) -> bool {
    scheme == "http"@ || scheme == "https"@ || scheme == "mailto"@ || scheme == "tel"@
}

/// `s` without its control characters.
pub open spec fn without_controls(s: Seq<char>) -> Seq<char>
    decreases s.len(),
{
    if s.len() == 0 {
        Seq::empty()
    } else if is_control(s.last()) {
        without_controls(s.drop_last())
    } else {
        without_controls(s.drop_last()).push(s.last())
    }
}

/// The first index at or after `from` that holds no white space, or the
/// length of `s`.
pub open spec fn trim_start(s: Seq<char>, from: int) -> int
    decreases s.len() - from,
{
    if from >= s.len() || !is_whitespace(s[from]) {
        from
    } else {
        trim_start(s, from + 1)
    }
}

/// The least end at or above `start`, and at most `to`, after which only
/// white space stands before `to`.
pub open spec fn trim_end(s: Seq<char>, start: int, to: int) -> int
    decreases to - start,
{
    if to <= start || !is_whitespace(s[to - 1]) {
        to
    } else {
        trim_end(s, start, to - 1)
    }
}

/// `s` without the white space at its two ends.
pub open spec fn trimmed(s: Seq<char>) -> Seq<char> {
    let start = if trim_start(s, 0) < s.len() {
        trim_start(s, 0)
    } else {
        s.len() as int
    };
    s.subrange(start, trim_end(s, start, s.len() as int))
}

/// Whether a URL, given after all decoding, may be written: it is not empty
/// once controls and outer white space are gone, and has no scheme or an
/// allowed one.
pub open spec fn decoded_url_is_safe(text: Seq<char>) -> bool {
    let t = trimmed(without_controls(text));
    t.len() > 0 && match scheme_of(t) {
        None => true,
        Some(scheme) => is_allowed_scheme_name(scheme),
    }
}

/// The value of a hexadecimal digit given as an ASCII byte.
pub open spec fn hex_digit(b: u8) -> Option<u8> {
    if 48 <= b && b <= 57 {
        Some((b - 48) as u8)
    } else if 97 <= b && b <= 102 {
        Some((b - 87) as u8)
    } else if 65 <= b && b <= 70 {
        Some((b - 55) as u8)
    } else {
        None
    }
}

/// `b` with every `%` that two hexadecimal digits follow replaced, together
/// with the digits, by the byte they name.
pub open spec fn percent_decoded_bytes(b: Seq<u8>) -> Seq<u8>
    decreases b.len(),
{
    if b.len() == 0 {
        b
    } else if b[0] == 37 && b.len() >= 3 && hex_digit(b[1]) is Some && hex_digit(b[2]) is Some {
        seq![(hex_digit(b[1])->0 * 16 + hex_digit(b[2])->0) as u8] + percent_decoded_bytes(
            b.skip(3),
        )
    } else {
        seq![b[0]] + percent_decoded_bytes(b.skip(1))
    }
}

/// The text that the percent-decoded bytes of `s` spell, if they are
/// well-formed UTF-8.
pub open spec fn percent_decoded(s: Seq<char>) -> Option<Seq<char>> {
    let bytes = percent_decoded_bytes(encode_utf8(s));
    if valid_utf8(bytes) {
        Some(decode_utf8(bytes))
    } else {
        None
    }
}

/// `s` with its character references (named, decimal and hexadecimal)
/// replaced by the characters they stand for, as `hescape::unescape` does it.
pub uninterp spec fn html_unescaped(s: Seq<char>) -> Seq<char>;

/// Whether all of `s` is ASCII.
pub open spec fn all_ascii(s: Seq<char>) -> bool {
    forall|i: int| 0 <= i < s.len() ==> #[trigger] s[i] <= '\u{7f}'
}

/// The last place of `s` that holds `c`, or -1 where none does.
pub open spec fn last_index_of(s: Seq<char>, c: char) -> int
    decreases s.len(),
{
    if s.len() == 0 {
        -1
    } else if s.last() == c {
        s.len() - 1
    } else {
        last_index_of(s.drop_last(), c)
    }
}

/// An ASCII hexadecimal digit.
pub open spec fn is_ascii_hex(c: char) -> bool {
    is_ascii_digit(c) || ('a' <= c && c <= 'f') || ('A' <= c && c <= 'F')
}

/// A digit of a numeric reference: decimal, or hexadecimal where `hex` is set.
pub open spec fn is_reference_digit(c: char, hex: bool) -> bool {
    if hex {
        is_ascii_hex(c)
    } else {
        is_ascii_digit(c)
    }
}

/// What a hexadecimal digit counts for.
pub open spec fn digit_value(c: char) -> int {
    if is_ascii_digit(c) {
        c as int - 48
    } else if 'a' <= c && c <= 'f' {
        c as int - 87
    } else {
        c as int - 55
    }
}

/// Whether `s` holds ASCII letters only.
pub open spec fn all_letters(s: Seq<char>) -> bool {
    forall|i: int| 0 <= i < s.len() ==> is_ascii_alpha(#[trigger] s[i])
}

/// Whether `s` holds digits of a numeric reference only.
pub open spec fn all_digits(s: Seq<char>, hex: bool) -> bool {
    forall|i: int| 0 <= i < s.len() ==> is_reference_digit(#[trigger] s[i], hex)
}

/// The number that the digits `s` spell, to the base ten or sixteen.
pub open spec fn number_value(s: Seq<char>, hex: bool) -> int
    decreases s.len(),
{
    if s.len() == 0 {
        0
    } else if hex {
        16 * number_value(s.drop_last(), hex) + digit_value(s.last())
    } else {
        10 * number_value(s.drop_last(), hex) + digit_value(s.last())
    }
}

/// Whether `v` is the number of a character: a code point that is no
/// surrogate.
pub open spec fn is_scalar_value(v: int) -> bool {
    (0 <= v && v < 0xD800) || (0xE000 <= v && v <= 0x10FFFF)
}

/// Whether `t`, the text behind an `&`, begins a character reference that is
/// still being read where the text ends: two or more letters and nothing
/// else, or `#` and the digits of a character's number and nothing else.
///
/// `hescape::unescape` reads one byte past such a reference to look for its
/// `;`, so it must not be handed a text that ends in one.
pub open spec fn reference_runs_out(t: Seq<char>) -> bool {
    t.len() >= 2 && if t[0] != '#' {
        all_letters(t)
    } else if is_ascii_digit(t[1]) {
        all_digits(t.skip(1), false) && is_scalar_value(number_value(t.skip(1), false))
    } else {
        (t[1] == 'x' || t[1] == 'X') && t.len() >= 3 && all_digits(t.skip(2), true)
            && is_scalar_value(number_value(t.skip(2), true))
    }
}

/// The texts that `hescape::unescape` decodes: those without `&`, and the
/// ASCII texts in which no reference runs out behind the last `&`.
pub open spec fn entity_decodable(s: Seq<char>) -> bool {
    !contains_char(s, '&') || (all_ascii(s) && !reference_runs_out(
        s.skip(last_index_of(s, '&') + 1),
    ))
}

/// What decoding makes of a text that can be decoded: a text without `&`, or
/// shorter than three characters, is left as it is.
pub open spec fn entities_replaced(s: Seq<char>) -> Seq<char> {
    if s.len() < 3 || !contains_char(s, '&') {
        s
    } else {
        html_unescaped(s)
    }
}

/// An ASCII text with its character references decoded. A reference that
/// runs out at the end of the text stays as it stands, with its `&`.
pub open spec fn ascii_decoded(p: Seq<char>) -> Seq<char> {
    if entity_decodable(p) {
        entities_replaced(p)
    } else {
        let cut = last_index_of(p, '&') + 1;
        entities_replaced(p.take(cut)) + p.skip(cut)
    }
}

/// Where the run of ASCII characters that begins at `from` ends.
pub open spec fn ascii_run_end(s: Seq<char>, from: int) -> int
    decreases s.len() - from,
{
    if from < 0 || from >= s.len() || s[from] > '\u{7f}' {
        from
    } else {
        ascii_run_end(s, from + 1)
    }
}

/// `s` from `from` on, decoded piece by piece: each run of ASCII characters
/// has its references decoded, and every other character stays.
pub open spec fn pieces_decoded(s: Seq<char>, from: int) -> Seq<char>
    decreases s.len() - from,
{
    if from < 0 || from >= s.len() {
        Seq::empty()
    } else if s[from] > '\u{7f}' {
        seq![s[from]] + pieces_decoded(s, from + 1)
    } else {
        let end = ascii_run_end(s, from);
        if from < end && end <= s.len() {
            ascii_decoded(s.subrange(from, end)) + pieces_decoded(s, end)
        } else {
            Seq::empty()
        }
    }
}

/// `s` with its character references decoded. Only ASCII spells a
/// reference, so a text that holds other characters beside an `&` is
/// decoded piece by piece.
pub open spec fn reference_decoded(s: Seq<char>) -> Seq<char> {
    if entity_decodable(s) {
        entities_replaced(s)
    } else {
        pieces_decoded(s, 0)
    }
}

/// Whether `url` may be written into a URL attribute.
///
/// The empty URL is rejected, and so is one whose percent-decoded bytes,
/// taken once or twice, are not UTF-8. Every other URL is judged by what it
/// decodes to.
pub open spec fn url_is_safe(url: Seq<char>) -> bool {
    url.len() > 0 && match percent_decoded(url) {
        None => false,
        Some(once) => match percent_decoded(once) {
            None => false,
            Some(twice) => decoded_url_is_safe(reference_decoded(twice)),
        },
    }
}

/// `percent_encoding::percent_decode_str(..).decode_utf8()`: every `%` with
/// two hexadecimal digits behind it becomes the byte they name, and the
/// result is handed back if those bytes are well-formed UTF-8.
#[verifier::external_body]
fn percent_decode(s: &str) -> (decoded: Option<String>)
    ensures
        decoded matches Some(t) ==> percent_decoded(s@) == Some(t@),
        decoded is None ==> percent_decoded(s@) is None,
{
    match percent_encoding::percent_decode_str(s).decode_utf8() {
        Ok(text) => Some(text.into_owned()),
        Err(_) => None,
    }
}

/// `hescape::unescape`: the text with its character references decoded. A
/// text without `&`, or shorter than three bytes, comes back unchanged.
///
/// The call walks a text that holds `&` byte by byte, and behind a reference
/// it reads one byte more to look for the `;`: so only decodable texts are
/// handed to it.
#[verifier::external_body]
fn unescape_entities(s: &str) -> (text: String)
    requires
        entity_decodable(s@),
    ensures
        text@ == html_unescaped(s@),
        s@.len() < 3 || !contains_char(s@, '&') ==> text@ == s@,
{
    hescape::unescape(s)
}

/// Whether `c` is a control character.
pub fn char_is_control(c: char) -> (r: bool)
    ensures
        r == is_control(c),
{
    c <= '\u{1f}' || ('\u{7f}' <= c && c <= '\u{9f}')
}

/// Whether `c` is a white-space character.
pub fn char_is_whitespace(c: char) -> (r: bool)
    ensures
        r == is_whitespace(c),
{
    ('\u{9}' <= c && c <= '\u{d}') || c == ' ' || c == '\u{85}' || c == '\u{a0}' || c
        == '\u{1680}' || ('\u{2000}' <= c && c <= '\u{200a}') || c == '\u{2028}' || c
        == '\u{2029}' || c == '\u{202f}' || c == '\u{205f}' || c == '\u{3000}'
}

fn char_is_scheme_char(c: char) -> (r: bool)
    ensures
        r == is_scheme_char(c),
{
    ('a' <= c && c <= 'z') || ('A' <= c && c <= 'Z') || ('0' <= c && c <= '9') || c == '+' || c
        == '-' || c == '.'
}

fn char_ascii_lower(c: char) -> (r: char)
    ensures
        r == ascii_lower(c),
{
    if 'A' <= c && c <= 'Z' {
        ((c as u8) + 32) as char
    } else {
        c
    }
}

/// The facts about the last place of a character that the decoding rests on.
proof fn lemma_last_index_of(s: Seq<char>, c: char)
    ensures
        -1 <= last_index_of(s, c) < s.len(),
        last_index_of(s, c) >= 0 <==> contains_char(s, c),
        last_index_of(s, c) >= 0 ==> s[last_index_of(s, c)] == c,
        forall|k: int| last_index_of(s, c) < k < s.len() ==> s[k] != c,
    decreases s.len(),
{
    if s.len() > 0 {
        let front = s.drop_last();
        lemma_last_index_of(front, c);
        if s.last() == c {
            assert(s[s.len() - 1] == c);
        } else {
            assert forall|k: int| last_index_of(s, c) < k < s.len() implies s[k] != c by {
                if k < front.len() {
                    assert(front[k] == s[k]);
                }
            }
            if contains_char(s, c) {
                let i = choose|i: int| 0 <= i < s.len() && s[i] == c;
                assert(front[i] == c);
            }
            if contains_char(front, c) {
                let i = choose|i: int| 0 <= i < front.len() && front[i] == c;
                assert(s[i] == c);
            }
        }
    }
}

/// The last place of `chars` that holds `&`.
fn last_reference_mark(chars: &Vec<char>) -> (at: Option<usize>)
    ensures
        match at {
            Some(q) => q < chars.len() && q == last_index_of(chars@, '&'),
            None => last_index_of(chars@, '&') == -1,
        },
{
    let mut at: Option<usize> = None;
    let mut i: usize = 0;
    while i < chars.len()
        invariant
            i <= chars.len(),
            match at {
                Some(q) => q < i && q == last_index_of(chars@.take(i as int), '&'),
                None => last_index_of(chars@.take(i as int), '&') == -1,
            },
        decreases chars.len() - i,
    {
        proof {
            assert(chars@.take(i + 1).drop_last() == chars@.take(i as int));
        }
        if chars[i] == '&' {
            at = Some(i);
        }
        i += 1;
    }
    proof {
        assert(chars@.take(chars@.len() as int) == chars@);
    }
    at
}

/// Whether all of `chars` is ASCII.
fn is_all_ascii(chars: &Vec<char>) -> (ascii: bool)
    ensures
        ascii == all_ascii(chars@),
{
    let mut i: usize = 0;
    while i < chars.len()
        invariant
            i <= chars.len(),
            forall|k: int| 0 <= k < i ==> #[trigger] chars@[k] <= '\u{7f}',
        decreases chars.len() - i,
    {
        if chars[i] > '\u{7f}' {
            return false;
        }
        i += 1;
    }
    true
}

/// Whether `chars[from..]` holds ASCII letters only.
fn letters_to_the_end(chars: &Vec<char>, from: usize) -> (all: bool)
    requires
        from <= chars.len(),
    ensures
        all == all_letters(chars@.skip(from as int)),
{
    let ghost tail = chars@.skip(from as int);
    let mut i: usize = from;
    while i < chars.len()
        invariant
            from <= i <= chars.len(),
            tail == chars@.skip(from as int),
            forall|k: int| 0 <= k < i - from ==> is_ascii_alpha(#[trigger] tail[k]),
        decreases chars.len() - i,
    {
        let c = chars[i];
        if !(('a' <= c && c <= 'z') || ('A' <= c && c <= 'Z')) {
            proof {
                assert(!is_ascii_alpha(tail[i - from]));
            }
            return false;
        }
        i += 1;
    }
    true
}

/// What `c` counts for as a digit of a numeric reference.
fn reference_digit(c: char, hex: bool) -> (digit: Option<u32>)
    ensures
        digit is Some <==> is_reference_digit(c, hex),
        digit matches Some(d) ==> d == digit_value(c) && d < 16,
{
    if '0' <= c && c <= '9' {
        Some(c as u32 - 48)
    } else if hex && 'a' <= c && c <= 'f' {
        Some(c as u32 - 87)
    } else if hex && 'A' <= c && c <= 'F' {
        Some(c as u32 - 55)
    } else {
        None
    }
}

/// The number that digits spell is not negative.
proof fn lemma_number_value_bounds(s: Seq<char>, hex: bool)
    requires
        all_digits(s, hex),
    ensures
        0 <= number_value(s, hex),
    decreases s.len(),
{
    if s.len() > 0 {
        let front = s.drop_last();
        assert forall|i: int| 0 <= i < front.len() implies is_reference_digit(
            #[trigger] front[i],
            hex,
        ) by {
            assert(front[i] == s[i]);
        }
        lemma_number_value_bounds(front, hex);
        assert(is_reference_digit(s[s.len() - 1], hex));
    }
}

/// Whether `chars[from..]` holds only the digits of a character's number.
fn spells_a_character(chars: &Vec<char>, from: usize, hex: bool) -> (all: bool)
    requires
        from <= chars.len(),
    ensures
        all == (all_digits(chars@.skip(from as int), hex) && is_scalar_value(
            number_value(chars@.skip(from as int), hex),
        )),
{
    let ghost tail = chars@.skip(from as int);
    let mut value: u32 = 0;
    let mut i: usize = from;
    while i < chars.len()
        invariant
            from <= i <= chars.len(),
            tail == chars@.skip(from as int),
            all_digits(tail.take(i - from), hex),
            value <= 0x110000,
            value < 0x110000 ==> value == number_value(tail.take(i - from), hex),
            value == 0x110000 ==> number_value(tail.take(i - from), hex) >= 0x110000,
        decreases chars.len() - i,
    {
        let ghost seen = tail.take(i - from);
        let ghost next = tail.take(i - from + 1);
        proof {
            assert(next.drop_last() == seen);
            assert(next.last() == chars@[i as int]);
            lemma_number_value_bounds(seen, hex);
        }
        match reference_digit(chars[i], hex) {
            None => {
                proof {
                    assert(!is_reference_digit(tail[i - from], hex));
                }
                return false;
            },
            Some(d) => {
                proof {
                    assert forall|k: int| 0 <= k < next.len() implies is_reference_digit(
                        #[trigger] next[k],
                        hex,
                    ) by {
                        if k < seen.len() {
                            assert(next[k] == seen[k]);
                        }
                    }
                }
                if value < 0x110000 {
                    let wider: u32 = if hex {
                        16 * value + d
                    } else {
                        10 * value + d
                    };
                    value = if wider < 0x110000 {
                        wider
                    } else {
                        0x110000
                    };
                }
            },
        }
        i += 1;
    }
    proof {
        assert(tail.take(tail.len() as int) == tail);
    }
    value < 0xD800 || (0xE000 <= value && value <= 0x10FFFF)
}

/// Whether a character reference runs out in `chars[from..]`.
fn tail_runs_out(chars: &Vec<char>, from: usize) -> (out: bool)
    requires
        from <= chars.len(),
    ensures
        out == reference_runs_out(chars@.skip(from as int)),
{
    let ghost tail = chars@.skip(from as int);
    if chars.len() - from < 2 {
        return false;
    }
    proof {
        assert(tail[0] == chars@[from as int]);
        assert(tail[1] == chars@[from + 1]);
        assert(tail.skip(1) == chars@.skip(from + 1));
        assert(tail.skip(2) == chars@.skip(from + 2));
    }
    let first = chars[from];
    let second = chars[from + 1];
    if first != '#' {
        letters_to_the_end(chars, from)
    } else if '0' <= second && second <= '9' {
        spells_a_character(chars, from + 1, false)
    } else if (second == 'x' || second == 'X') && chars.len() - from >= 3 {
        spells_a_character(chars, from + 2, true)
    } else {
        false
    }
}

/// Whether the character references of `chars` can be decoded in one go.
fn can_decode_entities(chars: &Vec<char>) -> (ok: bool)
    ensures
        ok == entity_decodable(chars@),
{
    proof {
        lemma_last_index_of(chars@, '&');
    }
    match last_reference_mark(chars) {
        None => true,
        Some(q) => is_all_ascii(chars) && !tail_runs_out(chars, q + 1),
    }
}

/// A text that ends with its last `&` can be decoded.
proof fn lemma_cut_is_decodable(p: Seq<char>)
    requires
        all_ascii(p),
        contains_char(p, '&'),
    ensures
        entity_decodable(p.take(last_index_of(p, '&') + 1)),
{
    lemma_last_index_of(p, '&');
    let cut = last_index_of(p, '&') + 1;
    let head = p.take(cut);
    assert(head.last() == '&');
    assert(last_index_of(head, '&') == cut - 1);
    assert(head.skip(cut).len() == 0);
    assert forall|i: int| 0 <= i < head.len() implies #[trigger] head[i] <= '\u{7f}' by {
        assert(head[i] == p[i]);
    }
}

/// The ASCII text `piece` with its character references decoded.
fn decode_ascii(piece: &str) -> (decoded: String)
    requires
        all_ascii(piece@),
    ensures
        decoded@ == ascii_decoded(piece@),
{
    let chars = to_chars(piece);
    proof {
        lemma_last_index_of(chars@, '&');
    }
    match last_reference_mark(&chars) {
        None => unescape_entities(piece),
        Some(q) => {
            if !tail_runs_out(&chars, q + 1) {
                unescape_entities(piece)
            } else {
                let head = slice_to_string(&chars, 0, q + 1);
                proof {
                    lemma_cut_is_decodable(chars@);
                    assert(chars@.subrange(0, q + 1) == chars@.take(q + 1));
                    assert(chars@.subrange(q + 1, chars@.len() as int) == chars@.skip(q + 1));
                }
                let mut decoded = unescape_entities(head.as_str());
                push_chars(&mut decoded, &chars, q + 1, chars.len());
                decoded
            }
        },
    }
}

/// Where the run of ASCII characters that begins at `from` ends.
fn ascii_run(chars: &Vec<char>, from: usize) -> (end: usize)
    requires
        from < chars.len(),
        chars@[from as int] <= '\u{7f}',
    ensures
        from < end <= chars.len(),
        end == ascii_run_end(chars@, from as int),
        all_ascii(chars@.subrange(from as int, end as int)),
{
    let mut end: usize = from + 1;
    while end < chars.len() && chars[end] <= '\u{7f}'
        invariant
            from < end <= chars.len(),
            ascii_run_end(chars@, from as int) == ascii_run_end(chars@, end as int),
            forall|k: int| from <= k < end ==> #[trigger] chars@[k] <= '\u{7f}',
        decreases chars.len() - end,
    {
        end += 1;
    }
    end
}

/// `text` with its character references decoded.
///
/// A text that the decoder reads in one go is handed to it whole. Any other
/// is decoded run by run: each run of ASCII characters up to its last `&`,
/// with what stands behind an unfinished reference left as it is.
pub fn decode_references(text: &str) -> (decoded: String)
    ensures
        decoded@ == reference_decoded(text@),
{
    let chars = to_chars(text);
    if can_decode_entities(&chars) {
        return unescape_entities(text);
    }
    let mut decoded = String::new();
    let mut i: usize = 0;
    while i < chars.len()
        invariant
            i <= chars.len(),
            decoded@ + pieces_decoded(chars@, i as int) == pieces_decoded(chars@, 0),
        decreases chars.len() - i,
    {
        let ghost before = decoded@;
        if chars[i] > '\u{7f}' {
            decoded.push(chars[i]);
            proof {
                assert(decoded@ + pieces_decoded(chars@, i + 1) == before + pieces_decoded(
                    chars@,
                    i as int,
                ));
            }
            i += 1;
        } else {
            let end = ascii_run(&chars, i);
            let piece = slice_to_string(&chars, i, end);
            let plain = decode_ascii(piece.as_str());
            let plain_chars = to_chars(plain.as_str());
            push_chars(&mut decoded, &plain_chars, 0, plain_chars.len());
            proof {
                assert(plain_chars@.subrange(0, plain_chars@.len() as int) == plain_chars@);
                assert(decoded@ + pieces_decoded(chars@, end as int) == before + pieces_decoded(
                    chars@,
                    i as int,
                ));
            }
            i = end;
        }
    }
    decoded
}

/// The characters of `chars` that are no control characters.
fn strip_controls(chars: &Vec<char>) -> (kept: Vec<char>)
    ensures
        kept@ == without_controls(chars@),
{
    let mut kept: Vec<char> = Vec::new();
    let mut i: usize = 0;
    while i < chars.len()
        invariant
            i <= chars.len(),
            kept@ == without_controls(chars@.take(i as int)),
        decreases chars.len() - i,
    {
        let c = chars[i];
        proof {
            let next = chars@.take(i as int + 1);
            assert(next.drop_last() == chars@.take(i as int));
            assert(next.last() == c);
        }
        if !char_is_control(c) {
            kept.push(c);
        }
        i += 1;
    }
    proof {
        assert(chars@.take(chars@.len() as int) == chars@);
    }
    kept
}

/// The bounds of `chars` without the white space at its two ends.
fn trim_bounds(chars: &Vec<char>) -> (bounds: (usize, usize))
    ensures
        bounds.0 <= bounds.1 <= chars.len(),
        chars@.subrange(bounds.0 as int, bounds.1 as int) == trimmed(chars@),
{
    let mut start: usize = 0;
    while start < chars.len() && char_is_whitespace(chars[start])
        invariant
            start <= chars.len(),
            trim_start(chars@, start as int) == trim_start(chars@, 0),
        decreases chars.len() - start,
    {
        start += 1;
    }
    let mut end: usize = chars.len();
    while end > start && char_is_whitespace(chars[end - 1])
        invariant
            start <= end <= chars.len(),
            trim_end(chars@, start as int, end as int) == trim_end(
                chars@,
                start as int,
                chars@.len() as int,
            ),
        decreases end - start,
    {
        end -= 1;
    }
    (start, end)
}

/// The scheme of `s`, in lower case, if `s` begins with one.
///
/// ASCII white space and controls may stand between the scheme and its `:`.
pub fn parse_scheme(s: &str) -> (scheme: Option<String>)
    ensures
        scheme matches Some(name) ==> scheme_of(s@) == Some(name@),
        scheme is None ==> scheme_of(s@) is None,
{
    let chars = to_chars(s);
    match scheme_bounds(&chars, 0, chars.len()) {
        Some(end) => {
            let name = lowered_string(&chars, 0, end);
            assert(chars@.subrange(0, chars@.len() as int) == chars@);
            Some(name)
        },
        None => {
            assert(chars@.subrange(0, chars@.len() as int) == chars@);
            None
        },
    }
}

/// Where the scheme of `chars[from..to]` ends, counted from `from`, if that
/// text begins with one.
fn scheme_bounds(chars: &Vec<char>, from: usize, to: usize) -> (end: Option<usize>)
    requires
        from <= to <= chars.len(),
    ensures
        ({
            let s = chars@.subrange(from as int, to as int);
            match end {
                Some(e) => from + e <= to && scheme_of(s) == Some(
                    ascii_lowered(s.subrange(0, e as int)),
                ),
                None => scheme_of(s) is None,
            }
        }),
{
    let ghost s = chars@.subrange(from as int, to as int);
    let len = to - from;
    // the first colon, and whether a path mark stands before it
    let mut colon: usize = 0;
    let mut marked = false;
    while colon < len && chars[from + colon] != ':'
        invariant
            from <= to <= chars.len(),
            len == to - from,
            colon <= len,
            s == chars@.subrange(from as int, to as int),
            index_of(s, ':', colon as int) == index_of(s, ':', 0),
            marked == exists|i: int| 0 <= i < colon && is_path_mark(#[trigger] s[i]),
        decreases len - colon,
    {
        let c = chars[from + colon];
        proof {
            assert(s[colon as int] == c);
            if exists|i: int| 0 <= i < colon && is_path_mark(#[trigger] s[i]) {
                let i = choose|i: int| 0 <= i < colon && is_path_mark(#[trigger] s[i]);
                assert(0 <= i < colon + 1 && is_path_mark(s[i]));
            }
            if is_path_mark(c) {
                assert(0 <= colon < colon + 1 && is_path_mark(s[colon as int]));
            }
            if !is_path_mark(c) && exists|i: int|
                0 <= i < colon + 1 && is_path_mark(#[trigger] s[i]) {
                let i = choose|i: int| 0 <= i < colon + 1 && is_path_mark(#[trigger] s[i]);
                assert(i < colon);
            }
        }
        if c == '/' || c == '?' || c == '#' {
            marked = true;
        }
        colon += 1;
    }
    if colon >= len {
        return None;
    }
    assert(s[colon as int] == ':');
    assert(index_of(s, ':', 0) == colon);
    if marked || colon == 0 {
        return None;
    }
    let first = chars[from];
    assert(s[0] == first);
    if !(('a' <= first && first <= 'z') || ('A' <= first && first <= 'Z')) {
        return None;
    }
    let mut end: usize = 1;
    while end < colon && char_is_scheme_char(chars[from + end])
        invariant
            from <= to <= chars.len(),
            len == to - from,
            1 <= end <= colon < len,
            s == chars@.subrange(from as int, to as int),
            scheme_run_end(s, end as int, colon as int) == scheme_run_end(s, 1, colon as int),
        decreases colon - end,
    {
        assert(s[end as int] == chars[from + end]);
        end += 1;
    }
    proof {
        if end < colon {
            assert(s[end as int] == chars[from + end]);
        }
        assert(scheme_run_end(s, 1, colon as int) == end);
    }
    let mut gap: usize = end;
    while gap < colon
        invariant
            from <= to <= chars.len(),
            len == to - from,
            end <= gap <= colon < len,
            s == chars@.subrange(from as int, to as int),
            index_of(s, ':', 0) == colon,
            !(exists|i: int| 0 <= i < colon && is_path_mark(#[trigger] s[i])),
            is_ascii_alpha(s[0]),
            scheme_run_end(s, 1, colon as int) == end,
            forall|i: int| end <= i < gap ==> is_ascii_gap(#[trigger] s[i]),
        decreases colon - gap,
    {
        let c = chars[from + gap];
        assert(s[gap as int] == c);
        if !(c <= ' ' || c == '\u{7f}') {
            assert(!is_ascii_gap(s[gap as int]));
            return None;
        }
        gap += 1;
    }
    Some(end)
}

/// A string holding `chars[from..to]` in ASCII lower case.
fn lowered_string(chars: &Vec<char>, from: usize, to: usize) -> (s: String)
    requires
        from <= to <= chars.len(),
    ensures
        s@ == ascii_lowered(chars@.subrange(from as int, to as int)),
{
    let mut s = String::new();
    let mut i: usize = from;
    while i < to
        invariant
            from <= i <= to <= chars.len(),
            s@ == ascii_lowered(chars@.subrange(from as int, i as int)),
        decreases to - i,
    {
        s.push(char_ascii_lower(chars[i]));
        i += 1;
    }
    s
}

/// Whether links with this scheme are let through: `http`, `https`, `mailto`
/// and `tel` are.
pub fn is_allowed_scheme(scheme: &str) -> (allowed: bool)
    ensures
        allowed == is_allowed_scheme_name(scheme@),
{
    str_eq(scheme, "http") || str_eq(scheme, "https") || str_eq(scheme, "mailto") || str_eq(
        scheme,
        "tel",
    )
}

/// Whether a URL that has been decoded already may be written.
///
/// Control characters and outer white space are dropped first. What is left
/// must not be empty, and its scheme, if it has one, must be allowed.
pub fn is_decoded_url_safe(text: &str) -> (safe: bool)
    ensures
        safe == decoded_url_is_safe(text@),
{
    let chars = to_chars(text);
    let kept = strip_controls(&chars);
    let (start, end) = trim_bounds(&kept);
    if start == end {
        return false;
    }
    match scheme_bounds(&kept, start, end) {
        None => true,
        Some(scheme_end) => {
            let scheme = lowered_string(&kept, start, start + scheme_end);
            proof {
                let t = kept@.subrange(start as int, end as int);
                assert(t.subrange(0, scheme_end as int) == kept@.subrange(
                    start as int,
                    start + scheme_end,
                ));
            }
            is_allowed_scheme(scheme.as_str())
        },
    }
}

/// Whether `url` may be written into a URL attribute.
///
/// What passes must still be escaped before it is written.
pub fn is_url_safe(url: &str) -> (safe: bool)
    ensures
        safe == url_is_safe(url@),
{
    if url.is_empty() {
        return false;
    }
    let once = match percent_decode(url) {
        Some(text) => text,
        None => {
            return false;
        },
    };
    let twice = match percent_decode(once.as_str()) {
        Some(text) => text,
        None => {
            return false;
        },
    };
    let plain = decode_references(twice.as_str());
    is_decoded_url_safe(plain.as_str())
}

/// What `escape_url` writes for `url`.
pub open spec fn url_escaped(url: Seq<char>) -> Seq<char> {
    if url_is_safe(url) {
        html_escaped(url)
    } else {
        BLOCKED_URL_FALLBACK@
    }
}

/// Appends `s` to `output` as the value of a URL attribute: escaped if it is
/// safe, and else replaced by the inert `about:invalid`.
pub fn escape_url(output: &mut Html, s: &str)
    ensures
        final(output)@ == old(output)@ + url_escaped(s@),
{
    if !is_url_safe(s) {
        output.push_str(BLOCKED_URL_FALLBACK);
    } else {
        escape_html(output, s);
    }
}

/// Bytes without `%` are their own percent-decoding.
proof fn lemma_percent_free_bytes(b: Seq<u8>)
    requires
        forall|i: int| 0 <= i < b.len() ==> #[trigger] b[i] != 37,
    ensures
        percent_decoded_bytes(b) == b,
    decreases b.len(),
{
    if b.len() > 0 {
        let rest = b.skip(1);
        assert forall|i: int| 0 <= i < rest.len() implies #[trigger] rest[i] != 37 by {
            assert(rest[i] == b[i + 1]);
        }
        lemma_percent_free_bytes(rest);
        assert(b[0] != 37);
        assert(seq![b[0]] + rest =~= b);
    }
}

/// An ASCII URL that holds neither `%` nor `&` is judged as it stands:
/// there is nothing in it to decode.
pub proof fn lemma_plain_url_is_judged_as_it_stands(url: Seq<char>)
    requires
        is_ascii_chars(url),
        !contains_char(url, '%'),
        !contains_char(url, '&'),
    ensures
        percent_decoded(url) == Some(url),
        reference_decoded(url) == url,
        url_is_safe(url) == (url.len() > 0 && decoded_url_is_safe(url)),
{
    is_ascii_chars_encode_utf8(url);
    let bytes = encode_utf8(url);
    assert forall|i: int| 0 <= i < bytes.len() implies #[trigger] bytes[i] != 37 by {
        assert(url[i] as u8 == bytes[i]);
        assert(url[i] != '%');
        assert(url[i] <= '\u{7f}');
    }
    lemma_percent_free_bytes(bytes);
    encode_utf8_valid_utf8(url);
    encode_utf8_decode_utf8(url);
    assert(percent_decoded(url) == Some(url));
    assert(reference_decoded(url) == url);
}

/// Percent-encoding a URL, in one layer or in two, does not change how it is
/// judged: where `plain` holds nothing that percent-decoding would change,
/// a text that decodes to `plain` in one step or in two is let through
/// exactly if `plain` is.
pub proof fn lemma_percent_layers_keep_the_verdict(encoded: Seq<char>, plain: Seq<char>)
    requires
        encoded.len() > 0,
        plain.len() > 0,
        percent_decoded(plain) == Some(plain),
        percent_decoded(encoded) == Some(plain) || (percent_decoded(encoded) matches Some(once)
            && percent_decoded(once) == Some(plain)),
    ensures
        url_is_safe(encoded) == url_is_safe(plain),
        url_is_safe(plain) == decoded_url_is_safe(reference_decoded(plain)),
{
}

} // verus!
