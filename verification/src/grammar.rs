//! What the text of a response means, and what text a tree is written as.
//!
//! A text is read with a cursor. The cursor shows the character at its
//! position; once it has passed the last character it keeps showing that
//! last one.

use vstd::prelude::*;
use crate::es_json::JsonValue;

verus! {

/// Space, tab, line feed and carriage return.
pub open spec fn is_space(c: char) -> bool {
    c == ' ' || c == '\t' || c == '\n' || c == '\r'
}

/// The characters that end a number, a boolean or a null.
pub open spec fn is_stop(c: char) -> bool {
    is_space(c) || c == ',' || c == ']' || c == '}'
}

/// A text is short enough for the positions of a cursor to be counted:
/// a cursor gets no further than twice the length of its text.
pub open spec fn fits(s: Seq<char>) -> bool {
    2 * s.len() + 16 <= usize::MAX
}

/// The character that a cursor at `p` shows: past the end of the text, the
/// last character.
pub open spec fn shown(s: Seq<char>, p: int) -> char {
    if 0 <= p < s.len() {
        s[p]
    } else {
        s[s.len() - 1]
    }
}

/// How many characters stand at and after `p`.
pub open spec fn room(s: Seq<char>, p: int) -> int {
    if 0 <= p < s.len() {
        s.len() - p
    } else {
        0
    }
}

/// Where a cursor at `p` stands after passing over spaces. It stops at the
/// first character that is no space; where it finds none, it stops one step
/// after the last position at which it stood.
pub open spec fn after_space(s: Seq<char>, p: int) -> int
    decreases room(s, p),
{
    if !is_space(shown(s, p)) {
        p
    } else if 0 <= p && p + 1 < s.len() {
        after_space(s, p + 1)
    } else {
        p + 1
    }
}

/// How many times `c` stands in a row immediately before position `p`.
pub open spec fn run_before(s: Seq<char>, p: int, c: char) -> nat
    decreases p,
{
    if 0 < p <= s.len() && s[p - 1] == c {
        1 + run_before(s, p - 1, c)
    } else {
        0
    }
}

/// Whether the character at `q` is a quote that ends a string: one with an
/// even number of backslashes right before it.
pub open spec fn closes_string(s: Seq<char>, q: int) -> bool {
    s[q] == '"' && run_before(s, q, '\\') % 2 == 0
}

/// The position after the first closing quote at or after `q`; `q` itself
/// where it lies past the end, and the end where there is no such quote.
pub open spec fn closing(s: Seq<char>, q: int) -> int
    decreases room(s, q),
{
    if q < 0 || q >= s.len() {
        q
    } else if closes_string(s, q) {
        q + 1
    } else {
        closing(s, q + 1)
    }
}

/// Where the string that opens at `p` ends.
pub open spec fn string_end(s: Seq<char>, p: int) -> int {
    closing(s, p + 1)
}

/// The string that opens at `p`, with its quotes.
pub open spec fn string_text(s: Seq<char>, p: int) -> Seq<char> {
    if 0 <= p < s.len() {
        s.subrange(p, string_end(s, p))
    } else {
        seq![shown(s, p)]
    }
}

/// Where the bare literal at `p` ends: at the first stop character, or
/// one step after the last position where there is none.
pub open spec fn literal_end(s: Seq<char>, p: int) -> int
    decreases room(s, p),
{
    if is_stop(shown(s, p)) {
        p
    } else if 0 <= p && p + 1 < s.len() {
        literal_end(s, p + 1)
    } else {
        p + 1
    }
}

/// The bare literal at `p`: the characters up to the next stop character.
pub open spec fn literal_text(s: Seq<char>, p: int) -> Seq<char> {
    if is_stop(shown(s, p)) {
        Seq::empty()
    } else if 0 <= p < s.len() {
        s.subrange(p, literal_end(s, p))
    } else {
        seq![shown(s, p)]
    }
}

/// The value that starts at the first character at or after `p` that is
/// no space, and the position after it. A quote opens a string, a brace an
/// object, a bracket an array; anything else is a bare literal. Where only
/// spaces follow there is no value.
pub open spec fn value_at(s: Seq<char>, p: int) -> Option<(JsonValue, int)>
    decreases room(s, p), 0nat,
{
    let q = after_space(s, p);
    let c = shown(s, q);
    if p < 0 || q < p || is_space(c) {
        None
    } else if c == '"' {
        Some((JsonValue::Literal(string_text(s, q)), string_end(s, q)))
    } else if c == '{' {
        if q < s.len() {
            match members_at(s, q + 1) {
                Some((members, end)) => Some((JsonValue::Object(members), end)),
                None => None,
            }
        } else {
            None
        }
    } else if c == '[' {
        if q < s.len() {
            match items_at(s, q + 1) {
                Some((items, end)) => Some((JsonValue::Array(items), end)),
                None => None,
            }
        } else {
            None
        }
    } else {
        Some((JsonValue::Literal(literal_text(s, q)), literal_end(s, q)))
    }
}

/// The elements of an array from `p` on, `p` lying after the opening
/// bracket or after an element, and the position after the closing bracket.
/// Spaces and commas between the elements are passed over. The cursor must
/// come to show a closing bracket, and every element must take up room.
pub open spec fn items_at(s: Seq<char>, p: int) -> Option<(Seq<JsonValue>, int)>
    decreases room(s, p), 2nat,
{
    let q = after_space(s, p);
    if p < 0 || q < p {
        None
    } else if shown(s, q) == ']' {
        Some((Seq::empty(), q + 1))
    } else if q >= s.len() {
        None
    } else if s[q] == ',' {
        items_at(s, q + 1)
    } else {
        match value_at(s, q) {
            Some((item, end)) => if q < end {
                match items_at(s, end) {
                    Some((rest, last)) => Some((seq![item] + rest, last)),
                    None => None,
                }
            } else {
                None
            },
            None => None,
        }
    }
}

/// The member that starts at `p` and the position after it: spaces, a key
/// in quotes, spaces, a colon, spaces and a value.
pub open spec fn pair_at(s: Seq<char>, p: int) -> Option<((Seq<char>, JsonValue), int)>
    decreases room(s, p), 1nat,
{
    let q = after_space(s, p);
    let colon = after_space(s, string_end(s, q));
    let start = after_space(s, colon + 1);
    if p < 0 || shown(s, q) != '"' || shown(s, colon) != ':' || start < p {
        None
    } else {
        match value_at(s, start) {
            Some((value, end)) => Some(((string_text(s, q), value), end)),
            None => None,
        }
    }
}

/// The members of an object from `p` on, `p` lying after the opening brace
/// or after a member, and the position after the closing brace.
pub open spec fn members_at(s: Seq<char>, p: int) -> Option<(Seq<(Seq<char>, JsonValue)>, int)>
    decreases room(s, p), 2nat,
{
    let q = after_space(s, p);
    if p < 0 || q < p {
        None
    } else if shown(s, q) == '}' {
        Some((Seq::empty(), q + 1))
    } else if q >= s.len() {
        None
    } else if s[q] == ',' {
        members_at(s, q + 1)
    } else {
        match pair_at(s, q) {
            Some((member, end)) => if q < end {
                match members_at(s, end) {
                    Some((rest, last)) => Some((seq![member] + rest, last)),
                    None => None,
                }
            } else {
                None
            },
            None => None,
        }
    }
}

/// The value that a text is read as: the first value in it. What follows
/// the value is not looked at. An empty text, a text of spaces only and a
/// text too long for its positions to be counted are not read.
pub open spec fn parsed(s: Seq<char>) -> Option<JsonValue> {
    if s.len() == 0 || !fits(s) {
        None
    } else {
        match value_at(s, 0) {
            Some((value, _)) => Some(value),
            None => None,
        }
    }
}

/// The text of a value: a literal as it is, an array in brackets and an
/// object in braces, with commas between the parts, a colon between key
/// and value, and no spaces.
pub open spec fn text_of(value: JsonValue) -> Seq<char>
    decreases value, 0nat,
{
    match value {
        JsonValue::Literal(text) => text,
        JsonValue::Array(items) => seq!['['] + items_text(items, 0) + seq![']'],
        JsonValue::Object(members) => seq!['{'] + members_text(members, 0) + seq!['}'],
    }
}

/// The text of the elements from index `i` on, each but the very first
/// after a comma.
pub open spec fn items_text(items: Seq<JsonValue>, i: int) -> Seq<char>
    decreases items, items.len() - i,
{
    if i < 0 || i >= items.len() {
        Seq::empty()
    } else {
        comma_before(i) + text_of(items[i]) + items_text(items, i + 1)
    }
}

/// The text of the members from index `i` on, each but the very first
/// after a comma.
pub open spec fn members_text(members: Seq<(Seq<char>, JsonValue)>, i: int) -> Seq<char>
    decreases members, members.len() - i,
{
    if i < 0 || i >= members.len() {
        Seq::empty()
    } else {
        comma_before(i) + members[i].0 + seq![':'] + text_of(members[i].1) + members_text(
            members,
            i + 1,
        )
    }
}

/// A comma before every part but the first.
pub open spec fn comma_before(i: int) -> Seq<char> {
    if i > 0 {
        seq![',']
    } else {
        Seq::empty()
    }
}

/// A cursor that passes over spaces does not go back, and it goes past
/// the end of the text by one step at most.
pub proof fn lemma_after_space_bounds(s: Seq<char>, p: int)
    requires
        0 <= p,
    ensures
        p <= after_space(s, p),
        p < s.len() ==> after_space(s, p) <= s.len(),
        p >= s.len() ==> after_space(s, p) <= p + 1,
        after_space(s, p) < s.len() ==> !is_space(s[after_space(s, p)]),
    decreases room(s, p),
{
    if is_space(shown(s, p)) && p + 1 < s.len() {
        lemma_after_space_bounds(s, p + 1);
    }
}

} // verus!
