//! Writing a tree and reading the text back gives the tree again.

use vstd::prelude::*;
use crate::es_json::JsonValue;
use crate::grammar::{
    after_space,
    closes_string,
    closing,
    comma_before,
    fits,
    is_space,
    is_stop,
    items_at,
    items_text,
    lemma_after_space_bounds,
    literal_end,
    literal_text,
    members_at,
    members_text,
    pair_at,
    parsed,
    run_before,
    shown,
    string_end,
    string_text,
    text_of,
    value_at,
};

verus! {

/// A number, a boolean or a null as a server writes it: at least one
/// character, none of them a space, a comma or a closing bracket or brace,
/// and the first of them no quote and no opening bracket or brace.
pub open spec fn bare(t: Seq<char>) -> bool {
    &&& t.len() > 0
    &&& t[0] != '"'
    &&& t[0] != '{'
    &&& t[0] != '['
    &&& forall|i: int| 0 <= i < t.len() ==> !is_stop(#[trigger] t[i])
}

/// A string as a server writes it: it opens with a quote, and its last
/// character is the first quote after that with an even number of
/// backslashes before it.
pub open spec fn proper_string(t: Seq<char>) -> bool {
    &&& t.len() >= 2
    &&& t[0] == '"'
    &&& closes_string(t, t.len() - 1)
    &&& forall|q: int| 1 <= q < t.len() - 1 ==> !#[trigger] closes_string(t, q)
}

/// A tree that a well-formed response is read into: every literal is a
/// proper string or a bare literal, and every key is a proper string.
pub open spec fn printable(value: JsonValue) -> bool
    decreases value,
{
    match value {
        JsonValue::Literal(t) => bare(t) || proper_string(t),
        JsonValue::Array(items) => forall|i: int|
            0 <= i < items.len() ==> printable(#[trigger] items[i]),
        JsonValue::Object(members) => forall|i: int|
            0 <= i < members.len() ==> proper_string((#[trigger] members[i]).0) && printable(
                members[i].1,
            ),
    }
}

/// The text `t` stands in `s` at position `p`.
pub open spec fn occurs(s: Seq<char>, p: int, t: Seq<char>) -> bool {
    &&& 0 <= p
    &&& p + t.len() <= s.len()
    &&& forall|i: int| 0 <= i < t.len() ==> s[p + i] == #[trigger] t[i]
}

/// The text ends at `e`, or a stop character stands there.
pub open spec fn followed(s: Seq<char>, e: int) -> bool {
    e >= s.len() || is_stop(s[e])
}

proof fn lemma_occurs_split(s: Seq<char>, p: int, a: Seq<char>, b: Seq<char>)
    requires
        occurs(s, p, a + b),
    ensures
        occurs(s, p, a),
        occurs(s, p + a.len(), b),
{
    assert forall|i: int| 0 <= i < a.len() implies s[p + i] == #[trigger] a[i] by {
        assert((a + b)[i] == a[i]);
    }
    assert forall|i: int| 0 <= i < b.len() implies s[p + a.len() + i] == #[trigger] b[i] by {
        assert((a + b)[a.len() + i] == b[i]);
    }
}

proof fn lemma_occurs_text(s: Seq<char>, p: int, t: Seq<char>)
    requires
        occurs(s, p, t),
    ensures
        s.subrange(p, p + t.len()) == t,
{
    assert(s.subrange(p, p + t.len()) =~= t);
}

proof fn lemma_run_before_same(s: Seq<char>, p: int, t: Seq<char>, q: int, c: char)
    requires
        occurs(s, p, t),
        t.len() >= 1,
        t[0] != c,
        1 <= q <= t.len(),
    ensures
        run_before(s, p + q, c) == run_before(t, q, c),
    decreases q,
{
    assert(s[p + (q - 1)] == t[q - 1]);
    if q > 1 {
        lemma_run_before_same(s, p, t, q - 1, c);
    }
}

proof fn lemma_closing_same(s: Seq<char>, p: int, t: Seq<char>, q: int)
    requires
        occurs(s, p, t),
        proper_string(t),
        1 <= q <= t.len() - 1,
    ensures
        closing(s, p + q) == p + t.len(),
    decreases t.len() - q,
{
    lemma_run_before_same(s, p, t, q, '\\');
    assert(s[p + q] == t[q]);
    assert(closes_string(s, p + q) == closes_string(t, q));
    if q < t.len() - 1 {
        lemma_closing_same(s, p, t, q + 1);
    }
}

/// A proper string that stands in a text is read as it stands.
pub proof fn lemma_string_reads_back(s: Seq<char>, p: int, t: Seq<char>)
    requires
        occurs(s, p, t),
        proper_string(t),
    ensures
        shown(s, p) == '"',
        string_end(s, p) == p + t.len(),
        string_text(s, p) == t,
{
    assert(s[p + 0] == t[0]);
    lemma_closing_same(s, p, t, 1);
    lemma_occurs_text(s, p, t);
}

proof fn lemma_literal_end_same(s: Seq<char>, p: int, t: Seq<char>, i: int)
    requires
        occurs(s, p, t),
        bare(t),
        followed(s, p + t.len()),
        0 <= i < t.len(),
    ensures
        literal_end(s, p + i) == p + t.len(),
    decreases t.len() - i,
{
    assert(s[p + i] == t[i]);
    if i + 1 < t.len() {
        lemma_literal_end_same(s, p, t, i + 1);
    } else if p + i + 1 < s.len() {
        assert(literal_end(s, p + i + 1) == p + i + 1);
    }
}

/// A bare literal that stands in a text before a stop character or at its
/// end is read as it stands.
pub proof fn lemma_literal_reads_back(s: Seq<char>, p: int, t: Seq<char>)
    requires
        occurs(s, p, t),
        bare(t),
        followed(s, p + t.len()),
    ensures
        shown(s, p) == t[0],
        literal_end(s, p) == p + t.len(),
        literal_text(s, p) == t,
{
    assert(s[p + 0] == t[0]);
    lemma_literal_end_same(s, p, t, 0);
    lemma_occurs_text(s, p, t);
}

/// Only spaces, tabs and line ends.
pub open spec fn blank(gap: Seq<char>) -> bool {
    forall|i: int| 0 <= i < gap.len() ==> is_space(#[trigger] gap[i])
}

/// Every gap that `gaps` names is blank.
pub open spec fn all_blank(gaps: spec_fn(Seq<int>) -> Seq<char>) -> bool {
    forall|at: Seq<int>| blank(#[trigger] gaps(at))
}

/// The gaps of a text without spaces.
pub open spec fn no_gaps() -> spec_fn(Seq<int>) -> Seq<char> {
    |at: Seq<int>| Seq::<char>::empty()
}

/// What stands before the part at the place `at` of an array or an
/// object: a gap, and before every part but the first a comma and another
/// gap.
pub open spec fn lead(i: int, gaps: spec_fn(Seq<int>) -> Seq<char>, at: Seq<int>) -> Seq<char> {
    if i > 0 {
        gaps(at.push(0)) + seq![','] + gaps(at.push(1))
    } else {
        gaps(at.push(0))
    }
}

/// The text of a value with room between its tokens. `gaps` gives the
/// spaces of every gap, each gap being named by the way to it: the
/// positions of the parts from the outermost value inwards, then the
/// number of the gap. The gaps of a part are the one before it, the one
/// after its comma, and for a member the ones before and after its colon;
/// the gap before a closing bracket or brace has the number -1.
pub open spec fn laid_out(
    value: JsonValue,
    gaps: spec_fn(Seq<int>) -> Seq<char>,
    at: Seq<int>,
) -> Seq<char>
    decreases value, 0nat,
{
    match value {
        JsonValue::Literal(text) => text,
        JsonValue::Array(items) => seq!['['] + (items_laid(items, 0, gaps, at) + (gaps(
            at.push(-1),
        ) + seq![']'])),
        JsonValue::Object(members) => seq!['{'] + (members_laid(members, 0, gaps, at) + (gaps(
            at.push(-1),
        ) + seq!['}'])),
    }
}

/// The elements from index `i` on, laid out.
pub open spec fn items_laid(
    items: Seq<JsonValue>,
    i: int,
    gaps: spec_fn(Seq<int>) -> Seq<char>,
    at: Seq<int>,
) -> Seq<char>
    decreases items, items.len() - i,
{
    if i < 0 || i >= items.len() {
        Seq::empty()
    } else {
        lead(i, gaps, at.push(i)) + (laid_out(items[i], gaps, at.push(i)) + items_laid(
            items,
            i + 1,
            gaps,
            at,
        ))
    }
}

/// The members from index `i` on, laid out.
pub open spec fn members_laid(
    members: Seq<(Seq<char>, JsonValue)>,
    i: int,
    gaps: spec_fn(Seq<int>) -> Seq<char>,
    at: Seq<int>,
) -> Seq<char>
    decreases members, members.len() - i,
{
    if i < 0 || i >= members.len() {
        Seq::empty()
    } else {
        lead(i, gaps, at.push(i)) + (members[i].0 + (gaps(at.push(i).push(2)) + (seq![':'] + (gaps(
            at.push(i).push(3),
        ) + (laid_out(members[i].1, gaps, at.push(i)) + members_laid(
            members,
            i + 1,
            gaps,
            at,
        ))))))
    }
}

/// The text of a printable tree starts with a character that is no space,
/// no comma and no closing bracket or brace, however it is laid out.
pub proof fn lemma_text_head(value: JsonValue, gaps: spec_fn(Seq<int>) -> Seq<char>, at: Seq<int>)
    requires
        printable(value),
    ensures
        laid_out(value, gaps, at).len() >= 1,
        !is_stop(laid_out(value, gaps, at)[0]),
{
    match value {
        JsonValue::Literal(t) => {},
        JsonValue::Array(items) => {
            assert(laid_out(value, gaps, at)[0] == '[');
        },
        JsonValue::Object(members) => {
            assert(laid_out(value, gaps, at)[0] == '{');
        },
    }
}

proof fn lemma_skip_nothing(s: Seq<char>, p: int)
    requires
        0 <= p < s.len(),
        !is_space(s[p]),
    ensures
        after_space(s, p) == p,
{
}

proof fn lemma_skip_gap(s: Seq<char>, p: int, gap: Seq<char>)
    requires
        occurs(s, p, gap),
        blank(gap),
        p + gap.len() < s.len(),
        !is_space(s[p + gap.len()]),
    ensures
        after_space(s, p) == p + gap.len(),
    decreases gap.len(),
{
    if gap.len() > 0 {
        assert(s[p + 0] == gap[0]);
        let rest = gap.subrange(1, gap.len() as int);
        assert forall|i: int| 0 <= i < rest.len() implies s[p + 1 + i] == #[trigger] rest[i] by {
            assert(s[p + (i + 1)] == gap[i + 1]);
        }
        assert forall|i: int| 0 <= i < rest.len() implies is_space(#[trigger] rest[i]) by {
            assert(is_space(gap[i + 1]));
        }
        lemma_skip_gap(s, p + 1, rest);
    }
}

proof fn lemma_at_skip(s: Seq<char>, p: int)
    requires
        0 <= p,
        after_space(s, p) < s.len(),
    ensures
        after_space(s, after_space(s, p)) == after_space(s, p),
        items_at(s, p) == items_at(s, after_space(s, p)),
        members_at(s, p) == members_at(s, after_space(s, p)),
        value_at(s, p) == value_at(s, after_space(s, p)),
{
    lemma_after_space_bounds(s, p);
    let q = after_space(s, p);
    assert(after_space(s, q) == q);
}

/// The gaps and the comma before a part are passed over.
proof fn lemma_pass_lead(
    s: Seq<char>,
    p: int,
    i: int,
    gaps: spec_fn(Seq<int>) -> Seq<char>,
    at: Seq<int>,
)
    requires
        all_blank(gaps),
        occurs(s, p, lead(i, gaps, at)),
        p + lead(i, gaps, at).len() < s.len(),
        !is_stop(s[p + lead(i, gaps, at).len()]),
    ensures
        items_at(s, p) == items_at(s, p + lead(i, gaps, at).len()),
        members_at(s, p) == members_at(s, p + lead(i, gaps, at).len()),
        after_space(s, p + lead(i, gaps, at).len()) == p + lead(i, gaps, at).len(),
{
    let first = gaps(at.push(0));
    let r = p + lead(i, gaps, at).len();
    assert(blank(first));
    if i > 0 {
        let second = gaps(at.push(1));
        assert(blank(second));
        assert(lead(i, gaps, at) =~= first + (seq![','] + second));
        lemma_occurs_split(s, p, first, seq![','] + second);
        let q = p + first.len();
        lemma_occurs_split(s, q, seq![','], second);
        assert(s[q + 0] == seq![','][0]);
        lemma_skip_gap(s, p, first);
        lemma_skip_gap(s, q + 1, second);
        lemma_skip_nothing(s, q);
        lemma_skip_nothing(s, r);
        lemma_at_skip(s, p);
        lemma_at_skip(s, q + 1);
        assert(items_at(s, q) == items_at(s, q + 1));
        assert(members_at(s, q) == members_at(s, q + 1));
    } else {
        lemma_skip_gap(s, p, first);
        lemma_skip_nothing(s, r);
        lemma_at_skip(s, p);
    }
}

proof fn lemma_head_of_rest(rest: Seq<char>, i: int, len: int, gaps: spec_fn(Seq<int>) -> Seq<char>,
    at: Seq<int>, close: char, more: Seq<char>)
    requires
        all_blank(gaps),
        1 <= i <= len,
        close == ']' || close == '}',
        i < len ==> rest == lead(i, gaps, at.push(i)) + more,
        i >= len ==> rest == gaps(at.push(-1)) + seq![close],
    ensures
        rest.len() >= 1,
        is_stop(rest[0]),
{
    if i < len {
        let first = gaps(at.push(i).push(0));
        assert(blank(first));
        if first.len() > 0 {
            assert(rest[0] == first[0]);
        } else {
            assert(rest[0] == ',');
        }
    } else {
        let last = gaps(at.push(-1));
        assert(blank(last));
        if last.len() > 0 {
            assert(rest[0] == last[0]);
        } else {
            assert(rest[0] == close);
        }
    }
}

/// The text of a printable tree, laid out with blank gaps and standing in
/// a text before a stop character or at its end, is read as that tree.
pub proof fn lemma_value_reads_back(
    s: Seq<char>,
    p: int,
    value: JsonValue,
    gaps: spec_fn(Seq<int>) -> Seq<char>,
    at: Seq<int>,
)
    requires
        printable(value),
        all_blank(gaps),
        occurs(s, p, laid_out(value, gaps, at)),
        followed(s, p + laid_out(value, gaps, at).len()),
    ensures
        value_at(s, p) == Some((value, p + laid_out(value, gaps, at).len())),
    decreases value, 0nat,
{
    lemma_text_head(value, gaps, at);
    assert(s[p + 0] == laid_out(value, gaps, at)[0]);
    lemma_skip_nothing(s, p);
    match value {
        JsonValue::Literal(t) => {
            if proper_string(t) {
                lemma_string_reads_back(s, p, t);
            } else {
                lemma_literal_reads_back(s, p, t);
            }
        },
        JsonValue::Array(items) => {
            let inner = items_laid(items, 0, gaps, at) + (gaps(at.push(-1)) + seq![']']);
            lemma_occurs_split(s, p, seq!['['], inner);
            assert(s[p + 0] == seq!['['][0]);
            lemma_items_read_back(s, p + 1, items, 0, gaps, at);
            assert(items.skip(0) =~= items);
        },
        JsonValue::Object(members) => {
            let inner = members_laid(members, 0, gaps, at) + (gaps(at.push(-1)) + seq!['}']);
            lemma_occurs_split(s, p, seq!['{'], inner);
            assert(s[p + 0] == seq!['{'][0]);
            lemma_members_read_back(s, p + 1, members, 0, gaps, at);
            assert(members.skip(0) =~= members);
        },
    }
}

/// The elements of a printable array from index `i` on, laid out and
/// standing in a text with the closing bracket after them, are read as
/// those elements.
pub proof fn lemma_items_read_back(
    s: Seq<char>,
    p: int,
    items: Seq<JsonValue>,
    i: int,
    gaps: spec_fn(Seq<int>) -> Seq<char>,
    at: Seq<int>,
)
    requires
        forall|k: int| 0 <= k < items.len() ==> printable(#[trigger] items[k]),
        all_blank(gaps),
        0 <= i <= items.len(),
        occurs(s, p, items_laid(items, i, gaps, at) + (gaps(at.push(-1)) + seq![']'])),
    ensures
        items_at(s, p) == Some(
            (
                items.skip(i),
                p + items_laid(items, i, gaps, at).len() + gaps(at.push(-1)).len() + 1,
            ),
        ),
    decreases items, items.len() - i,
{
    let close = gaps(at.push(-1));
    assert(blank(close));
    if i == items.len() {
        assert(items_laid(items, i, gaps, at) + (close + seq![']']) =~= close + seq![']']);
        lemma_occurs_split(s, p, close, seq![']']);
        let q = p + close.len();
        assert(s[q + 0] == seq![']'][0]);
        lemma_skip_gap(s, p, close);
        assert(items.skip(i) =~= Seq::empty());
    } else {
        let before = lead(i, gaps, at.push(i));
        let item = laid_out(items[i], gaps, at.push(i));
        let tail = items_laid(items, i + 1, gaps, at) + (close + seq![']']);
        assert(items_laid(items, i, gaps, at) + (close + seq![']']) =~= before + (item + tail));
        lemma_occurs_split(s, p, before, item + tail);
        let r = p + before.len();
        lemma_occurs_split(s, r, item, tail);
        lemma_text_head(items[i], gaps, at.push(i));
        assert(s[r + 0] == item[0]);
        let e = r + item.len();
        assert(tail.len() >= 1 && is_stop(tail[0])) by {
            if i + 1 < items.len() {
                let more = laid_out(items[i + 1], gaps, at.push(i + 1)) + (items_laid(
                    items,
                    i + 2,
                    gaps,
                    at,
                ) + (close + seq![']']));
                assert(tail =~= lead(i + 1, gaps, at.push(i + 1)) + more);
                lemma_head_of_rest(tail, i + 1, items.len() as int, gaps, at, ']', more);
            } else {
                assert(tail =~= close + seq![']']);
                lemma_head_of_rest(tail, i + 1, items.len() as int, gaps, at, ']', Seq::empty());
            }
        }
        assert(s[e + 0] == tail[0]);
        lemma_pass_lead(s, p, i, gaps, at.push(i));
        lemma_value_reads_back(s, r, items[i], gaps, at.push(i));
        lemma_items_read_back(s, e, items, i + 1, gaps, at);
        assert(seq![items[i]] + items.skip(i + 1) =~= items.skip(i));
    }
}

/// The members of a printable object from index `i` on, laid out and
/// standing in a text with the closing brace after them, are read as
/// those members.
pub proof fn lemma_members_read_back(
    s: Seq<char>,
    p: int,
    members: Seq<(Seq<char>, JsonValue)>,
    i: int,
    gaps: spec_fn(Seq<int>) -> Seq<char>,
    at: Seq<int>,
)
    requires
        forall|k: int|
            0 <= k < members.len() ==> proper_string((#[trigger] members[k]).0) && printable(
                members[k].1,
            ),
        all_blank(gaps),
        0 <= i <= members.len(),
        occurs(s, p, members_laid(members, i, gaps, at) + (gaps(at.push(-1)) + seq!['}'])),
    ensures
        members_at(s, p) == Some(
            (
                members.skip(i),
                p + members_laid(members, i, gaps, at).len() + gaps(at.push(-1)).len() + 1,
            ),
        ),
    decreases members, members.len() - i,
{
    let close = gaps(at.push(-1));
    assert(blank(close));
    if i == members.len() {
        assert(members_laid(members, i, gaps, at) + (close + seq!['}']) =~= close + seq!['}']);
        lemma_occurs_split(s, p, close, seq!['}']);
        let q = p + close.len();
        assert(s[q + 0] == seq!['}'][0]);
        lemma_skip_gap(s, p, close);
        assert(members.skip(i) =~= Seq::empty());
    } else {
        let here = at.push(i);
        let before = lead(i, gaps, here);
        let key = members[i].0;
        let second = gaps(here.push(2));
        let third = gaps(here.push(3));
        let item = laid_out(members[i].1, gaps, here);
        let tail = members_laid(members, i + 1, gaps, at) + (close + seq!['}']);
        assert(blank(second) && blank(third));
        assert(members_laid(members, i, gaps, at) + (close + seq!['}']) =~= before + (key + (
        second + (seq![':'] + (third + (item + tail))))));
        lemma_occurs_split(s, p, before, key + (second + (seq![':'] + (third + (item + tail)))));
        let r = p + before.len();
        lemma_occurs_split(s, r, key, second + (seq![':'] + (third + (item + tail))));
        let k = r + key.len();
        lemma_occurs_split(s, k, second, seq![':'] + (third + (item + tail)));
        let colon = k + second.len();
        lemma_occurs_split(s, colon, seq![':'], third + (item + tail));
        lemma_occurs_split(s, colon + 1, third, item + tail);
        let start = colon + 1 + third.len();
        lemma_occurs_split(s, start, item, tail);
        lemma_text_head(members[i].1, gaps, here);
        let e = start + item.len();
        assert(s[r + 0] == key[0]);
        assert(s[colon + 0] == seq![':'][0]);
        assert(s[start + 0] == item[0]);
        assert(tail.len() >= 1 && is_stop(tail[0])) by {
            if i + 1 < members.len() {
                let next = at.push(i + 1);
                let more = members[i + 1].0 + (gaps(next.push(2)) + (seq![':'] + (gaps(
                    next.push(3),
                ) + (laid_out(members[i + 1].1, gaps, next) + members_laid(
                    members,
                    i + 2,
                    gaps,
                    at,
                ))))) + (close + seq!['}']);
                assert(tail =~= lead(i + 1, gaps, next) + more);
                lemma_head_of_rest(tail, i + 1, members.len() as int, gaps, at, '}', more);
            } else {
                assert(tail =~= close + seq!['}']);
                lemma_head_of_rest(tail, i + 1, members.len() as int, gaps, at, '}', Seq::empty());
            }
        }
        assert(s[e + 0] == tail[0]);
        lemma_pass_lead(s, p, i, gaps, here);
        lemma_string_reads_back(s, r, key);
        lemma_skip_gap(s, k, second);
        lemma_skip_gap(s, colon + 1, third);
        assert(decreases_to!(members => members[i]));
        assert(decreases_to!(members[i] => members[i].1));
        lemma_value_reads_back(s, start, members[i].1, gaps, here);
        assert(pair_at(s, r) == Some(((key, members[i].1), e)));
        lemma_members_read_back(s, e, members, i + 1, gaps, at);
        assert(seq![members[i]] + members.skip(i + 1) =~= members.skip(i));
    }
}

/// Without gaps, a value is laid out as it is written.
pub proof fn lemma_laid_without_gaps(value: JsonValue, at: Seq<int>)
    ensures
        laid_out(value, no_gaps(), at) == text_of(value),
    decreases value, 0nat,
{
    match value {
        JsonValue::Literal(t) => {},
        JsonValue::Array(items) => {
            lemma_items_without_gaps(items, 0, at);
            assert(laid_out(value, no_gaps(), at) =~= text_of(value));
        },
        JsonValue::Object(members) => {
            lemma_members_without_gaps(members, 0, at);
            assert(laid_out(value, no_gaps(), at) =~= text_of(value));
        },
    }
}

proof fn lemma_items_without_gaps(items: Seq<JsonValue>, i: int, at: Seq<int>)
    requires
        0 <= i <= items.len(),
    ensures
        items_laid(items, i, no_gaps(), at) == items_text(items, i),
    decreases items, items.len() - i,
{
    if i < items.len() {
        lemma_laid_without_gaps(items[i], at.push(i));
        lemma_items_without_gaps(items, i + 1, at);
        assert(lead(i, no_gaps(), at.push(i)) =~= comma_before(i));
        assert(items_laid(items, i, no_gaps(), at) =~= items_text(items, i));
    }
}

proof fn lemma_members_without_gaps(members: Seq<(Seq<char>, JsonValue)>, i: int, at: Seq<int>)
    requires
        0 <= i <= members.len(),
    ensures
        members_laid(members, i, no_gaps(), at) == members_text(members, i),
    decreases members, members.len() - i,
{
    if i < members.len() {
        assert(decreases_to!(members => members[i]));
        assert(decreases_to!(members[i] => members[i].1));
        lemma_laid_without_gaps(members[i].1, at.push(i));
        lemma_members_without_gaps(members, i + 1, at);
        assert(lead(i, no_gaps(), at.push(i)) =~= comma_before(i));
        assert(members_laid(members, i, no_gaps(), at) =~= members_text(members, i));
    }
}

/// Reading a printable tree from any text that lays it out gives the
/// tree again: blank characters may stand before the value, between its
/// tokens and after it.
pub proof fn lemma_read_laid_out(
    value: JsonValue,
    gaps: spec_fn(Seq<int>) -> Seq<char>,
    before: Seq<char>,
    after: Seq<char>,
)
    requires
        printable(value),
        all_blank(gaps),
        blank(before),
        blank(after),
        fits(before + laid_out(value, gaps, Seq::empty()) + after),
    ensures
        parsed(before + laid_out(value, gaps, Seq::empty()) + after) == Some(value),
{
    let laid = laid_out(value, gaps, Seq::empty());
    let s = before + laid + after;
    let p = before.len() as int;
    lemma_text_head(value, gaps, Seq::empty());
    assert forall|i: int| 0 <= i < laid.len() implies s[p + i] == #[trigger] laid[i] by {}
    assert forall|i: int| 0 <= i < before.len() implies s[0 + i] == #[trigger] before[i] by {}
    if p + laid.len() < s.len() {
        assert(s[p + laid.len()] == after[0]);
    }
    lemma_value_reads_back(s, p, value, gaps, Seq::empty());
    assert(s[p + 0] == laid[0]);
    lemma_skip_gap(s, 0, before);
    lemma_at_skip(s, 0);
}

/// Reading the text of a printable tree gives the tree again.
pub proof fn lemma_read_after_write(value: JsonValue)
    requires
        printable(value),
        fits(text_of(value)),
    ensures
        parsed(text_of(value)) == Some(value),
{
    lemma_laid_without_gaps(value, Seq::empty());
    assert(all_blank(no_gaps()));
    let none = Seq::<char>::empty();
    assert(none + text_of(value) + none =~= text_of(value));
    lemma_read_laid_out(value, no_gaps(), none, none);
}

/// Writing what was read from a well-formed text gives the text again, up
/// to its blank characters: where `text` lays a printable tree out with
/// blank characters before the value, between its tokens and after it, the
/// text is read, and what was read is written as the same tree laid out
/// without any of them.
pub proof fn lemma_write_after_read(
    text: Seq<char>,
    value: JsonValue,
    gaps: spec_fn(Seq<int>) -> Seq<char>,
    before: Seq<char>,
    after: Seq<char>,
)
    requires
        printable(value),
        all_blank(gaps),
        blank(before),
        blank(after),
        fits(text),
        text == before + laid_out(value, gaps, Seq::empty()) + after,
    ensures
        parsed(text) matches Some(tree) && text_of(tree) == laid_out(
            value,
            no_gaps(),
            Seq::empty(),
        ),
        gaps == no_gaps() && before.len() == 0 && after.len() == 0 ==> (parsed(text) matches Some(
            tree,
        ) && text_of(tree) == text),
{
    lemma_read_laid_out(value, gaps, before, after);
    lemma_laid_without_gaps(value, Seq::empty());
    if before.len() == 0 && after.len() == 0 {
        assert(text =~= laid_out(value, gaps, Seq::empty()));
    }
}

} // verus!
