//! Reading a response into a tree, and writing a tree back as text.

use vstd::prelude::*;
use vstd::string::*;
use crate::error::Error;
use crate::es_json::{EsJson, JsonValue, invalid_json, invalid_json_text, members_of, value_of, values_of};
use crate::grammar::{
    after_space,
    closes_string,
    closing,
    comma_before,
    fits,
    is_space,
    is_stop,
    items_at,
    items_text,
    literal_end,
    literal_text,
    members_at,
    members_text,
    pair_at,
    parsed,
    room,
    run_before,
    shown,
    string_end,
    string_text,
    text_of,
    value_at,
};
use crate::text::chars_of;

verus! {

/// A cursor over the characters of a response.
pub struct EsJsonAnalyzer {
    /// The text.
    pub json: Vec<char>,
    /// The number of its characters.
    pub length: usize,
    /// Where the cursor stands. Every step adds one, also past the end.
    pub position: usize,
    /// The character that the cursor shows.
    pub character: char,
}

fn is_space_char(c: char) -> (b: bool)
    ensures
        b == is_space(c),
{
    c == ' ' || c == '\t' || c == '\n' || c == '\r'
}

fn is_stop_char(c: char) -> (b: bool)
    ensures
        b == is_stop(c),
{
    is_space_char(c) || c == ',' || c == ']' || c == '}'
}

/// How many steps a cursor at `p` takes onto a character while it passes
/// over spaces: the step that takes it past the end is not counted.
pub open spec fn steps_over_space(s: Seq<char>, p: int) -> int {
    let q = after_space(s, p);
    if q >= s.len() && p < q {
        q - p - 1
    } else {
        q - p
    }
}

/// The furthest that reading a value, an array, an object or a member
/// from position `p` takes a cursor in a text of `n` characters.
pub open spec fn reach(n: int, p: int) -> int {
    if p <= n {
        2 * n + 1 - p
    } else {
        p + 1
    }
}

impl EsJsonAnalyzer {
    /// The text is not empty and short enough for positions to be counted,
    /// and the cursor shows the character of its position: past the end, the
    /// last character.
    pub open spec fn wf(&self) -> bool {
        &&& self.length == self.json@.len()
        &&& self.length >= 1
        &&& fits(self.json@)
        &&& self.character == shown(self.json@, self.position as int)
    }

    /// The same text as `before`, with the cursor at `p`.
    pub open spec fn moved(&self, before: &EsJsonAnalyzer, p: int) -> bool {
        &&& self.wf()
        &&& self.json@ == before.json@
        &&& self.position == p
    }

    /// Tells whether the text is not empty and not too long, and whether
    /// the cursor shows the character of its position.
    pub fn valid(&self) -> (ok: bool)
        ensures
            ok == self.wf(),
    {
        if self.length != self.json.len() || self.length < 1 || self.length > (usize::MAX - 16)
            / 2 {
            return false;
        }
        if self.position < self.length {
            self.character == self.json[self.position]
        } else {
            self.character == self.json[self.length - 1]
        }
    }

    /// A cursor at the first character of `str`.
    pub fn new(str: &str) -> (out: EsJsonAnalyzer)
        requires
            str@.len() >= 1,
            fits(str@),
        ensures
            out.wf(),
            out.json@ == str@,
            out.position == 0,
    {
        let chars = chars_of(str);
        let pos: usize = 0;
        EsJsonAnalyzer { position: pos, character: chars[pos], length: chars.len(), json: chars }
    }

    /// Steps to the next position, also past the end of the text. Tells
    /// whether the cursor now stands on a character; where it does not, it
    /// keeps showing the character that it showed.
    pub fn goto_next_char(&mut self) -> (more: bool)
        requires
            old(self).length == old(self).json@.len(),
            old(self).position < usize::MAX,
        ensures
            final(self).position == old(self).position + 1,
            final(self).json == old(self).json,
            final(self).length == old(self).length,
            more == (final(self).position < final(self).length),
            more ==> final(self).character == final(self).json@[final(self).position as int],
            !more ==> final(self).character == old(self).character,
            old(self).wf() ==> final(self).wf(),
    {
        self.position += 1;
        if self.position < self.length {
            self.character = self.json[self.position];
            return true;
        }
        false
    }

    /// Counts how many times `prev_char` stands in a row immediately
    /// before the cursor; none where the cursor is past the end.
    pub fn count_prev_char(&self, prev_char: char) -> (count: usize)
        requires
            self.wf(),
        ensures
            count == run_before(self.json@, self.position as int, prev_char),
    {
        if self.position > self.length {
            return 0;
        }
        let mut count: usize = 0;
        let mut at: usize = self.position;
        while at > 0 && self.json[at - 1] == prev_char
            invariant
                self.wf(),
                at <= self.position <= self.length,
                count == self.position - at,
                run_before(self.json@, self.position as int, prev_char) == count + run_before(
                    self.json@,
                    at as int,
                    prev_char,
                ),
            decreases at,
        {
            count += 1;
            at -= 1;
        }
        count
    }

    /// Passes over spaces, tabs and line ends, and tells how many steps
    /// onto a character that took.
    pub fn skip_space(&mut self) -> (count: usize)
        requires
            old(self).wf(),
            old(self).position < usize::MAX,
        ensures
            final(self).moved(
                old(self),
                after_space(old(self).json@, old(self).position as int),
            ),
            count == steps_over_space(old(self).json@, old(self).position as int),
            old(self).position <= final(self).position,
            old(self).position < old(self).length ==> final(self).position <= old(self).length,
            old(self).position >= old(self).length ==> final(self).position <= old(self).position
                + 1,
    {
        let mut count: usize = 0;
        loop
            invariant
                self.wf(),
                self.json@ == old(self).json@,
                self.length == old(self).length,
                old(self).position <= self.position,
                self.position < self.length || self.position == old(self).position,
                self.position < usize::MAX,
                count == self.position - old(self).position,
                after_space(self.json@, old(self).position as int) == after_space(
                    self.json@,
                    self.position as int,
                ),
            decreases room(self.json@, self.position as int),
        {
            if !is_space_char(self.character) {
                return count;
            }
            if !self.goto_next_char() {
                return count;
            }
            count += 1;
        }
    }

    /// Reads a number, a boolean or a null: the characters up to the next
    /// space, comma, closing bracket or closing brace.
    pub fn read_json_literal(&mut self) -> (out: String)
        requires
            old(self).wf(),
            old(self).position < usize::MAX,
        ensures
            final(self).moved(
                old(self),
                literal_end(old(self).json@, old(self).position as int),
            ),
            out@ == literal_text(old(self).json@, old(self).position as int),
            old(self).position <= final(self).position,
            old(self).position < old(self).length ==> final(self).position <= old(self).length,
            old(self).position >= old(self).length ==> final(self).position <= old(self).position
                + 1,
    {
        let mut literal = String::new();
        loop
            invariant
                self.wf(),
                self.json@ == old(self).json@,
                self.length == old(self).length,
                old(self).position <= self.position,
                self.position < self.length || (self.position == old(self).position
                    && literal@.len() == 0),
                self.position < usize::MAX,
                old(self).position < self.length ==> literal@ == self.json@.subrange(
                    old(self).position as int,
                    self.position as int,
                ),
                self.position > old(self).position ==> !is_stop(
                    shown(self.json@, old(self).position as int),
                ),
                literal_end(self.json@, old(self).position as int) == literal_end(
                    self.json@,
                    self.position as int,
                ),
            decreases room(self.json@, self.position as int),
        {
            if is_stop_char(self.character) {
                return literal;
            }
            literal.push(self.character);
            if !self.goto_next_char() {
                proof {
                    if old(self).position < self.length {
                        assert(literal@ =~= self.json@.subrange(
                            old(self).position as int,
                            self.position as int,
                        ));
                    } else {
                        assert(literal@ =~= seq![shown(self.json@, old(self).position as int)]);
                    }
                }
                return literal;
            }
            assert(literal@ =~= self.json@.subrange(
                old(self).position as int,
                self.position as int,
            ));
        }
    }

    /// Reads a string or a key: from the opening quote to the first quote
    /// with an even number of backslashes before it, or to the end of the
    /// text. Both quotes are kept.
    pub fn read_json_string(&mut self) -> (out: String)
        requires
            old(self).wf(),
            old(self).character == '"',
            old(self).position < usize::MAX,
        ensures
            final(self).moved(old(self), string_end(old(self).json@, old(self).position as int)),
            out@ == string_text(old(self).json@, old(self).position as int),
            old(self).position < final(self).position,
            old(self).position < old(self).length ==> final(self).position <= old(self).length,
            old(self).position >= old(self).length ==> final(self).position <= old(self).position
                + 1,
    {
        let mut string = String::new();
        string.push(self.character);
        assert(string@ =~= if old(self).position < self.length {
            self.json@.subrange(old(self).position as int, self.position as int + 1)
        } else {
            seq![shown(self.json@, old(self).position as int)]
        });
        loop
            invariant
                self.wf(),
                self.json@ == old(self).json@,
                self.length == old(self).length,
                old(self).position <= self.position,
                self.position < self.length || self.position == old(self).position,
                self.position < usize::MAX,
                string@ == if old(self).position < self.length {
                    self.json@.subrange(old(self).position as int, self.position as int + 1)
                } else {
                    seq![shown(self.json@, old(self).position as int)]
                },
                closing(self.json@, old(self).position as int + 1) == closing(
                    self.json@,
                    self.position as int + 1,
                ),
            decreases room(self.json@, self.position as int),
        {
            if !self.goto_next_char() {
                proof {
                    if old(self).position < self.length {
                        assert(string@ =~= self.json@.subrange(
                            old(self).position as int,
                            self.position as int,
                        ));
                    }
                }
                return string;
            }
            string.push(self.character);
            assert(string@ =~= self.json@.subrange(
                old(self).position as int,
                self.position as int + 1,
            ));
            if self.character == '"' && self.count_prev_char('\\') % 2 == 0 {
                assert(closes_string(self.json@, self.position as int));
                self.goto_next_char();
                return string;
            }
        }
    }

    /// Reads the next value, whatever its shape, after passing over the
    /// spaces before it. It is an error where only spaces follow.
    pub fn read_json_value(&mut self) -> (out: Result<EsJson, Error>)
        requires
            old(self).wf(),
            old(self).position + 4 <= usize::MAX,
        ensures
            final(self).wf(),
            final(self).json@ == old(self).json@,
            match value_at(old(self).json@, old(self).position as int) {
                Some((value, end)) => out matches Ok(json) && json@ == value && final(self).position == end,
                None => out matches Err(e) && e.text() == invalid_json_text(),
            },
            out is Ok ==> final(self).position <= reach(
                old(self).length as int,
                old(self).position as int,
            ),
        decreases room(old(self).json@, old(self).position as int), 2nat,
    {
        self.skip_space();
        let c = self.character;
        if is_space_char(c) {
            Err(invalid_json())
        } else if c == '"' {
            Ok(EsJson::String(self.read_json_string()))
        } else if c == '{' {
            if self.position < self.length {
                match self.read_json_object() {
                    Ok(members) => Ok(EsJson::Object(members)),
                    Err(e) => Err(e),
                }
            } else {
                Err(invalid_json())
            }
        } else if c == '[' {
            if self.position < self.length {
                match self.read_json_array() {
                    Ok(items) => Ok(EsJson::Array(items)),
                    Err(e) => Err(e),
                }
            } else {
                Err(invalid_json())
            }
        } else {
            Ok(EsJson::String(self.read_json_literal()))
        }
    }

    /// Reads an array, the cursor standing on its opening bracket. Spaces
    /// and commas between the elements are passed over. It is an error
    /// where the text ends before the array does, or where an element
    /// takes up no room.
    pub fn read_json_array(&mut self) -> (out: Result<Vec<EsJson>, Error>)
        requires
            old(self).wf(),
            old(self).character == '[',
            old(self).position + 4 <= usize::MAX,
        ensures
            final(self).wf(),
            final(self).json@ == old(self).json@,
            match items_at(old(self).json@, old(self).position + 1) {
                Some((items, end)) => out matches Ok(list) && values_of(list@) == items && final(self).position == end,
                None => out matches Err(e) && e.text() == invalid_json_text(),
            },
            out is Ok ==> final(self).position <= reach(
                old(self).length as int,
                old(self).position as int,
            ),
        decreases room(old(self).json@, old(self).position as int), 1nat,
    {
        self.goto_next_char();
        let ghost first = self.position as int;
        let mut ary: Vec<EsJson> = Vec::new();
        assert(values_of(ary@) =~= Seq::empty());
        loop
            invariant
                self.wf(),
                self.json@ == old(self).json@,
                self.length == old(self).length,
                first == old(self).position + 1,
                first <= self.position,
                old(self).position < self.length ==> self.position <= 2 * self.length - old(self).position,
                old(self).position >= self.length ==> self.position == first,
                old(self).position + 4 <= usize::MAX,
                shown(self.json@, old(self).position as int) == '[',
                match items_at(self.json@, self.position as int) {
                    Some((rest, end)) => items_at(self.json@, first) == Some(
                        (values_of(ary@) + rest, end),
                    ),
                    None => items_at(self.json@, first) is None,
                },
            decreases room(self.json@, self.position as int),
        {
            let ghost head = self.position as int;
            self.skip_space();
            if self.character == ']' {
                assert(head >= self.length ==> after_space(self.json@, head) == head);
                self.goto_next_char();
                assert(values_of(ary@) + Seq::<JsonValue>::empty() =~= values_of(ary@));
                return Ok(ary);
            }
            if self.position >= self.length {
                return Err(invalid_json());
            }
            if self.character == ',' {
                self.goto_next_char();
                continue ;
            }
            let start = self.position;
            let item = match self.read_json_value() {
                Ok(item) => item,
                Err(e) => {
                    return Err(e);
                },
            };
            if self.position <= start {
                return Err(invalid_json());
            }
            proof {
                if let Some((rest, _)) = items_at(self.json@, self.position as int) {
                    assert(values_of(ary@.push(item)) + rest =~= values_of(ary@) + (seq![item@]
                        + rest));
                }
            }
            ary.push(item);
        }
    }

    /// Reads an object, the cursor standing on its opening brace. Spaces
    /// and commas between the members are passed over. It is an error
    /// where the text ends before the object does, or where a member is
    /// not a key in quotes, a colon and a value.
    pub fn read_json_object(&mut self) -> (out: Result<Vec<(String, EsJson)>, Error>)
        requires
            old(self).wf(),
            old(self).character == '{',
            old(self).position + 4 <= usize::MAX,
        ensures
            final(self).wf(),
            final(self).json@ == old(self).json@,
            match members_at(old(self).json@, old(self).position + 1) {
                Some((members, end)) => out matches Ok(list) && members_of(list@) == members
                    && final(self).position == end,
                None => out matches Err(e) && e.text() == invalid_json_text(),
            },
            out is Ok ==> final(self).position <= reach(
                old(self).length as int,
                old(self).position as int,
            ),
        decreases room(old(self).json@, old(self).position as int), 1nat,
    {
        self.goto_next_char();
        let ghost first = self.position as int;
        let mut obj: Vec<(String, EsJson)> = Vec::new();
        assert(members_of(obj@) =~= Seq::empty());
        loop
            invariant
                self.wf(),
                self.json@ == old(self).json@,
                self.length == old(self).length,
                first == old(self).position + 1,
                first <= self.position,
                old(self).position < self.length ==> self.position <= 2 * self.length - old(self).position,
                old(self).position >= self.length ==> self.position == first,
                old(self).position + 4 <= usize::MAX,
                shown(self.json@, old(self).position as int) == '{',
                match members_at(self.json@, self.position as int) {
                    Some((rest, end)) => members_at(self.json@, first) == Some(
                        (members_of(obj@) + rest, end),
                    ),
                    None => members_at(self.json@, first) is None,
                },
            decreases room(self.json@, self.position as int),
        {
            let ghost head = self.position as int;
            self.skip_space();
            if self.character == '}' {
                assert(head >= self.length ==> after_space(self.json@, head) == head);
                self.goto_next_char();
                assert(members_of(obj@) + Seq::<(Seq<char>, JsonValue)>::empty() =~= members_of(
                    obj@,
                ));
                return Ok(obj);
            }
            if self.position >= self.length {
                return Err(invalid_json());
            }
            if self.character == ',' {
                self.goto_next_char();
                continue ;
            }
            let start = self.position;
            let member = match self.read_json_key_value() {
                Ok(member) => member,
                Err(e) => {
                    return Err(e);
                },
            };
            if self.position <= start {
                return Err(invalid_json());
            }
            proof {
                if let Some((rest, _)) = members_at(self.json@, self.position as int) {
                    assert(members_of(obj@.push(member)) + rest =~= members_of(obj@) + (seq![
                        (member.0@, member.1@),
                    ] + rest));
                }
            }
            obj.push(member);
        }
    }

    /// Reads one member of an object: spaces, a key in quotes, spaces, a
    /// colon, spaces and a value. It is an error where the key does not
    /// open with a quote or the colon is missing.
    pub fn read_json_key_value(&mut self) -> (out: Result<(String, EsJson), Error>)
        requires
            old(self).wf(),
            old(self).position + 16 <= usize::MAX,
        ensures
            final(self).wf(),
            final(self).json@ == old(self).json@,
            match pair_at(old(self).json@, old(self).position as int) {
                Some((member, end)) => out matches Ok(pair) && pair.0@ == member.0 && pair.1@
                    == member.1 && final(self).position == end,
                None => out matches Err(e) && e.text() == invalid_json_text(),
            },
            out is Ok ==> final(self).position <= reach(
                old(self).length as int,
                old(self).position as int,
            ),
        decreases room(old(self).json@, old(self).position as int), 3nat,
    {
        self.skip_space();
        if self.character != '"' {
            return Err(invalid_json());
        }
        let key = self.read_json_string();
        self.skip_space();
        if self.character != ':' {
            return Err(invalid_json());
        }
        self.goto_next_char();
        self.skip_space();
        match self.read_json_value() {
            Ok(value) => Ok((key, value)),
            Err(e) => Err(e),
        }
    }

    /// Reads a text into a tree: the first value in it, after the spaces
    /// before it. What follows the value is not looked at. An empty text
    /// and a text of spaces only are errors.
    pub fn from_json(json: &str) -> (out: Result<EsJson, Error>)
        ensures
            match parsed(json@) {
                Some(value) => out matches Ok(tree) && tree@ == value,
                None => out matches Err(e) && e.text() == invalid_json_text(),
            },
    {
        let chars = chars_of(json);
        let length = chars.len();
        if length == 0 || length > (usize::MAX - 16) / 2 {
            return Err(invalid_json());
        }
        let mut analyzer = EsJsonAnalyzer { position: 0, character: chars[0], length, json: chars };
        analyzer.read_json_value()
    }

    /// Writes a tree as text, without spaces.
    pub fn to_json(obj: &EsJson) -> (out: String)
        ensures
            out@ == text_of(obj@),
        decreases obj,
    {
        match obj {
            EsJson::Array(ary) => {
                let mut out = String::new();
                out.push('[');
                let mut i: usize = 0;
                while i < ary.len()
                    invariant
                        i <= ary.len(),
                        *obj == EsJson::Array(*ary),
                        seq!['['] + items_text(values_of(ary@), 0) == out@ + items_text(
                            values_of(ary@),
                            i as int,
                        ),
                    decreases ary.len() - i,
                {
                    let ghost before = out@;
                    if i > 0 {
                        out.push(',');
                    }
                    proof {
                        assert(decreases_to!(*obj => obj->Array_0));
                        assert(decreases_to!(obj->Array_0 => (obj->Array_0)@));
                        assert(decreases_to!((obj->Array_0)@ => (obj->Array_0)@[i as int]));
                    }
                    let part = Self::to_json(&ary[i]);
                    out.append(part.as_str());
                    proof {
                        let items = values_of(ary@);
                        assert(out@ + items_text(items, i + 1) =~= before + (comma_before(i as int)
                            + text_of(items[i as int]) + items_text(items, i + 1)));
                    }
                    i += 1;
                }
                out.push(']');
                assert(out@ =~= seq!['['] + items_text(values_of(ary@), 0) + seq![']']);
                out
            },
            EsJson::Object(pairs) => {
                let mut out = String::new();
                out.push('{');
                let mut i: usize = 0;
                while i < pairs.len()
                    invariant
                        i <= pairs.len(),
                        *obj == EsJson::Object(*pairs),
                        seq!['{'] + members_text(members_of(pairs@), 0) == out@ + members_text(
                            members_of(pairs@),
                            i as int,
                        ),
                    decreases pairs.len() - i,
                {
                    let ghost before = out@;
                    if i > 0 {
                        out.push(',');
                    }
                    out.append(pairs[i].0.as_str());
                    out.push(':');
                    proof {
                        assert(decreases_to!(*obj => obj->Object_0));
                        assert(decreases_to!(obj->Object_0 => (obj->Object_0)@));
                        assert(decreases_to!((obj->Object_0)@ => (obj->Object_0)@[i as int]));
                        assert(decreases_to!((obj->Object_0)@[i as int] => (obj->Object_0)@[i as int].1));
                    }
                    let part = Self::to_json(&pairs[i].1);
                    out.append(part.as_str());
                    proof {
                        let members = members_of(pairs@);
                        assert(out@ + members_text(members, i + 1) =~= before + (comma_before(
                            i as int,
                        ) + members[i as int].0 + seq![':'] + text_of(members[i as int].1)
                            + members_text(members, i + 1)));
                    }
                    i += 1;
                }
                out.push('}');
                assert(out@ =~= seq!['{'] + members_text(members_of(pairs@), 0) + seq!['}']);
                out
            },
            EsJson::String(text) => text.clone(),
        }
    }
}

} // verus!
