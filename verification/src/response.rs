//! What the search reads in the responses of the server.

use vstd::prelude::*;
use vstd::string::*;
use crate::analyzer::EsJsonAnalyzer;
use crate::error::Error;
use crate::es_json::{EsJson, JsonValue, invalid_json, invalid_json_text, values_of};
use crate::grammar::{parsed, text_of};
use crate::number::{NumberError, number_error_text, parse_decimal, parse_i64};
use crate::text::texts_of;

verus! {

/// A name between quotes, as the keys of a tree are kept.
pub open spec fn quoted(name: Seq<char>) -> Seq<char> {
    seq!['"'] + name + seq!['"']
}

/// The message for a literal that is not a 64-bit integer.
pub open spec fn parse_error_text(e: NumberError) -> Seq<char> {
    "Parse error: "@ + number_error_text(e)
}

/// The integer that a literal holds, or the message of the failure.
pub open spec fn integer_of(value: JsonValue) -> Result<int, Seq<char>> {
    match value {
        JsonValue::Literal(text) => match parse_decimal(text) {
            Ok(n) => Ok(n),
            Err(e) => Err(parse_error_text(e)),
        },
        _ => Err(invalid_json_text()),
    }
}

/// The number under `"count"` in the response to a count.
pub open spec fn count_of(response: JsonValue) -> Result<int, Seq<char>> {
    match response.member("\"count\""@) {
        Some(count) => integer_of(count),
        None => Err(invalid_json_text()),
    }
}

/// The sort key of a document, read from its source: the number under the
/// name of the sort field inside `"_source"`.
pub open spec fn source_key_of(hit: JsonValue, sort: Seq<char>) -> Result<int, Seq<char>> {
    match hit.member("\"_source\""@) {
        Some(source) => match source.member(quoted(sort)) {
            Some(key) => integer_of(key),
            None => Err(invalid_json_text()),
        },
        None => Err(invalid_json_text()),
    }
}

/// The sort key of a document, read from its sort values: the first
/// element of the array under `"sort"`.
pub open spec fn cursor_of(hit: JsonValue) -> Result<int, Seq<char>> {
    match hit.member("\"sort\""@) {
        Some(JsonValue::Array(items)) => if items.len() > 0 {
            integer_of(items[0])
        } else {
            Err(invalid_json_text())
        },
        _ => Err(invalid_json_text()),
    }
}

/// The sort key of the last document of a response, read from its source;
/// `None` where the response holds no document.
pub open spec fn extreme_of(response: JsonValue, sort: Seq<char>) -> Result<
    Option<int>,
    Seq<char>,
> {
    match response.hits() {
        None => Err(invalid_json_text()),
        Some(hits) => if hits.len() == 0 {
            Ok(None)
        } else {
            match source_key_of(hits.last(), sort) {
                Ok(key) => Ok(Some(key)),
                Err(e) => Err(e),
            }
        },
    }
}

/// The documents of a response, each written back as text.
pub open spec fn documents_of(hits: Seq<JsonValue>) -> Seq<Seq<char>> {
    Seq::new(hits.len(), |i: int| text_of(hits[i]))
}

/// The integer that a literal holds.
pub fn read_integer(node: &EsJson) -> (out: Result<i64, Error>)
    ensures
        match out {
            Ok(n) => integer_of(node@) == Ok::<int, Seq<char>>(n as int),
            Err(e) => integer_of(node@) == Err::<int, Seq<char>>(e.text()),
        },
{
    let text = match node.get_string() {
        Ok(text) => text,
        Err(e) => {
            return Err(e);
        },
    };
    match parse_i64(text.as_str()) {
        Ok(n) => Ok(n),
        Err(e) => {
            let mut message = "Parse error: ".to_owned();
            message.append(e.describe());
            Err(Error::Message(message))
        },
    }
}

/// The number of matching documents that the response to a count gives.
pub fn read_count(response: &EsJson) -> (out: Result<i64, Error>)
    ensures
        match out {
            Ok(n) => count_of(response@) == Ok::<int, Seq<char>>(n as int),
            Err(e) => count_of(response@) == Err::<int, Seq<char>>(e.text()),
        },
{
    match response.find_json("\"count\"") {
        Ok(count) => read_integer(count),
        Err(e) => Err(e),
    }
}

/// The sort key of a document, read from its source.
pub fn read_source_key(hit: &EsJson, sort: &str) -> (out: Result<i64, Error>)
    ensures
        match out {
            Ok(n) => source_key_of(hit@, sort@) == Ok::<int, Seq<char>>(n as int),
            Err(e) => source_key_of(hit@, sort@) == Err::<int, Seq<char>>(e.text()),
        },
{
    let source = match hit.find_json("\"_source\"") {
        Ok(source) => source,
        Err(e) => {
            return Err(e);
        },
    };
    let mut name = String::new();
    name.push('"');
    name.append(sort);
    name.push('"');
    assert(name@ =~= quoted(sort@));
    match source.find_json(name.as_str()) {
        Ok(key) => read_integer(key),
        Err(e) => Err(e),
    }
}

/// The sort key of a document, read from its sort values.
pub fn read_cursor(hit: &EsJson) -> (out: Result<i64, Error>)
    ensures
        match out {
            Ok(n) => cursor_of(hit@) == Ok::<int, Seq<char>>(n as int),
            Err(e) => cursor_of(hit@) == Err::<int, Seq<char>>(e.text()),
        },
{
    let values = match hit.find_json("\"sort\"") {
        Ok(values) => values,
        Err(e) => {
            return Err(e);
        },
    };
    let items = match values.get_array() {
        Ok(items) => items,
        Err(e) => {
            return Err(e);
        },
    };
    if items.len() == 0 {
        return Err(invalid_json());
    }
    read_integer(&items[0])
}

/// The sort key of the last document of a response, read from its source.
pub fn read_extreme(response: &EsJson, sort: &str) -> (out: Result<Option<i64>, Error>)
    ensures
        match out {
            Ok(None) => extreme_of(response@, sort@) == Ok::<Option<int>, Seq<char>>(None),
            Ok(Some(n)) => extreme_of(response@, sort@) == Ok::<Option<int>, Seq<char>>(
                Some(n as int),
            ),
            Err(e) => extreme_of(response@, sort@) == Err::<Option<int>, Seq<char>>(e.text()),
        },
{
    let hits = match response.get_hits() {
        Ok(hits) => hits,
        Err(e) => {
            return Err(e);
        },
    };
    if hits.len() == 0 {
        return Ok(None);
    }
    match read_source_key(&hits[hits.len() - 1], sort) {
        Ok(key) => Ok(Some(key)),
        Err(e) => Err(e),
    }
}

/// Appends to `list` the documents `hits`, each written back as text.
pub fn gather(list: &mut Vec<String>, hits: &Vec<EsJson>)
    ensures
        texts_of(final(list)@) == texts_of(old(list)@) + documents_of(values_of(hits@)),
{
    let mut i: usize = 0;
    assert(texts_of(list@) =~= texts_of(old(list)@) + documents_of(values_of(hits@)).take(0));
    while i < hits.len()
        invariant
            i <= hits.len(),
            texts_of(list@) == texts_of(old(list)@) + documents_of(values_of(hits@)).take(
                i as int,
            ),
        decreases hits.len() - i,
    {
        let ghost before = list@;
        let text = EsJsonAnalyzer::to_json(&hits[i]);
        list.push(text);
        assert(texts_of(list@) =~= texts_of(before).push(text@));
        assert(documents_of(values_of(hits@)).take(i + 1) =~= documents_of(
            values_of(hits@),
        ).take(i as int).push(text@));
        i += 1;
    }
    assert(documents_of(values_of(hits@)).take(hits.len() as int) =~= documents_of(
        values_of(hits@),
    ));
}

/// Reads a response body into a tree.
pub fn read_response(body: &str) -> (out: Result<EsJson, Error>)
    ensures
        match parsed(body@) {
            Some(value) => out matches Ok(tree) && tree@ == value,
            None => out matches Err(e) && e.text() == invalid_json_text(),
        },
{
    EsJsonAnalyzer::from_json(body)
}

} // verus!
