//! The paths and bodies of the requests that a search sends.

use vstd::prelude::*;
use vstd::string::*;
use crate::grammar::comma_before;
use crate::number::{decimal_of, format_i64};
use crate::plan::{Filter, Request};
use crate::response::quoted;
use crate::text::texts_of;

verus! {

/// The query that stands for an empty one: it matches every document.
pub open spec fn match_all_text() -> Seq<char> {
    "{\"match_all\":{}}"@
}

/// `query` restricted to the documents whose `sort` field lies between
/// `lo` and `hi`, both included.
pub open spec fn range_query_text(query: Seq<char>, sort: Seq<char>, lo: i64, hi: i64) -> Seq<
    char,
> {
    "{\"bool\":{\"must\":"@ + query + ",\"filter\":{\"range\":{\""@ + sort + "\":{\"gte\":"@
        + decimal_of(lo) + ",\"lte\":"@ + decimal_of(hi) + "}}}}}"@
}

/// `query` restricted to the documents whose `sort` field stands in the
/// relation `cmp` to `value`.
pub open spec fn cmp_query_text(query: Seq<char>, sort: Seq<char>, cmp: Seq<char>, value: i64) -> Seq<
    char,
> {
    "{\"bool\":{\"must\":"@ + query + ",\"filter\":{\"range\":{\""@ + sort + "\":{\""@ + cmp
        + "\":"@ + decimal_of(value) + "}}}}}"@
}

/// `query` under `filter`. The restriction always wraps the caller's query
/// itself, never a query that is already restricted.
pub open spec fn filter_text(query: Seq<char>, sort: Seq<char>, filter: Filter) -> Seq<char> {
    match filter {
        Filter::Whole => query,
        Filter::Between { lo, hi } => range_query_text(query, sort, lo, hi),
        Filter::Beyond { asc, key } => cmp_query_text(
            query,
            sort,
            if asc {
                "gt"@
            } else {
                "lt"@
            },
            key,
        ),
    }
}

/// The selectors from index `i` on, each in quotes and each but the very
/// first after a comma.
pub open spec fn quoted_list(names: Seq<Seq<char>>, i: int) -> Seq<char>
    decreases names.len() - i,
{
    if i < 0 || i >= names.len() {
        Seq::empty()
    } else {
        comma_before(i) + quoted(names[i]) + quoted_list(names, i + 1)
    }
}

/// The part of a search body that selects source fields: nothing where
/// the caller gave no selectors.
pub open spec fn source_clause(source: Option<Seq<Seq<char>>>) -> Seq<char> {
    match source {
        None => Seq::empty(),
        Some(names) => ",\"_source\":["@ + quoted_list(names, 0) + "]"@,
    }
}

/// The body of a search request.
pub open spec fn search_body_text(
    query: Seq<char>,
    sort: Seq<char>,
    asc: bool,
    source: Option<Seq<Seq<char>>>,
    from: i64,
    size: i64,
) -> Seq<char> {
    "{\"query\":"@ + query + ",\"sort\":{\""@ + sort + "\":\""@ + (if asc {
        "asc"@
    } else {
        "desc"@
    }) + "\"}"@ + source_clause(source) + ",\"from\":"@ + decimal_of(from) + ",\"size\":"@
        + decimal_of(size) + "}"@
}

/// The body of a count request.
pub open spec fn count_body_text(query: Seq<char>) -> Seq<char> {
    "{\"query\": "@ + query + "}"@
}

/// The selectors of a caller, as texts.
pub open spec fn source_texts(source: Option<Vec<String>>) -> Option<Seq<Seq<char>>> {
    match source {
        None => None,
        Some(names) => Some(texts_of(names@)),
    }
}

/// The path that `request` is sent to.
pub open spec fn request_path(index: Seq<char>, request: Request) -> Seq<char> {
    match request {
        Request::Count { .. } => index + "/_count"@,
        _ => index + "/_search"@,
    }
}

/// The body that `request` is sent with.
pub open spec fn request_body(
    query: Seq<char>,
    source: Option<Seq<Seq<char>>>,
    sort: Seq<char>,
    request: Request,
) -> Seq<char> {
    match request {
        Request::Count { filter } => count_body_text(filter_text(query, sort, filter)),
        Request::Extreme { asc } => search_body_text(query, sort, asc, Some(seq![sort]), 0, 1),
        Request::Page { filter, asc, from, size } => search_body_text(
            filter_text(query, sort, filter),
            sort,
            asc,
            source,
            from,
            size,
        ),
    }
}

/// Restricts `query` to the sort keys from `start` to `end`.
pub fn build_range_query(query: &str, sort: &str, start: i64, end: i64) -> (out: String)
    ensures
        out@ == range_query_text(query@, sort@, start, end),
{
    let mut out = String::new();
    out.append("{\"bool\":{\"must\":");
    out.append(query);
    out.append(",\"filter\":{\"range\":{\"");
    out.append(sort);
    out.append("\":{\"gte\":");
    out.append(format_i64(start).as_str());
    out.append(",\"lte\":");
    out.append(format_i64(end).as_str());
    out.append("}}}}}");
    assert(out@ =~= range_query_text(query@, sort@, start, end));
    out
}

/// Restricts `query` to the sort keys that stand in the relation `cmp`,
/// `gt` or `lt`, to `value`.
pub fn build_cmp_query(query: &str, sort: &str, cmp: &str, value: i64) -> (out: String)
    ensures
        out@ == cmp_query_text(query@, sort@, cmp@, value),
{
    let mut out = String::new();
    out.append("{\"bool\":{\"must\":");
    out.append(query);
    out.append(",\"filter\":{\"range\":{\"");
    out.append(sort);
    out.append("\":{\"");
    out.append(cmp);
    out.append("\":");
    out.append(format_i64(value).as_str());
    out.append("}}}}}");
    assert(out@ =~= cmp_query_text(query@, sort@, cmp@, value));
    out
}

/// Writes `query` under `filter`.
pub fn build_filter_query(query: &str, sort: &str, filter: Filter) -> (out: String)
    ensures
        out@ == filter_text(query@, sort@, filter),
{
    match filter {
        Filter::Whole => query.to_owned(),
        Filter::Between { lo, hi } => build_range_query(query, sort, lo, hi),
        Filter::Beyond { asc, key } => if asc {
            build_cmp_query(query, sort, "gt", key)
        } else {
            build_cmp_query(query, sort, "lt", key)
        },
    }
}

/// Writes the body of a count of `query`.
pub fn build_count_body(query: &str) -> (out: String)
    ensures
        out@ == count_body_text(query@),
{
    let mut out = String::new();
    out.append("{\"query\": ");
    out.append(query);
    out.append("}");
    assert(out@ =~= count_body_text(query@));
    out
}

/// Writes the body of a search: the query, the sort field with its
/// direction, the source selectors where there are any, the offset and
/// the size.
pub fn build_search_body(
    query: &str,
    sort: &str,
    asc: bool,
    source: &Option<Vec<String>>,
    from: i64,
    size: i64,
) -> (out: String)
    ensures
        out@ == search_body_text(query@, sort@, asc, source_texts(*source), from, size),
{
    let mut out = String::new();
    out.append("{\"query\":");
    out.append(query);
    out.append(",\"sort\":{\"");
    out.append(sort);
    out.append("\":\"");
    if asc {
        out.append("asc");
    } else {
        out.append("desc");
    }
    out.append("\"}");
    let ghost head = out@;
    match source {
        Some(names) => {
            out.append(",\"_source\":[");
            let mut i: usize = 0;
            while i < names.len()
                invariant
                    i <= names.len(),
                    head + ",\"_source\":["@ + quoted_list(texts_of(names@), 0) == out@
                        + quoted_list(texts_of(names@), i as int),
                decreases names.len() - i,
            {
                let ghost before = out@;
                if i > 0 {
                    out.push(',');
                }
                out.push('"');
                out.append(names[i].as_str());
                out.push('"');
                proof {
                    let list = texts_of(names@);
                    assert(out@ + quoted_list(list, i + 1) =~= before + (comma_before(i as int)
                        + quoted(list[i as int]) + quoted_list(list, i + 1)));
                }
                i += 1;
            }
            out.append("]");
            assert(out@ =~= head + source_clause(source_texts(*source)));
        },
        None => {
            assert(out@ =~= head + source_clause(source_texts(*source)));
        },
    }
    out.append(",\"from\":");
    out.append(format_i64(from).as_str());
    out.append(",\"size\":");
    out.append(format_i64(size).as_str());
    out.append("}");
    assert(out@ =~= search_body_text(query@, sort@, asc, source_texts(*source), from, size));
    out
}

/// Writes the path of `request` under `index`.
pub fn build_path(index: &str, request: Request) -> (out: String)
    ensures
        out@ == request_path(index@, request),
{
    let mut out = index.to_owned();
    match request {
        Request::Count { .. } => {
            out.append("/_count");
        },
        _ => {
            out.append("/_search");
        },
    }
    out
}

/// Writes the body of `request` for the caller's query, selectors and sort
/// field.
pub fn build_body(query: &str, source: &Option<Vec<String>>, sort: &str, request: Request) -> (out:
    String)
    ensures
        out@ == request_body(query@, source_texts(*source), sort@, request),
{
    match request {
        Request::Count { filter } => {
            let restricted = build_filter_query(query, sort, filter);
            build_count_body(restricted.as_str())
        },
        Request::Extreme { asc } => {
            let mut names: Vec<String> = Vec::new();
            names.push(sort.to_owned());
            let only = Some(names);
            assert(texts_of(names@) =~= seq![sort@]);
            build_search_body(query, sort, asc, &only, 0, 1)
        },
        Request::Page { filter, asc, from, size } => {
            let restricted = build_filter_query(query, sort, filter);
            build_search_body(restricted.as_str(), sort, asc, source, from, size)
        },
    }
}

} // verus!
