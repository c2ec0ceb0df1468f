//! A whole search against a server that answers as it should.
//!
//! The plan of a search decides over integers; the session reads those
//! integers out of texts. Here the two are put together: where every
//! response reads as the answer that the index owes, the session delivers
//! the documents of the window that the caller asked for.

use vstd::prelude::*;
use crate::grammar::parsed;
use crate::es_json::JsonValue;
use crate::ideal::{ideal_hits, ideal_reply, increasing, matching, page, run, search_keys};
use crate::laws::{lemma_search_is_direct, turned};
use crate::pager::{SessionView, TurnView, begun};
use crate::plan::{Filter, Move, Phase, Plan, Reply, Request};
use crate::query::{match_all_text, request_body, request_path};
use crate::response::{count_of, cursor_of, documents_of, extreme_of};

verus! {

/// The texts of the documents with the keys `keys`, `text` giving the text
/// of each document.
pub open spec fn texts(keys: Seq<i64>, text: spec_fn(i64) -> Seq<char>) -> Seq<Seq<char>> {
    Seq::new(keys.len(), |i: int| text(keys[i]))
}

/// Whether the response `tree` is the answer that an index with the keys
/// `keys` owes to `request`: the number of matching documents for a count,
/// and for a search the documents of the page, the last of them with its
/// key as its sort value, or with its key in its source where an extreme
/// was asked for.
pub open spec fn answers(
    tree: JsonValue,
    sort: Seq<char>,
    keys: Seq<i64>,
    text: spec_fn(i64) -> Seq<char>,
    request: Request,
) -> bool {
    let hits = ideal_hits(keys, request);
    match request {
        Request::Count { filter } => count_of(tree) == Ok::<int, Seq<char>>(
            matching(keys, filter).len() as int,
        ),
        Request::Extreme { .. } => extreme_of(tree, sort) == Ok::<Option<int>, Seq<char>>(
            if hits.len() > 0 {
                Some(hits.last() as int)
            } else {
                None
            },
        ),
        Request::Page { .. } => {
            &&& tree.hits() matches Some(found)
            &&& documents_of(found) == texts(hits, text)
            &&& hits.len() > 0 ==> cursor_of(found.last()) == Ok::<int, Seq<char>>(
                hits.last() as int,
            )
        },
    }
}

/// Whether `server` answers every request within the limits, made for the
/// settings of `session`, with status 200 and the answer that the index
/// owes.
pub open spec fn faithful(
    server: spec_fn(Seq<char>, Seq<char>) -> Result<Seq<char>, Seq<char>>,
    session: SessionView,
    keys: Seq<i64>,
    text: spec_fn(i64) -> Seq<char>,
) -> bool {
    forall|request: Request| #[trigger]
        request.within_limits() ==> match server(
            request_path(session.index, request),
            request_body(session.query, session.source, session.sort, request),
        ) {
            Ok(body) => match parsed(body) {
                Some(tree) => answers(tree, session.sort, keys, text, request),
                None => false,
            },
            Err(_) => false,
        }
}

/// How a search ends when every request is answered by `server`: with its
/// documents or with its error; `None` where it is not over after
/// `rounds` requests.
pub open spec fn served(
    turn: TurnView,
    server: spec_fn(Seq<char>, Seq<char>) -> Result<Seq<char>, Seq<char>>,
    rounds: nat,
) -> Option<Result<Seq<Seq<char>>, Seq<char>>>
    decreases rounds,
{
    match turn {
        TurnView::Done(result) => Some(result),
        TurnView::Post { session, path, body } => if rounds == 0 {
            None
        } else {
            served(session.resumed(server(path, body)), server, (rounds - 1) as nat)
        },
    }
}

/// A step keeps the ranges of a plan.
pub proof fn lemma_next_keeps_ranges(plan: Plan, reply: Reply)
    requires
        plan.wf(),
    ensures
        plan.next(reply).0.wf(),
        plan.next(reply).1 matches Move::Ask(request) ==> request == plan.next(reply).0.pending()
            && request.within_limits(),
{
}

proof fn lemma_texts_join(a: Seq<i64>, b: Seq<i64>, text: spec_fn(i64) -> Seq<char>)
    ensures
        texts(a, text) + texts(b, text) == texts(a + b, text),
        texts(a.reverse(), text) == texts(a, text).reverse(),
{
    assert(texts(a, text) + texts(b, text) =~= texts(a + b, text));
    assert(texts(a.reverse(), text) =~= texts(a, text).reverse());
}

/// A session whose responses read as the answers of the index ends as its
/// plan ends against that index, with the texts of the documents that the
/// plan gathers.
pub proof fn lemma_session_follows_plan(
    session: SessionView,
    server: spec_fn(Seq<char>, Seq<char>) -> Result<Seq<char>, Seq<char>>,
    keys: Seq<i64>,
    text: spec_fn(i64) -> Seq<char>,
    got: Seq<i64>,
    rounds: nat,
)
    requires
        session.plan.wf(),
        faithful(server, session, keys, text),
        session.list == texts(got, text),
        run(keys, session.plan, got, rounds) is Some,
    ensures
        served(session.ask(session.plan, session.list), server, rounds) == Some(
            Ok::<Seq<Seq<char>>, Seq<char>>(
                texts(run(keys, session.plan, got, rounds)->0, text),
            ),
        ),
    decreases rounds,
{
    let plan = session.plan;
    let request = plan.pending();
    let turn = session.ask(plan, session.list);
    assert(turn->Post_session == session);
    assert(request.within_limits());
    let outcome = server(turn->Post_path, turn->Post_body);
    let tree = parsed(outcome->Ok_0)->0;
    assert(answers(tree, session.sort, keys, text, request));
    let hits = ideal_hits(keys, request);
    let reply = ideal_reply(keys, request);
    let gathered = if request is Page {
        got + hits
    } else {
        got
    };
    let documents = if request is Page {
        texts(hits, text)
    } else {
        Seq::empty()
    };
    assert(session.reading(tree) == Ok::<(Reply, Seq<Seq<char>>), Seq<char>>((reply, documents)));
    lemma_texts_join(got, hits, text);
    lemma_texts_join(gathered, Seq::empty(), text);
    assert(session.list + documents =~= texts(gathered, text));
    let step = plan.next(reply);
    lemma_next_keeps_ranges(plan, reply);
    let after = session.resumed(outcome);
    assert(served(turn, server, rounds) == served(after, server, (rounds - 1) as nat));
    match step.1 {
        Move::Ask(_) => {
            let next = SessionView { plan: step.0, list: texts(gathered, text), ..session };
            assert(after == next.ask(next.plan, next.list));
            lemma_session_follows_plan(next, server, keys, text, gathered, (rounds - 1) as nat);
        },
        Move::Deliver { reversed } => {
            assert(after == TurnView::Done(Ok(texts(turned(gathered, reversed), text))));
        },
        Move::Fail => {},
    }
}

/// Against a faithful server a search delivers the documents of the
/// window that the caller asked for.
///
/// The index holds documents with distinct keys, `text` gives the text of
/// each, and `server` answers every request within the limits as the
/// index owes. Then the search ends after `rounds` requests, and what it
/// delivers are the texts of the documents that a search without any limit
/// would return: those that follow the first `from` in the direction
/// `asc`, `size` of them or as many as there are, in that order.
pub proof fn lemma_search_delivers_the_window(
    index: Seq<char>,
    query: Seq<char>,
    source: Option<Seq<Seq<char>>>,
    sort: Seq<char>,
    asc: bool,
    from: i64,
    size: i64,
    server: spec_fn(Seq<char>, Seq<char>) -> Result<Seq<char>, Seq<char>>,
    keys: Seq<i64>,
    text: spec_fn(i64) -> Seq<char>,
) -> (rounds: nat)
    requires
        index.len() > 0,
        sort.len() > 0,
        from >= 0,
        size >= 0,
        increasing(keys),
        keys.len() <= i64::MAX,
        faithful(
            server,
            SessionView {
                index,
                query: if query.len() == 0 {
                    match_all_text()
                } else {
                    query
                },
                source,
                sort,
                plan: Plan { asc, reverse: false, from, size, phase: Phase::Total },
                list: Seq::empty(),
            },
            keys,
            text,
        ),
    ensures
        served(begun(index, query, source, sort, asc, from, size), server, rounds) == Some(
            Ok::<Seq<Seq<char>>, Seq<char>>(
                texts(page(keys, Filter::Whole, asc, from as int, size as int), text),
            ),
        ),
{
    let rounds = lemma_search_is_direct(keys, asc, from, size);
    match Plan::begin(asc, from, size) {
        Some((plan, Move::Ask(_))) => {
            let session = SessionView {
                index,
                query: if query.len() == 0 {
                    match_all_text()
                } else {
                    query
                },
                source,
                sort,
                plan,
                list: Seq::empty(),
            };
            assert(session.list =~= texts(Seq::empty(), text));
            lemma_session_follows_plan(session, server, keys, text, Seq::empty(), rounds);
        },
        Some((_, Move::Deliver { .. })) => {
            assert(texts(Seq::empty(), text) =~= Seq::empty());
        },
        _ => {},
    }
    rounds
}

} // verus!
