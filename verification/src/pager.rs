//! A deep-paging search as a dialogue: the session names a request, the
//! caller sends it and comes back with what the server answered.

use vstd::prelude::*;
use vstd::string::*;
use crate::error::Error;
use crate::es_json::{JsonValue, invalid_json, invalid_json_text};
use crate::grammar::parsed;
use crate::plan::{Move, Phase, Plan, Reply, Request};
use crate::query::{build_body, build_path, match_all_text, request_body, request_path, source_texts};
use crate::response::{
    count_of,
    cursor_of,
    documents_of,
    extreme_of,
    gather,
    read_count,
    read_cursor,
    read_extreme,
    read_response,
};
use crate::text::texts_of;

verus! {

/// A search that waits for the reply to a request.
#[derive(Debug)]
pub struct Session {
    /// The index pattern that the requests go to.
    index: String,
    /// The caller's query, never empty.
    query: String,
    /// The caller's source selectors.
    source: Option<Vec<String>>,
    /// The name of the sort field.
    sort: String,
    /// The decisions taken so far.
    plan: Plan,
    /// The documents gathered so far.
    list: Vec<String>,
}

/// What a search wants next.
#[derive(Debug)]
pub enum Turn {
    /// Post `body` to `path`, then resume `session` with the outcome.
    Post { session: Session, path: String, body: String },
    /// The search is over, with its documents or with its error.
    Done(Result<Vec<String>, Error>),
}

/// The mathematical value of a [`Session`].
pub struct SessionView {
    pub index: Seq<char>,
    pub query: Seq<char>,
    pub source: Option<Seq<Seq<char>>>,
    pub sort: Seq<char>,
    pub plan: Plan,
    pub list: Seq<Seq<char>>,
}

/// The mathematical value of a [`Turn`].
pub enum TurnView {
    Post { session: SessionView, path: Seq<char>, body: Seq<char> },
    Done(Result<Seq<Seq<char>>, Seq<char>>),
}

impl View for Session {
    type V = SessionView;

    closed spec fn view(&self) -> SessionView {
        SessionView {
            index: self.index@,
            query: self.query@,
            source: source_texts(self.source),
            sort: self.sort@,
            plan: self.plan,
            list: texts_of(self.list@),
        }
    }
}

impl View for Turn {
    type V = TurnView;

    open spec fn view(&self) -> TurnView {
        match self {
            Turn::Post { session, path, body } => TurnView::Post {
                session: session@,
                path: path@,
                body: body@,
            },
            Turn::Done(Ok(list)) => TurnView::Done(Ok(texts_of(list@))),
            Turn::Done(Err(e)) => TurnView::Done(Err(e.text())),
        }
    }
}

/// The outcome of a request as the session is told it: the body of a
/// response with status 200, or the message of a failure.
pub open spec fn outcome_view(outcome: Result<String, String>) -> Result<Seq<char>, Seq<char>> {
    match outcome {
        Ok(body) => Ok(body@),
        Err(message) => Err(message@),
    }
}

impl SessionView {
    /// The turn that asks for `plan`'s pending request.
    pub open spec fn ask(self, plan: Plan, list: Seq<Seq<char>>) -> TurnView {
        TurnView::Post {
            session: SessionView { plan, list, ..self },
            path: request_path(self.index, plan.pending()),
            body: request_body(self.query, self.source, self.sort, plan.pending()),
        }
    }

    /// What the response `tree` says to the plan, and the documents that it
    /// brings; or the message of the failure to read it. A count is read
    /// for the total and for a probe, the sort key of the last document's
    /// source for the smallest and the largest key, and the documents with
    /// the last one's sort value for a page.
    pub open spec fn reading(self, tree: JsonValue) -> Result<(Reply, Seq<Seq<char>>), Seq<char>> {
        match self.plan.phase {
            Phase::Total | Phase::Probe { .. } => match count_of(tree) {
                Ok(n) => Ok((Reply::Count(n as i64), Seq::empty())),
                Err(message) => Err(message),
            },
            Phase::Lowest | Phase::Highest { .. } => match extreme_of(tree, self.sort) {
                Ok(Some(key)) => Ok((Reply::Extreme(Some(key as i64)), Seq::empty())),
                Ok(None) => Ok((Reply::Extreme(None), Seq::empty())),
                Err(message) => Err(message),
            },
            Phase::Page { .. } => match tree.hits() {
                None => Err(invalid_json_text()),
                Some(hits) => Ok(
                    (
                        Reply::Page {
                            hits: hits.len() as usize,
                            last_key: if hits.len() > 0 {
                                match cursor_of(hits.last()) {
                                    Ok(key) => Some(key as i64),
                                    Err(_) => None,
                                }
                            } else {
                                None
                            },
                        },
                        documents_of(hits),
                    ),
                ),
            },
        }
    }

    /// The message for a page whose last sort value was needed and could
    /// not be read.
    pub open spec fn cursor_failure(tree: JsonValue) -> Seq<char> {
        match tree.hits() {
            Some(hits) => match cursor_of(hits.last()) {
                Err(message) => message,
                Ok(_) => invalid_json_text(),
            },
            None => invalid_json_text(),
        }
    }

    /// The turn after `outcome`. A failure of the transport ends the
    /// search with its message, and so does a response that cannot be
    /// read. Otherwise the documents of the response join the list, the
    /// plan takes its step, and the search asks for the next request or
    /// ends with the list, turned round where the plan says so.
    pub open spec fn resumed(self, outcome: Result<Seq<char>, Seq<char>>) -> TurnView {
        match outcome {
            Err(message) => TurnView::Done(Err(message)),
            Ok(body) => match parsed(body) {
                None => TurnView::Done(Err(invalid_json_text())),
                Some(tree) => match self.reading(tree) {
                    Err(message) => TurnView::Done(Err(message)),
                    Ok((reply, documents)) => {
                        let list = self.list + documents;
                        match self.plan.next(reply).1 {
                            Move::Ask(_) => self.ask(self.plan.next(reply).0, list),
                            Move::Deliver { reversed } => TurnView::Done(
                                Ok(
                                    if reversed {
                                        list.reverse()
                                    } else {
                                        list
                                    },
                                ),
                            ),
                            Move::Fail => TurnView::Done(Err(Self::cursor_failure(tree))),
                        }
                    },
                },
            },
        }
    }
}

/// The first turn of a search. An empty index, an empty sort field and a
/// negative offset or size are refused, in this order; a size of zero ends
/// the search at once with no document; an empty query stands for the one
/// that matches everything.
pub open spec fn begun(
    index: Seq<char>,
    query: Seq<char>,
    source: Option<Seq<Seq<char>>>,
    sort: Seq<char>,
    asc: bool,
    from: i64,
    size: i64,
) -> TurnView {
    if index.len() == 0 {
        TurnView::Done(Err("index can not be empty."@))
    } else if sort.len() == 0 {
        TurnView::Done(Err("sort can not be empty."@))
    } else {
        match Plan::begin(asc, from, size) {
            None => TurnView::Done(Err("from and size can not be negative."@)),
            Some((plan, Move::Ask(_))) => (SessionView {
                index,
                query: if query.len() == 0 {
                    match_all_text()
                } else {
                    query
                },
                source,
                sort,
                plan,
                list: Seq::empty(),
            }).ask(plan, Seq::empty()),
            Some(_) => TurnView::Done(Ok(Seq::empty())),
        }
    }
}

/// The status of a response that carries an answer.
pub const STATUS_OK: u16 = 200;

/// What a session is told of a response that arrived: its body where the
/// status is 200, and with any other status the body as the message of a
/// failure.
pub fn response_outcome(status: u16, body: String) -> (out: Result<String, String>)
    ensures
        out == if status == STATUS_OK {
            Ok::<String, String>(body)
        } else {
            Err::<String, String>(body)
        },
{
    if status == STATUS_OK {
        Ok(body)
    } else {
        Err(body)
    }
}

/// The documents of `list` in reverse order.
pub fn reversed(list: Vec<String>) -> (out: Vec<String>)
    ensures
        texts_of(out@) == texts_of(list@).reverse(),
{
    let mut list = list;
    let ghost whole = list@;
    let mut out: Vec<String> = Vec::new();
    while list.len() > 0
        invariant
            list@ == whole.take(list.len() as int),
            out@.len() + list@.len() == whole.len(),
            forall|i: int| 0 <= i < out@.len() ==> out@[i] == whole[whole.len() - 1 - i],
        decreases list.len(),
    {
        let last = list.pop().unwrap();
        out.push(last);
    }
    assert(texts_of(out@) =~= texts_of(whole).reverse());
    out
}

impl Session {
    /// The plan of a session keeps its ranges.
    #[verifier::type_invariant]
    spec fn wf(self) -> bool {
        self.plan.wf()
    }

    /// Writes the request that the plan waits for.
    fn post(self) -> (out: Turn)
        ensures
            out@ == self@.ask(self.plan, texts_of(self.list@)),
            out matches Turn::Post { session, .. } && session@ == self@,
    {
        let request = self.plan.pending_request();
        let path = build_path(self.index.as_str(), request);
        let body = build_body(self.query.as_str(), &self.source, self.sort.as_str(), request);
        Turn::Post { session: self, path, body }
    }

    /// Begins a search on `index` for the `size` documents that follow the
    /// first `from` matches of `query`, sorted by the field `sort` in the
    /// direction `asc`, with the source fields that `source` selects.
    ///
    /// Every request that the session asks for is the pending request of
    /// its plan, and stays within the limits on offset and size.
    pub fn start(
        index: &str,
        query: &str,
        source: Option<Vec<String>>,
        sort: &str,
        asc: bool,
        from: i64,
        size: i64,
    ) -> (out: Turn)
        ensures
            out@ == begun(index@, query@, source_texts(source), sort@, asc, from, size),
            out matches Turn::Post { session, .. } ==> session@.plan.wf()
                && session@.plan.pending().within_limits(),
            out matches Turn::Done(Err(_)) <==> index@.len() == 0 || sort@.len() == 0 || from < 0
                || size < 0,
    {
        if index.is_empty() {
            return Turn::Done(Err(Error::Message("index can not be empty.".to_owned())));
        }
        if sort.is_empty() {
            return Turn::Done(Err(Error::Message("sort can not be empty.".to_owned())));
        }
        match Plan::start(asc, from, size) {
            None => Turn::Done(
                Err(Error::Message("from and size can not be negative.".to_owned())),
            ),
            Some((plan, Move::Ask(_))) => {
                let query = if query.is_empty() {
                    "{\"match_all\":{}}".to_owned()
                } else {
                    query.to_owned()
                };
                let session = Session {
                    index: index.to_owned(),
                    query,
                    source,
                    sort: sort.to_owned(),
                    plan,
                    list: Vec::new(),
                };
                assert(texts_of(session.list@) =~= Seq::empty());
                session.post()
            },
            Some(_) => {
                let list: Vec<String> = Vec::new();
                assert(texts_of(list@) =~= Seq::empty());
                Turn::Done(Ok(list))
            },
        }
    }

    /// Takes the outcome of the request that was asked for: the body of a
    /// response with status 200, or the message of a failure. Answers with
    /// the next request or with the end of the search.
    pub fn resume(self, outcome: Result<String, String>) -> (out: Turn)
        ensures
            out@ == self@.resumed(outcome_view(outcome)),
            out matches Turn::Post { session, .. } ==> session@.plan.wf()
                && session@.plan.pending().within_limits(),
    {
        proof {
            use_type_invariant(&self);
        }
        let body = match outcome {
            Ok(body) => body,
            Err(message) => {
                return Turn::Done(Err(Error::Message(message)));
            },
        };
        let tree = match read_response(body.as_str()) {
            Ok(tree) => tree,
            Err(e) => {
                return Turn::Done(Err(e));
            },
        };
        let Session { index, query, source, sort, plan, list } = self;
        let mut list = list;
        let mut failure: Option<Error> = None;
        let reply = match plan.phase {
            Phase::Total | Phase::Probe { .. } => match read_count(&tree) {
                Ok(n) => Reply::Count(n),
                Err(e) => {
                    return Turn::Done(Err(e));
                },
            },
            Phase::Lowest | Phase::Highest { .. } => match read_extreme(&tree, sort.as_str()) {
                Ok(key) => Reply::Extreme(key),
                Err(e) => {
                    return Turn::Done(Err(e));
                },
            },
            Phase::Page { .. } => {
                let hits = match tree.get_hits() {
                    Ok(hits) => hits,
                    Err(e) => {
                        return Turn::Done(Err(e));
                    },
                };
                gather(&mut list, hits);
                let last_key = if hits.len() > 0 {
                    match read_cursor(&hits[hits.len() - 1]) {
                        Ok(key) => Some(key),
                        Err(e) => {
                            failure = Some(e);
                            None
                        },
                    }
                } else {
                    None
                };
                Reply::Page { hits: hits.len(), last_key }
            },
        };
        assert(self@.reading(tree@) matches Ok((r, d)) && r == reply && texts_of(list@)
            == self@.list + d);
        let (next, mv) = plan.step(reply);
        match mv {
            Move::Ask(_) => (Session { index, query, source, sort, plan: next, list }).post(),
            Move::Deliver { reversed: turned } => {
                if turned {
                    Turn::Done(Ok(reversed(list)))
                } else {
                    Turn::Done(Ok(list))
                }
            },
            Move::Fail => match failure {
                Some(e) => Turn::Done(Err(e)),
                None => Turn::Done(Err(invalid_json())),
            },
        }
    }
}

} // verus!
