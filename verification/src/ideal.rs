//! A search carried out against a server that answers as it should.
//!
//! The server is an index of documents with distinct sort keys. It counts
//! and pages without any limit on offset or size, so what it would answer
//! to the caller's own request is the measure of what a search returns.

use vstd::prelude::*;
use crate::plan::{Filter, Move, Plan, Reply, Request};

verus! {

/// The keys stand in strictly increasing order: no key occurs twice.
pub open spec fn increasing(keys: Seq<i64>) -> bool {
    forall|i: int, j: int| 0 <= i < j < keys.len() ==> keys[i] < keys[j]
}

/// Whether a document with the sort key `key` passes `filter`.
pub open spec fn admits(filter: Filter, key: i64) -> bool {
    match filter {
        Filter::Whole => true,
        Filter::Between { lo, hi } => lo <= key <= hi,
        Filter::Beyond { asc, key: bound } => if asc {
            key > bound
        } else {
            key < bound
        },
    }
}

/// The keys that pass `filter`, in the order of `keys`.
pub open spec fn matching(keys: Seq<i64>, filter: Filter) -> Seq<i64>
    decreases keys.len(),
{
    if keys.len() == 0 {
        Seq::empty()
    } else if admits(filter, keys.last()) {
        matching(keys.drop_last(), filter).push(keys.last())
    } else {
        matching(keys.drop_last(), filter)
    }
}

/// Increasing keys in the direction `asc`: as they are, or turned round.
pub open spec fn ordered(keys: Seq<i64>, asc: bool) -> Seq<i64> {
    if asc {
        keys
    } else {
        keys.reverse()
    }
}

/// At most `size` elements of `s` after the first `from`.
pub open spec fn window(s: Seq<i64>, from: int, size: int) -> Seq<i64> {
    let start = if from < s.len() {
        from
    } else {
        s.len() as int
    };
    let end = if from + size < s.len() {
        from + size
    } else {
        s.len() as int
    };
    s.subrange(start, end)
}

/// The keys of the documents that the server returns for a search under
/// `filter` in the direction `asc`, from offset `from` and of `size`.
pub open spec fn page(keys: Seq<i64>, filter: Filter, asc: bool, from: int, size: int) -> Seq<
    i64,
> {
    window(ordered(matching(keys, filter), asc), from, size)
}

/// The keys of the documents that the server returns for `request`; none
/// for a count.
pub open spec fn ideal_hits(keys: Seq<i64>, request: Request) -> Seq<i64> {
    match request {
        Request::Count { .. } => Seq::empty(),
        Request::Extreme { asc } => page(keys, Filter::Whole, asc, 0, 1),
        Request::Page { filter, asc, from, size } => page(keys, filter, asc, from as int, size as int),
    }
}

/// What the server answers to `request`.
pub open spec fn ideal_reply(keys: Seq<i64>, request: Request) -> Reply {
    let hits = ideal_hits(keys, request);
    match request {
        Request::Count { filter } => Reply::Count(matching(keys, filter).len() as i64),
        Request::Extreme { .. } => Reply::Extreme(
            if hits.len() > 0 {
                Some(hits.last())
            } else {
                None
            },
        ),
        Request::Page { .. } => Reply::Page {
            hits: hits.len() as usize,
            last_key: if hits.len() > 0 {
                Some(hits.last())
            } else {
                None
            },
        },
    }
}

/// The keys of the documents that a search delivers when the server
/// answers each request of `plan` as it should, `got` being the keys
/// gathered before; `None` where the search fails or is not over after
/// `rounds` requests.
pub open spec fn run(keys: Seq<i64>, plan: Plan, got: Seq<i64>, rounds: nat) -> Option<Seq<i64>>
    decreases rounds,
{
    if rounds == 0 {
        None
    } else {
        let request = plan.pending();
        let gathered = match request {
            Request::Page { .. } => got + ideal_hits(keys, request),
            _ => got,
        };
        let step = plan.next(ideal_reply(keys, request));
        match step.1 {
            Move::Ask(_) => run(keys, step.0, gathered, (rounds - 1) as nat),
            Move::Deliver { reversed } => Some(
                if reversed {
                    gathered.reverse()
                } else {
                    gathered
                },
            ),
            Move::Fail => None,
        }
    }
}

/// The keys of the documents that a search for `size` documents after
/// `from` in the direction `asc` delivers, within `rounds` requests.
pub open spec fn search_keys(keys: Seq<i64>, asc: bool, from: i64, size: i64, rounds: nat) -> Option<
    Seq<i64>,
> {
    match Plan::begin(asc, from, size) {
        None => None,
        Some((plan, Move::Ask(_))) => run(keys, plan, Seq::empty(), rounds),
        Some((_, Move::Deliver { .. })) => Some(Seq::empty()),
        Some((_, Move::Fail)) => None,
    }
}

/// How many of `keys` are less than `bound`.
pub open spec fn below(keys: Seq<i64>, bound: int) -> int
    decreases keys.len(),
{
    if keys.len() == 0 {
        0
    } else if keys.last() < bound {
        below(keys.drop_last(), bound) + 1
    } else {
        below(keys.drop_last(), bound)
    }
}

/// The positions in `keys` of the keys that pass `filter`: from the first
/// of the pair up to, and without, the second.
pub open spec fn span(keys: Seq<i64>, filter: Filter) -> (int, int) {
    match filter {
        Filter::Whole => (0, keys.len() as int),
        Filter::Between { lo, hi } => (
            below(keys, lo as int),
            if below(keys, hi + 1) < below(keys, lo as int) {
                below(keys, lo as int)
            } else {
                below(keys, hi + 1)
            },
        ),
        Filter::Beyond { asc, key } => if asc {
            (below(keys, key + 1), keys.len() as int)
        } else {
            (0, below(keys, key as int))
        },
    }
}

/// How many documents stand at or before the key `key` in the direction
/// `asc`.
pub open spec fn passed(keys: Seq<i64>, asc: bool, key: int) -> int {
    if asc {
        below(keys, key + 1)
    } else {
        keys.len() - below(keys, key)
    }
}

/// In increasing keys, those less than a bound are exactly the first
/// `below` ones.
pub proof fn lemma_below(keys: Seq<i64>, bound: int)
    requires
        increasing(keys),
    ensures
        0 <= below(keys, bound) <= keys.len(),
        forall|i: int| 0 <= i < keys.len() ==> (i < below(keys, bound) <==> keys[i] < bound),
    decreases keys.len(),
{
    if keys.len() > 0 {
        let front = keys.drop_last();
        lemma_below(front, bound);
        assert(forall|i: int| 0 <= i < front.len() ==> front[i] == keys[i]);
        if keys.last() < bound {
            if front.len() > 0 {
                assert(front[front.len() - 1] < bound);
            }
        }
    }
}

/// Where a filter admits exactly the keys at the positions from `a` up to
/// `b`, those keys are what matches.
pub proof fn lemma_matching_range(keys: Seq<i64>, filter: Filter, a: int, b: int)
    requires
        0 <= a <= b <= keys.len(),
        forall|i: int| 0 <= i < keys.len() ==> (admits(filter, keys[i]) <==> a <= i < b),
    ensures
        matching(keys, filter) == keys.subrange(a, b),
    decreases keys.len(),
{
    if keys.len() == 0 {
        assert(matching(keys, filter) =~= keys.subrange(a, b));
    } else {
        let front = keys.drop_last();
        let n = front.len() as int;
        let a1 = if a < n {
            a
        } else {
            n
        };
        let b1 = if b < n {
            b
        } else {
            n
        };
        assert(forall|i: int| 0 <= i < front.len() ==> front[i] == keys[i]);
        lemma_matching_range(front, filter, a1, b1);
        if admits(filter, keys.last()) {
            assert(a <= n < b);
            assert(front.subrange(a1, b1).push(keys.last()) =~= keys.subrange(a, b));
        } else {
            assert(front.subrange(a1, b1) =~= keys.subrange(a, b));
        }
    }
}

/// In increasing keys, what matches a filter is the stretch of keys that
/// its span names.
pub proof fn lemma_matching_span(keys: Seq<i64>, filter: Filter)
    requires
        increasing(keys),
    ensures
        0 <= span(keys, filter).0 <= span(keys, filter).1 <= keys.len(),
        matching(keys, filter) == keys.subrange(span(keys, filter).0, span(keys, filter).1),
{
    match filter {
        Filter::Whole => {
            lemma_matching_range(keys, filter, 0, keys.len() as int);
            assert(keys.subrange(0, keys.len() as int) =~= keys);
        },
        Filter::Between { lo, hi } => {
            lemma_below(keys, lo as int);
            lemma_below(keys, hi + 1);
            lemma_matching_range(keys, filter, span(keys, filter).0, span(keys, filter).1);
        },
        Filter::Beyond { asc, key } => {
            lemma_below(keys, key + 1);
            lemma_below(keys, key as int);
            lemma_matching_range(keys, filter, span(keys, filter).0, span(keys, filter).1);
        },
    }
}

/// Increasing keys lie at least as far apart as their positions.
pub proof fn lemma_spread(keys: Seq<i64>, i: int, j: int)
    requires
        increasing(keys),
        0 <= i <= j < keys.len(),
    ensures
        keys[j] - keys[i] >= j - i,
    decreases j - i,
{
    if i < j {
        lemma_spread(keys, i, j - 1);
    }
}

/// Between two bounds lie no more keys than integers.
pub proof fn lemma_density(keys: Seq<i64>, a: int, b: int)
    requires
        increasing(keys),
        a <= b,
    ensures
        below(keys, a) <= below(keys, b),
        below(keys, b) - below(keys, a) <= b - a,
{
    lemma_below(keys, a);
    lemma_below(keys, b);
    let p = below(keys, a);
    let q = below(keys, b);
    if p < q {
        lemma_spread(keys, p, q - 1);
    } else if q < p {
        assert(keys[q] < a);
    }
}

} // verus!
