//! What a search delivers when the server answers as it should.

use vstd::prelude::*;
use crate::ideal::{
    admits,
    below,
    ideal_hits,
    ideal_reply,
    increasing,
    lemma_below,
    lemma_density,
    lemma_matching_span,
    matching,
    ordered,
    page,
    passed,
    run,
    search_keys,
    span,
    window,
};
use crate::plan::{Filter, MAX_FROM, MAX_SIZE, Move, Phase, Plan, Reply, Request};

verus! {

/// A list as it is delivered: turned round where the search ran backwards.
pub open spec fn turned(list: Seq<i64>, reversed: bool) -> Seq<i64> {
    if reversed {
        list.reverse()
    } else {
        list
    }
}

/// What is left of `s` after the first `from` elements.
pub open spec fn rest(s: Seq<i64>, from: int) -> Seq<i64> {
    if from < s.len() {
        s.skip(from)
    } else {
        Seq::empty()
    }
}

proof fn lemma_window_rest(s: Seq<i64>, from: int, size: int)
    requires
        0 <= from,
        0 <= size,
    ensures
        window(s, from, size) == rest(s, from).take(
            if size < rest(s, from).len() {
                size
            } else {
                rest(s, from).len() as int
            },
        ),
{
    assert(window(s, from, size) =~= rest(s, from).take(
        if size < rest(s, from).len() {
            size
        } else {
            rest(s, from).len() as int
        },
    ));
}

proof fn lemma_reverse_range(s: Seq<i64>, a: int, b: int)
    requires
        0 <= a <= b <= s.len(),
    ensures
        s.reverse().subrange(a, b).reverse() == s.subrange(s.len() - b, s.len() - a),
        s.reverse().reverse() == s,
{
    assert(s.reverse().subrange(a, b).reverse() =~= s.subrange(s.len() - b, s.len() - a));
    assert(s.reverse().reverse() =~= s);
}

/// The documents strictly beyond a key, in the direction of the search,
/// are the documents of the whole index after those that stand at or
/// before that key.
pub proof fn lemma_beyond(keys: Seq<i64>, asc: bool, key: i64)
    requires
        increasing(keys),
    ensures
        0 <= passed(keys, asc, key as int) <= keys.len(),
        ordered(matching(keys, Filter::Beyond { asc, key }), asc) == ordered(keys, asc).skip(
            passed(keys, asc, key as int),
        ),
{
    let filter = Filter::Beyond { asc, key };
    lemma_matching_span(keys, filter);
    lemma_below(keys, key + 1);
    lemma_below(keys, key as int);
    if asc {
        assert(keys.subrange(below(keys, key + 1), keys.len() as int) =~= keys.skip(
            below(keys, key + 1),
        ));
    } else {
        assert(keys.subrange(0, below(keys, key as int)).reverse() =~= keys.reverse().skip(
            keys.len() - below(keys, key as int),
        ));
    }
}

/// The document at position `i` in the direction of the search has `i`
/// documents before it.
pub proof fn lemma_passed_at(keys: Seq<i64>, asc: bool, i: int)
    requires
        increasing(keys),
        0 <= i < keys.len(),
    ensures
        passed(keys, asc, ordered(keys, asc)[i] as int) == i + 1,
{
    let key = ordered(keys, asc)[i];
    lemma_below(keys, key + 1);
    lemma_below(keys, key as int);
    if asc {
        let b = below(keys, key + 1);
        if b > i + 1 {
            assert(keys[i + 1] < key + 1);
        }
    } else {
        let at = keys.len() - 1 - i;
        assert(key == keys[at]);
        let b = below(keys, key as int);
        if b > at {
            assert(keys[at] < key);
        }
        if b < at {
            assert(keys[b] < key);
        }
    }
}

/// A count between the first key of the search and `mid` tells how many
/// documents stand at or before `mid`.
pub proof fn lemma_probe_count(keys: Seq<i64>, asc: bool, mid: i64)
    requires
        increasing(keys),
        keys.len() >= 1,
    ensures
        0 <= passed(keys, asc, mid as int) <= keys.len(),
        matching(
            keys,
            if asc {
                Filter::Between { lo: ordered(keys, asc)[0], hi: mid }
            } else {
                Filter::Between { lo: mid, hi: ordered(keys, asc)[0] }
            },
        ).len() == passed(keys, asc, mid as int),
{
    let start = ordered(keys, asc)[0];
    lemma_below(keys, mid + 1);
    lemma_below(keys, mid as int);
    if asc {
        let filter = Filter::Between { lo: start, hi: mid };
        lemma_matching_span(keys, filter);
        lemma_below(keys, start as int);
        if below(keys, start as int) > 0 {
            assert(keys[0] < start);
        }
    } else {
        let filter = Filter::Between { lo: mid, hi: start };
        lemma_matching_span(keys, filter);
        lemma_passed_at(keys, true, keys.len() - 1);
        assert(start == keys[keys.len() - 1]);
    }
}

/// The size of the page that is asked for when `remain` documents are
/// still wanted.
pub open spec fn batch_of(remain: i64) -> int {
    if remain < MAX_SIZE {
        remain as int
    } else {
        MAX_SIZE as int
    }
}

proof fn lemma_page_hits(keys: Seq<i64>, plan: Plan, at: int)
    requires
        plan.wf(),
        plan.phase is Page,
        0 <= at,
        rest(
            ordered(matching(keys, plan.phase->Page_filter), plan.asc),
            plan.phase->Page_from as int,
        ) == rest(ordered(keys, plan.asc), at),
    ensures
        ideal_hits(keys, plan.pending()) == window(
            ordered(keys, plan.asc),
            at,
            batch_of(plan.phase->Page_remain),
        ),
{
    let m = ordered(matching(keys, plan.phase->Page_filter), plan.asc);
    let batch = batch_of(plan.phase->Page_remain);
    lemma_window_rest(m, plan.phase->Page_from as int, batch);
    lemma_window_rest(ordered(keys, plan.asc), at, batch);
}

proof fn lemma_window_split(o: Seq<i64>, at: int, remain: i64)
    requires
        0 <= at,
        remain >= 1,
    ensures
        ({
            let hits = window(o, at, batch_of(remain));
            let h = hits.len() as int;
            &&& h <= MAX_SIZE
            &&& (h == 0 || h >= remain) ==> hits == window(o, at, remain as int)
            &&& 0 < h < remain ==> {
                &&& at + h <= o.len()
                &&& hits.last() == o[at + h - 1]
                &&& hits + window(o, at + h, remain - h) == window(o, at, remain as int)
            }
        }),
{
    let hits = window(o, at, batch_of(remain));
    let h = hits.len() as int;
    if h == 0 || h >= remain {
        assert(hits =~= window(o, at, remain as int));
    } else {
        assert(hits + window(o, at + h, remain - h) =~= window(o, at, remain as int));
    }
}

proof fn lemma_page_step(plan: Plan, h: int, last_key: Option<i64>)
    requires
        plan.wf(),
        plan.phase is Page,
        0 <= h <= MAX_SIZE,
    ensures
        ({
            let step = plan.next(Reply::Page { hits: h as usize, last_key });
            let remain = plan.phase->Page_remain;
            &&& (h == 0 || h >= remain) ==> step.1 == Move::Deliver { reversed: plan.reverse }
            &&& 0 < h < remain && last_key is Some ==> {
                &&& step.1 is Ask
                &&& step.0 == Plan {
                    phase: Phase::Page {
                        filter: Filter::Beyond { asc: plan.asc, key: last_key->0 },
                        from: 0,
                        remain: (remain - h) as i64,
                    },
                    ..plan
                }
            }
        }),
{
}

proof fn lemma_run_step(keys: Seq<i64>, plan: Plan, got: Seq<i64>, rounds: nat)
    ensures
        ({
            let request = plan.pending();
            let gathered = if request is Page {
                got + ideal_hits(keys, request)
            } else {
                got
            };
            let step = plan.next(ideal_reply(keys, request));
            run(keys, plan, got, rounds + 1) == match step.1 {
                Move::Ask(_) => run(keys, step.0, gathered, rounds),
                Move::Deliver { reversed } => Some(turned(gathered, reversed)),
                Move::Fail => None,
            }
        }),
{
}

/// Paging delivers the documents that stand at the wanted positions.
///
/// The pending page of `plan` is taken from the documents that follow the
/// first `at` of the index in the direction of the search. Then the search
/// ends after `rounds` requests, with what was gathered before and the
/// next `remain` documents from `at` on.
pub proof fn lemma_paging(keys: Seq<i64>, plan: Plan, got: Seq<i64>, at: int) -> (rounds: nat)
    requires
        increasing(keys),
        plan.wf(),
        plan.phase is Page,
        0 <= at,
        rest(
            ordered(matching(keys, plan.phase->Page_filter), plan.asc),
            plan.phase->Page_from as int,
        ) == rest(ordered(keys, plan.asc), at),
    ensures
        run(keys, plan, got, rounds) == Some(
            turned(
                got + window(ordered(keys, plan.asc), at, plan.phase->Page_remain as int),
                plan.reverse,
            ),
        ),
    decreases plan.phase->Page_remain,
{
    let remain = plan.phase->Page_remain;
    let o = ordered(keys, plan.asc);
    let request = plan.pending();
    let hits = ideal_hits(keys, request);
    let h = hits.len() as int;
    lemma_page_hits(keys, plan, at);
    lemma_window_split(o, at, remain);
    let last_key = if h > 0 {
        Some(hits.last())
    } else {
        None
    };
    assert(request is Page);
    assert(ideal_reply(keys, request) == Reply::Page { hits: h as usize, last_key });
    lemma_page_step(plan, h, last_key);
    let step = plan.next(ideal_reply(keys, request));
    if h == 0 || h >= remain {
        lemma_run_step(keys, plan, got, 0);
        1
    } else {
        let last = hits.last();
        let next = step.0;
        assert(next_page_ready(keys, plan, at, h, last, next)) by {
            lemma_passed_at(keys, plan.asc, at + h - 1);
            lemma_beyond(keys, plan.asc, last);
            let m2 = ordered(
                matching(keys, Filter::Beyond { asc: plan.asc, key: last }),
                plan.asc,
            );
            assert(rest(m2, 0) =~= rest(o, at + h));
        }
        let more = lemma_paging(keys, next, got + hits, at + h);
        assert((got + hits) + window(o, at + h, remain - h) =~= got + window(
            o,
            at,
            remain as int,
        ));
        lemma_run_step(keys, plan, got, more);
        more + 1
    }
}

/// The next page starts where the last one ended.
pub open spec fn next_page_ready(
    keys: Seq<i64>,
    plan: Plan,
    at: int,
    h: int,
    last: i64,
    next: Plan,
) -> bool {
    rest(ordered(matching(keys, next.phase->Page_filter), next.asc), next.phase->Page_from as int)
        == rest(ordered(keys, next.asc), at + h)
}

/// The search for a boundary ends in paging from the wanted offset.
///
/// `near` has at least `MAX_FROM` documents too few at or before it, and
/// `far` has too many. Then probing between the two ends after `rounds`
/// requests with the documents from the wanted offset on.
pub proof fn lemma_probing(
    keys: Seq<i64>,
    plan: Plan,
    start: i64,
    rising: bool,
    near: i64,
    far: i64,
) -> (rounds: nat)
    requires
        increasing(keys),
        1 <= keys.len() <= i64::MAX,
        plan.sized(),
        plan.from > MAX_FROM,
        start == ordered(keys, plan.asc)[0],
        rising == plan.asc,
        plan.asc ==> near <= far,
        !plan.asc ==> near >= far,
        plan.from - passed(keys, plan.asc, near as int) >= MAX_FROM,
        passed(keys, plan.asc, far as int) > plan.from,
    ensures
        plan.open_probe(start, rising, near, far).1 is Ask,
        run(keys, plan.open_probe(start, rising, near, far).0, Seq::empty(), rounds) == Some(
            turned(
                window(ordered(keys, plan.asc), plan.from as int, plan.size as int),
                plan.reverse,
            ),
        ),
    decreases
            if near <= far {
                far - near
            } else {
                near - far
            },
{
    let asc = plan.asc;
    let o = ordered(keys, asc);
    let gap = if near <= far {
        far - near
    } else {
        near - far
    };
    let low = if near <= far {
        near
    } else {
        far
    };
    if asc {
        lemma_density(keys, near + 1, far + 1);
    } else {
        lemma_density(keys, far as int, near as int);
    }
    assert(gap >= 2);
    let mid = (low + gap / 2) as i64;
    let probing = plan.open_probe(start, rising, near, far).0;
    assert(probing.phase == Phase::Probe { start, rising, near, far, mid });
    let request = probing.pending();
    lemma_probe_count(keys, asc, mid);
    let count = passed(keys, asc, mid as int);
    assert(ideal_reply(keys, request) == Reply::Count(count as i64));
    let step = probing.next(ideal_reply(keys, request));
    assert(step == probing.after_probe(start, rising, near, far, mid, count as i64));
    let left = plan.from - count;
    lemma_below(keys, far + 1);
    lemma_below(keys, far as int);
    if left < 0 {
        let more = lemma_probing(keys, probing, start, rising, near, mid);
        assert(run(keys, probing, Seq::empty(), more + 1) == run(
            keys,
            step.0,
            Seq::empty(),
            more,
        ));
        more + 1
    } else if left <= MAX_FROM {
        let filter = Filter::Beyond { asc, key: mid };
        lemma_beyond(keys, asc, mid);
        let paging = step.0;
        assert(paging.phase == Phase::Page { filter, from: left as i64, remain: plan.size });
        let m = ordered(matching(keys, filter), asc);
        assert(rest(m, left) =~= rest(o, plan.from as int));
        let more = lemma_paging(keys, paging, Seq::empty(), plan.from as int);
        assert(Seq::<i64>::empty() + window(o, plan.from as int, plan.size as int) =~= window(
            o,
            plan.from as int,
            plan.size as int,
        ));
        assert(run(keys, probing, Seq::empty(), more + 1) == run(
            keys,
            step.0,
            Seq::empty(),
            more,
        ));
        more + 1
    } else {
        let more = lemma_probing(keys, probing, start, rising, mid, far);
        assert(run(keys, probing, Seq::empty(), more + 1) == run(
            keys,
            step.0,
            Seq::empty(),
            more,
        ));
        more + 1
    }
}

/// Once direction, offset and size are settled, the search delivers the
/// documents at the wanted positions in that direction.
pub proof fn lemma_open_search(keys: Seq<i64>, plan: Plan) -> (rounds: nat)
    requires
        increasing(keys),
        keys.len() <= i64::MAX,
        plan.sized(),
        plan.from <= MAX_FROM || plan.from < keys.len(),
    ensures
        plan.open_search().1 is Ask,
        run(keys, plan.open_search().0, Seq::empty(), rounds) == Some(
            turned(
                window(ordered(keys, plan.asc), plan.from as int, plan.size as int),
                plan.reverse,
            ),
        ),
{
    let asc = plan.asc;
    let o = ordered(keys, asc);
    let n = keys.len() as int;
    if plan.from > MAX_FROM {
        let lowest = plan.open_search().0;
        assert(lowest.phase == Phase::Lowest);
        lemma_matching_span(keys, Filter::Whole);
        assert(ideal_hits(keys, lowest.pending()) =~= seq![keys[0]]);
        let second = lowest.next(ideal_reply(keys, lowest.pending()));
        let highest = second.0;
        assert(highest.phase == Phase::Highest { lowest: keys[0] });
        assert(ideal_hits(keys, highest.pending()) =~= seq![keys[n - 1]]);
        let third = highest.next(ideal_reply(keys, highest.pending()));
        lemma_passed_at(keys, asc, 0);
        lemma_passed_at(keys, asc, n - 1);
        assert(keys[0] < keys[n - 1]);
        let more = if asc {
            lemma_probing(keys, highest, keys[0], true, keys[0], keys[n - 1])
        } else {
            lemma_probing(keys, highest, keys[n - 1], false, keys[n - 1], keys[0])
        };
        assert(run(keys, highest, Seq::empty(), more + 1) == run(
            keys,
            third.0,
            Seq::empty(),
            more,
        ));
        assert(run(keys, lowest, Seq::empty(), more + 2) == run(
            keys,
            highest,
            Seq::empty(),
            (more + 1) as nat,
        ));
        more + 2
    } else {
        let paging = plan.open_search().0;
        lemma_matching_span(keys, Filter::Whole);
        assert(matching(keys, Filter::Whole) =~= keys);
        let more = lemma_paging(keys, paging, Seq::empty(), plan.from as int);
        assert(Seq::<i64>::empty() + window(o, plan.from as int, plan.size as int) =~= window(
            o,
            plan.from as int,
            plan.size as int,
        ));
        more
    }
}

/// A search delivers what the server would answer to the caller's own
/// request if it knew no limit.
///
/// For an index of distinct keys and any offset and size that are not
/// negative, the search ends after `rounds` requests, and the documents
/// that it delivers are those that follow the first `from` in the
/// direction `asc`, `size` of them or as many as there are, in that order.
pub proof fn lemma_search_is_direct(keys: Seq<i64>, asc: bool, from: i64, size: i64) -> (rounds:
    nat)
    requires
        increasing(keys),
        keys.len() <= i64::MAX,
        from >= 0,
        size >= 0,
    ensures
        search_keys(keys, asc, from, size, rounds) == Some(
            page(keys, Filter::Whole, asc, from as int, size as int),
        ),
{
    let o = ordered(keys, asc);
    let n = keys.len() as int;
    lemma_matching_span(keys, Filter::Whole);
    assert(matching(keys, Filter::Whole) =~= keys);
    let plan = Plan { asc, reverse: false, from, size, phase: Phase::Total };
    if size == 0 {
        assert(window(o, from as int, 0) =~= Seq::empty());
        0
    } else if from <= MAX_FROM {
        let more = lemma_open_search(keys, plan);
        more
    } else {
        assert(ideal_reply(keys, plan.pending()) == Reply::Count(n as i64));
        let step = plan.next(ideal_reply(keys, plan.pending()));
        assert(step == plan.after_total(n as i64));
        if n == 0 || from >= n {
            assert(window(o, from as int, size as int) =~= Seq::empty());
            assert(run(keys, plan, Seq::empty(), 1) == Some(Seq::<i64>::empty()));
            1
        } else if from > n - from {
            let gap = n - from - size;
            let back = Plan {
                asc: !asc,
                reverse: true,
                from: if gap < 0 {
                    0
                } else {
                    gap as i64
                },
                size: if gap < 0 {
                    (size + gap) as i64
                } else {
                    size
                },
                phase: Phase::Total,
            };
            let more = lemma_open_search(keys, back);
            let behind = ordered(keys, !asc);
            assert(behind =~= o.reverse());
            lemma_reverse_range(o, back.from as int, back.from + back.size);
            assert(window(behind, back.from as int, back.size as int) =~= o.reverse().subrange(
                back.from as int,
                back.from + back.size,
            ));
            assert(window(o, from as int, size as int) =~= o.subrange(
                n - (back.from + back.size),
                n - back.from,
            ));
            assert(run(keys, plan, Seq::empty(), more + 1) == run(
                keys,
                step.0,
                Seq::empty(),
                more,
            ));
            more + 1
        } else {
            let more = lemma_open_search(keys, plan);
            assert(run(keys, plan, Seq::empty(), more + 1) == run(
                keys,
                step.0,
                Seq::empty(),
                more,
            ));
            more + 1
        }
    }
}

/// The index whose keys are the numbers from 1 to `n`.
pub open spec fn dense(n: nat) -> Seq<i64> {
    Seq::new(n, |i: int| (i + 1) as i64)
}

/// A window that fits in the index is delivered whole: exactly `size`
/// documents, the one at position `i` being the document at position
/// `from + i` of the index in the direction `asc`.
pub proof fn lemma_full_window(keys: Seq<i64>, asc: bool, from: i64, size: i64) -> (rounds: nat)
    requires
        increasing(keys),
        keys.len() <= i64::MAX,
        from >= 0,
        size >= 0,
        from + size <= keys.len(),
    ensures
        search_keys(keys, asc, from, size, rounds) matches Some(list) && list.len() == size
            && forall|i: int| 0 <= i < size ==> list[i] == ordered(keys, asc)[from + i],
{
    let rounds = lemma_search_is_direct(keys, asc, from, size);
    lemma_matching_span(keys, Filter::Whole);
    assert(matching(keys, Filter::Whole) =~= keys);
    rounds
}

/// On the index of the keys 1 to `n`, a window that fits is delivered as
/// the keys `from + 1` to `from + size` when ascending, and as the keys
/// `n - from` down to `n - from - size + 1` when descending.
pub proof fn lemma_dense_window(n: nat, asc: bool, from: i64, size: i64) -> (rounds: nat)
    requires
        n <= i64::MAX,
        from >= 0,
        size >= 0,
        from + size <= n,
    ensures
        search_keys(dense(n), asc, from, size, rounds) matches Some(list) && list.len() == size
            && forall|i: int|
            0 <= i < size ==> list[i] == if asc {
                from + 1 + i
            } else {
                n - from - i
            },
{
    assert(increasing(dense(n)));
    lemma_full_window(dense(n), asc, from, size)
}

/// A window that reaches past the end of the index is clipped: the search
/// delivers the documents from position `from` to the end, and no more.
pub proof fn lemma_clipped_window(keys: Seq<i64>, asc: bool, from: i64, size: i64) -> (rounds:
    nat)
    requires
        increasing(keys),
        keys.len() <= i64::MAX,
        from >= 0,
        size >= 0,
        from < keys.len() < from + size,
    ensures
        search_keys(keys, asc, from, size, rounds) matches Some(list) && list.len() == keys.len()
            - from && forall|i: int|
            0 <= i < keys.len() - from ==> list[i] == ordered(keys, asc)[from + i],
{
    let rounds = lemma_search_is_direct(keys, asc, from, size);
    lemma_matching_span(keys, Filter::Whole);
    assert(matching(keys, Filter::Whole) =~= keys);
    rounds
}

/// What a search delivers is sorted in the direction that the caller asked
/// for, whether or not the search ran backwards: strictly rising keys when
/// ascending, strictly falling keys when descending.
pub proof fn lemma_delivered_in_order(keys: Seq<i64>, asc: bool, from: i64, size: i64) -> (rounds:
    nat)
    requires
        increasing(keys),
        keys.len() <= i64::MAX,
        from >= 0,
        size >= 0,
    ensures
        search_keys(keys, asc, from, size, rounds) matches Some(list) && forall|i: int, j: int|
            0 <= i < j < list.len() ==> if asc {
                list[i] < list[j]
            } else {
                list[i] > list[j]
            },
{
    let rounds = lemma_search_is_direct(keys, asc, from, size);
    lemma_matching_span(keys, Filter::Whole);
    assert(matching(keys, Filter::Whole) =~= keys);
    rounds
}

proof fn lemma_one_more_round(keys: Seq<i64>, plan: Plan, got: Seq<i64>, rounds: nat)
    requires
        run(keys, plan, got, rounds) is Some,
    ensures
        run(keys, plan, got, rounds + 1) == run(keys, plan, got, rounds),
    decreases rounds,
{
    if rounds > 0 {
        lemma_run_step(keys, plan, got, (rounds - 1) as nat);
        lemma_run_step(keys, plan, got, rounds);
        let request = plan.pending();
        let step = plan.next(ideal_reply(keys, request));
        if step.1 is Ask {
            let gathered = if request is Page {
                got + ideal_hits(keys, request)
            } else {
                got
            };
            lemma_one_more_round(keys, step.0, gathered, (rounds - 1) as nat);
        }
    }
}

proof fn lemma_more_rounds(keys: Seq<i64>, plan: Plan, got: Seq<i64>, rounds: nat, later: nat)
    requires
        run(keys, plan, got, rounds) is Some,
        rounds <= later,
    ensures
        run(keys, plan, got, later) == run(keys, plan, got, rounds),
    decreases later - rounds,
{
    if rounds < later {
        lemma_more_rounds(keys, plan, got, rounds, (later - 1) as nat);
        lemma_one_more_round(keys, plan, got, (later - 1) as nat);
    }
}

/// Two searches with the same parameters on the same index deliver the
/// same list, however many requests each was allowed.
pub proof fn lemma_same_answer(
    keys: Seq<i64>,
    asc: bool,
    from: i64,
    size: i64,
    first: nat,
    second: nat,
)
    requires
        search_keys(keys, asc, from, size, first) is Some,
        search_keys(keys, asc, from, size, second) is Some,
    ensures
        search_keys(keys, asc, from, size, first) == search_keys(keys, asc, from, size, second),
{
    match Plan::begin(asc, from, size) {
        Some((plan, Move::Ask(_))) => {
            if first <= second {
                lemma_more_rounds(keys, plan, Seq::empty(), first, second);
            } else {
                lemma_more_rounds(keys, plan, Seq::empty(), second, first);
            }
        },
        _ => {},
    }
}

} // verus!
