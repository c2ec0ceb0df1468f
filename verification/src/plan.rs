//! The decisions of a deep-paging search, over plain integers.
//!
//! A [`Plan`] knows which request is pending and, from the reply to it,
//! which request comes next. It never asks the server to skip more than
//! [`MAX_FROM`] documents or to return more than [`MAX_SIZE`].

use vstd::prelude::*;

verus! {

/// The largest offset that a request to the server carries.
pub const MAX_FROM: i64 = 2000;

/// The largest number of documents that a request to the server asks for.
pub const MAX_SIZE: i64 = 3000;

/// A restriction of the caller's query by the sort key.
#[derive(Clone, Copy, PartialEq, Eq, Structural, Debug)]
pub enum Filter {
    /// The caller's query as it is.
    Whole,
    /// Keys from `lo` to `hi`, both included.
    Between { lo: i64, hi: i64 },
    /// Keys strictly after `key` in the direction `asc`: greater when
    /// ascending, less when descending.
    Beyond { asc: bool, key: i64 },
}

/// What the server is asked.
#[derive(Clone, Copy, PartialEq, Eq, Structural, Debug)]
pub enum Request {
    /// How many documents match under `filter`.
    Count { filter: Filter },
    /// The first document of the whole query in the direction `asc`, with
    /// its sort key as the only source field.
    Extreme { asc: bool },
    /// `size` documents under `filter`, after skipping `from`, sorted in
    /// the direction `asc`.
    Page { filter: Filter, asc: bool, from: i64, size: i64 },
}

/// What the server answered, reduced to what the decisions need.
#[derive(Clone, Copy, PartialEq, Eq, Structural, Debug)]
pub enum Reply {
    /// The answer to a `Count`.
    Count(i64),
    /// The answer to an `Extreme`: the sort key of the document, if there
    /// was one.
    Extreme(Option<i64>),
    /// The answer to a `Page`: how many documents came, and the sort key of
    /// the last one where it could be read.
    Page { hits: usize, last_key: Option<i64> },
}

/// What to do next.
#[derive(Clone, Copy, PartialEq, Eq, Structural, Debug)]
pub enum Move {
    /// Send this request and come back with the reply.
    Ask(Request),
    /// The search is over: hand out the documents gathered so far, in
    /// reverse order when `reversed`.
    Deliver { reversed: bool },
    /// The search cannot go on: the reply was of the wrong kind, or the
    /// sort key of the last document was needed and could not be read.
    Fail,
}

/// Which reply a plan waits for.
#[derive(Clone, Copy, PartialEq, Eq, Structural, Debug)]
pub enum Phase {
    /// The count of all matching documents.
    Total,
    /// The smallest sort key.
    Lowest,
    /// The largest sort key, the smallest being `lowest`.
    Highest { lowest: i64 },
    /// The count of the keys between `start` and `mid`, in a search for a
    /// boundary between `near` and `far`. `rising` tells whether the keys
    /// grow from the start of the search to its end.
    Probe { start: i64, rising: bool, near: i64, far: i64, mid: i64 },
    /// A page of documents under `filter` from offset `from`, with `remain`
    /// documents still to gather.
    Page { filter: Filter, from: i64, remain: i64 },
}

/// The state of one search between two requests.
#[derive(Clone, Copy, PartialEq, Eq, Structural, Debug)]
pub struct Plan {
    /// The direction in which the server is asked to sort.
    pub asc: bool,
    /// Whether that direction is the opposite of the caller's.
    pub reverse: bool,
    /// How many documents to skip in that direction.
    pub from: i64,
    /// How many documents to gather.
    pub size: i64,
    /// The reply that is awaited.
    pub phase: Phase,
}

/// Whether `near` and `far` lie more than one apart and `mid` is the key
/// halfway between them: the smaller of the two plus half their distance,
/// rounded down. Such a key lies strictly between the two.
pub open spec fn is_middle(near: i64, far: i64, mid: i64) -> bool {
    if near <= far {
        far - near >= 2 && mid == near + (far - near) / 2
    } else {
        near - far >= 2 && mid == far + (near - far) / 2
    }
}

impl Request {
    /// A request respects the limits when it skips at most `MAX_FROM` and
    /// asks for between one and `MAX_SIZE` documents.
    pub open spec fn within_limits(self) -> bool {
        match self {
            Request::Count { .. } => true,
            Request::Extreme { .. } => true,
            Request::Page { from, size, .. } => 0 <= from <= MAX_FROM && 1 <= size <= MAX_SIZE,
        }
    }
}

impl Plan {
    /// A plan skips no negative number of documents and gathers at least
    /// one.
    pub open spec fn sized(self) -> bool {
        self.from >= 0 && self.size >= 1
    }

    /// The ranges that the fields of a plan keep.
    pub open spec fn wf(self) -> bool {
        &&& self.sized()
        &&& match self.phase {
            Phase::Total => self.from > MAX_FROM && !self.reverse,
            Phase::Lowest => self.from > MAX_FROM,
            Phase::Highest { .. } => self.from > MAX_FROM,
            Phase::Probe { near, far, mid, .. } => self.from > MAX_FROM && is_middle(
                near,
                far,
                mid,
            ),
            Phase::Page { from, remain, .. } => 0 <= from <= MAX_FROM && remain >= 1,
        }
    }

    /// The request whose reply the plan waits for.
    pub open spec fn pending(self) -> Request {
        match self.phase {
            Phase::Total => Request::Count { filter: Filter::Whole },
            Phase::Lowest => Request::Extreme { asc: true },
            Phase::Highest { .. } => Request::Extreme { asc: false },
            Phase::Probe { start, rising, mid, .. } => Request::Count {
                filter: if rising {
                    Filter::Between { lo: start, hi: mid }
                } else {
                    Filter::Between { lo: mid, hi: start }
                },
            },
            Phase::Page { filter, from, remain } => Request::Page {
                filter,
                asc: self.asc,
                from,
                size: if remain < MAX_SIZE {
                    remain
                } else {
                    MAX_SIZE
                },
            },
        }
    }

    /// Starts gathering `self.size` documents under `filter` from offset
    /// `from`.
    pub open spec fn open_page(self, filter: Filter, from: i64) -> (Plan, Move) {
        let plan = Plan { phase: Phase::Page { filter, from, remain: self.size }, ..self };
        (plan, Move::Ask(plan.pending()))
    }

    /// Continues the search for a boundary between `near`, which lies at or
    /// before the wanted offset, and `far`, which lies after it. The middle
    /// key is probed next; where the two are one apart or less, the smaller
    /// of them becomes the boundary and their distance the offset.
    pub open spec fn open_probe(self, start: i64, rising: bool, near: i64, far: i64) -> (
        Plan,
        Move,
    ) {
        let low = if near <= far {
            near
        } else {
            far
        };
        let gap = if near <= far {
            far - near
        } else {
            near - far
        };
        if gap <= 1 {
            self.open_page(Filter::Beyond { asc: self.asc, key: low }, gap as i64)
        } else {
            let plan = Plan {
                phase: Phase::Probe { start, rising, near, far, mid: (low + gap / 2) as i64 },
                ..self
            };
            (plan, Move::Ask(plan.pending()))
        }
    }

    /// Goes on once direction, offset and size are settled: an offset within
    /// the limit is paged directly, a larger one is collapsed first.
    pub open spec fn open_search(self) -> (Plan, Move) {
        if self.from > MAX_FROM {
            let plan = Plan { phase: Phase::Lowest, ..self };
            (plan, Move::Ask(plan.pending()))
        } else {
            self.open_page(Filter::Whole, self.from)
        }
    }

    /// The first step of a search for `size` documents after `from` in the
    /// direction `asc`; `None` where `from` or `size` is negative.
    pub open spec fn begin(asc: bool, from: i64, size: i64) -> Option<(Plan, Move)> {
        let plan = Plan { asc, reverse: false, from, size, phase: Phase::Total };
        if from < 0 || size < 0 {
            None
        } else if size == 0 {
            Some((plan, Move::Deliver { reversed: false }))
        } else if from > MAX_FROM {
            Some((plan, Move::Ask(plan.pending())))
        } else {
            Some(plan.open_page(Filter::Whole, from))
        }
    }

    /// The step after the count of all matching documents. An offset at or
    /// past the total ends the search. An offset past the middle turns the
    /// search round: it then runs in the other direction, from the offset
    /// counted from the far end, and for no more documents than lie between
    /// the wanted offset and that end.
    pub open spec fn after_total(self, total: i64) -> (Plan, Move) {
        if total == 0 || self.from >= total {
            (self, Move::Deliver { reversed: false })
        } else if self.from > total - self.from {
            let gap = total - self.from - self.size;
            let plan = Plan {
                asc: !self.asc,
                reverse: true,
                from: if gap < 0 {
                    0
                } else {
                    gap as i64
                },
                size: if gap < 0 {
                    (self.size + gap) as i64
                } else {
                    self.size
                },
                phase: self.phase,
            };
            plan.open_search()
        } else {
            self.open_search()
        }
    }

    /// The step after the count of the keys between the start and `mid`.
    pub open spec fn after_probe(
        self,
        start: i64,
        rising: bool,
        near: i64,
        far: i64,
        mid: i64,
        count: i64,
    ) -> (Plan, Move) {
        let left = self.from - count;
        if left < 0 {
            self.open_probe(start, rising, near, mid)
        } else if left <= MAX_FROM {
            self.open_page(Filter::Beyond { asc: self.asc, key: mid }, left as i64)
        } else {
            self.open_probe(start, rising, mid, far)
        }
    }

    /// The step after a page of `hits` documents, `remain` having been
    /// wanted. An empty page, or one that brings all that was wanted, ends
    /// the search; otherwise the next page starts strictly beyond the last
    /// key.
    pub open spec fn after_page(self, remain: i64, hits: usize, last_key: Option<i64>) -> (
        Plan,
        Move,
    ) {
        if hits == 0 || hits >= remain {
            (self, Move::Deliver { reversed: self.reverse })
        } else {
            match last_key {
                None => (self, Move::Fail),
                Some(key) => {
                    let plan = Plan {
                        phase: Phase::Page {
                            filter: Filter::Beyond { asc: self.asc, key },
                            from: 0,
                            remain: (remain - hits) as i64,
                        },
                        ..self
                    };
                    (plan, Move::Ask(plan.pending()))
                },
            }
        }
    }

    /// The plan and the move that follow the reply to the pending request.
    pub open spec fn next(self, reply: Reply) -> (Plan, Move) {
        match (self.phase, reply) {
            (Phase::Total, Reply::Count(total)) => self.after_total(total),
            (Phase::Lowest, Reply::Extreme(None)) => (self, Move::Deliver { reversed: false }),
            (Phase::Lowest, Reply::Extreme(Some(lowest))) => {
                let plan = Plan { phase: Phase::Highest { lowest }, ..self };
                (plan, Move::Ask(plan.pending()))
            },
            (Phase::Highest { .. }, Reply::Extreme(None)) => (
                self,
                Move::Deliver { reversed: false },
            ),
            (Phase::Highest { lowest }, Reply::Extreme(Some(highest))) => if self.asc {
                self.open_probe(lowest, lowest < highest, lowest, highest)
            } else {
                self.open_probe(highest, highest < lowest, highest, lowest)
            },
            (Phase::Probe { start, rising, near, far, mid }, Reply::Count(count)) => {
                self.after_probe(start, rising, near, far, mid, count)
            },
            (Phase::Page { remain, .. }, Reply::Page { hits, last_key }) => self.after_page(
                remain,
                hits,
                last_key,
            ),
            _ => (self, Move::Fail),
        }
    }

    /// Tells whether the fields of the plan keep their ranges.
    pub fn valid(&self) -> (ok: bool)
        ensures
            ok == self.wf(),
    {
        self.from >= 0 && self.size >= 1 && match self.phase {
            Phase::Total => self.from > MAX_FROM && !self.reverse,
            Phase::Lowest => self.from > MAX_FROM,
            Phase::Highest { .. } => self.from > MAX_FROM,
            Phase::Probe { near, far, mid, .. } => {
                let low = if near <= far {
                    near
                } else {
                    far
                };
                let gap: i128 = if near <= far {
                    far as i128 - near as i128
                } else {
                    near as i128 - far as i128
                };
                self.from > MAX_FROM && gap >= 2 && mid as i128 == low as i128 + gap / 2
            },
            Phase::Page { from, remain, .. } => 0 <= from && from <= MAX_FROM && remain >= 1,
        }
    }

    /// The request whose reply the plan waits for.
    pub fn pending_request(&self) -> (out: Request)
        ensures
            out == self.pending(),
    {
        match self.phase {
            Phase::Total => Request::Count { filter: Filter::Whole },
            Phase::Lowest => Request::Extreme { asc: true },
            Phase::Highest { .. } => Request::Extreme { asc: false },
            Phase::Probe { start, rising, mid, .. } => Request::Count {
                filter: if rising {
                    Filter::Between { lo: start, hi: mid }
                } else {
                    Filter::Between { lo: mid, hi: start }
                },
            },
            Phase::Page { filter, from, remain } => Request::Page {
                filter,
                asc: self.asc,
                from,
                size: if remain < MAX_SIZE {
                    remain
                } else {
                    MAX_SIZE
                },
            },
        }
    }

    fn enter_page(self, filter: Filter, from: i64) -> (out: (Plan, Move))
        requires
            self.sized(),
            0 <= from <= MAX_FROM,
        ensures
            out == self.open_page(filter, from),
            out.0.wf(),
            out.1 == Move::Ask(out.0.pending()),
            out.0.pending().within_limits(),
    {
        let size = if self.size < MAX_SIZE {
            self.size
        } else {
            MAX_SIZE
        };
        let plan = Plan {
            asc: self.asc,
            reverse: self.reverse,
            from: self.from,
            size: self.size,
            phase: Phase::Page { filter, from, remain: self.size },
        };
        (plan, Move::Ask(Request::Page { filter, asc: self.asc, from, size }))
    }

    fn enter_probe(self, start: i64, rising: bool, near: i64, far: i64) -> (out: (Plan, Move))
        requires
            self.sized(),
            self.from > MAX_FROM,
        ensures
            out == self.open_probe(start, rising, near, far),
            out.0.wf(),
            out.1 == Move::Ask(out.0.pending()),
            out.0.pending().within_limits(),
    {
        let low = if near <= far {
            near
        } else {
            far
        };
        let gap: i128 = if near <= far {
            far as i128 - near as i128
        } else {
            near as i128 - far as i128
        };
        if gap <= 1 {
            self.enter_page(Filter::Beyond { asc: self.asc, key: low }, gap as i64)
        } else {
            let mid = (low as i128 + gap / 2) as i64;
            let plan = Plan {
                asc: self.asc,
                reverse: self.reverse,
                from: self.from,
                size: self.size,
                phase: Phase::Probe { start, rising, near, far, mid },
            };
            let filter = if rising {
                Filter::Between { lo: start, hi: mid }
            } else {
                Filter::Between { lo: mid, hi: start }
            };
            (plan, Move::Ask(Request::Count { filter }))
        }
    }

    fn enter_search(self) -> (out: (Plan, Move))
        requires
            self.sized(),
        ensures
            out == self.open_search(),
            out.0.wf(),
            out.1 == Move::Ask(out.0.pending()),
            out.0.pending().within_limits(),
    {
        if self.from > MAX_FROM {
            let plan = Plan {
                asc: self.asc,
                reverse: self.reverse,
                from: self.from,
                size: self.size,
                phase: Phase::Lowest,
            };
            (plan, Move::Ask(Request::Extreme { asc: true }))
        } else {
            self.enter_page(Filter::Whole, self.from)
        }
    }

    /// Begins a search for `size` documents after the first `from`, sorted
    /// in the direction `asc`. Negative numbers are refused and a size of
    /// zero is delivered at once; an offset within the limit is paged
    /// directly, and a larger one starts with the count of all matches.
    pub fn start(asc: bool, from: i64, size: i64) -> (out: Option<(Plan, Move)>)
        ensures
            out == Plan::begin(asc, from, size),
            out is None <==> from < 0 || size < 0,
            out matches Some((plan, mv)) ==> {
                &&& mv is Deliver <==> size == 0
                &&& mv matches Move::Ask(r) ==> plan.wf() && r == plan.pending()
                    && r.within_limits()
                &&& mv matches Move::Ask(r) ==> (from <= MAX_FROM <==> r == (Request::Page {
                    filter: Filter::Whole,
                    asc,
                    from,
                    size: if size < MAX_SIZE {
                        size
                    } else {
                        MAX_SIZE
                    },
                }))
            },
    {
        let plan = Plan { asc, reverse: false, from, size, phase: Phase::Total };
        if from < 0 || size < 0 {
            None
        } else if size == 0 {
            Some((plan, Move::Deliver { reversed: false }))
        } else if from > MAX_FROM {
            Some((plan, Move::Ask(Request::Count { filter: Filter::Whole })))
        } else {
            Some(plan.enter_page(Filter::Whole, from))
        }
    }

    fn step_total(self, total: i64) -> (out: (Plan, Move))
        requires
            self.wf(),
            self.phase is Total,
        ensures
            out == self.after_total(total),
            out.0.wf(),
            out.1 matches Move::Ask(r) ==> r == out.0.pending() && r.within_limits(),
    {
        if total == 0 || self.from >= total {
            (self, Move::Deliver { reversed: false })
        } else if self.from > total - self.from {
            let gap = total - self.from - self.size;
            let plan = Plan {
                asc: !self.asc,
                reverse: true,
                from: if gap < 0 {
                    0
                } else {
                    gap
                },
                size: if gap < 0 {
                    self.size + gap
                } else {
                    self.size
                },
                phase: self.phase,
            };
            plan.enter_search()
        } else {
            self.enter_search()
        }
    }

    fn step_probe(self, start: i64, rising: bool, near: i64, far: i64, mid: i64, count: i64) -> (out:
        (Plan, Move))
        requires
            self.wf(),
            self.from > MAX_FROM,
        ensures
            out == self.after_probe(start, rising, near, far, mid, count),
            out.0.wf(),
            out.1 matches Move::Ask(r) ==> r == out.0.pending() && r.within_limits(),
    {
        let left: i128 = self.from as i128 - count as i128;
        if left < 0 {
            self.enter_probe(start, rising, near, mid)
        } else if left <= MAX_FROM as i128 {
            self.enter_page(Filter::Beyond { asc: self.asc, key: mid }, left as i64)
        } else {
            self.enter_probe(start, rising, mid, far)
        }
    }

    fn step_page(self, remain: i64, hits: usize, last_key: Option<i64>) -> (out: (Plan, Move))
        requires
            self.wf(),
            self.phase is Page,
            remain >= 1,
        ensures
            out == self.after_page(remain, hits, last_key),
            out.0.wf(),
            out.1 matches Move::Ask(r) ==> r == out.0.pending() && r.within_limits(),
    {
        if hits == 0 || hits as i128 >= remain as i128 {
            (self, Move::Deliver { reversed: self.reverse })
        } else {
            match last_key {
                None => (self, Move::Fail),
                Some(key) => {
                    let left = remain - hits as i64;
                    let filter = Filter::Beyond { asc: self.asc, key };
                    let plan = Plan {
                        asc: self.asc,
                        reverse: self.reverse,
                        from: self.from,
                        size: self.size,
                        phase: Phase::Page { filter, from: 0, remain: left },
                    };
                    let size = if left < MAX_SIZE {
                        left
                    } else {
                        MAX_SIZE
                    };
                    (plan, Move::Ask(Request::Page { filter, asc: self.asc, from: 0, size }))
                },
            }
        }
    }

    /// Takes the reply to the pending request and decides what comes next.
    /// Every request that is asked for is the pending request of the new
    /// plan and respects the limits.
    pub fn step(self, reply: Reply) -> (out: (Plan, Move))
        requires
            self.wf(),
        ensures
            out == self.next(reply),
            out.0.wf(),
            out.1 matches Move::Ask(r) ==> r == out.0.pending() && r.within_limits(),
    {
        match (self.phase, reply) {
            (Phase::Total, Reply::Count(total)) => self.step_total(total),
            (Phase::Lowest, Reply::Extreme(None)) => (self, Move::Deliver { reversed: false }),
            (Phase::Lowest, Reply::Extreme(Some(lowest))) => {
                let plan = Plan {
                    asc: self.asc,
                    reverse: self.reverse,
                    from: self.from,
                    size: self.size,
                    phase: Phase::Highest { lowest },
                };
                (plan, Move::Ask(Request::Extreme { asc: false }))
            },
            (Phase::Highest { .. }, Reply::Extreme(None)) => (
                self,
                Move::Deliver { reversed: false },
            ),
            (Phase::Highest { lowest }, Reply::Extreme(Some(highest))) => if self.asc {
                self.enter_probe(lowest, lowest < highest, lowest, highest)
            } else {
                self.enter_probe(highest, highest < lowest, highest, lowest)
            },
            (Phase::Probe { start, rising, near, far, mid }, Reply::Count(count)) => {
                self.step_probe(start, rising, near, far, mid, count)
            },
            (Phase::Page { remain, .. }, Reply::Page { hits, last_key }) => self.step_page(
                remain,
                hits,
                last_key,
            ),
            _ => (self, Move::Fail),
        }
    }
}

/// How far apart two keys lie.
pub open spec fn distance(near: i64, far: i64) -> int {
    if near <= far {
        far - near
    } else {
        near - far
    }
}

/// A probe halves the interval in which the boundary is looked for: after
/// its count the search pages, or it probes again between two keys that
/// lie at most half as far apart, rounded up.
pub proof fn lemma_probe_halves(plan: Plan, count: i64)
    requires
        plan.wf(),
        plan.phase is Probe,
    ensures
        ({
            let next = plan.next(Reply::Count(count)).0;
            next.phase is Page || (next.phase is Probe && 2 * distance(
                next.phase->Probe_near,
                next.phase->Probe_far,
            ) <= distance(plan.phase->Probe_near, plan.phase->Probe_far) + 1)
        }),
{
}

} // verus!
