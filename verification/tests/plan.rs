use es_deep_pager::plan::{Filter, Move, Phase, Plan, Reply, Request, MAX_FROM, MAX_SIZE};

fn ask(step: (Plan, Move)) -> (Plan, Request) {
    match step.1 {
        Move::Ask(request) => {
            assert_eq!(request, step.0.pending_request());
            (step.0, request)
        }
        other => panic!("{:?}", other),
    }
}

#[test]
fn the_limits() {
    assert_eq!(MAX_FROM, 2000);
    assert_eq!(MAX_SIZE, 3000);
}

#[test]
fn negative_numbers_are_refused() {
    assert_eq!(Plan::start(true, -1, 10), None);
    assert_eq!(Plan::start(true, 0, -1), None);
    assert_eq!(Plan::start(false, i64::MIN, i64::MIN), None);
}

#[test]
fn size_zero_is_delivered_at_once() {
    let (_, mv) = Plan::start(true, 5, 0).unwrap();
    assert_eq!(mv, Move::Deliver { reversed: false });
    let (_, mv) = Plan::start(true, 1_000_000, 0).unwrap();
    assert_eq!(mv, Move::Deliver { reversed: false });
}

#[test]
fn a_small_offset_is_paged_directly() {
    let (plan, request) = ask(Plan::start(true, 2000, 10).unwrap());
    assert_eq!(request, Request::Page { filter: Filter::Whole, asc: true, from: 2000, size: 10 });
    assert_eq!(plan.phase, Phase::Page { filter: Filter::Whole, from: 2000, remain: 10 });
    let (_, request) = ask(Plan::start(false, 0, 5000).unwrap());
    assert_eq!(request, Request::Page { filter: Filter::Whole, asc: false, from: 0, size: 3000 });
}

#[test]
fn a_large_offset_starts_with_the_total() {
    let (plan, request) = ask(Plan::start(true, 2001, 10).unwrap());
    assert_eq!(request, Request::Count { filter: Filter::Whole });
    assert_eq!(plan.phase, Phase::Total);
}

#[test]
fn an_offset_at_or_past_the_total_ends_the_search() {
    let (plan, _) = ask(Plan::start(true, 5000, 10).unwrap());
    assert_eq!(plan.step(Reply::Count(0)).1, Move::Deliver { reversed: false });
    assert_eq!(plan.step(Reply::Count(4999)).1, Move::Deliver { reversed: false });
    assert_eq!(plan.step(Reply::Count(5000)).1, Move::Deliver { reversed: false });
    assert_eq!(plan.step(Reply::Count(-3)).1, Move::Deliver { reversed: false });
    assert!(matches!(plan.step(Reply::Count(5001)).1, Move::Ask(_)));
}

#[test]
fn an_offset_up_to_the_middle_keeps_its_direction() {
    let (plan, _) = ask(Plan::start(true, 5000, 10).unwrap());
    let (plan, request) = ask(plan.step(Reply::Count(10_000)));
    assert_eq!((plan.asc, plan.reverse, plan.from, plan.size), (true, false, 5000, 10));
    assert_eq!(request, Request::Extreme { asc: true });
}

#[test]
fn an_offset_past_the_middle_turns_the_search_round() {
    let (plan, _) = ask(Plan::start(true, 5001, 10).unwrap());
    let (plan, request) = ask(plan.step(Reply::Count(10_000)));
    assert_eq!((plan.asc, plan.reverse, plan.from, plan.size), (false, true, 4989, 10));
    assert_eq!(request, Request::Extreme { asc: true });
}

#[test]
fn turning_round_near_the_end_shrinks_the_size() {
    let (plan, _) = ask(Plan::start(true, 999_998, 10).unwrap());
    let (plan, request) = ask(plan.step(Reply::Count(1_000_000)));
    assert_eq!((plan.asc, plan.reverse, plan.from, plan.size), (false, true, 0, 2));
    assert_eq!(request, Request::Page { filter: Filter::Whole, asc: false, from: 0, size: 2 });
    let (plan, _) = ask(Plan::start(false, 999_000, 2).unwrap());
    let (plan, request) = ask(plan.step(Reply::Count(1_000_000)));
    assert_eq!((plan.asc, plan.reverse, plan.from, plan.size), (true, true, 998, 2));
    assert_eq!(request, Request::Page { filter: Filter::Whole, asc: true, from: 998, size: 2 });
}

#[test]
fn the_extremes_open_the_probing() {
    let (plan, _) = ask(Plan::start(true, 10_000, 5).unwrap());
    let (plan, _) = ask(plan.step(Reply::Count(1_000_000)));
    let (plan, request) = ask(plan.step(Reply::Extreme(Some(1))));
    assert_eq!(request, Request::Extreme { asc: false });
    assert_eq!(plan.phase, Phase::Highest { lowest: 1 });
    let (plan, request) = ask(plan.step(Reply::Extreme(Some(1_000_000))));
    assert_eq!(
        plan.phase,
        Phase::Probe { start: 1, rising: true, near: 1, far: 1_000_000, mid: 500_000 }
    );
    assert_eq!(request, Request::Count { filter: Filter::Between { lo: 1, hi: 500_000 } });
}

#[test]
fn probing_descending_counts_from_the_top() {
    let plan = Plan { asc: false, reverse: false, from: 10_000, size: 5, phase: Phase::Highest { lowest: 1 } };
    let (plan, request) = ask(plan.step(Reply::Extreme(Some(1_000_000))));
    assert_eq!(
        plan.phase,
        Phase::Probe { start: 1_000_000, rising: false, near: 1_000_000, far: 1, mid: 500_000 }
    );
    assert_eq!(request, Request::Count { filter: Filter::Between { lo: 500_000, hi: 1_000_000 } });
}

#[test]
fn a_missing_extreme_ends_the_search() {
    let plan = Plan { asc: true, reverse: true, from: 10_000, size: 5, phase: Phase::Lowest };
    assert_eq!(plan.step(Reply::Extreme(None)).1, Move::Deliver { reversed: false });
    let plan = Plan { asc: true, reverse: true, from: 10_000, size: 5, phase: Phase::Highest { lowest: 4 } };
    assert_eq!(plan.step(Reply::Extreme(None)).1, Move::Deliver { reversed: false });
}

#[test]
fn a_probe_halves_the_interval() {
    let probe = |near: i64, far: i64, mid: i64| Plan {
        asc: true,
        reverse: false,
        from: 10_000,
        size: 5,
        phase: Phase::Probe { start: 1, rising: true, near, far, mid },
    };
    // too many documents up to the middle: the far end moves in
    let (plan, request) = ask(probe(1, 1_000_000, 500_000).step(Reply::Count(500_000)));
    assert_eq!(
        plan.phase,
        Phase::Probe { start: 1, rising: true, near: 1, far: 500_000, mid: 250_000 }
    );
    assert_eq!(request, Request::Count { filter: Filter::Between { lo: 1, hi: 250_000 } });
    // still more than MAX_FROM to skip: the near end moves up
    let (plan, _) = ask(probe(1, 15_626, 7_813).step(Reply::Count(7_813)));
    assert_eq!(
        plan.phase,
        Phase::Probe { start: 1, rising: true, near: 7_813, far: 15_626, mid: 11_719 }
    );
    // within MAX_FROM: paging starts beyond the middle
    let (plan, request) = ask(probe(7_813, 11_719, 9_766).step(Reply::Count(9_766)));
    let filter = Filter::Beyond { asc: true, key: 9_766 };
    assert_eq!(plan.phase, Phase::Page { filter, from: 234, remain: 5 });
    assert_eq!(request, Request::Page { filter, asc: true, from: 234, size: 5 });
    // exactly at the offset
    let (_, request) = ask(probe(7_813, 11_719, 9_766).step(Reply::Count(10_000)));
    assert_eq!(request, Request::Page { filter, asc: true, from: 0, size: 5 });
    // exactly MAX_FROM short
    let (_, request) = ask(probe(7_813, 11_719, 9_766).step(Reply::Count(8_000)));
    assert_eq!(request, Request::Page { filter, asc: true, from: 2000, size: 5 });
}

#[test]
fn the_middle_is_found_without_overflow() {
    let plan = Plan { asc: true, reverse: false, from: 10_000, size: 5, phase: Phase::Highest { lowest: i64::MIN } };
    let (plan, _) = ask(plan.step(Reply::Extreme(Some(i64::MAX))));
    assert_eq!(
        plan.phase,
        Phase::Probe { start: i64::MIN, rising: true, near: i64::MIN, far: i64::MAX, mid: -1 }
    );
    let (plan, _) = ask(plan.step(Reply::Count(i64::MIN)));
    assert_eq!(
        plan.phase,
        Phase::Probe { start: i64::MIN, rising: true, near: -1, far: i64::MAX, mid: 4611686018427387903 }
    );
}

#[test]
fn an_interval_of_one_becomes_the_boundary() {
    let probe = |asc: bool, near: i64, far: i64, mid: i64| Plan {
        asc,
        reverse: false,
        from: 10_000,
        size: 5,
        phase: Phase::Probe { start: near, rising: asc, near, far, mid },
    };
    let (_, request) = ask(probe(true, 7, 9, 8).step(Reply::Count(1)));
    let filter = Filter::Beyond { asc: true, key: 8 };
    assert_eq!(request, Request::Page { filter, asc: true, from: 1, size: 5 });
    let (_, request) = ask(probe(true, 7, 9, 8).step(Reply::Count(20_000)));
    let filter = Filter::Beyond { asc: true, key: 7 };
    assert_eq!(request, Request::Page { filter, asc: true, from: 1, size: 5 });
    let (_, request) = ask(probe(false, 9, 7, 8).step(Reply::Count(20_000)));
    let filter = Filter::Beyond { asc: false, key: 8 };
    assert_eq!(request, Request::Page { filter, asc: false, from: 1, size: 5 });
    let plan = Plan { asc: true, reverse: false, from: 10_000, size: 5, phase: Phase::Highest { lowest: 4 } };
    let (_, request) = ask(plan.step(Reply::Extreme(Some(4))));
    let filter = Filter::Beyond { asc: true, key: 4 };
    assert_eq!(request, Request::Page { filter, asc: true, from: 0, size: 5 });
}

#[test]
fn paging_goes_on_beyond_the_last_key() {
    let (plan, request) = ask(Plan::start(true, 0, 7000).unwrap());
    assert_eq!(request, Request::Page { filter: Filter::Whole, asc: true, from: 0, size: 3000 });
    let (plan, request) = ask(plan.step(Reply::Page { hits: 3000, last_key: Some(3000) }));
    let filter = Filter::Beyond { asc: true, key: 3000 };
    assert_eq!(request, Request::Page { filter, asc: true, from: 0, size: 3000 });
    let (plan, request) = ask(plan.step(Reply::Page { hits: 3000, last_key: Some(6000) }));
    let filter = Filter::Beyond { asc: true, key: 6000 };
    assert_eq!(request, Request::Page { filter, asc: true, from: 0, size: 1000 });
    assert_eq!(plan.phase, Phase::Page { filter, from: 0, remain: 1000 });
    assert_eq!(
        plan.step(Reply::Page { hits: 1000, last_key: Some(7000) }).1,
        Move::Deliver { reversed: false }
    );
    let (plan, _) = ask(plan.step(Reply::Page { hits: 999, last_key: Some(6999) }));
    assert_eq!(
        plan.phase,
        Phase::Page { filter: Filter::Beyond { asc: true, key: 6999 }, from: 0, remain: 1 }
    );
}

#[test]
fn paging_ends_on_an_empty_or_a_full_page() {
    let page = |reverse: bool| Plan {
        asc: false,
        reverse,
        from: 5,
        size: 10,
        phase: Phase::Page { filter: Filter::Whole, from: 5, remain: 10 },
    };
    assert_eq!(page(false).step(Reply::Page { hits: 0, last_key: None }).1, Move::Deliver { reversed: false });
    assert_eq!(page(true).step(Reply::Page { hits: 0, last_key: None }).1, Move::Deliver { reversed: true });
    assert_eq!(page(true).step(Reply::Page { hits: 10, last_key: None }).1, Move::Deliver { reversed: true });
    assert_eq!(page(true).step(Reply::Page { hits: 11, last_key: Some(1) }).1, Move::Deliver { reversed: true });
    assert_eq!(
        page(true).step(Reply::Page { hits: usize::MAX, last_key: Some(1) }).1,
        Move::Deliver { reversed: true }
    );
}

#[test]
fn a_missing_cursor_fails_only_when_it_is_needed() {
    let plan = Plan {
        asc: true,
        reverse: false,
        from: 5,
        size: 10,
        phase: Phase::Page { filter: Filter::Whole, from: 5, remain: 10 },
    };
    assert_eq!(plan.step(Reply::Page { hits: 9, last_key: None }).1, Move::Fail);
    assert_eq!(plan.step(Reply::Page { hits: 10, last_key: None }).1, Move::Deliver { reversed: false });
}

#[test]
fn a_reply_of_the_wrong_kind_fails() {
    let (plan, _) = ask(Plan::start(true, 5000, 10).unwrap());
    assert_eq!(plan.step(Reply::Extreme(Some(1))).1, Move::Fail);
    assert_eq!(plan.step(Reply::Page { hits: 1, last_key: Some(1) }).1, Move::Fail);
    let (plan, _) = ask(Plan::start(true, 0, 10).unwrap());
    assert_eq!(plan.step(Reply::Count(1)).1, Move::Fail);
}

#[test]
fn valid_tells_the_ranges_of_a_plan() {
    let plan = |from: i64, size: i64, reverse: bool, phase: Phase| Plan { asc: true, reverse, from, size, phase };
    assert!(plan(2001, 1, false, Phase::Total).valid());
    assert!(!plan(2000, 1, false, Phase::Total).valid());
    assert!(!plan(2001, 1, true, Phase::Total).valid());
    assert!(!plan(2001, 0, false, Phase::Total).valid());
    assert!(plan(2001, 1, true, Phase::Lowest).valid());
    assert!(!plan(5, 1, true, Phase::Lowest).valid());
    assert!(plan(2001, 1, true, Phase::Highest { lowest: 0 }).valid());
    assert!(!plan(-1, 1, true, Phase::Highest { lowest: 0 }).valid());
    let probe = Phase::Probe { start: 1, rising: true, near: 1, far: 9, mid: 5 };
    assert!(plan(2001, 1, false, probe).valid());
    assert!(!plan(2000, 1, false, probe).valid());
    let page = |from: i64, remain: i64| Phase::Page { filter: Filter::Whole, from, remain };
    assert!(plan(0, 1, false, page(0, 1)).valid());
    assert!(plan(9000, 1, true, page(2000, 1)).valid());
    assert!(!plan(9000, 1, true, page(2001, 1)).valid());
    assert!(!plan(9000, 1, true, page(-1, 1)).valid());
    assert!(!plan(9000, 1, true, page(0, 0)).valid());
}

#[test]
fn every_plan_that_a_step_gives_is_valid() {
    let mut step = Plan::start(true, 123_456, 7_000).unwrap();
    let replies = [
        Reply::Count(300_000),
        Reply::Extreme(Some(1)),
        Reply::Extreme(Some(300_000)),
        Reply::Count(150_000),
        Reply::Count(75_000),
        Reply::Count(112_500),
        Reply::Count(131_250),
        Reply::Count(121_875),
        Reply::Page { hits: 3000, last_key: Some(126_456) },
        Reply::Page { hits: 3000, last_key: Some(129_456) },
        Reply::Page { hits: 1000, last_key: Some(130_456) },
    ];
    for (i, reply) in replies.into_iter().enumerate() {
        assert!(step.0.valid());
        assert!(matches!(step.1, Move::Ask(_)), "{}", i);
        step = step.0.step(reply);
    }
    assert_eq!(step.1, Move::Deliver { reversed: false });
}
