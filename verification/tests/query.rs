use es_deep_pager::plan::{Filter, Request};
use es_deep_pager::query::{
    build_body, build_cmp_query, build_count_body, build_filter_query, build_path,
    build_range_query, build_search_body,
};

#[test]
fn range_query_wraps_the_query_once() {
    assert_eq!(
        build_range_query("{\"match_all\":{}}", "id", 1, 500),
        "{\"bool\":{\"must\":{\"match_all\":{}},\"filter\":{\"range\":{\"id\":{\"gte\":1,\"lte\":500}}}}}"
    );
    assert_eq!(
        build_range_query("{\"term\":{\"a\":1}}", "n", -20, -10),
        "{\"bool\":{\"must\":{\"term\":{\"a\":1}},\"filter\":{\"range\":{\"n\":{\"gte\":-20,\"lte\":-10}}}}}"
    );
}

#[test]
fn cmp_query_names_the_relation() {
    assert_eq!(
        build_cmp_query("{\"match_all\":{}}", "id", "gt", 10000),
        "{\"bool\":{\"must\":{\"match_all\":{}},\"filter\":{\"range\":{\"id\":{\"gt\":10000}}}}}"
    );
    assert_eq!(
        build_cmp_query("{\"match_all\":{}}", "id", "lt", -3),
        "{\"bool\":{\"must\":{\"match_all\":{}},\"filter\":{\"range\":{\"id\":{\"lt\":-3}}}}}"
    );
}

#[test]
fn filter_query_picks_the_builder() {
    let q = "{\"match_all\":{}}";
    assert_eq!(build_filter_query(q, "id", Filter::Whole), q);
    assert_eq!(
        build_filter_query(q, "id", Filter::Between { lo: 3, hi: 9 }),
        build_range_query(q, "id", 3, 9)
    );
    assert_eq!(
        build_filter_query(q, "id", Filter::Beyond { asc: true, key: 7 }),
        build_cmp_query(q, "id", "gt", 7)
    );
    assert_eq!(
        build_filter_query(q, "id", Filter::Beyond { asc: false, key: 7 }),
        build_cmp_query(q, "id", "lt", 7)
    );
}

#[test]
fn count_body_holds_the_query() {
    assert_eq!(build_count_body("{\"match_all\":{}}"), "{\"query\": {\"match_all\":{}}}");
}

#[test]
fn search_body_without_source() {
    assert_eq!(
        build_search_body("{\"match_all\":{}}", "id", true, &None, 0, 10),
        "{\"query\":{\"match_all\":{}},\"sort\":{\"id\":\"asc\"},\"from\":0,\"size\":10}"
    );
    assert_eq!(
        build_search_body("{\"match_all\":{}}", "id", false, &None, 2000, 3000),
        "{\"query\":{\"match_all\":{}},\"sort\":{\"id\":\"desc\"},\"from\":2000,\"size\":3000}"
    );
}

#[test]
fn search_body_with_source() {
    let one = Some(vec![String::from("id")]);
    assert_eq!(
        build_search_body("{\"match_all\":{}}", "id", true, &one, 5, 1),
        "{\"query\":{\"match_all\":{}},\"sort\":{\"id\":\"asc\"},\"_source\":[\"id\"],\"from\":5,\"size\":1}"
    );
    let three = Some(vec![String::from("a"), String::from("obj.*"), String::from("*")]);
    assert_eq!(
        build_search_body("{\"match_all\":{}}", "id", true, &three, 5, 1),
        "{\"query\":{\"match_all\":{}},\"sort\":{\"id\":\"asc\"},\"_source\":[\"a\",\"obj.*\",\"*\"],\"from\":5,\"size\":1}"
    );
    let none: Option<Vec<String>> = Some(vec![]);
    assert_eq!(
        build_search_body("{\"match_all\":{}}", "id", true, &none, 5, 1),
        "{\"query\":{\"match_all\":{}},\"sort\":{\"id\":\"asc\"},\"_source\":[],\"from\":5,\"size\":1}"
    );
}

#[test]
fn paths_end_in_the_operation() {
    assert_eq!(build_path("test_data_*", Request::Count { filter: Filter::Whole }), "test_data_*/_count");
    assert_eq!(build_path("idx/type", Request::Extreme { asc: true }), "idx/type/_search");
    assert_eq!(
        build_path("idx", Request::Page { filter: Filter::Whole, asc: true, from: 0, size: 1 }),
        "idx/_search"
    );
}

#[test]
fn bodies_of_the_three_requests() {
    let q = "{\"match_all\":{}}";
    let source = Some(vec![String::from("name")]);
    assert_eq!(
        build_body(q, &source, "id", Request::Count { filter: Filter::Between { lo: 1, hi: 2 } }),
        "{\"query\": {\"bool\":{\"must\":{\"match_all\":{}},\"filter\":{\"range\":{\"id\":{\"gte\":1,\"lte\":2}}}}}}"
    );
    assert_eq!(
        build_body(q, &source, "id", Request::Extreme { asc: false }),
        "{\"query\":{\"match_all\":{}},\"sort\":{\"id\":\"desc\"},\"_source\":[\"id\"],\"from\":0,\"size\":1}"
    );
    assert_eq!(
        build_body(
            q,
            &source,
            "id",
            Request::Page { filter: Filter::Beyond { asc: true, key: 40 }, asc: true, from: 3, size: 7 }
        ),
        "{\"query\":{\"bool\":{\"must\":{\"match_all\":{}},\"filter\":{\"range\":{\"id\":{\"gt\":40}}}}},\"sort\":{\"id\":\"asc\"},\"_source\":[\"name\"],\"from\":3,\"size\":7}"
    );
}
