use es_deep_pager::analyzer::EsJsonAnalyzer;
use es_deep_pager::error::Error;
use es_deep_pager::es_json::EsJson;

fn parse(text: &str) -> EsJson {
    match EsJsonAnalyzer::from_json(text) {
        Ok(tree) => tree,
        Err(e) => panic!("{}", e.message()),
    }
}

fn rewritten(text: &str) -> String {
    EsJsonAnalyzer::to_json(&parse(text))
}

fn invalid() -> Error {
    Error::Message(String::from("invalid json"))
}

#[test]
fn round_trip_of_a_search_response() {
    let text = "{\"took\":3,\"hits\":{\"total\":{\"value\":2},\"hits\":[{\"_id\":\"a\",\"_source\":{\"id\":1},\"sort\":[1]},{\"_id\":\"b\",\"_source\":{\"id\":2},\"sort\":[2]}]}}";
    assert_eq!(rewritten(text), text);
}

#[test]
fn round_trip_of_a_count_response() {
    let text = "{\"count\":1000000,\"_shards\":{\"total\":1,\"successful\":1,\"skipped\":0,\"failed\":0}}";
    assert_eq!(rewritten(text), text);
}

#[test]
fn whitespace_between_tokens_is_dropped() {
    let tree = parse("{ \"a\" : [ 1 , 2 ,\n\t3 ] , \"b\" : \"x y\" }");
    assert_eq!(EsJsonAnalyzer::to_json(&tree), "{\"a\":[1,2,3],\"b\":\"x y\"}");
}

#[test]
fn literals_keep_their_raw_text() {
    match parse("-12.5e3") {
        EsJson::String(s) => assert_eq!(s, "-12.5e3"),
        _ => panic!("not a literal"),
    }
    match parse("null") {
        EsJson::String(s) => assert_eq!(s, "null"),
        _ => panic!("not a literal"),
    }
    match parse("\"a b\"") {
        EsJson::String(s) => assert_eq!(s, "\"a b\""),
        _ => panic!("not a literal"),
    }
}

#[test]
fn keys_keep_their_quotes() {
    match parse("{\"k\":true}") {
        EsJson::Object(members) => {
            assert_eq!(members.len(), 1);
            assert_eq!(members[0].0, "\"k\"");
            match &members[0].1 {
                EsJson::String(s) => assert_eq!(s, "true"),
                _ => panic!("not a literal"),
            }
        }
        _ => panic!("not an object"),
    }
}

#[test]
fn escaped_quotes_do_not_end_a_string() {
    // a\"b : the quote after one backslash is part of the string
    assert_eq!(rewritten("[\"a\\\"b\",1]"), "[\"a\\\"b\",1]");
    // a\\ : the quote after two backslashes ends the string
    assert_eq!(rewritten("[\"a\\\\\",1]"), "[\"a\\\\\",1]");
    match parse("\"a\\\\\"tail") {
        EsJson::String(s) => assert_eq!(s, "\"a\\\\\""),
        _ => panic!("not a literal"),
    }
    match parse("\"a\\\"tail") {
        EsJson::String(s) => assert_eq!(s, "\"a\\\"tail"),
        _ => panic!("not a literal"),
    }
}

#[test]
fn stray_commas_are_passed_over() {
    assert_eq!(rewritten("[,1,,2,]"), "[1,2]");
    assert_eq!(rewritten("{,\"a\":1,,\"b\":2,}"), "{\"a\":1,\"b\":2}");
    assert_eq!(rewritten("[1 2]"), "[1,2]");
}

#[test]
fn empty_containers() {
    assert_eq!(rewritten("[]"), "[]");
    assert_eq!(rewritten("{}"), "{}");
    assert_eq!(rewritten("[ ]"), "[]");
    assert_eq!(rewritten("{\"a\":[],\"b\":{}}"), "{\"a\":[],\"b\":{}}");
}

#[test]
fn what_follows_the_value_is_not_read() {
    assert_eq!(rewritten("[1] trailing"), "[1]");
    assert_eq!(rewritten("12,13"), "12");
}

#[test]
fn spaces_before_the_value_are_passed_over() {
    assert_eq!(rewritten(" {\"count\":5}"), "{\"count\":5}");
    assert_eq!(rewritten(" \t\r\n[1, 2]"), "[1,2]");
    assert_eq!(rewritten("  \"a b\""), "\"a b\"");
    match parse(" 1") {
        EsJson::String(s) => assert_eq!(s, "1"),
        _ => panic!("not a literal"),
    }
    match parse(" {\"count\":5}") {
        EsJson::Object(members) => {
            assert_eq!(members.len(), 1);
            assert_eq!(members[0].0, "\"count\"");
        }
        _ => panic!("not an object"),
    }
}

#[test]
fn writing_what_was_read_is_a_fixed_point() {
    for text in [" 1", "  {\"a\" : [ 1 , {\"b\":null} ] }  ", "\n[ \"x\" ,true]\n", "{}", "7"] {
        let once = rewritten(text);
        assert_eq!(rewritten(&once), once);
        assert_eq!(once, text.replace([' ', '\n'], ""));
    }
}

#[test]
fn the_cursor_ends_one_past_each_closing_step() {
    let mut cursor = EsJsonAnalyzer::new("[[1]");
    assert_eq!(EsJsonAnalyzer::to_json(&cursor.read_json_value().unwrap()), "[[1]]");
    assert_eq!(cursor.position, 5);
    let mut cursor = EsJsonAnalyzer::new("[[[]");
    assert!(cursor.read_json_value().is_ok());
    assert_eq!(cursor.position, 6);
    let mut cursor = EsJsonAnalyzer::new("[1]");
    assert!(cursor.read_json_value().is_ok());
    assert_eq!(cursor.position, 3);
}

#[test]
fn an_open_string_runs_to_the_end() {
    match parse("\"abc") {
        EsJson::String(s) => assert_eq!(s, "\"abc"),
        _ => panic!("not a literal"),
    }
}

#[test]
fn the_last_character_closes_what_is_still_open() {
    assert_eq!(rewritten("[[]"), "[[]]");
    assert_eq!(rewritten("{\"a\":{}"), "{\"a\":{}}");
    assert_eq!(rewritten("[\"a]"), "[\"a]]");
}

#[test]
fn broken_texts_are_errors() {
    for text in [
        "",
        " ",
        " \t\r\n ",
        "[1",
        "[1,",
        "[",
        "{",
        "[\"a\"",
        "[}",
        "{\"a\" 1}",
        "{a:1}",
        "{\"a\":1",
        "{\"a\":\"b\"",
        "{\"a\":",
        "{]",
        "[1 ",
    ] {
        match EsJsonAnalyzer::from_json(text) {
            Ok(tree) => panic!("{:?} was read as {:?}", text, tree),
            Err(e) => assert_eq!(e, invalid()),
        }
    }
}

#[test]
fn accessors_tell_the_shapes_apart() {
    let array = parse("[1]");
    let object = parse("{\"a\":1}");
    let literal = parse("1");
    assert_eq!(array.get_array().unwrap().len(), 1);
    assert_eq!(array.get_object().unwrap_err(), invalid());
    assert_eq!(array.get_string().unwrap_err(), invalid());
    assert_eq!(object.get_object().unwrap().len(), 1);
    assert_eq!(object.get_array().unwrap_err(), invalid());
    assert_eq!(object.get_string().unwrap_err(), invalid());
    assert_eq!(literal.get_string().unwrap(), "1");
    assert_eq!(literal.get_array().unwrap_err(), invalid());
    assert_eq!(literal.get_object().unwrap_err(), invalid());
}

#[test]
fn find_json_compares_keys_with_their_quotes() {
    let object = parse("{\"a\":1,\"b\":2,\"a\":3}");
    assert_eq!(object.find_json("\"a\"").unwrap().get_string().unwrap(), "1");
    assert_eq!(object.find_json("\"b\"").unwrap().get_string().unwrap(), "2");
    assert_eq!(object.find_json("a").unwrap_err(), invalid());
    assert_eq!(object.find_json("\"c\"").unwrap_err(), invalid());
    assert_eq!(parse("[1]").find_json("\"a\"").unwrap_err(), invalid());
}

#[test]
fn get_hits_walks_two_levels() {
    let response = parse("{\"hits\":{\"total\":2,\"hits\":[{\"_id\":1},{\"_id\":2}]}}");
    let hits = response.get_hits().unwrap();
    assert_eq!(hits.len(), 2);
    assert_eq!(EsJsonAnalyzer::to_json(&hits[1]), "{\"_id\":2}");
    assert_eq!(parse("{\"hits\":{\"hits\":3}}").get_hits().unwrap_err(), invalid());
    assert_eq!(parse("{\"hits\":[]}").get_hits().unwrap_err(), invalid());
    assert_eq!(parse("{\"count\":3}").get_hits().unwrap_err(), invalid());
}

#[test]
fn the_cursor_steps_on_past_the_end() {
    let mut cursor = EsJsonAnalyzer::new("ab");
    assert_eq!((cursor.position, cursor.character, cursor.length), (0, 'a', 2));
    assert!(cursor.goto_next_char());
    assert_eq!((cursor.position, cursor.character), (1, 'b'));
    assert!(!cursor.goto_next_char());
    assert_eq!((cursor.position, cursor.character), (2, 'b'));
    assert!(!cursor.goto_next_char());
    assert_eq!((cursor.position, cursor.character), (3, 'b'));
    assert!(!cursor.goto_next_char());
    assert_eq!((cursor.position, cursor.character), (4, 'b'));
    assert_eq!(cursor.json, vec!['a', 'b']);
    assert_eq!(cursor.length, 2);
}

#[test]
fn count_prev_char_counts_the_run_before_the_cursor() {
    let mut cursor = EsJsonAnalyzer::new("a\\\\\\\"");
    assert_eq!(cursor.count_prev_char('\\'), 0);
    while cursor.goto_next_char() {}
    cursor.position = 4;
    cursor.character = '"';
    assert_eq!(cursor.count_prev_char('\\'), 3);
    assert_eq!(cursor.count_prev_char('a'), 0);
    cursor.position = 1;
    cursor.character = '\\';
    assert_eq!(cursor.count_prev_char('a'), 1);
    let mut run = EsJsonAnalyzer::new("xxx");
    run.goto_next_char();
    run.goto_next_char();
    run.goto_next_char();
    assert_eq!(run.count_prev_char('x'), 3);
}

#[test]
fn skip_space_counts_its_steps() {
    let mut cursor = EsJsonAnalyzer::new(" \t\r\n x");
    assert_eq!(cursor.skip_space(), 5);
    assert_eq!((cursor.position, cursor.character), (5, 'x'));
    assert_eq!(cursor.skip_space(), 0);
    let mut blank = EsJsonAnalyzer::new("a  ");
    blank.goto_next_char();
    assert_eq!(blank.skip_space(), 1);
    assert_eq!(blank.position, 3);
    assert_eq!(blank.skip_space(), 0);
    assert_eq!(blank.position, 4);
}

#[test]
fn read_json_literal_stops_at_a_stop_character() {
    for (text, literal, end) in [
        ("12,3", "12", 2),
        ("true]", "true", 4),
        ("null}", "null", 4),
        ("1 2", "1", 1),
        ("1\t2", "1", 1),
        ("1\n2", "1", 1),
        ("1\r2", "1", 1),
        ("abc", "abc", 3),
        (",abc", "", 0),
    ] {
        let mut cursor = EsJsonAnalyzer::new(text);
        assert_eq!(cursor.read_json_literal(), literal);
        assert_eq!(cursor.position, end);
    }
}

#[test]
fn read_json_string_keeps_both_quotes() {
    let mut cursor = EsJsonAnalyzer::new("\"key\":1");
    assert_eq!(cursor.read_json_string(), "\"key\"");
    assert_eq!((cursor.position, cursor.character), (5, ':'));
}

#[test]
fn read_json_key_value_reads_one_member() {
    let mut cursor = EsJsonAnalyzer::new("  \"k\" : [1,2] ,");
    let (key, value) = cursor.read_json_key_value().unwrap();
    assert_eq!(key, "\"k\"");
    assert_eq!(EsJsonAnalyzer::to_json(&value), "[1,2]");
    assert_eq!(cursor.position, 13);
    let mut no_colon = EsJsonAnalyzer::new("\"k\" 1");
    assert_eq!(no_colon.read_json_key_value().unwrap_err(), invalid());
    let mut no_quote = EsJsonAnalyzer::new("k:1");
    assert_eq!(no_quote.read_json_key_value().unwrap_err(), invalid());
}

#[test]
fn read_json_array_and_object_start_at_their_bracket() {
    let mut cursor = EsJsonAnalyzer::new("[1,[2]]x");
    let items = cursor.read_json_array().unwrap();
    assert_eq!(items.len(), 2);
    assert_eq!((cursor.position, cursor.character), (7, 'x'));
    let mut cursor = EsJsonAnalyzer::new("{\"a\":{\"b\":1}}x");
    let members = cursor.read_json_object().unwrap();
    assert_eq!(members.len(), 1);
    assert_eq!((cursor.position, cursor.character), (13, 'x'));
}

#[test]
fn read_json_value_dispatches_on_the_first_character() {
    for (text, end) in [
        ("\"s\" ", 3),
        ("{ } ", 3),
        ("[ ] ", 3),
        ("12 ", 2),
        ("  \"s\" ", 5),
        (" { } ", 4),
        ("\t[ ] ", 4),
        ("\n12 ", 3),
    ] {
        let mut cursor = EsJsonAnalyzer::new(text);
        assert!(cursor.read_json_value().is_ok());
        assert_eq!(cursor.position, end);
    }
}

#[test]
fn non_ascii_text_is_kept() {
    let text = "{\"name\":\"Zo\u{eb} \u{4e2d}\u{6587}\",\"n\":1}";
    assert_eq!(rewritten(text), text);
}

#[test]
fn valid_tells_whether_the_cursor_shows_its_character() {
    let mut cursor = EsJsonAnalyzer::new("ab");
    assert!(cursor.valid());
    cursor.position = 1;
    assert!(!cursor.valid());
    cursor.character = 'b';
    assert!(cursor.valid());
    cursor.position = 2;
    assert!(cursor.valid());
    cursor.position = 30;
    assert!(cursor.valid());
    cursor.character = 'a';
    assert!(!cursor.valid());
    cursor.position = 0;
    assert!(cursor.valid());
    cursor.length = 1;
    assert!(!cursor.valid());
}

#[test]
fn reading_past_the_end_goes_by_the_last_character() {
    let mut cursor = EsJsonAnalyzer::new("x1");
    cursor.position = 7;
    cursor.character = '1';
    assert_eq!(cursor.count_prev_char('x'), 0);
    assert_eq!(cursor.read_json_literal(), "1");
    assert_eq!(cursor.position, 8);
    match cursor.read_json_value() {
        Ok(EsJson::String(s)) => assert_eq!(s, "1"),
        other => panic!("{:?}", other),
    }
    assert_eq!(cursor.position, 9);
    let mut quote = EsJsonAnalyzer::new("a\"");
    quote.position = 2;
    quote.character = '"';
    assert!(quote.valid());
    assert_eq!(quote.read_json_string(), "\"");
    assert_eq!(quote.position, 3);
    let mut closer = EsJsonAnalyzer::new("[]");
    closer.position = 5;
    closer.character = ']';
    match closer.read_json_value() {
        Ok(EsJson::String(s)) => assert_eq!(s, ""),
        other => panic!("{:?}", other),
    }
    assert_eq!(closer.position, 5);
}
