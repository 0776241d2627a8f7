use ytgrep::json::{parse_text, Value};
use ytgrep::path::{evaluate, evaluate_text, PathExpression};
use ytgrep::query::{query_string, search_url};
use ytgrep::text::{chars_eq, chars_to_string, find_from, str_to_chars};

fn parse(s: &str) -> Value {
    parse_text(&str_to_chars(s)).expect("text should parse")
}

fn path(segs: &[&str]) -> PathExpression {
    let mut p = PathExpression::empty();
    for s in segs {
        match s.parse::<usize>() {
            Ok(n) => p.push_index(n),
            Err(_) => p.push_key(s),
        }
    }
    p
}

fn get_string(v: &Value, segs: &[&str]) -> Option<String> {
    match evaluate(v, &path(segs)) {
        Some(Value::Str(c)) => Some(chars_to_string(c)),
        _ => None,
    }
}

#[test]
fn evaluate_reaches_nested_values() {
    let v = parse("{\"a\":{\"b\":[{\"c\":\"deep\"},{\"c\":\"deeper\"}]}}");
    assert_eq!(get_string(&v, &["a", "b", "0", "c"]).unwrap(), "deep");
    assert_eq!(get_string(&v, &["a", "b", "1", "c"]).unwrap(), "deeper");
}

#[test]
fn evaluate_missing_segment_is_not_found() {
    let v = parse("{\"a\":[1,2]}");
    assert!(evaluate(&v, &path(&["b"])).is_none());
    assert!(evaluate(&v, &path(&["a", "5"])).is_none());
    assert!(evaluate(&v, &path(&["a", "0", "c"])).is_none());
    assert!(evaluate(&v, &path(&["a", "b"])).is_none());
}

#[test]
fn evaluate_empty_path_is_the_value_itself() {
    let v = parse("true");
    assert!(matches!(evaluate(&v, &path(&[])), Some(Value::Bool(true))));
}

#[test]
fn evaluate_first_duplicate_member_wins() {
    let v = parse("{\"k\":\"one\",\"k\":\"two\"}");
    assert_eq!(get_string(&v, &["k"]).unwrap(), "one");
}

#[test]
fn parse_value_kinds() {
    assert!(matches!(parse("null"), Value::Null));
    assert!(matches!(parse("true"), Value::Bool(true)));
    assert!(matches!(parse("false"), Value::Bool(false)));
    assert!(matches!(parse("12.5e3"), Value::Num(_)));
    assert!(matches!(parse("\"s\""), Value::Str(_)));
    assert!(matches!(parse("[]"), Value::Arr(_)));
    assert!(matches!(parse("{}"), Value::Obj(_)));
}

#[test]
fn parse_tolerates_whitespace_and_trailing_text() {
    let v = parse(" \t\n {\"a\" : [ 1 , 2 ] } trailing rubbish");
    assert!(matches!(evaluate(&v, &path(&["a", "1"])), Some(Value::Num(_))));
}

#[test]
fn parse_rejects_malformed_text() {
    assert!(parse_text(&str_to_chars("{")).is_none());
    assert!(parse_text(&str_to_chars("{\"a\":}")).is_none());
    assert!(parse_text(&str_to_chars("[1,]")).is_none());
    assert!(parse_text(&str_to_chars("\"unterminated")).is_none());
    assert!(parse_text(&str_to_chars("")).is_none());
    assert!(parse_text(&str_to_chars("@")).is_none());
}

#[test]
fn parse_decodes_simple_escapes() {
    let v = parse("{\"s\":\"a\\\\b\\\"c\\nd\\te\\/f\"}");
    assert_eq!(get_string(&v, &["s"]).unwrap(), "a\\b\"c\nd\te/f");
}

#[test]
fn parse_decodes_unicode_escapes() {
    let v = parse("{\"s\":\"\\u0041\\u00e9\\u4e2d\"}");
    assert_eq!(get_string(&v, &["s"]).unwrap(), "Aé中");
}

#[test]
fn parse_decodes_surrogate_pairs() {
    let v = parse("{\"s\":\"\\uD83D\\uDE00!\"}");
    assert_eq!(get_string(&v, &["s"]).unwrap(), "😀!");
}

#[test]
fn parse_rejects_lone_surrogate() {
    assert!(parse_text(&str_to_chars("\"\\uD83D\"")).is_none());
    assert!(parse_text(&str_to_chars("\"\\uDE00\"")).is_none());
}

#[test]
fn evaluate_text_parses_and_navigates() {
    let r = evaluate_text("{\"a\":{\"b\":[null,\"hit\"]}}", &path(&["a", "b", "1"]));
    assert!(matches!(r, Some(Value::Str(_))));
    let s = match r {
        Some(Value::Str(c)) => chars_to_string(&c),
        _ => unreachable!(),
    };
    assert_eq!(s, "hit");
    assert!(evaluate_text("{\"a\":1}", &path(&["b"])).is_none());
    assert!(evaluate_text("not json at all", &path(&["a"])).is_none());
}

#[test]
fn duplicate_stands_for_the_same_value() {
    let v = parse("{\"a\":[1,\"s\",{\"b\":true}]}");
    let w = v.duplicate();
    assert_eq!(get_string(&w, &["a", "1"]).unwrap(), "s");
    assert!(matches!(evaluate(&w, &path(&["a", "2", "b"])), Some(Value::Bool(true))));
}

#[test]
fn query_string_joins_with_spaces() {
    assert_eq!(query_string(&vec![]), None);
    assert_eq!(query_string(&vec!["foo".to_string()]).unwrap(), "foo");
    assert_eq!(
        query_string(&vec!["foo".to_string(), "bar baz".to_string(), "qux".to_string()]).unwrap(),
        "foo bar baz qux"
    );
}

#[test]
fn search_url_encodes_and_pages() {
    assert_eq!(
        search_url("rust lang", 1),
        "https://www.youtube.com/results?search_query=rust%20lang&page=1"
    );
    assert_eq!(
        search_url("a?&b", 42),
        "https://www.youtube.com/results?search_query=a%3F%26b&page=42"
    );
    assert_eq!(
        search_url("é", 10),
        "https://www.youtube.com/results?search_query=%C3%A9&page=10"
    );
}

#[test]
fn find_from_reports_first_occurrence() {
    let t = str_to_chars("abcabcabc");
    let p = str_to_chars("abc");
    assert_eq!(find_from(&t, &p, 0), Some(0));
    assert_eq!(find_from(&t, &p, 1), Some(3));
    assert_eq!(find_from(&t, &p, 7), None);
    let q = str_to_chars("zz");
    assert_eq!(find_from(&t, &q, 0), None);
}

#[test]
fn chars_round_trip() {
    let v = str_to_chars("héllo 😀");
    assert_eq!(chars_to_string(&v), "héllo 😀");
    assert!(chars_eq(&v, &str_to_chars("héllo 😀")));
    assert!(!chars_eq(&v, &str_to_chars("hello 😀")));
}
