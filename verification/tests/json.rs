use l4dder_worker::json::{ival, parse_json, sval, Json};

fn doc(s: &str) -> Json {
    parse_json(s.as_bytes()).unwrap()
}

#[test]
fn documents_are_read() {
    assert!(matches!(doc("null"), Json::Null));
    assert!(matches!(doc("true"), Json::Bool(true)));
    assert!(matches!(doc(" -7 "), Json::Number(Some(-7))));
    assert!(matches!(doc("1.5"), Json::Number(None)));
    assert!(matches!(doc("1.0"), Json::Number(None)));
    assert!(matches!(doc("9223372036854775807"), Json::Number(Some(i64::MAX))));
    assert!(matches!(doc("9223372036854775808"), Json::Number(None)));
    assert_eq!(doc("\"h\\u00e9\"").as_str(), Some("hé"));
}

#[test]
fn nested_documents_are_read() {
    let d = doc("{\"b\": [1, {\"c\": \"x\"}, []], \"a\": {\"b\": false}}");
    let list = d.field("b").unwrap().as_array().unwrap();
    assert_eq!(list.len(), 3);
    assert_eq!(list[0].as_i64(), Some(1));
    assert_eq!(list[1].field("c").unwrap().as_str(), Some("x"));
    assert_eq!(list[2].as_array().unwrap().len(), 0);
    assert!(matches!(d.field("a").unwrap().field("b"), Some(Json::Bool(false))));
    assert!(d.field("c").is_none());
}

#[test]
fn the_last_entry_of_a_name_counts() {
    assert_eq!(ival(&doc("{\"a\": 1, \"a\": 2}"), "a"), 2);
}

#[test]
fn what_is_no_document_is_refused() {
    for s in ["", "{", "[1,]", "1 2", "nul", "{\"a\" 1}", "'x'"] {
        assert!(parse_json(s.as_bytes()).is_none(), "{:?}", s);
    }
    assert!(parse_json(&[b'"', 0xff, b'"']).is_none());
}

#[test]
fn fields_belong_to_objects() {
    assert!(doc("[1]").field("a").is_none());
    assert!(doc("\"a\"").field("a").is_none());
    assert!(doc("{\"a\": null}").field("a").is_some());
    assert!(doc("{}").as_array().is_none());
}

#[test]
fn integers_default_to_zero() {
    let d = doc("{\"n\": 5, \"f\": 5.5, \"s\": \"5\", \"big\": 18446744073709551615}");
    assert_eq!(ival(&d, "n"), 5);
    assert_eq!(ival(&d, "f"), 0);
    assert_eq!(ival(&d, "s"), 0);
    assert_eq!(ival(&d, "big"), 0);
    assert_eq!(ival(&d, "none"), 0);
}

#[test]
fn texts_default_to_nothing() {
    let d = doc("{\"n\": 5, \"s\": \"five\", \"z\": null}");
    assert_eq!(sval(&d, "s"), Some("five".to_string()));
    assert_eq!(sval(&d, "n"), None);
    assert_eq!(sval(&d, "z"), None);
    assert_eq!(sval(&d, "none"), None);
}
