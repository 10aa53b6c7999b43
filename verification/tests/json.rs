use cc_switch::json::{push_member, Json, JsonNumber};

#[test]
fn a_text_is_read_into_its_document() {
    let value = Json::parse(r#" {"b": [1, -2, 1.5, true, null], "a": "x\n"} "#).expect("json");
    assert_eq!(value.get_str("a"), Some("x\n"));
    let items = value.get_array("b").expect("array");
    assert_eq!(items[0], Json::Number(JsonNumber::Unsigned(1)));
    assert_eq!(items[1], Json::Number(JsonNumber::Negative(-2)));
    assert!(matches!(items[2], Json::Number(JsonNumber::Other(_))));
    assert_eq!(items[3].as_bool(), Some(true));
    assert_eq!(items[4], Json::Null);
    assert_eq!(items[0].as_u64(), Some(1));
    assert_eq!(items[1].as_u64(), None);
}

#[test]
fn a_text_that_is_no_document_is_refused_with_a_reason() {
    let reason = Json::parse("{").expect_err("no json");
    assert_eq!(reason, "EOF while parsing an object at line 1 column 1");
}

#[test]
fn a_document_is_written_as_compact_text() {
    let mut members: Vec<(String, Json)> = Vec::new();
    push_member(&mut members, "b", Json::array(vec![Json::Null, Json::Bool(false)]));
    push_member(&mut members, "a", Json::text("q\"\\\u{1}é"));
    push_member(&mut members, "c", Json::Number(JsonNumber::Negative(-7)));
    assert_eq!(
        Json::object(members).to_text(),
        "{\"a\":\"q\\\"\\\\\\u0001é\",\"b\":[null,false],\"c\":-7}"
    );
    let other = Json::parse("1.50").expect("json");
    assert_eq!(other.to_text(), "1.5");
}

#[test]
fn a_record_is_read_back() {
    for value in ["", "C:\\x \"y\"", "\u{0}\u{7f}\u{2028}", "é\u{10ffff}"] {
        let record = Json::object(vec![("path".to_string(), Json::text(value))]);
        assert_eq!(Json::parse(&record.to_text()), Ok(record));
    }
}

#[test]
fn a_key_that_occurs_twice_is_kept_once() {
    let value = Json::parse(r#"{"a": 1, "a": 2}"#).expect("json");
    assert_eq!(
        value,
        Json::object(vec![("a".to_string(), Json::Number(JsonNumber::Unsigned(2)))])
    );
}

#[test]
fn setting_a_member_replaces_or_appends() {
    let value = Json::parse(r#"{"a": 1}"#).expect("json");
    let set = value.with("a", Json::Null).with("z", Json::Bool(true));
    assert_eq!(set.get("a"), Some(&Json::Null));
    assert_eq!(set.to_text(), r#"{"a":null,"z":true}"#);
    assert_eq!(Json::Null.get("a"), None);
}
