use superconf::{Parse, SuperConf, SuperError, SuperItem, SuperValue};

fn single(s: &str) -> SuperValue {
    SuperValue::Single(s.to_string())
}

fn list(fields: &[&str]) -> SuperValue {
    SuperValue::List(fields.iter().map(|s| s.to_string()).collect())
}

fn item(key: &str, value: SuperValue) -> SuperItem {
    SuperItem { key: key.to_string(), value }
}

fn conf(items: Vec<SuperItem>) -> SuperConf {
    SuperConf { items }
}

#[test]
fn basic_parse() {
    SuperConf::parse("loop 10\n\nhello there").unwrap();
    SuperConf::parse("loop 10\n\nhello there").unwrap();
    // The second line reuses the key `loop`: duplicate keys are a hard error
    // carrying the value already stored under the key.
    let err = SuperConf::parse("loop 10\nloop {hello: there, other 2334, final [2,4,324,2]}")
        .unwrap_err();
    assert_eq!(err, SuperError::ElementExists(single("10")));
}

#[test]
fn full_line_comment_gives_empty_mapping() {
    let parsed = SuperConf::parse("# a full-line comment").unwrap();
    assert_eq!(parsed, conf(vec![]));
}

#[test]
fn single_record() {
    let parsed = SuperConf::parse("key value").unwrap();
    assert_eq!(parsed, conf(vec![item("key", single("value"))]));
}

#[test]
fn escaped_separators_in_key_and_value() {
    let parsed = SuperConf::parse("my\\ key this\\ is\\ the\\ value").unwrap();
    assert_eq!(parsed, conf(vec![item("my key", single("this is the value"))]));
}

#[test]
fn two_fields_give_a_list() {
    let parsed = SuperConf::parse("my_key first_val second_val").unwrap();
    assert_eq!(
        parsed,
        conf(vec![item("my_key", list(&["first_val", "second_val"]))])
    );
}

#[test]
fn unescaped_comment_discards_whole_record() {
    let parsed = SuperConf::parse("my_key my_value # trailing comment").unwrap();
    assert_eq!(parsed, conf(vec![]));
}

#[test]
fn comment_marker_cannot_be_escaped() {
    let parsed = SuperConf::parse("key val\\#ue").unwrap();
    assert_eq!(parsed, conf(vec![]));
}

#[test]
fn duplicate_key_fails_with_previous_value() {
    let err = SuperConf::parse("k v\nk v2").unwrap_err();
    assert_eq!(err, SuperError::ElementExists(single("v")));
}

#[test]
fn custom_separator() {
    let parsed = SuperConf::parse_with_separator("arrow>demonstration", '>').unwrap();
    assert_eq!(parsed, conf(vec![item("arrow", single("demonstration"))]));
    // With the default separator the same text is one bare key and skipped.
    let parsed = SuperConf::parse("arrow>demonstration").unwrap();
    assert_eq!(parsed, conf(vec![]));
}

#[test]
fn comment_marker_as_separator_stops_being_a_comment() {
    let parsed = SuperConf::parse_with_separator("a#b", '#').unwrap();
    assert_eq!(parsed, conf(vec![item("a", single("b"))]));
}

#[test]
fn reparsing_gives_equal_mappings() {
    let text = "first 1\nsecond a b \\ c\n# comment\nthird\\ key x";
    let first = SuperConf::parse(text).unwrap();
    let second = SuperConf::parse(text).unwrap();
    assert_eq!(first, second);
}

#[test]
fn empty_input_gives_empty_mapping() {
    let parsed = SuperConf::parse("").unwrap();
    assert_eq!(parsed, conf(vec![]));
}

#[test]
fn blank_lines_and_bare_keys_are_skipped() {
    let parsed = SuperConf::parse("\n\nbare_key\n\nk v\n").unwrap();
    assert_eq!(parsed, conf(vec![item("k", single("v"))]));
}

#[test]
fn trailing_newline_adds_nothing() {
    let parsed = SuperConf::parse("key value\n").unwrap();
    assert_eq!(parsed, conf(vec![item("key", single("value"))]));
}

#[test]
fn consecutive_separators_collapse() {
    let parsed = SuperConf::parse("k   v").unwrap();
    assert_eq!(parsed, conf(vec![item("k", single("v"))]));
}

#[test]
fn trailing_separator_opens_an_empty_field() {
    let parsed = SuperConf::parse("k v ").unwrap();
    assert_eq!(parsed, conf(vec![item("k", list(&["v", ""]))]));
}

#[test]
fn backslash_before_ordinary_character_leaves_no_trace() {
    let parsed = SuperConf::parse("a\\bc d").unwrap();
    assert_eq!(parsed, conf(vec![item("abc", single("d"))]));
}

#[test]
fn two_backslashes_cancel_the_escape() {
    let parsed = SuperConf::parse("a\\\\ b").unwrap();
    assert_eq!(parsed, conf(vec![item("a", single("b"))]));
}

#[test]
fn no_backslash_ever_survives_into_output() {
    let parsed = SuperConf::parse("k\\\\x v\\z w\\").unwrap();
    assert_eq!(parsed, conf(vec![item("kx", list(&["vz", "w"]))]));
}

#[test]
fn escaped_separator_at_line_start() {
    let parsed = SuperConf::parse("\\ key v").unwrap();
    assert_eq!(parsed, conf(vec![item(" key", single("v"))]));
}

#[test]
fn insertion_order_is_preserved() {
    let parsed = SuperConf::parse("b 1\na 2\nc 3").unwrap();
    assert_eq!(
        parsed,
        conf(vec![
            item("b", single("1")),
            item("a", single("2")),
            item("c", single("3")),
        ])
    );
}

#[test]
fn lookup_by_key() {
    let parsed = SuperConf::parse("a 1\nb x y").unwrap();
    assert_eq!(parsed.get(&"a".to_string()), Some(&single("1")));
    assert_eq!(parsed.get(&"b".to_string()), Some(&list(&["x", "y"])));
    assert_eq!(parsed.get(&"c".to_string()), None);
}

#[test]
fn error_aborts_whole_parse() {
    // The duplicate is found before the later, well-formed line is reached;
    // nothing of the partial mapping survives.
    let err = SuperConf::parse("a 1\nb 2\na 3\nc 4").unwrap_err();
    assert_eq!(err, SuperError::ElementExists(single("1")));
}
