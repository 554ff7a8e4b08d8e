use superconf::line::build_value;
use superconf::token::tokenize;
use superconf::{flipflop_once, LineParser, SuperItem, SuperValue, Token};

#[test]
fn spaces_in_keys() {
    assert_eq!(
        SuperItem::parse("hello\\ there true").unwrap(),
        SuperItem {
            key: "hello there".to_string(),
            value: SuperValue::Single("true".to_string()),
        }
    );
}

#[test]
fn tokens_are_classified_in_order() {
    assert_eq!(
        tokenize("a \\#", ' '),
        vec![
            Token::Character('a'),
            Token::Separator,
            Token::Backslash,
            Token::Comment,
        ]
    );
}

#[test]
fn separator_takes_priority_over_comment() {
    assert_eq!(tokenize("#", '#'), vec![Token::Separator]);
}

#[test]
fn stepping_a_parser_by_hand() {
    let mut parser = LineParser::new(' ');
    for t in tokenize("k v", ' ') {
        parser.step(t);
    }
    assert_eq!(
        parser.finish().unwrap(),
        SuperItem {
            key: "k".to_string(),
            value: SuperValue::Single("v".to_string()),
        }
    );
}

#[test]
fn comment_token_freezes_the_parser() {
    let mut parser = LineParser::new(' ');
    for t in tokenize("k v # w", ' ') {
        parser.step(t);
    }
    assert_eq!(parser.finish(), None);
}

#[test]
fn bare_key_line_is_skipped() {
    assert_eq!(SuperItem::parse("just_a_key"), None);
    assert_eq!(SuperItem::parse(""), None);
}

#[test]
fn item_with_custom_separator() {
    assert_eq!(
        SuperItem::parse_with_separator("a:b:c", ':').unwrap(),
        SuperItem {
            key: "a".to_string(),
            value: SuperValue::List(vec!["b".to_string(), "c".to_string()]),
        }
    );
}

#[test]
fn value_builder_shapes() {
    assert_eq!(build_value(vec![]), None);
    assert_eq!(
        build_value(vec!["only".to_string()]),
        Some(SuperValue::Single("only".to_string()))
    );
    assert_eq!(
        build_value(vec!["a".to_string(), "b".to_string()]),
        Some(SuperValue::List(vec!["a".to_string(), "b".to_string()]))
    );
}

#[test]
fn flipflop_splits_at_first_unescaped_separator() {
    assert_eq!(flipflop_once("hello there world", ' '), Some(("hello", "there world")));
}

#[test]
fn flipflop_keeps_escapes_in_the_halves() {
    assert_eq!(
        flipflop_once("hello\\ there more", ' '),
        Some(("hello\\ there", "more"))
    );
}

#[test]
fn flipflop_without_separator_finds_nothing() {
    assert_eq!(flipflop_once("nosep", ' '), None);
}

#[test]
fn flipflop_escapes_toggle() {
    // The second backslash cancels the first, so the separator after an even
    // run of backslashes is unescaped and the split happens there.
    assert_eq!(flipflop_once("a\\\\ b", ' '), Some(("a\\\\", "b")));
    assert_eq!(flipflop_once("a\\\\\\ b c", ' '), Some(("a\\\\\\ b", "c")));
}

#[test]
fn flipflop_with_escape_character_as_separator() {
    // The separator takes priority over the escape character, so a backslash
    // separator splits and can never arm an escape.
    assert_eq!(flipflop_once("a\\b", '\\'), Some(("a", "b")));
}
