use superconf::num_or_name;

#[test]
fn reads_plain_numbers() {
    assert_eq!(num_or_name("0"), Ok(0));
    assert_eq!(num_or_name("2334"), Ok(2334));
    assert_eq!(num_or_name("+17"), Ok(17));
    assert_eq!(num_or_name("-42"), Ok(-42));
    assert_eq!(num_or_name("-0"), Ok(0));
}

#[test]
fn keeps_names() {
    assert_eq!(num_or_name("there"), Err("there"));
    assert_eq!(num_or_name(""), Err(""));
    assert_eq!(num_or_name("+"), Err("+"));
    assert_eq!(num_or_name("-"), Err("-"));
    assert_eq!(num_or_name("12a"), Err("12a"));
    assert_eq!(num_or_name("1 2"), Err("1 2"));
    assert_eq!(num_or_name(" 3"), Err(" 3"));
    assert_eq!(num_or_name("--4"), Err("--4"));
}

#[test]
fn range_limits() {
    assert_eq!(num_or_name("9223372036854775807"), Ok(i64::MAX));
    assert_eq!(num_or_name("-9223372036854775808"), Ok(i64::MIN));
    assert_eq!(
        num_or_name("9223372036854775808"),
        Err("9223372036854775808")
    );
    assert_eq!(
        num_or_name("-9223372036854775809"),
        Err("-9223372036854775809")
    );
    assert_eq!(
        num_or_name("99999999999999999999999"),
        Err("99999999999999999999999")
    );
}

#[test]
fn agrees_with_the_standard_parser() {
    for text in [
        "0", "7", "-7", "+7", "007", "-0", "x", "", "9223372036854775807",
        "-9223372036854775808", "9223372036854775808", "18446744073709551616",
    ] {
        match num_or_name(text) {
            Ok(n) => assert_eq!(text.parse::<i64>().unwrap(), n),
            Err(name) => {
                assert!(text.parse::<i64>().is_err());
                assert_eq!(name, text);
            }
        }
    }
}
