use gust::json::{Json, Parser};

#[test]
fn strict_json_syntax_and_unicode() {
    let json =
        Parser::parse(r#"{"name":"a\uD83D\uDE80é\n","unknown":[true,false,null,-1.25e+2]}"#)
            .unwrap();
    assert_eq!(json.get("name").unwrap().string().unwrap(), "a🚀é\n");
    for source in [
        "01",
        "-",
        "1.",
        "1e+",
        "[1,]",
        r#""\uD800""#,
        r#""\uDC00""#,
        r#""\uD800\u0041""#,
        r#""\q""#,
        "\"raw\nline\"",
        "{\"x\":0,\"x\":1}",
        "true false",
    ] {
        assert!(Parser::parse(source).is_err(), "{source}");
    }
    let deep = format!("{}0{}", "[".repeat(66), "]".repeat(66));
    assert!(Parser::parse(&deep).is_err());
    for source in ["4294967296", "-1", "1.0", "1e1"] {
        assert!(Parser::parse(source).unwrap().u32().is_err());
    }
}

#[test]
fn json_errors_name_the_failing_byte() {
    assert_eq!(Parser::parse("[1 2]").unwrap_err(), "expected , at byte 3");
    assert_eq!(Parser::parse("{\"a\" 1}").unwrap_err(), "expected : at byte 5");
    assert_eq!(Parser::parse("  ?").unwrap_err(), "invalid JSON at byte 2");
    assert_eq!(Parser::parse("").unwrap_err(), "invalid JSON at byte 0");
    assert_eq!(Parser::parse("\"abc").unwrap_err(), "unterminated string");
    assert_eq!(Parser::parse("\"\\u12\"").unwrap_err(), "invalid Unicode escape");
    assert_eq!(Parser::parse("\"\\u12").unwrap_err(), "truncated Unicode escape");
    assert_eq!(Parser::parse("\"\\").unwrap_err(), "truncated escape");
    assert_eq!(Parser::parse("\"\\uD800x\"").unwrap_err(), "missing low surrogate");
    assert_eq!(Parser::parse("\"\\uD800\\u0041\"").unwrap_err(), "invalid low surrogate");
    assert_eq!(Parser::parse("\"\\uDC00\"").unwrap_err(), "invalid Unicode scalar");
    assert_eq!(Parser::parse("\"\\q\"").unwrap_err(), "invalid escape");
    assert_eq!(Parser::parse("\"a\u{1}\"").unwrap_err(), "control byte in string");
    assert_eq!(Parser::parse("1.").unwrap_err(), "expected digit");
    assert_eq!(Parser::parse("{\"x\":0,\"x\":1}").unwrap_err(), "duplicate JSON key");
    assert_eq!(Parser::parse("true false").unwrap_err(), "trailing JSON data");
    let deep = format!("{}0{}", "[".repeat(66), "]".repeat(66));
    assert_eq!(Parser::parse(&deep).unwrap_err(), "JSON nesting exceeds 64");
}

#[test]
fn json_nesting_of_sixty_four_levels_is_accepted() {
    let deep = format!("{}0{}", "[".repeat(64), "]".repeat(64));
    assert!(Parser::parse(&deep).is_ok());
    let too_deep = format!("{}0{}", "[".repeat(65), "]".repeat(65));
    assert!(Parser::parse(&too_deep).is_err());
}

#[test]
fn json_values_keep_their_source_text() {
    let json = Parser::parse(" { \"n\" : 4294967295 , \"list\" : [ 1 , \"two\" , null ] } ").unwrap();
    assert_eq!(json.get("n").unwrap().u32().unwrap(), 4294967295);
    let list = json.get("list").unwrap().array().unwrap();
    assert_eq!(list.len(), 3);
    assert_eq!(list[0].u32().unwrap(), 1);
    assert_eq!(list[1].string().unwrap(), "two");
    assert!(matches!(list[2], Json::Other));
    assert!(json.optional("missing").unwrap().is_none());
    assert_eq!(json.get("missing").unwrap_err(), "missing missing");
    assert_eq!(list[1].u32().unwrap_err(), "expected unsigned integer");
    assert_eq!(list[0].string().unwrap_err(), "expected string");
    assert_eq!(list[0].array().unwrap_err(), "expected array");
    assert_eq!(list[0].get("x").unwrap_err(), "expected object");
    assert_eq!(Parser::parse("4294967296").unwrap().u32().unwrap_err(), "integer exceeds u32");
    match Parser::parse("-1.25e+2").unwrap() {
        Json::Number(text) => assert_eq!(text, "-1.25e+2"),
        _ => panic!("expected a number"),
    }
    assert_eq!(
        Parser::parse(r#""\"\\\/\b\f\n\r\t""#).unwrap().string().unwrap(),
        "\"\\/\u{8}\u{c}\n\r\t"
    );
}
