//! Unit tests for the text utilities and literal parsers.
use tyco::utils::has_unclosed_delimiter;
use tyco::utils::is_escaped;
use tyco::utils::normalize_datetime;
use tyco::utils::normalize_time;
use tyco::utils::parse_integer;
use tyco::utils::split_top_level;
use tyco::utils::strip_inline_comment;
use tyco::utils::strip_leading_newline;
use tyco::utils::unescape_basic_string;
use tyco::parser::is_valid_field_name;
use tyco::parser::match_struct_def;
use tyco::parser::parse_string_value;
use tyco::parser::split_named_argument;

#[test]
fn integer_literals_by_radix() {
    assert_eq!(parse_integer("0x1F").unwrap(), 31);
    assert_eq!(parse_integer("0o17").unwrap(), 15);
    assert_eq!(parse_integer("0b101").unwrap(), 5);
    assert_eq!(parse_integer("-42").unwrap(), -42);
    assert_eq!(parse_integer("0").unwrap(), 0);
    assert_eq!(parse_integer("  123  ").unwrap(), 123);
    assert_eq!(parse_integer("-0x10").unwrap(), -16);
}

#[test]
fn integer_literals_rejected() {
    assert!(parse_integer("").is_err());
    assert!(parse_integer("-").is_err());
    assert!(parse_integer("0x").is_err());
    assert!(parse_integer("12a").is_err());
    assert!(parse_integer("+5").is_err());
    assert!(parse_integer("99999999999999999999").is_err());
}

#[test]
fn time_normalization() {
    assert_eq!(normalize_time("12:00:00.5"), "12:00:00.500000");
    assert_eq!(normalize_time("12:00:00"), "12:00:00");
    assert_eq!(normalize_time("12:00:00.1234567"), "12:00:00.123456");
}

#[test]
fn datetime_normalization() {
    assert_eq!(normalize_datetime("2024-01-01 10:00:00Z"), "2024-01-01T10:00:00+00:00");
    assert_eq!(normalize_datetime("2024-01-01 10:00:00.5+02:00"), "2024-01-01T10:00:00.500000+02:00");
    assert_eq!(normalize_datetime("2024-01-01T10:00:00"), "2024-01-01T10:00:00");
}

#[test]
fn comment_stripping_respects_quotes() {
    assert_eq!(strip_inline_comment("a = 1 # comment"), "a = 1");
    assert_eq!(strip_inline_comment("s = \"a # b\" # real"), "s = \"a # b\"");
    assert_eq!(strip_inline_comment("plain  "), "plain");
}

#[test]
fn unclosed_delimiters() {
    assert!(has_unclosed_delimiter("x = \"\"\"abc", "\"\"\""));
    assert!(!has_unclosed_delimiter("x = \"\"\"abc\"\"\"", "\"\"\""));
    assert!(!has_unclosed_delimiter("nothing here", "\"\"\""));
}

#[test]
fn top_level_splitting() {
    assert_eq!(split_top_level("a, b, c", ','), vec!["a", "b", "c"]);
    assert_eq!(split_top_level("a, [1, 2], c", ','), vec!["a", "[1, 2]", "c"]);
    assert_eq!(split_top_level("\"x, y\", z", ','), vec!["\"x, y\"", "z"]);
    assert_eq!(split_top_level("f(1, 2), g", ','), vec!["f(1, 2)", "g"]);
    let empty: Vec<String> = Vec::new();
    assert_eq!(split_top_level("   ", ','), empty);
}

#[test]
fn escape_processing() {
    assert_eq!(unescape_basic_string("a\\nb").unwrap(), "a\nb");
    assert_eq!(unescape_basic_string("a\\tb").unwrap(), "a\tb");
    assert_eq!(unescape_basic_string("quote \\\" end").unwrap(), "quote \" end");
    assert_eq!(unescape_basic_string("\\u0041").unwrap(), "A");
    assert_eq!(unescape_basic_string("\\U0001F600").unwrap(), "\u{1F600}");
    assert_eq!(unescape_basic_string("unknown \\q").unwrap(), "unknown \\q");
    assert_eq!(unescape_basic_string("trailing \\").unwrap(), "trailing \\");
    assert!(unescape_basic_string("\\uZZZZ").is_err());
    assert!(unescape_basic_string("\\u12").is_err());
    assert!(unescape_basic_string("\\uD800").is_err());
}

#[test]
fn leading_newline_stripping() {
    assert_eq!(strip_leading_newline("\nabc"), "abc");
    assert_eq!(strip_leading_newline("abc"), "abc");
    assert_eq!(strip_leading_newline("\n\nabc"), "\nabc");
}

#[test]
fn escaped_detection() {
    assert!(is_escaped("abc\\"));
    assert!(!is_escaped("abc\\\\"));
    assert!(!is_escaped("abc"));
}

#[test]
fn field_names() {
    assert!(is_valid_field_name("name"));
    assert!(is_valid_field_name("_x9"));
    assert!(!is_valid_field_name("9x"));
    assert!(!is_valid_field_name(""));
    assert!(!is_valid_field_name("a-b"));
}

#[test]
fn struct_headers() {
    assert_eq!(match_struct_def("Person:").unwrap(), "Person");
    assert_eq!(match_struct_def("Person  :").unwrap(), "Person");
    assert!(match_struct_def("person:").is_none());
    assert!(match_struct_def("Person: x").is_none());
}

#[test]
fn string_literal_forms() {
    let s = parse_string_value("\"hi {name}\"").unwrap();
    assert_eq!(s.value, "hi {name}");
    assert!(s.has_template);
    assert!(!s.is_literal);

    let raw = parse_string_value("'hi {name}'").unwrap();
    assert_eq!(raw.value, "hi {name}");
    assert!(!raw.has_template);
    assert!(raw.is_literal);

    let triple = parse_string_value("\"\"\"\nline\"\"\"").unwrap();
    assert_eq!(triple.value, "line");

    let rawtriple = parse_string_value("'''keep \\n as is'''").unwrap();
    assert_eq!(rawtriple.value, "keep \\n as is");
    assert!(rawtriple.is_literal);

    let bare = parse_string_value("plain").unwrap();
    assert_eq!(bare.value, "plain");
    assert!(!bare.has_template);
}

#[test]
fn named_argument_splitting() {
    let (n, v) = split_named_argument("name: \"a\"").unwrap();
    assert_eq!(n, "name");
    assert_eq!(v, "\"a\"");
    assert!(split_named_argument("\"a: b\"").is_none());
    assert!(split_named_argument("f(x: 1)").is_none());
    assert!(split_named_argument("bare").is_none());
}
