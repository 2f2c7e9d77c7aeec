use feature_gate::condition::Condition;
use feature_gate::parser::{parse_condition, parse_flag_literal};

fn flag(name: &str) -> Condition {
    Condition::Flag { name: name.to_string() }
}

fn key_value(key: &str, value: &str) -> Condition {
    Condition::KeyValue { key: key.to_string(), value: value.to_string() }
}

#[test]
fn parses_a_bare_flag() {
    assert_eq!(parse_condition("test").unwrap(), flag("test"));
    assert_eq!(parse_condition("  _under_score9  ").unwrap(), flag("_under_score9"));
}

#[test]
fn parses_a_key_value_atom() {
    assert_eq!(parse_condition("feature = \"test\"").unwrap(), key_value("feature", "test"));
    assert_eq!(parse_condition("feature=\"a-b.c\"").unwrap(), key_value("feature", "a-b.c"));
}

#[test]
fn quoted_values_support_quote_and_backslash_escapes() {
    assert_eq!(parse_condition("k = \"a\\\"b\"").unwrap(), key_value("k", "a\"b"));
    assert_eq!(parse_condition("k = \"a\\\\b\"").unwrap(), key_value("k", "a\\b"));
    // a stray backslash is not a valid escape
    assert!(parse_condition("k = \"a\\b\"").is_none());
    // rendering escapes on the way out
    assert_eq!(key_value("k", "a\"b\\c").render(), "k=\"a\\\"b\\\\c\"");
}

#[test]
fn parses_nested_combinators_with_whitespace() {
    let parsed = parse_condition(" all ( not ( test ) , any ( a , b = \"c\" ) ) ").unwrap();
    let expected = Condition::All {
        left: Box::new(Condition::Not { inner: Box::new(flag("test")) }),
        right: Box::new(Condition::Any {
            left: Box::new(flag("a")),
            right: Box::new(key_value("b", "c")),
        }),
    };
    assert_eq!(parsed, expected);
}

#[test]
fn rejects_text_outside_the_grammar() {
    for bad in [
        "",
        "   ",
        "1abc",
        "any(,)",
        "any(test, feature = )",
        "not()",
        "not(a))",
        "(a)",
        "a,b",
        "feature == \"x\"",
        "feature = \"broken",
    ] {
        assert!(parse_condition(bad).is_none(), "input: {bad}");
    }
}

#[test]
fn reserved_words_cannot_stand_as_flags_or_keys() {
    assert!(parse_condition("any").is_none());
    assert!(parse_condition("all = \"x\"").is_none());
    assert!(parse_condition("not").is_none());
}

#[test]
fn operand_lists_fold_onto_the_two_operand_tree() {
    let parsed = parse_condition("any(unix, windows, wasm)").unwrap();
    let expected = Condition::Any {
        left: Box::new(flag("unix")),
        right: Box::new(Condition::Any {
            left: Box::new(flag("windows")),
            right: Box::new(flag("wasm")),
        }),
    };
    assert_eq!(parsed, expected);
    assert_eq!(parse_condition("all(a)").unwrap(), flag("a"));
    assert_eq!(parse_condition("any ( )").unwrap(), Condition::Never);
    assert_eq!(parse_condition("all()").unwrap(), Condition::Always);
}

#[test]
fn a_trailing_comma_in_an_operand_list_is_accepted() {
    assert_eq!(parse_condition("any(a, b,)").unwrap(), parse_condition("any(a, b)").unwrap());
    assert_eq!(parse_condition("all(a , )").unwrap(), flag("a"));
}

#[test]
fn rendering_a_parsed_condition_and_parsing_again_is_stable() {
    for text in [
        "any(test, feature = \"test\")",
        "  all ( a , not ( b ) )  ",
        "not(any(all(a, b), c))",
        "any(unix, windows, wasm)",
        "all(a, b, c, d,)",
        "any()",
        "all()",
        "feature = \"serde\"",
        "k = \"a\\\"b\\\\c\"",
        "plain_flag",
    ] {
        let first = parse_condition(text).unwrap();
        let rendered = first.render();
        let second = parse_condition(&rendered).unwrap();
        assert_eq!(second, first, "input: {text}");
        // the canonical form renders to itself
        assert_eq!(second.render(), rendered, "input: {text}");
    }
}

#[test]
fn canonical_rendering_drops_whitespace() {
    let parsed = parse_condition("any( test , feature = \"test\" )").unwrap();
    assert_eq!(parsed.render(), "any(test,feature=\"test\")");
}

#[test]
fn flag_literal_accepts_one_quoted_string() {
    assert_eq!(parse_flag_literal("\"nightly\"").unwrap(), "nightly");
    assert_eq!(parse_flag_literal("  \"a b\"  ").unwrap(), "a b");
    assert_eq!(parse_flag_literal("\"\"").unwrap(), "");
    assert_eq!(parse_flag_literal("\"a\\\"b\"").unwrap(), "a\"b");
    assert_eq!(parse_flag_literal("\"a\\\\b\"").unwrap(), "a\\b");
}

#[test]
fn flag_literal_rejects_anything_else() {
    for bad in ["nightly", "\"a\" \"b\"", "\"a", "a\"", "", "\"a\\\"", "\"x\" y"] {
        assert!(parse_flag_literal(bad).is_none(), "input: {bad}");
    }
}
