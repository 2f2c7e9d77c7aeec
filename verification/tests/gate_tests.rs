use feature_gate::condition::Condition;
use feature_gate::gate::{gate_general, gate_simple, render_gated, ConfigError};

fn flag(name: &str) -> Condition {
    Condition::Flag { name: name.to_string() }
}

fn key_value(key: &str, value: &str) -> Condition {
    Condition::KeyValue { key: key.to_string(), value: value.to_string() }
}

#[test]
fn empty_argument_fails_with_missing_configuration() {
    assert_eq!(
        gate_simple("", "struct S;", false).unwrap_err(),
        ConfigError::MissingConfiguration
    );
    assert_eq!(
        gate_general("", "struct S;", false).unwrap_err(),
        ConfigError::MissingConfiguration
    );
}

#[test]
fn simple_surface_rejects_a_bare_identifier() {
    assert_eq!(
        gate_simple("nightly", "struct S;", false).unwrap_err(),
        ConfigError::InvalidConfiguration
    );
}

#[test]
fn simple_surface_rejects_anything_but_one_string_literal() {
    assert_eq!(
        gate_simple("any(test)", "struct S;", false).unwrap_err(),
        ConfigError::InvalidConfiguration
    );
    assert_eq!(
        gate_simple("\"a\" \"b\"", "struct S;", false).unwrap_err(),
        ConfigError::InvalidConfiguration
    );
    assert_eq!(
        gate_simple("\"unterminated", "struct S;", false).unwrap_err(),
        ConfigError::InvalidConfiguration
    );
}

#[test]
fn gating_a_struct_on_a_single_feature() {
    let g = gate_simple("\"nightly\"", "struct Widget { }", false).unwrap();
    assert_eq!(g.build_condition, key_value("feature", "nightly"));
    assert_eq!(g.declaration, "struct Widget { }");
    assert!(g.doc_condition.is_none());
}

#[test]
fn simple_surface_accepts_surrounding_whitespace() {
    let g = gate_simple("  \"serde\"  ", "fn f() {}", false).unwrap();
    assert_eq!(g.build_condition, key_value("feature", "serde"));
}

#[test]
fn general_surface_parses_the_full_grammar() {
    let g = gate_general("any(test, feature = \"test\")", "struct S;", false).unwrap();
    let expected = Condition::Any {
        left: Box::new(flag("test")),
        right: Box::new(key_value("feature", "test")),
    };
    assert_eq!(g.build_condition, expected);
    assert_eq!(g.declaration, "struct S;");
}

#[test]
fn general_surface_rejects_malformed_expressions() {
    for bad in [
        "any(test",
        "not(a, b)",
        "not()",
        "\"test\"",
        "feature = test",
        "feature = 'test'",
        "a b",
        "any",
        "all(a, b) extra",
        "feature = \"a\\b\"",
    ] {
        assert_eq!(
            gate_general(bad, "struct S;", false).unwrap_err(),
            ConfigError::InvalidConfiguration,
            "input: {bad}"
        );
    }
}

#[test]
fn general_surface_accepts_operand_lists_of_any_length() {
    let g = gate_general("any(unix, windows, wasm)", "struct S;", false).unwrap();
    let expected = Condition::Any {
        left: Box::new(flag("unix")),
        right: Box::new(Condition::Any {
            left: Box::new(flag("windows")),
            right: Box::new(flag("wasm")),
        }),
    };
    assert_eq!(g.build_condition, expected);

    let single = gate_general("all(unix)", "struct S;", false).unwrap();
    assert_eq!(single.build_condition, flag("unix"));

    let empty_any = gate_general("any()", "struct S;", false).unwrap();
    assert_eq!(empty_any.build_condition, Condition::Never);
    let empty_all = gate_general("all()", "struct S;", false).unwrap();
    assert_eq!(empty_all.build_condition, Condition::Always);
}

#[test]
fn documentation_annotation_follows_the_documentation_flag() {
    let on = gate_simple("\"x\"", "fn f() {}", true).unwrap();
    assert_eq!(on.doc_condition.as_ref().unwrap(), &on.build_condition);
    let off = gate_simple("\"x\"", "fn f() {}", false).unwrap();
    assert!(off.doc_condition.is_none());

    let on = gate_general("all(a, not(b))", "fn f() {}", true).unwrap();
    assert_eq!(on.doc_condition.as_ref().unwrap(), &on.build_condition);
    let off = gate_general("all(a, not(b))", "fn f() {}", false).unwrap();
    assert!(off.doc_condition.is_none());
}

#[test]
fn rendered_output_prefixes_the_two_annotations_in_order() {
    let g = gate_simple("\"nightly\"", "struct Widget { }", true).unwrap();
    assert_eq!(
        render_gated(&g),
        "@if(feature=\"nightly\")\n@doc_requires(feature=\"nightly\")\nstruct Widget { }"
    );
}

#[test]
fn rendered_output_without_documentation_flag_has_one_annotation() {
    let g = gate_general("not(feature = \"std\")", "pub fn id(x: u8) -> u8 { x }", false)
        .unwrap();
    assert_eq!(
        render_gated(&g),
        "@if(not(feature=\"std\"))\npub fn id(x: u8) -> u8 { x }"
    );
}

#[test]
fn declaration_is_reproduced_byte_for_byte() {
    let decl = "  #[derive(Debug)]\n  struct Odd { a: u8, }  // trailing\n";
    let g = gate_general("flag_a", decl, true).unwrap();
    assert_eq!(g.declaration, decl);
    let rendered = render_gated(&g);
    assert!(rendered.ends_with(decl));
}

#[test]
fn empty_feature_name_in_quotes_is_accepted() {
    let g = gate_simple("\"\"", "struct S;", false).unwrap();
    assert_eq!(g.build_condition, key_value("feature", ""));
}

#[test]
fn escaped_characters_in_a_feature_name_are_accepted() {
    let g = gate_simple("\"odd\\\"name\"", "struct S;", false).unwrap();
    assert_eq!(g.build_condition, key_value("feature", "odd\"name"));
}
