use rlsp_yaml::editor_config::{invalidate_all, EditorConfigSettings, SettingsCache};
use rlsp_yaml::yaml_format::unformatted_result;
use rlsp_yaml::comments::{content_signature, find_comment_on_line};
use rlsp_yaml::hover::{
    build_schema_key_path, escape_for_code_span, format_hover_markdown, format_schema_section, truncate_to, JsonSchema,
};
use rlsp_yaml::scalar_helpers::{
    classify_plain_scalar, is_bool, is_float, is_integer, is_null, is_yaml11_bool, is_yaml11_octal, parse_integer, yaml11_bool_canonical,
    PlainScalarKind,
};

#[test]
fn classify_plain_scalar_core_schema_kinds() {
    assert_eq!(classify_plain_scalar(""), PlainScalarKind::Null);
    assert_eq!(classify_plain_scalar("~"), PlainScalarKind::Null);
    assert_eq!(classify_plain_scalar("True"), PlainScalarKind::Bool);
    assert_eq!(classify_plain_scalar("0x1F"), PlainScalarKind::Integer);
    assert_eq!(classify_plain_scalar("-0o17"), PlainScalarKind::Integer);
    assert_eq!(classify_plain_scalar("1.5e3"), PlainScalarKind::Float);
    assert_eq!(classify_plain_scalar("-.INF"), PlainScalarKind::Float);
    assert_eq!(classify_plain_scalar("007"), PlainScalarKind::String);
    assert_eq!(classify_plain_scalar("yes"), PlainScalarKind::String);
}

#[test]
fn parse_integer_exact_values() {
    assert_eq!(parse_integer("42"), Some(42));
    assert_eq!(parse_integer("+42"), Some(42));
    assert_eq!(parse_integer("-0o17"), Some(-15));
    assert_eq!(parse_integer("0xff"), Some(255));
    assert_eq!(parse_integer("0x"), None);
    assert_eq!(parse_integer("-"), None);
    assert_eq!(parse_integer("012"), None);
    assert_eq!(parse_integer("99999999999999999999"), None);
}

#[test]
fn yaml11_scalar_tests() {
    assert!(is_yaml11_bool("yes"));
    assert!(is_yaml11_bool("Off"));
    assert!(!is_yaml11_bool("true"));
    assert_eq!(yaml11_bool_canonical("ON"), "true");
    assert_eq!(yaml11_bool_canonical("n"), "false");
    assert!(is_yaml11_octal("0755"));
    assert!(!is_yaml11_octal("0o755"));
    assert!(!is_yaml11_octal("0"));
}

#[test]
fn comment_on_line_respects_quotes() {
    assert_eq!(
        find_comment_on_line("key: 'a # b'  # c"),
        Some((14, "# c".to_string()))
    );
    assert_eq!(find_comment_on_line("key: \"a # b\""), None);
    assert_eq!(find_comment_on_line("# whole line"), Some((0, "# whole line".to_string())));
    assert_eq!(content_signature("  key: v  # c"), "key: v");
    assert_eq!(content_signature("   "), "");
}

#[test]
fn code_span_and_truncation() {
    assert_eq!(escape_for_code_span("a`b`"), "a\\`b\\`");
    assert_eq!(truncate_to("abcdef", 4), "abc\u{2026}");
    assert_eq!(truncate_to("abcd", 4), "abcd");
    assert_eq!(truncate_to("", 0), "");
}

#[test]
fn hover_markdown_exact_text() {
    assert_eq!(
        format_hover_markdown("a.b", "string", Some("x`y")),
        "**Path:** `a.b`\n\n**Type:** string\n\n**Value:** `x\\`y`\n"
    );
    assert_eq!(
        format_hover_markdown("list[0]", "mapping", None),
        "**Path:** `list[0]`\n\n**Type:** mapping\n"
    );
}

#[test]
fn schema_section_parts() {
    let empty = JsonSchema::default();
    assert_eq!(format_schema_section(&empty), "");
    let s = JsonSchema {
        title: Some("Port".to_string()),
        default: Some("8080".to_string()),
        ..JsonSchema::default()
    };
    assert_eq!(format_schema_section(&s), "\n**Description:** Port\n\n**Default:** 8080\n");
}

#[test]
fn parse_integer_sign_only_before_prefix() {
    assert_eq!(parse_integer("0o-7"), None);
    assert_eq!(parse_integer("0x+F"), None);
    assert_eq!(parse_integer("-0x-8000000000000000"), None);
    assert_eq!(parse_integer("-0x7fffffffffffffff"), Some(-i64::MAX));
    assert_eq!(parse_integer("9223372036854775807"), Some(i64::MAX));
    assert_eq!(parse_integer("-9223372036854775808"), None);
    assert_eq!(parse_integer("0"), Some(0));
    assert_eq!(parse_integer("-0"), Some(0));
}

#[test]
fn float_has_at_most_one_sign() {
    assert!(!is_float("++1.0"));
    assert!(!is_float("+-1.0"));
    assert!(!is_float("-+1.0"));
    assert!(is_float("+1.0"));
    assert!(is_float("-1.0"));
    assert!(is_float("+.inf"));
    assert!(is_float("+.INF"));
    assert!(is_float(".5"));
    assert!(is_float("1e-3"));
    assert!(!is_float("1"));
    assert!(!is_float("inf"));
    assert_eq!(classify_plain_scalar("+.inf"), PlainScalarKind::Float);
    assert_eq!(classify_plain_scalar("++1.0"), PlainScalarKind::String);
}

#[test]
fn schema_key_path_every_index() {
    assert_eq!(build_schema_key_path("a[0][1]"), vec!["a", "[]", "[]"]);
    assert_eq!(build_schema_key_path("items[0].name"), vec!["items", "[]", "name"]);
    assert_eq!(build_schema_key_path("[0][2].x"), vec!["[]", "[]", "x"]);
    assert_eq!(build_schema_key_path("server.port"), vec!["server", "port"]);
}

#[test]
fn scalar_kinds_exclude_one_another() {
    for v in [
        "", "~", "null", "true", "FALSE", "0", "-12", "0o17", "0x1e", "1.5", "1e3", "+.inf", ".NaN",
        "1e", "0x", "abc", "++1.0", "0o-7",
    ] {
        let tests = [is_null(v), is_bool(v), is_integer(v), is_float(v)];
        let passed = tests.iter().filter(|b| **b).count();
        assert!(passed <= 1, "{v:?} passes {passed} tests");
        let expected = if tests[0] {
            PlainScalarKind::Null
        } else if tests[1] {
            PlainScalarKind::Bool
        } else if tests[2] {
            PlainScalarKind::Integer
        } else if tests[3] {
            PlainScalarKind::Float
        } else {
            PlainScalarKind::String
        };
        assert_eq!(classify_plain_scalar(v), expected, "{v:?}");
    }
}

#[test]
fn integer_spellings_read_back() {
    for n in [0i64, 1, 7, 8, 15, 16, 255, 1000, 123456789, i64::MAX] {
        assert_eq!(parse_integer(&n.to_string()), Some(n));
        assert_eq!(parse_integer(&format!("+{n}")), Some(n));
        assert_eq!(parse_integer(&format!("-{n}")), Some(-n));
        assert_eq!(parse_integer(&format!("0o{n:o}")), Some(n));
        assert_eq!(parse_integer(&format!("-0o{n:o}")), Some(-n));
        assert_eq!(parse_integer(&format!("0x{n:x}")), Some(n));
        assert_eq!(parse_integer(&format!("+0x{n:X}")), Some(n));
        assert_eq!(parse_integer(&format!("-0x{n:X}")), Some(-n));
    }
}

#[test]
fn unformatted_result_cases() {
    assert_eq!(unformatted_result("a: [", true, 0), Some("a: [".to_string()));
    assert_eq!(unformatted_result("# only\n", false, 0), Some(String::new()));
    assert_eq!(unformatted_result("a: 1\n", false, 1), None);
}

#[test]
fn settings_cache_reads_after_writes_and_invalidation() {
    let mut cache = SettingsCache::new();
    let first = EditorConfigSettings { max_line_length: Some(100), end_of_line: None, insert_final_newline: None };
    let second = EditorConfigSettings { max_line_length: Some(120), end_of_line: None, insert_final_newline: None };
    assert_eq!(cache.get("/a"), None);
    cache.insert_if_absent("/a", first);
    cache.insert_if_absent("/a", second);
    assert_eq!(cache.get("/a"), Some(first));
    assert_eq!(cache.get("/b"), None);
    invalidate_all(&mut cache);
    assert_eq!(cache.get("/a"), None);
    cache.insert_if_absent("/a", second);
    assert_eq!(cache.get("/a"), Some(second));
}
