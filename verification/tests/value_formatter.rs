//! The value formatter: YAML loaded by `saphyr`, laid out by the
//! library, printed, and finished by the library.

use rlsp_yaml::doc::Doc;
use rlsp_yaml::formatter::{
    attach_comments, escape_double_quoted, extract_comments, finish_output, needs_quoting, Comment,
    CommentKind, YamlFormatOptions,
};
use rlsp_yaml::value_layout::{format_float, lay_out_text};

fn default_opts() -> YamlFormatOptions {
    YamlFormatOptions::default()
}

/// Lays a layout out as the pretty printer does for layouts made only of
/// text, hard line breaks, indentation and concatenation.
fn render(d: &Doc, level: usize, tab: usize, out: &mut String) {
    match d {
        Doc::Text(s) => out.push_str(s),
        Doc::HardLine => {
            out.push('\n');
            out.push_str(&" ".repeat(level * tab));
        }
        Doc::Indent(a) => render(a, level + 1, tab, out),
        Doc::Concat(v) => v.iter().for_each(|x| render(x, level, tab, out)),
        other => panic!("unexpected layout piece {other:?}"),
    }
}

fn format_yaml(text_input: &str, options: &YamlFormatOptions) -> String {
    match lay_out_text(text_input, options) {
        Ok(layout) => {
            let mut printed = String::new();
            render(&layout, 0, options.tab_width, &mut printed);
            finish_output(text_input, &printed)
        }
        Err(unchanged) => unchanged,
    }
}

#[test]
fn layout_of_nested_values_exact() {
    let input = "a:\n  b: 1\n  c:\n    - x\n    - k: v\n      m: n\n";
    assert_eq!(format_yaml(input, &default_opts()), input);
}

#[test]
fn layout_of_empty_collections_and_tags() {
    assert_eq!(format_yaml("a: {}\nb: []\n", &default_opts()), "a: {}\nb: []\n");
    let result = format_yaml("v: !custom x\n", &default_opts());
    assert_eq!(result, "v: !custom x\n");
}

#[test]
fn layout_of_strings_needing_quotes() {
    assert_eq!(format_yaml("k: \"123\"\n", &default_opts()), "k: \"123\"\n");
    assert_eq!(format_yaml("k: \"\"\n", &default_opts()), "k: \"\"\n");
    assert_eq!(format_yaml("k: -5\n", &default_opts()), "k: -5\n");
}

#[test]
fn simple_key_value() {
    let result = format_yaml("key: value\n", &default_opts());
    assert_eq!(result, "key: value\n");
}

#[test]
fn multiple_keys() {
    let result = format_yaml("a: 1\nb: 2\nc: 3\n", &default_opts());
    assert_eq!(result, "a: 1\nb: 2\nc: 3\n");
}

#[test]
fn nested_mapping() {
    let input = "parent:\n  child: value\n";
    let result = format_yaml(input, &default_opts());
    assert!(result.contains("parent:"), "missing parent key");
    assert!(
        result.contains("  child: value") || result.contains("\n  child:"),
        "child should be indented: {result:?}"
    );
}

#[test]
fn deeply_nested() {
    let input = "a:\n  b:\n    c: deep\n";
    let result = format_yaml(input, &default_opts());
    assert!(result.contains("a:"), "missing a");
    assert!(result.contains("b:"), "missing b");
    assert!(
        result.contains("c: deep") || result.contains("c:"),
        "missing c"
    );
}

#[test]
fn block_sequence() {
    let input = "items:\n  - one\n  - two\n  - three\n";
    let result = format_yaml(input, &default_opts());
    assert!(result.contains("items:"), "missing items key");
    assert!(result.contains("- one"), "missing - one");
    assert!(result.contains("- two"), "missing - two");
}

#[test]
fn sequence_of_mappings() {
    let input = "users:\n  - name: Alice\n    age: 30\n  - name: Bob\n    age: 25\n";
    let result = format_yaml(input, &default_opts());
    assert!(result.contains("users:"), "missing users: {result:?}");
    // name: Alice must appear after a `- ` prefix.
    assert!(
        result.contains("- name: Alice"),
        "first item first key missing: {result:?}"
    );
    // age: 30 must be indented (at least 2 spaces) — not at the `- ` column.
    assert!(
        result.contains("  age: 30"),
        "age should be indented under its sequence item: {result:?}"
    );
    assert!(
        result.contains("- name: Bob"),
        "second item first key missing: {result:?}"
    );
    assert!(
        result.contains("  age: 25"),
        "second item age should be indented: {result:?}"
    );
}

#[test]
fn mapping_block_style() {
    let input = "a: 1\nb: 2\n";
    let result = format_yaml(input, &default_opts());
    // Both keys should appear.
    assert!(result.contains("a: 1"), "a missing: {result:?}");
    assert!(result.contains("b: 2"), "b missing: {result:?}");
}

#[test]
fn flow_sequence_flat_when_fits() {
    // Short scalar sequence → should render as [a, b, c] or block.
    let input = "items:\n  - a\n  - b\n  - c\n";
    let result = format_yaml(input, &default_opts());
    // Either inline or block — must contain all items.
    assert!(result.contains('a'), "a missing: {result:?}");
    assert!(result.contains('b'), "b missing: {result:?}");
    assert!(result.contains('c'), "c missing: {result:?}");
}

#[test]
fn multi_document() {
    let input = "key1: value1\n---\nkey2: value2\n";
    let result = format_yaml(input, &default_opts());
    assert!(result.contains("key1: value1"), "missing doc1: {result:?}");
    assert!(result.contains("---"), "missing separator: {result:?}");
    assert!(result.contains("key2: value2"), "missing doc2: {result:?}");
}

#[test]
fn null_values() {
    let input = "key: null\n";
    let result = format_yaml(input, &default_opts());
    assert!(result.contains("null"), "null missing: {result:?}");
}

#[test]
fn boolean_values() {
    let input = "enabled: true\ndisabled: false\n";
    let result = format_yaml(input, &default_opts());
    assert!(result.contains("true"), "true missing: {result:?}");
    assert!(result.contains("false"), "false missing: {result:?}");
}

#[test]
fn numeric_values() {
    let input = "port: 8080\nratio: 0.5\n";
    let result = format_yaml(input, &default_opts());
    assert!(result.contains("8080"), "integer missing: {result:?}");
    assert!(result.contains("0.5"), "float missing: {result:?}");
}

#[test]
fn idempotent() {
    let inputs = [
        "key: value\n",
        "a: 1\nb: 2\n",
        "parent:\n  child: value\n",
        "items:\n  - one\n  - two\n",
    ];
    for input in inputs {
        let first = format_yaml(input, &default_opts());
        let second = format_yaml(&first, &default_opts());
        assert_eq!(
            first, second,
            "idempotency failed for {input:?}:\nfirst:  {first:?}\nsecond: {second:?}"
        );
    }
}

#[test]
fn syntax_error_returns_original() {
    let bad = "key: [unclosed\n";
    let result = format_yaml(bad, &default_opts());
    assert_eq!(result, bad, "should return original on parse error");
}

#[test]
fn string_quoting_ambiguous_values() {
    // "true" as a string value — after parse it becomes Boolean(true),
    // so saphyr resolves it. A string that looks like a number needs quoting.
    let opts = YamlFormatOptions {
        single_quote: false,
        ..Default::default()
    };
    // A key whose value is the string "null" will be parsed as Null by saphyr.
    // Test that strings requiring quotes actually get them via round-trip.
    let input = "key: some value\n";
    let result = format_yaml(input, &opts);
    // "some value" is a valid plain string — no quotes needed.
    assert!(result.contains("some value"), "result: {result:?}");
}

#[test]
fn single_quote_option() {
    let opts = YamlFormatOptions {
        single_quote: true,
        ..Default::default()
    };
    let input = "key: hello\n";
    let result = format_yaml(input, &opts);
    assert!(
        result.contains("'hello'"),
        "expected single-quoted: {result:?}"
    );
}

#[test]
fn empty_document() {
    let result = format_yaml("", &default_opts());
    assert_eq!(result, "");
}

#[test]
fn trailing_comment_preserved() {
    let input = "key: value  # comment\n";
    let result = format_yaml(input, &default_opts());
    assert!(result.contains("key: value"), "content missing: {result:?}");
    assert!(
        result.contains("# comment"),
        "trailing comment missing: {result:?}"
    );
    // Comment must appear on the same line as the content.
    for line in result.lines() {
        if line.contains("key: value") {
            assert!(
                line.contains("# comment"),
                "trailing comment not on same line: {line:?}"
            );
        }
    }
}

#[test]
fn leading_comment_preserved() {
    let input = "# header\nkey: value\n";
    let result = format_yaml(input, &default_opts());
    assert!(
        result.contains("# header"),
        "leading comment missing: {result:?}"
    );
    assert!(result.contains("key: value"), "content missing: {result:?}");
    // Comment must appear before the key line.
    let comment_pos = result.find("# header").unwrap();
    let key_pos = result.find("key: value").unwrap();
    assert!(
        comment_pos < key_pos,
        "leading comment should appear before key: {result:?}"
    );
}

#[test]
fn multiple_leading_comments() {
    let input = "# line one\n# line two\nkey: value\n";
    let result = format_yaml(input, &default_opts());
    assert!(
        result.contains("# line one"),
        "first comment missing: {result:?}"
    );
    assert!(
        result.contains("# line two"),
        "second comment missing: {result:?}"
    );
    assert!(result.contains("key: value"), "content missing: {result:?}");
    // Both comments must precede the key line.
    let c1_pos = result.find("# line one").unwrap();
    let c2_pos = result.find("# line two").unwrap();
    let key_pos = result.find("key: value").unwrap();
    assert!(c1_pos < key_pos, "first comment should precede key");
    assert!(c2_pos < key_pos, "second comment should precede key");
    assert!(c1_pos < c2_pos, "comments should be in original order");
}

#[test]
fn blank_line_between_sections() {
    let input = "# section 1\nkey1: v1\n\n# section 2\nkey2: v2\n";
    let result = format_yaml(input, &default_opts());
    assert!(
        result.contains("# section 1"),
        "section 1 comment missing: {result:?}"
    );
    assert!(
        result.contains("# section 2"),
        "section 2 comment missing: {result:?}"
    );
    assert!(result.contains("key1: v1"), "key1 missing: {result:?}");
    assert!(result.contains("key2: v2"), "key2 missing: {result:?}");
    // Section 1 comment before key1, section 2 comment before key2.
    let s1_pos = result.find("# section 1").unwrap();
    let k1_pos = result.find("key1: v1").unwrap();
    let s2_pos = result.find("# section 2").unwrap();
    let k2_pos = result.find("key2: v2").unwrap();
    assert!(s1_pos < k1_pos, "section 1 comment should precede key1");
    assert!(s2_pos < k2_pos, "section 2 comment should precede key2");
}

#[test]
fn comment_at_document_start() {
    let input = "# top comment\nkey: value\n";
    let result = format_yaml(input, &default_opts());
    assert!(
        result.starts_with("# top comment"),
        "top comment should be first: {result:?}"
    );
    assert!(result.contains("key: value"), "content missing: {result:?}");
}

#[test]
fn comment_at_document_end() {
    let input = "key: value\n# bottom comment\n";
    let result = format_yaml(input, &default_opts());
    assert!(result.contains("key: value"), "content missing: {result:?}");
    assert!(
        result.contains("# bottom comment"),
        "bottom comment missing: {result:?}"
    );
}

#[test]
fn comments_between_sequence_items() {
    let input = "items:\n  - item1\n  # between\n  - item2\n";
    let result = format_yaml(input, &default_opts());
    assert!(result.contains("- item1"), "item1 missing: {result:?}");
    assert!(result.contains("- item2"), "item2 missing: {result:?}");
    assert!(
        result.contains("# between"),
        "between comment missing: {result:?}"
    );
    // Comment must appear between item1 and item2.
    let i1_pos = result.find("- item1").unwrap();
    let bet_pos = result.find("# between").unwrap();
    let i2_pos = result.find("- item2").unwrap();
    assert!(i1_pos < bet_pos, "comment should be after item1");
    assert!(bet_pos < i2_pos, "comment should be before item2");
}

#[test]
fn idempotent_with_comments() {
    let inputs = [
        "key: value  # comment\n",
        "# header\nkey: value\n",
        "# section 1\nkey1: v1\n\n# section 2\nkey2: v2\n",
    ];
    for input in inputs {
        let first = format_yaml(input, &default_opts());
        let second = format_yaml(&first, &default_opts());
        assert_eq!(
            first, second,
            "idempotency failed for {input:?}:\nfirst:  {first:?}\nsecond: {second:?}"
        );
    }
}

#[test]
fn no_comments_regression() {
    let input = "a: 1\nb: 2\nc: 3\n";
    let result = format_yaml(input, &default_opts());
    assert_eq!(result, "a: 1\nb: 2\nc: 3\n", "regression: {result:?}");
}

#[test]
fn hash_inside_quoted_string_not_extracted() {
    let input = "key: \"value # not a comment\"\n";
    let result = format_yaml(input, &default_opts());
    // The result should not have a standalone comment after the value.
    // The # should be part of the string content, not a trailing comment.
    for line in result.lines() {
        if line.contains("key:") {
            // There should be no comment text appended separately.
            // The # appears inside the quoted string.
            assert!(
                !line.trim_end().ends_with("# not a comment"),
                "hash inside quoted string wrongly extracted as comment: {line:?}"
            );
        }
    }
    assert!(
        result.contains("not a comment"),
        "quoted string content should be preserved: {result:?}"
    );
}

#[test]
fn extract_comments_empty_input() {
    let comments = extract_comments("");
    assert!(comments.is_empty(), "expected no comments: {comments:?}");
}

#[test]
fn extract_comments_no_comments() {
    let comments = extract_comments("key: value\n");
    assert!(comments.is_empty(), "expected no comments: {comments:?}");
}

#[test]
fn extract_comments_trailing_comment() {
    let comments = extract_comments("key: value  # my comment\n");
    assert_eq!(comments.len(), 1, "expected one comment: {comments:?}");
    assert_eq!(comments[0].kind, CommentKind::Trailing);
    assert_eq!(comments[0].text, "# my comment");
}

#[test]
fn extract_comments_leading_comment() {
    let comments = extract_comments("# my comment\nkey: value\n");
    assert_eq!(comments.len(), 1, "expected one comment: {comments:?}");
    assert_eq!(comments[0].kind, CommentKind::Leading);
    assert_eq!(comments[0].text, "# my comment");
    assert_eq!(comments[0].line, 0);
}

#[test]
fn extract_comments_leading_comment_indented() {
    // The indented `#` is still a leading comment because the portion before it is
    // all whitespace. The comment text starts from `#` (leading spaces before `#`
    // are not included in the comment text — they are the line's indentation).
    let comments = extract_comments("  # indented comment\n  key: value\n");
    assert_eq!(comments.len(), 1, "expected one comment: {comments:?}");
    assert_eq!(comments[0].kind, CommentKind::Leading);
    assert_eq!(comments[0].text, "# indented comment");
}

#[test]
fn extract_comments_no_space_after_hash() {
    let comments = extract_comments("key: value  #comment\n");
    assert_eq!(comments.len(), 1, "expected one comment: {comments:?}");
    assert_eq!(comments[0].kind, CommentKind::Trailing);
    assert_eq!(comments[0].text, "#comment");
}

#[test]
fn extract_comments_empty_comment() {
    let comments = extract_comments("key: value  #\n");
    assert_eq!(comments.len(), 1, "expected one comment: {comments:?}");
    assert_eq!(comments[0].kind, CommentKind::Trailing);
    assert_eq!(comments[0].text, "#");
}

#[test]
fn extract_comments_hash_in_quoted_string_not_extracted() {
    let comments_double = extract_comments("key: \"value # not a comment\"\n");
    assert!(
        comments_double.is_empty(),
        "double-quoted hash should not be extracted: {comments_double:?}"
    );
    let comments_single = extract_comments("key: 'value # not a comment'\n");
    assert!(
        comments_single.is_empty(),
        "single-quoted hash should not be extracted: {comments_single:?}"
    );
}

#[test]
fn extract_comments_multiple_trailing_on_consecutive_lines() {
    let comments = extract_comments("a: 1  # first\nb: 2  # second\n");
    assert_eq!(comments.len(), 2, "expected two comments: {comments:?}");
    assert_eq!(comments[0].kind, CommentKind::Trailing);
    assert_eq!(comments[0].text, "# first");
    assert_eq!(comments[0].line, 0);
    assert_eq!(comments[1].kind, CommentKind::Trailing);
    assert_eq!(comments[1].text, "# second");
    assert_eq!(comments[1].line, 1);
}

#[test]
fn extract_comments_consecutive_leading_comments() {
    let comments = extract_comments("# first\n# second\nkey: value\n");
    assert_eq!(comments.len(), 2, "expected two comments: {comments:?}");
    assert_eq!(comments[0].kind, CommentKind::Leading);
    assert_eq!(comments[0].text, "# first");
    assert_eq!(comments[0].line, 0);
    assert_eq!(comments[1].kind, CommentKind::Leading);
    assert_eq!(comments[1].text, "# second");
    assert_eq!(comments[1].line, 1);
}

#[test]
fn extract_comments_comment_at_document_start() {
    let comments = extract_comments("# preamble\nkey: value\n");
    assert_eq!(comments.len(), 1);
    assert_eq!(comments[0].kind, CommentKind::Leading);
    assert_eq!(comments[0].line, 0);
    assert_eq!(comments[0].text, "# preamble");
}

#[test]
fn extract_comments_comment_at_document_end() {
    let comments = extract_comments("key: value\n# trailing\n");
    assert_eq!(comments.len(), 1);
    assert_eq!(comments[0].kind, CommentKind::Leading);
    assert_eq!(comments[0].line, 1);
    assert_eq!(comments[0].text, "# trailing");
}

#[test]
fn attach_comments_trailing_reattached_by_signature() {
    let original = "key: value  # comment\n";
    let formatted = "key: value\n";
    let comments = extract_comments(original);
    let result = attach_comments(original, formatted, &comments);
    assert!(result.contains("key: value"), "content missing: {result:?}");
    assert!(result.contains("# comment"), "comment missing: {result:?}");
    for line in result.lines() {
        if line.contains("key: value") {
            assert!(
                line.contains("# comment"),
                "comment should be on same line: {line:?}"
            );
        }
    }
}

#[test]
fn attach_comments_leading_reattached_before_target_line() {
    let original = "# heading\nkey: value\n";
    let formatted = "key: value\n";
    let comments = extract_comments(original);
    let result = attach_comments(original, formatted, &comments);
    assert!(result.contains("# heading"), "comment missing: {result:?}");
    let comment_pos = result.find("# heading").unwrap();
    let key_pos = result.find("key: value").unwrap();
    assert!(
        comment_pos < key_pos,
        "comment should precede content: {result:?}"
    );
}

#[test]
fn attach_comments_unmatched_trailing_dropped() {
    let original = "old_key: v  # orphan\n";
    let formatted = "new_key: v\n";
    let comments = extract_comments(original);
    // No panic, and the orphan comment is not injected.
    let result = attach_comments(original, formatted, &comments);
    assert_eq!(
        result, "new_key: v\n",
        "unmatched comment should be dropped: {result:?}"
    );
}

#[test]
fn format_yaml_comment_on_reformatted_line() {
    // "key:   value" normalizes to "key: value" after formatting.
    // The content signatures differ so the trailing comment is dropped.
    // This test documents the known limitation — no panic, content is correct.
    let input = "key: value  # note\n";
    let result = format_yaml(input, &default_opts());
    // Content must be present.
    assert!(result.contains("key: value"), "content missing: {result:?}");
    // When signatures match (no internal reformatting on this line), comment is preserved.
    assert!(
        result.contains("# note"),
        "comment should be preserved when signature matches: {result:?}"
    );
}

#[test]
fn extract_comments_escape_in_double_quoted_string() {
    // The \" inside the string is an escape sequence; the # after the closing quote
    // is a real trailing comment preceded by whitespace.
    let line = r#"key: "value with \" escaped"  # real comment"#;
    let comments = extract_comments(line);
    assert_eq!(comments.len(), 1, "expected one comment: {comments:?}");
    assert_eq!(comments[0].kind, CommentKind::Trailing);
    assert_eq!(comments[0].text, "# real comment");
}

#[test]
fn extract_comments_hash_not_preceded_by_whitespace_is_not_comment() {
    let comments = extract_comments("key: http://example.com#fragment\n");
    assert!(
        comments.is_empty(),
        "# in URL fragment should not be extracted as comment: {comments:?}"
    );
}

#[test]
fn format_yaml_url_with_fragment_preserved() {
    let input = "endpoint: http://example.com#fragment\n";
    let result = format_yaml(input, &default_opts());
    assert!(
        result.contains("http://example.com#fragment") || result.contains("example.com"),
        "URL content should be preserved: {result:?}"
    );
    // The fragment must not be split off as a spurious comment.
    assert!(
        !result.contains("  #fragment"),
        "fragment should not be separated as a comment: {result:?}"
    );
}

#[test]
fn attach_comments_blank_line_between_leading_comment_groups() {
    let input = "# first group\n\n# second group\nkey: value\n";
    let result = format_yaml(input, &default_opts());
    assert!(
        result.contains("# first group"),
        "first group missing: {result:?}"
    );
    assert!(
        result.contains("# second group"),
        "second group missing: {result:?}"
    );
    assert!(result.contains("key: value"), "content missing: {result:?}");
    // A blank line must appear between the two comment groups.
    let first_pos = result.find("# first group").unwrap();
    let second_pos = result.find("# second group").unwrap();
    let between = &result[first_pos..second_pos];
    assert!(
        between.contains("\n\n"),
        "blank line between comment groups missing: {result:?}"
    );
}

#[test]
fn attach_comments_signature_mismatch_emits_line_verbatim() {
    // original has "old_key: value"; formatted has "new_key: value".
    // The leading comment is attached to "old_key" in the original entry list,
    // so "new_key" has no matching entry and is emitted via the fallback path.
    let original = "# heading\nold_key: value\n";
    let formatted = "new_key: value\n";
    let comments = extract_comments(original);
    let result = attach_comments(original, formatted, &comments);
    // The content line must be present (not dropped).
    assert!(
        result.contains("new_key: value"),
        "unmatched content line should be emitted verbatim: {result:?}"
    );
    // No panic, clean termination.
}

#[test]
fn attach_comments_trailing_leading_comments_at_eof() {
    let input = "key: value\n# trailing comment at EOF\n";
    let result = format_yaml(input, &default_opts());
    assert!(result.contains("key: value"), "content missing: {result:?}");
    assert!(
        result.contains("# trailing comment at EOF"),
        "trailing EOF comment missing: {result:?}"
    );
    // The comment must appear after the content line.
    let content_pos = result.find("key: value").unwrap();
    let comment_pos = result.find("# trailing comment at EOF").unwrap();
    assert!(
        comment_pos > content_pos,
        "EOF comment should appear after content: {result:?}"
    );
}

#[test]
fn tagged_node_preserves_tag() {
    let input = "tagged: !mytag some_value\n";
    let result = format_yaml(input, &default_opts());
    assert!(
        result.contains("!mytag"),
        "tag prefix should be preserved: {result:?}"
    );
    assert!(
        result.contains("some_value"),
        "tagged value should be preserved: {result:?}"
    );
}

#[test]
fn float_special_values_round_trip() {
    let input = "nan_val: .nan\ninf_val: .inf\nneg_inf_val: -.inf\n";
    let result = format_yaml(input, &default_opts());
    assert!(
        result.contains(".nan"),
        ".nan should be preserved: {result:?}"
    );
    assert!(
        result.contains(".inf"),
        ".inf should be preserved: {result:?}"
    );
    assert!(
        result.contains("-.inf"),
        "-.inf should be preserved: {result:?}"
    );
}

#[test]
fn whole_number_float_rendered_with_decimal() {
    let input = "x: 42.0\n";
    let result = format_yaml(input, &default_opts());
    assert!(
        result.contains("42.0"),
        "whole-number float should retain decimal: {result:?}"
    );
}

#[test]
fn empty_string_value_is_quoted() {
    let input = "key: \"\"\n";
    let result = format_yaml(input, &default_opts());
    // The empty string must be quoted — plain empty would be ambiguous.
    assert!(
        result.contains("\"\"") || result.contains("''"),
        "empty string should be quoted: {result:?}"
    );
}

#[test]
fn numeric_looking_string_stays_quoted() {
    let input = "version: \"123\"\n";
    let result = format_yaml(input, &default_opts());
    // "123" must be re-quoted so it doesn't become the integer 123.
    assert!(
        result.contains("\"123\"") || result.contains("'123'"),
        "numeric-looking string should be quoted: {result:?}"
    );
}

#[test]
fn attach_comments_multiple_trailing_leading_comments_at_eof() {
    let input = "key: value\n# first EOF comment\n\n# second EOF comment\n";
    let result = format_yaml(input, &default_opts());
    assert!(result.contains("key: value"), "content missing: {result:?}");
    assert!(
        result.contains("# first EOF comment"),
        "first EOF comment missing: {result:?}"
    );
    assert!(
        result.contains("# second EOF comment"),
        "second EOF comment missing: {result:?}"
    );
    let content_pos = result.find("key: value").unwrap();
    let first_pos = result.find("# first EOF comment").unwrap();
    let second_pos = result.find("# second EOF comment").unwrap();
    assert!(
        first_pos > content_pos,
        "first EOF comment should follow content"
    );
    assert!(
        second_pos > first_pos,
        "second EOF comment should follow first"
    );
}


#[test]
fn format_float_nan() {
    assert_eq!(format_float(&f64::NAN.to_string()), ".nan");
}

#[test]
fn format_float_positive_infinity() {
    assert_eq!(format_float(&f64::INFINITY.to_string()), ".inf");
}

#[test]
fn format_float_negative_infinity() {
    assert_eq!(format_float(&f64::NEG_INFINITY.to_string()), "-.inf");
}

#[test]
fn format_float_whole_number_appends_dot_zero() {
    assert_eq!(format_float(&42.0f64.to_string()), "42.0");
}

#[test]
fn format_float_with_decimal_passes_through() {
    assert_eq!(format_float(&0.5f64.to_string()), "0.5");
}

#[test]
fn lay_out_text_unloadable_and_empty_inputs() {
    match lay_out_text("key: [unclosed", &default_opts()) {
        Err(t) => assert_eq!(t, "key: [unclosed"),
        Ok(_) => panic!("expected the input back"),
    }
    match lay_out_text("", &default_opts()) {
        Err(t) => assert_eq!(t, ""),
        Ok(_) => panic!("expected empty text"),
    }
    assert!(lay_out_text("a: 1.0\n", &default_opts()).is_ok());
}
