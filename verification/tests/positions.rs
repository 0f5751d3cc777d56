//! Source positions as protocol positions, and the syntax-error range.

use rlsp_yaml::ast::{Pos, Span};
use rlsp_yaml::lsp::{offset_to_lsp, span_to_lsp, syntax_diagnostic, Position, Range};

fn pos(line: u32, column: u32) -> Pos {
    Pos { line, column }
}

#[test]
fn offset_to_lsp_line_one_saturates_to_zero() {
    let p = offset_to_lsp(pos(1, 0));
    assert_eq!(p.line, 0, "line 1 (1-based) must map to line 0 (0-based)");
    assert_eq!(p.character, 0);
}

#[test]
fn offset_to_lsp_line_zero_stays_zero() {
    assert_eq!(offset_to_lsp(pos(0, 4)), Position { line: 0, character: 4 });
}

#[test]
fn offset_to_lsp_second_line_correct() {
    let p = offset_to_lsp(pos(2, 0));
    assert_eq!(p.line, 1);
    assert_eq!(p.character, 0);
}

#[test]
fn offset_to_lsp_multibyte_character_is_codepoint_count() {
    // The parser's line index resolves the byte offset just past "日本語" to
    // column 3 (codepoints); the conversion keeps that column.
    let p = offset_to_lsp(pos(1, 3));
    assert_eq!(p.line, 0);
    assert_eq!(p.character, 3, "character must be 3 codepoints, not 9 bytes");
}

#[test]
fn span_to_lsp_maps_start_and_end() {
    let range = span_to_lsp(Span { start: pos(1, 0), end: pos(1, 3) });
    assert_eq!(range.start.line, 0);
    assert_eq!(range.start.character, 0);
    assert_eq!(range.end.line, 0);
    assert_eq!(range.end.character, 3);
}

#[test]
fn syntax_diagnostic_covers_rest_of_error_line() {
    let d = syntax_diagnostic(3, 7);
    assert_eq!(
        d.range,
        Range { start: Position { line: 2, character: 7 }, end: Position { line: 2, character: u32::MAX } }
    );
    assert_eq!(d.code.as_deref(), Some("yamlSyntax"));
}

#[test]
fn syntax_diagnostic_at_origin_stays_on_first_line() {
    let d = syntax_diagnostic(0, 0);
    assert_eq!(d.range.start, Position { line: 0, character: 0 });
    assert_eq!(d.range.end.line, 0);
}
