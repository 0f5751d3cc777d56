//! Plain position, range and edit values exchanged with the editor.
//!
//! Lines and characters are 0-based, as in the Language Server Protocol.
use vstd::prelude::*;

use crate::ast::{Pos, Span};

verus! {

/// A position in a text document (0-based line and character).
#[derive(Debug, Clone, Copy, PartialEq, Eq, Structural)]
pub struct Position {
    pub line: u32,
    pub character: u32,
}

/// A range in a text document, from `start` (inclusive) to `end` (exclusive).
#[derive(Debug, Clone, Copy, PartialEq, Eq, Structural)]
pub struct Range {
    pub start: Position,
    pub end: Position,
}

/// A textual edit: replace `range` with `new_text`.
#[derive(Debug)]
pub struct TextEdit {
    pub range: Range,
    pub new_text: String,
}

pub fn position(line: u32, character: u32) -> (p: Position)
    ensures
        p.line == line,
        p.character == character,
{
    Position { line, character }
}

pub fn range(start: Position, end: Position) -> (r: Range)
    ensures
        r.start == start,
        r.end == end,
{
    Range { start, end }
}


/// The view of an edit: its range and the replacement's characters.
pub open spec fn edit_view(e: TextEdit) -> (Range, Seq<char>) {
    (e.range, e.new_text@)
}

pub open spec fn edits_view(es: Seq<TextEdit>) -> Seq<(Range, Seq<char>)> {
    es.map_values(|e: TextEdit| edit_view(e))
}

/// A diagnostic as the code actions read it: its range and its string code
/// (`None` when it has no code or a numeric one).
#[derive(Debug)]
pub struct Diagnostic {
    pub range: Range,
    pub code: Option<String>,
}

/// The kinds of code action this server offers.
#[derive(Debug, Clone, Copy, PartialEq, Eq, Structural)]
pub enum CodeActionKind {
    QuickFix,
    RefactorRewrite,
}

/// A code action: a titled set of edits to the document, with the
/// diagnostic it resolves when it resolves one.
#[derive(Debug)]
pub struct CodeAction {
    pub title: String,
    pub kind: CodeActionKind,
    pub edits: Vec<TextEdit>,
    pub diagnostics: Option<Vec<Diagnostic>>,
}

/// The view of a diagnostic: its range and its code.
pub open spec fn diag_view(d: Diagnostic) -> (Range, Option<Seq<char>>) {
    (d.range, match d.code {
        Some(c) => Some(c@),
        None => None,
    })
}

/// The view of a code action: title, kind, edits and resolved diagnostics.
pub open spec fn action_view(a: CodeAction) -> (Seq<char>, CodeActionKind, Seq<(Range, Seq<char>)>, Option<Seq<(Range, Option<Seq<char>>)>>) {
    (a.title@, a.kind, edits_view(a.edits@), match a.diagnostics {
        Some(ds) => Some(ds@.map_values(|d: Diagnostic| diag_view(d))),
        None => None,
    })
}

/// A copy of a diagnostic.
pub fn copy_diagnostic(d: &Diagnostic) -> (r: Diagnostic)
    ensures
        diag_view(r) == diag_view(*d),
{
    Diagnostic {
        range: d.range,
        code: match &d.code {
            Some(c) => Some(c.clone()),
            None => None,
        },
    }
}

/// Builds a code action with a single-document edit.
pub fn make_action(title: String, edits: Vec<TextEdit>, kind: CodeActionKind, diagnostics: Option<Vec<Diagnostic>>) -> (r: CodeAction)
    ensures
        r.title@ == title@,
        r.kind == kind,
        r.edits@ == edits@,
        r.diagnostics == diagnostics,
{
    CodeAction { title, kind, edits, diagnostics }
}

/// The diagnostic's string code.
pub fn diagnostic_code(diag: &Diagnostic) -> (r: Option<&String>)
    ensures
        match r {
            Some(s) => diag.code == Some(*s),
            None => diag.code is None,
        },
{
    match &diag.code {
        Some(s) => Some(s),
        None => None,
    }
}

/// `true` when the diagnostic's code is exactly `code`.
pub fn has_code(diag: &Diagnostic, code: &str) -> (r: bool)
    ensures
        r == (diag_view(*diag).1 == Some(code@)),
{
    match &diag.code {
        Some(s) => crate::text::str_eq(s.as_str(), code),
        None => false,
    }
}

/// The range of a syntax error the parser reports at 1-based `line` and
/// 0-based `column`: from that point to the end of the line (the largest
/// character number). Line 0 stays 0; both numbers are taken modulo 2^32,
/// as an LSP position holds them.
pub open spec fn syntax_error_range(line: usize, column: usize) -> Range {
    Range {
        start: Position { line: (if line > 0 { line - 1 } else { 0 }) as u32, character: column as u32 },
        end: Position { line: (if line > 0 { line - 1 } else { 0 }) as u32, character: u32::MAX },
    }
}

/// The diagnostic for a YAML syntax error at 1-based `line` and 0-based
/// `column`, with the code `yamlSyntax`.
pub fn syntax_diagnostic(line: usize, column: usize) -> (r: Diagnostic)
    ensures
        r.range == syntax_error_range(line, column),
        diag_view(r).1 == Some("yamlSyntax"@),
{
    let l = line.saturating_sub(1) as u32;
    let c = column as u32;
    Diagnostic {
        range: Range { start: Position { line: l, character: c }, end: Position { line: l, character: u32::MAX } },
        code: Some(String::from_str("yamlSyntax")),
    }
}

/// The line ranges of `a` and `b` overlap.
pub open spec fn lines_overlap(a: Range, b: Range) -> bool {
    a.start.line <= b.end.line && b.start.line <= a.end.line
}

pub fn ranges_overlap(a: &Range, b: &Range) -> (r: bool)
    ensures
        r == lines_overlap(*a, *b),
{
    a.start.line <= b.end.line && b.start.line <= a.end.line
}

/// The LSP position of a source position: the 1-based line made 0-based
/// (line 0 stays 0), the column as it is.
pub open spec fn lsp_position(p: Pos) -> Position {
    Position { line: if p.line > 0 { (p.line - 1) as u32 } else { 0 }, character: p.column }
}

/// Convert a resolved source position to an LSP `Position`.
pub fn offset_to_lsp(p: Pos) -> (r: Position)
    ensures
        r == lsp_position(p),
{
    Position { line: p.line.saturating_sub(1), character: p.column }
}

/// Convert a parser `Span` to an LSP `Range`.
pub fn span_to_lsp(span: Span) -> (r: Range)
    ensures
        r == (Range { start: lsp_position(span.start), end: lsp_position(span.end) }),
{
    Range { start: offset_to_lsp(span.start), end: offset_to_lsp(span.end) }
}

} // verus!
