//! Code actions on parsed documents, through the protocol types the
//! server sends: each action's edit keyed by the document's URI.
//!
//! The documents are built by `parse_docs` below, a small reader for the
//! YAML these tests use (block and flow collections, anchors, tags, quoted
//! and block scalars), recording spans as the parser does.

use std::collections::HashMap;

use rlsp_yaml::ast::{Chomp, CollectionStyle, Document, Node, NodeMeta, Pos, ScalarStyle, Span};
use rlsp_yaml::code_actions::ActionItem;
use rlsp_yaml::doc::Doc;
use rlsp_yaml::format_options::YamlFormatOptions;
use rlsp_yaml::lsp as lib;
use rlsp_yaml::node_to_doc::node_to_doc;
use rlsp_yaml::pending_edit::complete_action;
use saphyr::LoadableYamlNode;
use tower_lsp::lsp_types::{
    CodeAction, CodeActionKind, Diagnostic, NumberOrString, Position, Range, TextEdit, Url, WorkspaceEdit,
};

#[derive(Clone)]
struct Line {
    no: u32,
    indent: usize,
    chars: Vec<char>,
    /// Comment lines between the previous content line and this one.
    leading: Vec<String>,
    /// The comment at the end of this line.
    trailing: Option<String>,
}

fn sp(l1: u32, c1: usize, l2: u32, c2: usize) -> Span {
    Span { start: Pos { line: l1, column: c1 as u32 }, end: Pos { line: l2, column: c2 as u32 } }
}

fn is_item(line: &Line, indent: usize) -> bool {
    line.indent == indent
        && line.chars.get(indent) == Some(&'-')
        && (line.chars.len() == indent + 1 || line.chars.get(indent + 1) == Some(&' '))
}

/// The line holds a `key:` (a colon at its end or before a space).
fn has_mapping_colon(chars: &[char]) -> bool {
    (0..chars.len()).any(|j| chars[j] == ':' && (j + 1 == chars.len() || chars[j + 1] == ' '))
}

fn text_of(chars: &[char]) -> String {
    chars.iter().collect()
}

/// Node properties read before a value: an anchor and a tag.
#[derive(Default)]
struct Props {
    anchor: Option<(String, Span)>,
    tag: Option<(String, Span)>,
}

fn with_props(node: Node, props: Props) -> Node {
    if props.anchor.is_none() && props.tag.is_none() {
        return node;
    }
    let (anchor, anchor_loc) = match props.anchor {
        Some((a, l)) => (Some(a), Some(l)),
        None => (None, None),
    };
    let (tag, tag_loc) = match props.tag {
        Some((t, l)) => (Some(t), Some(l)),
        None => (None, None),
    };
    let meta = Some(Box::new(NodeMeta {
        anchor,
        anchor_loc,
        tag_loc,
        leading_comments: Vec::new(),
        trailing_comment: None,
    }));
    match node {
        Node::Scalar { value, style, loc, .. } => Node::Scalar { value, style, tag, loc, meta },
        Node::Mapping { entries, style, loc, .. } => Node::Mapping { entries, style, tag, loc, meta },
        Node::Sequence { items, style, loc, .. } => Node::Sequence { items, style, tag, loc, meta },
        other => other,
    }
}

/// The node with comments attached: `leading` before it, `trailing` on its
/// last line.
fn with_comments(node: Node, leading: Vec<String>, trailing: Option<String>) -> Node {
    if leading.is_empty() && trailing.is_none() {
        return node;
    }
    let attach = |meta: Option<Box<NodeMeta>>| {
        let mut m = meta.unwrap_or_else(|| {
            Box::new(NodeMeta { anchor: None, anchor_loc: None, tag_loc: None, leading_comments: Vec::new(), trailing_comment: None })
        });
        if !leading.is_empty() {
            m.leading_comments = leading.clone();
        }
        if trailing.is_some() {
            m.trailing_comment = trailing.clone();
        }
        Some(m)
    };
    match node {
        Node::Scalar { value, style, tag, loc, meta } => Node::Scalar { value, style, tag, loc, meta: attach(meta) },
        Node::Mapping { entries, style, tag, loc, meta } => Node::Mapping { entries, style, tag, loc, meta: attach(meta) },
        Node::Sequence { items, style, tag, loc, meta } => Node::Sequence { items, style, tag, loc, meta: attach(meta) },
        Node::Alias { name, loc, meta } => Node::Alias { name, loc, meta: attach(meta) },
    }
}

/// Where the next token starts: the next line's first character, or the end.
fn next_token(lines: &[Line], i: usize, eof: Pos) -> Pos {
    match lines.get(i) {
        Some(l) => Pos { line: l.no, column: l.indent as u32 },
        None => eof,
    }
}

/// The value that starts at column `c` of line `no` (its text `rest`), with
/// any lines below it that belong to it.
fn parse_value(lines: &mut Vec<Line>, i: &mut usize, no: u32, c: usize, parent: usize, eof: Pos) -> Node {
    let full = lines[*i - 1].chars.clone();
    let mut c = c;
    let mut props = Props::default();
    while full.get(c) == Some(&'&') || full.get(c) == Some(&'!') {
        let mut e = c + 1;
        while e < full.len() && full[e] != ' ' {
            e += 1;
        }
        let token = text_of(&full[c..e]);
        let loc = sp(no, c, no, e);
        if full[c] == '&' {
            props.anchor = Some((token[1..].to_string(), loc));
        } else if let Some(core) = token.strip_prefix("!!") {
            props.tag = Some((format!("tag:yaml.org,2002:{core}"), loc));
        } else {
            props.tag = Some((token, loc));
        }
        c = e;
        while c < full.len() && full[c] == ' ' {
            c += 1;
        }
    }
    let rest: Vec<char> = full[c.min(full.len())..].to_vec();
    let node = if rest.first() == Some(&'{') || rest.first() == Some(&'[') {
        let mut cur = Cursor { li: *i - 1, ci: c };
        let n = parse_flow(lines, &mut cur);
        *i = cur.li + 1;
        n
    } else if rest.first() == Some(&'*') {
        Node::Alias { name: text_of(&rest[1..]), loc: sp(no, c, no, c + rest.len()), meta: None }
    } else if rest.first() == Some(&'|') || rest.first() == Some(&'>') {
        let chomp = match rest.get(1) {
            Some('-') => Chomp::Strip,
            Some('+') => Chomp::Keep,
            _ => Chomp::Clip,
        };
        let style = if rest[0] == '|' { ScalarStyle::Literal(chomp) } else { ScalarStyle::Folded(chomp) };
        let mut body = String::new();
        let mut last = no;
        while *i < lines.len() && lines[*i].indent > parent {
            body.push_str(&text_of(&lines[*i].chars[lines[*i].indent..]));
            body.push('\n');
            last = lines[*i].no;
            *i += 1;
        }
        Node::Scalar { value: body, style, tag: None, loc: sp(no, c, last + 1, 0), meta: None }
    } else if !rest.is_empty() {
        let (value, style) = if rest[0] == '"' && rest.len() >= 2 {
            (text_of(&rest[1..rest.len() - 1]), ScalarStyle::DoubleQuoted)
        } else if rest[0] == '\'' && rest.len() >= 2 {
            (text_of(&rest[1..rest.len() - 1]), ScalarStyle::SingleQuoted)
        } else {
            (text_of(&rest), ScalarStyle::Plain)
        };
        Node::Scalar { value, style, tag: None, loc: sp(no, c, no, c + rest.len()), meta: None }
    } else if *i < lines.len() && (lines[*i].indent > parent || is_item(&lines[*i], parent)) {
        let ind = lines[*i].indent;
        parse_block(lines, i, ind, eof)
    } else {
        let at = next_token(lines, *i, eof);
        Node::Scalar {
            value: String::new(),
            style: ScalarStyle::Plain,
            tag: None,
            loc: Span { start: at, end: at },
            meta: None,
        }
    };
    let node = with_props(node, props);
    let trailing = if matches!(node, Node::Scalar { .. } | Node::Alias { .. }) && node_line(&node) == no {
        lines[*i - 1].trailing.clone()
    } else {
        None
    };
    with_comments(node, Vec::new(), trailing)
}

fn node_line(n: &Node) -> u32 {
    match n {
        Node::Scalar { loc, .. } | Node::Mapping { loc, .. } | Node::Sequence { loc, .. } | Node::Alias { loc, .. } => loc.start.line,
    }
}

/// A reading position in the content lines.
struct Cursor {
    li: usize,
    ci: usize,
}

impl Cursor {
    fn peek(&self, lines: &[Line]) -> Option<char> {
        lines.get(self.li).and_then(|l| l.chars.get(self.ci).copied())
    }
    fn at(&self, lines: &[Line]) -> Pos {
        Pos { line: lines[self.li].no, column: self.ci as u32 }
    }
    /// Skips blanks, moving to the next line at a line's end.
    fn skip_ws(&mut self, lines: &[Line]) {
        loop {
            match self.peek(lines) {
                Some(' ') => self.ci += 1,
                None if self.li + 1 < lines.len() => {
                    self.li += 1;
                    self.ci = lines[self.li].indent;
                }
                _ => return,
            }
        }
    }
}

/// A flow scalar: quoted, or plain up to `,`, `]`, `}` or `: `.
fn flow_scalar(lines: &[Line], cur: &mut Cursor) -> Node {
    let start = cur.at(lines);
    let chars = &lines[cur.li].chars;
    if chars.get(cur.ci) == Some(&'"') {
        let mut e = cur.ci + 1;
        while e < chars.len() && chars[e] != '"' {
            e += 1;
        }
        let value = text_of(&chars[cur.ci + 1..e]);
        cur.ci = e + 1;
        return Node::Scalar {
            value,
            style: ScalarStyle::DoubleQuoted,
            tag: None,
            loc: Span { start, end: cur.at(lines) },
            meta: None,
        };
    }
    let mut e = cur.ci;
    while e < chars.len()
        && chars[e] != ','
        && chars[e] != ']'
        && chars[e] != '}'
        && !(chars[e] == ':' && (e + 1 == chars.len() || chars[e + 1] == ' '))
    {
        e += 1;
    }
    let mut end = e;
    while end > cur.ci && chars[end - 1] == ' ' {
        end -= 1;
    }
    let value = text_of(&chars[cur.ci..end]);
    let loc = Span { start, end: Pos { line: start.line, column: end as u32 } };
    cur.ci = e;
    Node::Scalar { value, style: ScalarStyle::Plain, tag: None, loc, meta: None }
}

fn flow_node(lines: &[Line], cur: &mut Cursor) -> Node {
    match cur.peek(lines) {
        Some('{') | Some('[') => parse_flow(lines, cur),
        _ => flow_scalar(lines, cur),
    }
}

/// A flow mapping or sequence; its span ends at its closing bracket.
fn parse_flow(lines: &[Line], cur: &mut Cursor) -> Node {
    let start = cur.at(lines);
    let mapping = cur.peek(lines) == Some('{');
    let close = if mapping { '}' } else { ']' };
    cur.ci += 1;
    let mut entries = Vec::new();
    let mut items = Vec::new();
    loop {
        cur.skip_ws(lines);
        match cur.peek(lines) {
            Some(c) if c == close => break,
            Some(',') => {
                cur.ci += 1;
                continue;
            }
            None => break,
            _ => {}
        }
        if mapping {
            let key = flow_node(lines, cur);
            cur.skip_ws(lines);
            if cur.peek(lines) == Some(':') {
                cur.ci += 1;
            }
            cur.skip_ws(lines);
            let value = flow_node(lines, cur);
            entries.push((key, value));
        } else {
            items.push(flow_node(lines, cur));
        }
    }
    let end = cur.at(lines);
    cur.ci += 1;
    let loc = Span { start, end };
    if mapping {
        Node::Mapping { entries, style: CollectionStyle::Flow, tag: None, loc, meta: None }
    } else {
        Node::Sequence { items, style: CollectionStyle::Flow, tag: None, loc, meta: None }
    }
}

fn parse_block(lines: &mut Vec<Line>, i: &mut usize, indent: usize, eof: Pos) -> Node {
    let first = lines[*i].no;
    let lead = lines[*i].chars.get(indent).copied();
    if lead == Some('{') || lead == Some('[') {
        let mut cur = Cursor { li: *i, ci: indent };
        let n = parse_flow(lines, &mut cur);
        *i = cur.li + 1;
        return n;
    }
    if is_item(&lines[*i], indent) {
        let mut items = Vec::new();
        while *i < lines.len() && is_item(&lines[*i], indent) {
            let line = lines[*i].clone();
            let body: String = text_of(&line.chars[(indent + 2).min(line.chars.len())..]);
            let compact = !body.starts_with('&') && !body.starts_with('*') && !body.starts_with('"')
                && (body.contains(": ") || body.ends_with(':'));
            if compact {
                lines[*i].chars[indent] = ' ';
                lines[*i].indent = indent + 2;
                let leading = std::mem::take(&mut lines[*i].leading);
                let item = parse_block(lines, i, indent + 2, eof);
                items.push(with_comments(item, leading, None));
            } else {
                *i += 1;
                let item = parse_value(lines, i, line.no, indent + 2, indent, eof);
                items.push(with_comments(item, line.leading.clone(), None));
            }
        }
        let last = lines[*i - 1].no;
        Node::Sequence {
            items,
            style: CollectionStyle::Block,
            tag: None,
            loc: sp(first, indent, last + 1, 0),
            meta: None,
        }
    } else if !has_mapping_colon(&lines[*i].chars[indent..]) && lines[*i].chars.get(indent) != Some(&'?') {
        let no = lines[*i].no;
        *i += 1;
        parse_value(lines, i, no, indent, indent, eof)
    } else {
        let mut entries = Vec::new();
        while *i < lines.len() && lines[*i].indent == indent && !is_item(&lines[*i], indent) {
            let line = lines[*i].clone();
            if line.chars.get(indent) == Some(&'?') {
                // An explicit key `? k`, its value on a `: v` line below.
                *i += 1;
                let key = parse_value(lines, i, line.no, indent + 2, indent, eof);
                let value = if *i < lines.len() && lines[*i].indent == indent && lines[*i].chars.get(indent) == Some(&':') {
                    let vline = lines[*i].clone();
                    *i += 1;
                    parse_value(lines, i, vline.no, indent + 2, indent, eof)
                } else {
                    let at = next_token(lines, *i, eof);
                    Node::Scalar { value: String::new(), style: ScalarStyle::Plain, tag: None, loc: Span { start: at, end: at }, meta: None }
                };
                entries.push((key, value));
                continue;
            }
            let chars = &line.chars;
            let mut colon = indent;
            while colon < chars.len()
                && !(chars[colon] == ':' && (colon + 1 == chars.len() || chars[colon + 1] == ' '))
            {
                colon += 1;
            }
            let key = with_comments(
                Node::Scalar {
                    value: text_of(&chars[indent..colon.min(chars.len())]),
                    style: ScalarStyle::Plain,
                    tag: None,
                    loc: sp(line.no, indent, line.no, colon.min(chars.len())),
                    meta: None,
                },
                line.leading.clone(),
                None,
            );
            let mut c = colon + 1;
            while c < chars.len() && chars[c] == ' ' {
                c += 1;
            }
            *i += 1;
            let value = parse_value(lines, i, line.no, c, indent, eof);
            entries.push((key, value));
        }
        let last = lines[*i - 1].no;
        Node::Mapping {
            entries,
            style: CollectionStyle::Block,
            tag: None,
            loc: sp(first, indent, last + 1, 0),
            meta: None,
        }
    }
}

fn parse_docs(text: &str) -> Vec<Document> {
    let raw: Vec<&str> = text.split('\n').collect();
    let n = if text.ends_with('\n') { raw.len() - 1 } else { raw.len() };
    let eof = if text.ends_with('\n') || text.is_empty() {
        Pos { line: n as u32 + 1, column: 0 }
    } else {
        Pos { line: n as u32, column: raw[n - 1].chars().count() as u32 }
    };
    let mut groups: Vec<(bool, bool, Vec<Line>)> = vec![(false, false, Vec::new())];
    let mut pending: Vec<String> = Vec::new();
    for (k, l) in raw.iter().take(n).enumerate() {
        if *l == "---" {
            groups.push((true, false, Vec::new()));
            pending.clear();
            continue;
        }
        if *l == "..." {
            groups.last_mut().unwrap().1 = true;
            continue;
        }
        let chars: Vec<char> = l.chars().collect();
        let indent = chars.iter().take_while(|c| **c == ' ').count();
        if indent == chars.len() {
            continue;
        }
        if chars[indent] == '#' {
            // Comments before a document's first content line are not attached.
            let group = groups.last_mut().unwrap();
            if !group.2.is_empty() {
                pending.push(text_of(&chars[indent..]));
            }
            continue;
        }
        let mut chars = chars;
        let mut trailing = None;
        if let Some(h) = (indent..chars.len()).find(|&j| chars[j] == '#' && j > 0 && chars[j - 1] == ' ') {
            trailing = Some(text_of(&chars[h..]));
            chars.truncate(h);
            while chars.last() == Some(&' ') {
                chars.pop();
            }
        }
        let leading = std::mem::take(&mut pending);
        groups.last_mut().unwrap().2.push(Line { no: k as u32 + 1, indent, chars, leading, trailing });
    }
    let mut docs = Vec::new();
    for (explicit_start, explicit_end, mut lines) in groups {
        if lines.is_empty() {
            continue;
        }
        let mut i = 0;
        let ind = lines[0].indent;
        let root = parse_block(&mut lines, &mut i, ind, eof);
        docs.push(Document { root, explicit_start, explicit_end });
    }
    docs
}

/// The width of a layout laid out flat, `None` when it holds a hard break.
fn flat_width(d: &Doc) -> Option<usize> {
    match d {
        Doc::Text(s) => Some(s.chars().count()),
        Doc::HardLine => None,
        Doc::Line => Some(1),
        Doc::FlatAlt(a, _) | Doc::Indent(a) | Doc::Group(a) => flat_width(a),
        Doc::Concat(v) => v.iter().map(flat_width).sum(),
    }
}

/// Lays a layout out within `width`: a group goes flat when it fits on
/// the rest of the line.
fn lay_out(d: &Doc, level: usize, flat: bool, width: usize, tab: usize, out: &mut String, col: &mut usize) {
    match d {
        Doc::Text(s) => {
            out.push_str(s);
            *col += s.chars().count();
        }
        Doc::HardLine => {
            out.push('\n');
            out.push_str(&" ".repeat(level * tab));
            *col = level * tab;
        }
        Doc::Line => {
            if flat {
                out.push(' ');
                *col += 1;
            } else {
                out.push('\n');
                out.push_str(&" ".repeat(level * tab));
                *col = level * tab;
            }
        }
        Doc::FlatAlt(a, b) => lay_out(if flat { a } else { b }, level, flat, width, tab, out, col),
        Doc::Indent(a) => lay_out(a, level + 1, flat, width, tab, out, col),
        Doc::Group(a) => {
            let fits = flat || flat_width(a).is_some_and(|w| *col + w <= width);
            lay_out(a, level, fits, width, tab, out, col);
        }
        Doc::Concat(v) => v.iter().for_each(|x| lay_out(x, level, flat, width, tab, out, col)),
    }
}

fn print_doc(d: &Doc, width: usize, tab: usize) -> String {
    let mut out = String::new();
    let mut col = 0;
    lay_out(d, 0, false, width, tab, &mut out, &mut col);
    out.push('\n');
    out
}

fn test_uri() -> Url {
    Url::parse("file:///test.yaml").unwrap()
}

fn docs_for(text: &str) -> Vec<Document> {
    parse_docs(text)
}

fn count(haystack: &str, needle: &str) -> usize {
    haystack.matches(needle).count()
}

fn cursor_range(line: u32, col: u32) -> Range {
    Range::new(Position::new(line, col), Position::new(line, col))
}

fn line_range(line: u32) -> Range {
    Range::new(Position::new(line, 0), Position::new(line, 999))
}

fn make_flow_diag(code: &str, start_line: u32, start_char: u32, end_line: u32, end_char: u32) -> Diagnostic {
    Diagnostic {
        range: Range::new(Position::new(start_line, start_char), Position::new(end_line, end_char)),
        code: Some(NumberOrString::String(code.to_string())),
        source: Some("rlsp-yaml".to_string()),
        ..Diagnostic::default()
    }
}

fn make_diagnostic(line: u32, start: u32, end: u32, code: &str) -> Diagnostic {
    make_flow_diag(code, line, start, line, end)
}

fn diagnostic_code(d: &Diagnostic) -> Option<&str> {
    match &d.code {
        Some(NumberOrString::String(s)) => Some(s.as_str()),
        _ => None,
    }
}

fn to_lib_range(r: Range) -> lib::Range {
    lib::Range {
        start: lib::Position { line: r.start.line, character: r.start.character },
        end: lib::Position { line: r.end.line, character: r.end.character },
    }
}

fn from_lib_range(r: lib::Range) -> Range {
    Range::new(Position::new(r.start.line, r.start.character), Position::new(r.end.line, r.end.character))
}

fn to_lib_diag(d: &Diagnostic) -> lib::Diagnostic {
    lib::Diagnostic { range: to_lib_range(d.range), code: diagnostic_code(d).map(str::to_owned) }
}

fn copy_docs(docs: &[Document]) -> Vec<Document> {
    docs.iter()
        .map(|d| Document {
            root: rlsp_yaml::dedup::clone_node(&d.root),
            explicit_start: d.explicit_start,
            explicit_end: d.explicit_end,
        })
        .collect()
}

fn to_lsp_action(a: lib::CodeAction, sent: &[Diagnostic]) -> CodeAction {
    let edits: Vec<TextEdit> =
        a.edits.into_iter().map(|e| TextEdit { range: from_lib_range(e.range), new_text: e.new_text }).collect();
    let mut changes = HashMap::new();
    changes.insert(test_uri(), edits);
    CodeAction {
        title: a.title,
        kind: Some(match a.kind {
            lib::CodeActionKind::QuickFix => CodeActionKind::QUICKFIX,
            lib::CodeActionKind::RefactorRewrite => CodeActionKind::REFACTOR_REWRITE,
        }),
        diagnostics: a.diagnostics.map(|ds| {
            ds.iter()
                .filter_map(|d| {
                    sent.iter().find(|s| to_lib_range(s.range) == d.range && diagnostic_code(s) == d.code.as_deref()).cloned()
                })
                .collect()
        }),
        edit: Some(WorkspaceEdit { changes: Some(changes), ..WorkspaceEdit::default() }),
        ..CodeAction::default()
    }
}

fn complete(items: Vec<ActionItem>) -> Vec<lib::CodeAction> {
    items
        .into_iter()
        .filter_map(|item| match item {
            ActionItem::Ready(a) => Some(a),
            ActionItem::Pending(p) => {
                let printed = print_doc(&node_to_doc(&p.node, &p.options, false), p.options.print_width, p.options.tab_width);
                complete_action(p, &printed)
            }
        })
        .collect()
}

fn code_actions(
    docs: &[Document],
    text: &str,
    range: Range,
    diagnostics: &[Diagnostic],
    _uri: &Url,
    options: &YamlFormatOptions,
) -> Vec<CodeAction> {
    let lib_diags: Vec<lib::Diagnostic> = diagnostics.iter().map(to_lib_diag).collect();
    let items = rlsp_yaml::code_actions::code_actions(&copy_docs(docs), text, to_lib_range(range), &lib_diags, options);
    complete(items).into_iter().map(|a| to_lsp_action(a, diagnostics)).collect()
}

fn string_to_block_scalar(docs: &[Document], _text: &str, line: usize, _uri: &Url, options: &YamlFormatOptions) -> Vec<CodeAction> {
    let pending = rlsp_yaml::block_scalar::string_to_block_scalar(&copy_docs(docs), line, options);
    let items = pending.into_iter().map(ActionItem::Pending).collect();
    complete(items).into_iter().map(|a| to_lsp_action(a, &[])).collect()
}

/// A `flowMap` or `flowSeq` diagnostic for every flow collection, in
/// document order, its range the collection's span.
fn flow_diags(node: &Node, out: &mut Vec<Diagnostic>) {
    let (loc, code) = match node {
        Node::Mapping { style: CollectionStyle::Flow, loc, .. } => (Some(*loc), "flowMap"),
        Node::Sequence { style: CollectionStyle::Flow, loc, .. } => (Some(*loc), "flowSeq"),
        _ => (None, ""),
    };
    if let Some(l) = loc {
        out.push(make_flow_diag(code, l.start.line - 1, l.start.column, l.end.line - 1, l.end.column + 1));
    }
    match node {
        Node::Mapping { entries, .. } => entries.iter().for_each(|(k, v)| {
            flow_diags(k, out);
            flow_diags(v, out);
        }),
        Node::Sequence { items, .. } => items.iter().for_each(|i| flow_diags(i, out)),
        _ => {}
    }
}

fn flow_diags_for(text: &str) -> Vec<Diagnostic> {
    let mut out = Vec::new();
    for d in parse_docs(text) {
        flow_diags(&d.root, &mut out);
    }
    out
}

fn flow_action(text: &str, code: &str, title: &str) -> Option<CodeAction> {
    let docs = docs_for(text);
    let diags = flow_diags_for(text);
    let diag = diags.iter().find(|d| diagnostic_code(d) == Some(code))?;
    let whole = Range::new(Position::new(0, 0), Position::new(999, 0));
    code_actions(&docs, text, whole, std::slice::from_ref(diag), &test_uri(), &YamlFormatOptions::default())
        .into_iter()
        .find(|a| a.title.contains(title))
}

fn flow_map_action(text: &str) -> Option<CodeAction> {
    flow_action(text, "flowMap", "flow mapping")
}

fn flow_seq_action(text: &str) -> Option<CodeAction> {
    flow_action(text, "flowSeq", "flow sequence")
}

fn new_text_for(action: &CodeAction) -> String {
    action.edit.as_ref().unwrap().changes.as_ref().unwrap().get(&test_uri()).unwrap()[0].new_text.clone()
}

/// Applies a (possibly multi-line) edit to `text`.
fn apply_edit(text: &str, edit: &TextEdit) -> String {
    let start_line = edit.range.start.line as usize;
    let start_col = edit.range.start.character as usize;
    let end_line = edit.range.end.line as usize;
    let end_col = edit.range.end.character as usize;
    let mut result = String::new();
    for (i, src_line) in text.lines().enumerate() {
        let chars: Vec<char> = src_line.chars().collect();
        if i < start_line || i > end_line {
            result.push_str(src_line);
            result.push('\n');
        } else if i == start_line && i == end_line {
            result.extend(&chars[..start_col.min(chars.len())]);
            result.push_str(&edit.new_text);
            result.extend(&chars[end_col.min(chars.len())..]);
            result.push('\n');
        } else if i == start_line {
            result.extend(&chars[..start_col.min(chars.len())]);
            result.push_str(&edit.new_text);
            result.push('\n');
        } else if i == end_line {
            result.extend(&chars[end_col.min(chars.len())..]);
            result.push('\n');
        }
    }
    result
}

fn first_edit(action: &CodeAction) -> TextEdit {
    action.edit.as_ref().unwrap().changes.as_ref().unwrap()[&test_uri()][0].clone()
}

fn apply_block_to_flow_edit(text: &str, line: u32) -> String {
    let actions = code_actions(&docs_for(text), text, cursor_range(line, 0), &[], &test_uri(), &YamlFormatOptions::default());
    let action = actions.iter().find(|a| a.title.contains("block to flow")).expect("expected block-to-flow action");
    apply_edit(text, &first_edit(action))
}

fn apply_quoted_bool_edit(yaml: &str, col: u32) -> (String, TextEdit) {
    let actions = code_actions(&docs_for(yaml), yaml, cursor_range(0, col), &[], &test_uri(), &YamlFormatOptions::default());
    let action = actions.iter().find(|a| a.title.contains("Convert quoted")).expect("expected quoted-bool action");
    let edit = first_edit(action);
    (apply_edit(yaml, &edit), edit)
}

fn apply_first_action_edit(yaml: &str, diag: Diagnostic, title: &str) -> (String, TextEdit) {
    let actions = code_actions(&docs_for(yaml), yaml, line_range(0), &[diag], &test_uri(), &YamlFormatOptions::default());
    let action = actions.iter().find(|a| a.title == title).expect("expected action with matching title");
    let edit = first_edit(action);
    (apply_edit(yaml, &edit), edit)
}

fn apply_yaml11_bool_quote_edit(yaml: &str, diag: Diagnostic) -> (String, TextEdit) {
    apply_first_action_edit(yaml, diag, "Quote value")
}

fn apply_yaml11_bool_convert_edit(yaml: &str, diag: Diagnostic) -> (String, TextEdit) {
    apply_first_action_edit(yaml, diag, "Convert to boolean")
}

fn apply_yaml11_octal_quote_edit(yaml: &str, diag: Diagnostic) -> (String, TextEdit) {
    apply_first_action_edit(yaml, diag, "Quote as string")
}

fn apply_yaml11_octal_convert_edit(yaml: &str, diag: Diagnostic) -> (String, TextEdit) {
    apply_first_action_edit(yaml, diag, "Convert to YAML 1.2 octal")
}

fn apply_block_scalar_edit(text: &str, line: u32) -> (String, TextEdit) {
    let actions = code_actions(&docs_for(text), text, cursor_range(line, 0), &[], &test_uri(), &YamlFormatOptions::default());
    let action = actions.iter().find(|a| a.title.contains("block scalar")).expect("expected block-scalar action");
    let edit = first_edit(action);
    (apply_edit(text, &edit), edit)
}

/// Whether `text` loads as YAML.
struct Reparse {
    diagnostics: Vec<String>,
    documents: Vec<saphyr::YamlOwned>,
}

fn parse_yaml(text: &str) -> Reparse {
    match saphyr::YamlOwned::load_from_str(text) {
        Ok(documents) => Reparse { diagnostics: Vec::new(), documents },
        Err(e) => Reparse { diagnostics: vec![e.to_string()], documents: Vec::new() },
    }
}

#[test]
fn quoted_bool_edit_range_is_scalar_span_not_full_line() {
    let text = "enabled: \"true\"  # keep this comment\n";
    let actions = code_actions(
        &docs_for(text),
        text,
        cursor_range(0, 10),
        &[],
        &test_uri(),
        &YamlFormatOptions::default(),
    );

    let action = actions
        .iter()
        .find(|a| a.title.contains("Convert quoted"))
        .unwrap();
    let edits = &action.edit.as_ref().unwrap().changes.as_ref().unwrap()[&test_uri()];
    assert_eq!(edits[0].new_text, "true");
    assert_eq!(
        edits[0].range.start.character, 9,
        "edit range must start at the opening-quote column: {:?}",
        edits[0].range
    );
    assert_eq!(
        edits[0].range.end.character, 15,
        "edit range end must be the exclusive end of the scalar, not the full line: {:?}",
        edits[0].range
    );
}

#[test]
fn quoted_bool_action_not_offered_for_empty_docs() {
    let actions = code_actions(
        &[],
        "enabled: \"true\"\n",
        cursor_range(0, 10),
        &[],
        &test_uri(),
        &YamlFormatOptions::default(),
    );
    assert!(actions.iter().all(|a| !a.title.contains("Convert quoted")));
}

#[test]
fn quoted_bool_action_kind_is_quickfix() {
    let text = "enabled: \"true\"\n";
    let actions = code_actions(
        &docs_for(text),
        text,
        cursor_range(0, 10),
        &[],
        &test_uri(),
        &YamlFormatOptions::default(),
    );

    let action = actions
        .iter()
        .find(|a| a.title.contains("Convert quoted"))
        .unwrap();
    assert_eq!(
        action.kind,
        Some(CodeActionKind::QUICKFIX),
        "action kind must be QUICKFIX"
    );
}

#[test]
fn should_quote_yaml11_bool_yes_lowercase() {
    let text = "enabled: yes\n";
    let diag = make_diagnostic(0, 9, 12, "yaml11Boolean");
    let actions = code_actions(
        &docs_for(text),
        text,
        line_range(0),
        &[diag],
        &test_uri(),
        &YamlFormatOptions::default(),
    );

    let action = actions.iter().find(|a| a.title == "Quote value").unwrap();
    let edits = &action.edit.as_ref().unwrap().changes.as_ref().unwrap()[&test_uri()];
    assert_eq!(edits[0].new_text, "\"yes\"");
    assert_eq!(
        edits[0].range.start.character, 9,
        "edit must start at scalar col"
    );
}

#[test]
fn should_quote_yaml11_bool_uppercase_on() {
    let text = "flag: ON\n";
    let diag = make_diagnostic(0, 6, 8, "yaml11Boolean");
    let actions = code_actions(
        &docs_for(text),
        text,
        line_range(0),
        &[diag],
        &test_uri(),
        &YamlFormatOptions::default(),
    );

    let action = actions.iter().find(|a| a.title == "Quote value").unwrap();
    let edits = &action.edit.as_ref().unwrap().changes.as_ref().unwrap()[&test_uri()];
    assert_eq!(edits[0].new_text, "\"ON\"");
    assert_eq!(
        edits[0].range.start.character, 6,
        "edit must start at scalar col"
    );
}

#[test]
fn should_quote_yaml11_bool_with_indentation() {
    let text = "  enabled: yes\n";
    let diag = make_diagnostic(0, 11, 14, "yaml11Boolean");
    let actions = code_actions(
        &docs_for(text),
        text,
        line_range(0),
        &[diag],
        &test_uri(),
        &YamlFormatOptions::default(),
    );

    let action = actions.iter().find(|a| a.title == "Quote value").unwrap();
    let edits = &action.edit.as_ref().unwrap().changes.as_ref().unwrap()[&test_uri()];
    assert_eq!(edits[0].new_text, "\"yes\"");
    assert_eq!(
        edits[0].range.start.character, 11,
        "edit must start at scalar col"
    );
}

#[test]
fn yaml11_bool_quote_wrong_diagnostic_code_no_action() {
    let text = "enabled: yes\n";
    let diag = make_diagnostic(0, 9, 12, "flowMap");
    let actions = code_actions(
        &docs_for(text),
        text,
        line_range(0),
        &[diag],
        &test_uri(),
        &YamlFormatOptions::default(),
    );

    assert!(actions.iter().all(|a| a.title != "Quote value"));
}

#[test]
fn should_convert_yaml11_bool_yes_to_true() {
    let text = "enabled: yes\n";
    let diag = make_diagnostic(0, 9, 12, "yaml11Boolean");
    let actions = code_actions(
        &docs_for(text),
        text,
        line_range(0),
        &[diag],
        &test_uri(),
        &YamlFormatOptions::default(),
    );

    let action = actions
        .iter()
        .find(|a| a.title == "Convert to boolean")
        .unwrap();
    let edits = &action.edit.as_ref().unwrap().changes.as_ref().unwrap()[&test_uri()];
    assert_eq!(edits[0].new_text, "true");
    assert_eq!(edits[0].range.start.character, 9);
}

#[test]
fn should_convert_yaml11_bool_no_to_false() {
    let text = "enabled: No\n";
    let diag = make_diagnostic(0, 9, 11, "yaml11Boolean");
    let actions = code_actions(
        &docs_for(text),
        text,
        line_range(0),
        &[diag],
        &test_uri(),
        &YamlFormatOptions::default(),
    );

    let action = actions
        .iter()
        .find(|a| a.title == "Convert to boolean")
        .unwrap();
    let edits = &action.edit.as_ref().unwrap().changes.as_ref().unwrap()[&test_uri()];
    assert_eq!(edits[0].new_text, "false");
    assert_eq!(edits[0].range.start.character, 9);
}

#[test]
fn should_convert_yaml11_bool_on_to_true() {
    let text = "flag: ON\n";
    let diag = make_diagnostic(0, 6, 8, "yaml11Boolean");
    let actions = code_actions(
        &docs_for(text),
        text,
        line_range(0),
        &[diag],
        &test_uri(),
        &YamlFormatOptions::default(),
    );

    let action = actions
        .iter()
        .find(|a| a.title == "Convert to boolean")
        .unwrap();
    let edits = &action.edit.as_ref().unwrap().changes.as_ref().unwrap()[&test_uri()];
    assert_eq!(edits[0].new_text, "true");
    assert_eq!(edits[0].range.start.character, 6);
}

#[test]
fn should_convert_yaml11_bool_off_to_false() {
    let text = "flag: OFF\n";
    let diag = make_diagnostic(0, 6, 9, "yaml11Boolean");
    let actions = code_actions(
        &docs_for(text),
        text,
        line_range(0),
        &[diag],
        &test_uri(),
        &YamlFormatOptions::default(),
    );

    let action = actions
        .iter()
        .find(|a| a.title == "Convert to boolean")
        .unwrap();
    let edits = &action.edit.as_ref().unwrap().changes.as_ref().unwrap()[&test_uri()];
    assert_eq!(edits[0].new_text, "false");
    assert_eq!(edits[0].range.start.character, 6);
}

#[test]
fn should_convert_yaml11_bool_y_to_true() {
    let text = "active: Y\n";
    let diag = make_diagnostic(0, 8, 9, "yaml11Boolean");
    let actions = code_actions(
        &docs_for(text),
        text,
        line_range(0),
        &[diag],
        &test_uri(),
        &YamlFormatOptions::default(),
    );

    let action = actions
        .iter()
        .find(|a| a.title == "Convert to boolean")
        .unwrap();
    let edits = &action.edit.as_ref().unwrap().changes.as_ref().unwrap()[&test_uri()];
    assert_eq!(edits[0].new_text, "true");
    assert_eq!(edits[0].range.start.character, 8);
}

#[test]
fn should_convert_yaml11_bool_n_to_false() {
    let text = "active: N\n";
    let diag = make_diagnostic(0, 8, 9, "yaml11Boolean");
    let actions = code_actions(
        &docs_for(text),
        text,
        line_range(0),
        &[diag],
        &test_uri(),
        &YamlFormatOptions::default(),
    );

    let action = actions
        .iter()
        .find(|a| a.title == "Convert to boolean")
        .unwrap();
    let edits = &action.edit.as_ref().unwrap().changes.as_ref().unwrap()[&test_uri()];
    assert_eq!(edits[0].new_text, "false");
    assert_eq!(edits[0].range.start.character, 8);
}

#[test]
fn should_convert_yaml11_bool_preserving_indentation() {
    let text = "  active: yes\n";
    let diag = make_diagnostic(0, 10, 13, "yaml11Boolean");
    let actions = code_actions(
        &docs_for(text),
        text,
        line_range(0),
        &[diag],
        &test_uri(),
        &YamlFormatOptions::default(),
    );

    let action = actions
        .iter()
        .find(|a| a.title == "Convert to boolean")
        .unwrap();
    let edits = &action.edit.as_ref().unwrap().changes.as_ref().unwrap()[&test_uri()];
    assert_eq!(edits[0].new_text, "true");
    assert_eq!(
        edits[0].range.start.character, 10,
        "edit must start at scalar col"
    );
}

#[test]
fn yaml11_bool_produces_exactly_two_actions() {
    let text = "enabled: yes\n";
    let diag = make_diagnostic(0, 9, 12, "yaml11Boolean");
    let actions = code_actions(
        &docs_for(text),
        text,
        line_range(0),
        &[diag],
        &test_uri(),
        &YamlFormatOptions::default(),
    );

    assert_eq!(
        actions
            .iter()
            .filter(|a| a.title == "Quote value" || a.title == "Convert to boolean")
            .count(),
        2
    );
}

#[test]
fn yaml11_bool_actions_attach_diagnostic() {
    let text = "enabled: yes\n";
    let diag = make_diagnostic(0, 9, 12, "yaml11Boolean");
    let actions = code_actions(
        &docs_for(text),
        text,
        line_range(0),
        std::slice::from_ref(&diag),
        &test_uri(),
        &YamlFormatOptions::default(),
    );

    for action in actions
        .iter()
        .filter(|a| a.title == "Quote value" || a.title == "Convert to boolean")
    {
        let attached = action.diagnostics.as_ref().unwrap();
        assert_eq!(attached.len(), 1);
        assert_eq!(
            attached[0].code,
            Some(NumberOrString::String("yaml11Boolean".to_string()))
        );
    }
}

#[test]
fn yaml11_bool_quote_value_produces_valid_double_quoted_yaml() {
    let text = "enabled: yes\n";
    let diag = make_diagnostic(0, 9, 12, "yaml11Boolean");
    let actions = code_actions(
        &docs_for(text),
        text,
        line_range(0),
        &[diag],
        &test_uri(),
        &YamlFormatOptions::default(),
    );
    let action = actions.iter().find(|a| a.title == "Quote value").unwrap();
    let edits = &action.edit.as_ref().unwrap().changes.as_ref().unwrap()[&test_uri()];
    let new_text = &edits[0].new_text;
    let start = edits[0].range.start.character as usize;
    let end = edits[0].range.end.character as usize;
    let line = "enabled: yes";
    let result = format!("{}{}{}\n", &line[..start], new_text, &line[end..]);
    let parse_result = parse_yaml(&result);
    assert!(
        parse_result.diagnostics.is_empty(),
        "quoted bool must produce valid YAML; got: {:?}\nresult: {result:?}",
        parse_result.diagnostics
    );
    assert_eq!(
        new_text, "\"yes\"",
        "quote action must wrap scalar in double quotes"
    );
}

#[test]
fn yaml11_bool_convert_action_edit_range_targets_scalar_span() {
    let text = "enabled: yes\n";
    let diag = make_diagnostic(0, 9, 12, "yaml11Boolean");
    let actions = code_actions(
        &docs_for(text),
        text,
        line_range(0),
        &[diag],
        &test_uri(),
        &YamlFormatOptions::default(),
    );
    let action = actions
        .iter()
        .find(|a| a.title == "Convert to boolean")
        .unwrap();
    let edits = &action.edit.as_ref().unwrap().changes.as_ref().unwrap()[&test_uri()];
    assert_eq!(
        edits[0].range.start.character, 9,
        "convert edit must start at scalar col"
    );
    assert_eq!(
        edits[0].range.end.character, 12,
        "convert edit must end at scalar end"
    );
}

#[test]
fn yaml11_bool_actions_out_of_range_diag_returns_empty() {
    let text = "enabled: yes\nother: string\n";
    let diag = make_diagnostic(1, 7, 13, "yaml11Boolean");
    let actions = code_actions(
        &docs_for(text),
        text,
        line_range(1),
        &[diag],
        &test_uri(),
        &YamlFormatOptions::default(),
    );
    assert!(
        actions
            .iter()
            .all(|a| a.title != "Quote value" && a.title != "Convert to boolean"),
        "diag on non-yaml11-bool line must produce no yaml11-bool actions"
    );
}

#[test]
fn yaml11_bool_trailing_comment_preserved_quote_action() {
    let text = "enabled: yes  # keep this\n";
    let diag = make_diagnostic(0, 9, 12, "yaml11Boolean");
    let actions = code_actions(
        &docs_for(text),
        text,
        line_range(0),
        &[diag],
        &test_uri(),
        &YamlFormatOptions::default(),
    );
    let action = actions.iter().find(|a| a.title == "Quote value").unwrap();
    let edits = &action.edit.as_ref().unwrap().changes.as_ref().unwrap()[&test_uri()];
    assert_eq!(
        edits[0].new_text, "\"yes\"",
        "new_text must be just the quoted scalar"
    );
    assert!(
        edits[0].range.end.character <= 12,
        "edit end must not reach into the trailing comment: {:?}",
        edits[0].range
    );
    let start = edits[0].range.start.character as usize;
    let end = edits[0].range.end.character as usize;
    let line = "enabled: yes  # keep this";
    let result = format!("{}{}{}\n", &line[..start], edits[0].new_text, &line[end..]);
    assert!(
        result.contains("# keep this"),
        "trailing comment must survive in result: {result:?}"
    );
}

#[test]
fn yaml11_bool_trailing_comment_preserved_convert_action() {
    let text = "flag: ON  # keep this\n";
    let diag = make_diagnostic(0, 6, 8, "yaml11Boolean");
    let actions = code_actions(
        &docs_for(text),
        text,
        line_range(0),
        &[diag],
        &test_uri(),
        &YamlFormatOptions::default(),
    );
    let action = actions
        .iter()
        .find(|a| a.title == "Convert to boolean")
        .unwrap();
    let edits = &action.edit.as_ref().unwrap().changes.as_ref().unwrap()[&test_uri()];
    assert_eq!(edits[0].new_text, "true");
    assert!(
        edits[0].range.end.character <= 8,
        "edit end must not reach into the trailing comment: {:?}",
        edits[0].range
    );
    let start = edits[0].range.start.character as usize;
    let end = edits[0].range.end.character as usize;
    let line = "flag: ON  # keep this";
    let result = format!("{}{}{}\n", &line[..start], edits[0].new_text, &line[end..]);
    assert!(
        result.contains("# keep this"),
        "trailing comment must survive: {result:?}"
    );
}

#[test]
fn yaml11_bool_sequence_item_edit_starts_at_scalar_col() {
    let text = "items:\n  - yes\n";
    let diag = make_diagnostic(1, 4, 7, "yaml11Boolean");
    let actions = code_actions(
        &docs_for(text),
        text,
        line_range(1),
        &[diag],
        &test_uri(),
        &YamlFormatOptions::default(),
    );
    let action = actions.iter().find(|a| a.title == "Quote value").unwrap();
    let edits = &action.edit.as_ref().unwrap().changes.as_ref().unwrap()[&test_uri()];
    assert!(
        edits[0].range.start.character > 0,
        "edit must not start at col 0 for sequence-item value: {:?}",
        edits[0].range
    );
    assert_eq!(edits[0].new_text, "\"yes\"");
}

#[test]
fn schema_yaml11_bool_type_returns_exactly_one_action() {
    let text = "enabled: yes\n";
    let diag = make_diagnostic(0, 9, 12, "schemaYaml11BooleanType");
    let actions = code_actions(
        &docs_for(text),
        text,
        line_range(0),
        &[diag],
        &test_uri(),
        &YamlFormatOptions::default(),
    );
    let count = actions
        .iter()
        .filter(|a| a.title == "Convert to boolean" || a.title == "Quote value")
        .count();
    assert_eq!(
        count, 1,
        "schemaYaml11BooleanType must offer exactly one action"
    );
    assert!(
        actions.iter().any(|a| a.title == "Convert to boolean"),
        "the single action must be 'Convert to boolean'"
    );
    assert!(
        actions.iter().all(|a| a.title != "Quote value"),
        "schemaYaml11BooleanType must not offer 'Quote value'"
    );
}

#[test]
fn schema_yaml11_bool_type_gated_on_yaml11_bool() {
    let text = "enabled: hello\n";
    let diag = make_diagnostic(0, 9, 14, "schemaYaml11BooleanType");
    let actions = code_actions(
        &docs_for(text),
        text,
        line_range(0),
        &[diag],
        &test_uri(),
        &YamlFormatOptions::default(),
    );
    assert!(
        actions.iter().all(|a| a.title != "Convert to boolean"),
        "non-yaml11-bool input must not produce 'Convert to boolean' for schemaYaml11BooleanType"
    );
}

#[test]
fn schema_yaml11_bool_type_actions_edit_range_targets_scalar_span() {
    let text = "flag: yes\n";
    let diag = make_diagnostic(0, 6, 9, "schemaYaml11BooleanType");
    let actions = code_actions(
        &docs_for(text),
        text,
        line_range(0),
        &[diag],
        &test_uri(),
        &YamlFormatOptions::default(),
    );
    let action = actions
        .iter()
        .find(|a| a.title == "Convert to boolean")
        .unwrap();
    let edits = &action.edit.as_ref().unwrap().changes.as_ref().unwrap()[&test_uri()];
    assert_eq!(
        edits[0].range.start.character, 6,
        "edit must start at scalar col"
    );
    assert_eq!(
        edits[0].range.end.character, 9,
        "edit must end at scalar end"
    );
    assert_eq!(edits[0].new_text, "true");
}

#[test]
fn schema_yaml11_bool_type_actions_out_of_range_diag_returns_empty() {
    let text = "flag: yes\nother: string\n";
    let diag = make_diagnostic(1, 7, 13, "schemaYaml11BooleanType");
    let actions = code_actions(
        &docs_for(text),
        text,
        line_range(1),
        &[diag],
        &test_uri(),
        &YamlFormatOptions::default(),
    );
    assert!(
        actions.iter().all(|a| a.title != "Convert to boolean"),
        "diag on non-yaml11-bool line must produce no schema-yaml11-bool actions"
    );
}

#[test]
fn schema_yaml11_bool_two_bools_on_line_offers_no_action() {
    let text = "{a: yes, b: no}\n";
    let diag = make_diagnostic(0, 9, 10, "schemaYaml11Boolean");
    let actions = code_actions(
        &docs_for(text),
        text,
        line_range(0),
        &[diag],
        &test_uri(),
        &YamlFormatOptions::default(),
    );
    assert!(
        actions
            .iter()
            .all(|a| a.title != "Quote value" && a.title != "Convert to boolean"),
        "ambiguous line must suppress schema bool actions; got: {actions:?}"
    );
}

#[test]
fn schema_yaml11_bool_two_bools_on_line_first_key_also_suppressed() {
    let text = "{a: yes, b: no}\n";
    let diag = make_diagnostic(0, 1, 2, "schemaYaml11Boolean");
    let actions = code_actions(
        &docs_for(text),
        text,
        line_range(0),
        &[diag],
        &test_uri(),
        &YamlFormatOptions::default(),
    );
    assert!(
        actions
            .iter()
            .all(|a| a.title != "Quote value" && a.title != "Convert to boolean"),
        "first key on ambiguous line must also be suppressed; got: {actions:?}"
    );
}

#[test]
fn schema_yaml11_bool_single_bool_on_line_offers_action() {
    let text = "flag: yes\n";
    let diag = make_diagnostic(0, 0, 4, "schemaYaml11Boolean");
    let actions = code_actions(
        &docs_for(text),
        text,
        line_range(0),
        &[diag],
        &test_uri(),
        &YamlFormatOptions::default(),
    );
    let action = actions
        .iter()
        .find(|a| a.title == "Convert to boolean")
        .unwrap();
    let edits = &action.edit.as_ref().unwrap().changes.as_ref().unwrap()[&test_uri()];
    assert_eq!(edits[0].new_text, "true");
    assert_eq!(
        edits[0].range.start.character, 6,
        "edit must target `yes` at col 6"
    );
}

#[test]
fn schema_yaml11_bool_single_bool_on_line_two_actions_count() {
    let text = "flag: yes\n";
    let diag = make_diagnostic(0, 0, 4, "schemaYaml11Boolean");
    let actions = code_actions(
        &docs_for(text),
        text,
        line_range(0),
        &[diag],
        &test_uri(),
        &YamlFormatOptions::default(),
    );
    assert_eq!(
        actions
            .iter()
            .filter(|a| a.title == "Quote value" || a.title == "Convert to boolean")
            .count(),
        2,
        "single-bool line must still offer two actions for schemaYaml11Boolean"
    );
}

#[test]
fn schema_yaml11_bool_type_two_bools_on_line_offers_no_action() {
    let text = "{a: yes, b: no}\n";
    let diag = make_diagnostic(0, 9, 10, "schemaYaml11BooleanType");
    let actions = code_actions(
        &docs_for(text),
        text,
        line_range(0),
        &[diag],
        &test_uri(),
        &YamlFormatOptions::default(),
    );
    assert!(
        actions.iter().all(|a| a.title != "Convert to boolean"),
        "ambiguous line must suppress schemaYaml11BooleanType action; got: {actions:?}"
    );
}

#[test]
fn schema_yaml11_bool_type_single_bool_on_line_offers_action() {
    let text = "flag: yes\n";
    let diag = make_diagnostic(0, 0, 4, "schemaYaml11BooleanType");
    let actions = code_actions(
        &docs_for(text),
        text,
        line_range(0),
        &[diag],
        &test_uri(),
        &YamlFormatOptions::default(),
    );
    let action = actions
        .iter()
        .find(|a| a.title == "Convert to boolean")
        .unwrap();
    let edits = &action.edit.as_ref().unwrap().changes.as_ref().unwrap()[&test_uri()];
    assert_eq!(edits[0].new_text, "true");
    assert_eq!(edits[0].range.start.character, 6);
}

#[test]
fn schema_yaml11_bool_two_bools_nested_offers_no_action() {
    let text = "x:\n  a: yes\n  b: no\n";
    let diag = make_diagnostic(1, 2, 3, "schemaYaml11Boolean");
    let actions = code_actions(
        &docs_for(text),
        text,
        line_range(1),
        &[diag],
        &test_uri(),
        &YamlFormatOptions::default(),
    );
    let action = actions
        .iter()
        .find(|a| a.title == "Convert to boolean")
        .unwrap();
    let edits = &action.edit.as_ref().unwrap().changes.as_ref().unwrap()[&test_uri()];
    assert_eq!(edits[0].new_text, "true");
    assert_eq!(
        edits[0].range.start.character, 5,
        "edit must target `yes` at col 5"
    );
}

#[test]
fn schema_yaml11_bool_flow_map_value_two_bools_same_line_suppressed() {
    let text = "x: {a: yes, b: no}\n";
    let diag = make_diagnostic(0, 4, 5, "schemaYaml11Boolean");
    let actions = code_actions(
        &docs_for(text),
        text,
        line_range(0),
        &[diag],
        &test_uri(),
        &YamlFormatOptions::default(),
    );
    assert!(
        actions
            .iter()
            .all(|a| a.title != "Convert to boolean" && a.title != "Quote value"),
        "nested flow map two-bool line must be suppressed; got: {actions:?}"
    );
}

#[test]
fn yaml11_bool_flow_seq_second_bool_quote_action_targets_correct_scalar() {
    let text = "items: [yes, no]\n";
    let diag = make_diagnostic(0, 13, 15, "yaml11Boolean");
    let actions = code_actions(
        &docs_for(text),
        text,
        line_range(0),
        &[diag],
        &test_uri(),
        &YamlFormatOptions::default(),
    );
    let action = actions.iter().find(|a| a.title == "Quote value").unwrap();
    let edits = &action.edit.as_ref().unwrap().changes.as_ref().unwrap()[&test_uri()];
    assert_eq!(edits[0].new_text, "\"no\"", "must quote `no`, not `yes`");
    assert_eq!(
        edits[0].range.start.character, 13,
        "edit must start at col 13 (`no`)"
    );
}

#[test]
fn yaml11_bool_flow_seq_second_bool_convert_action_targets_correct_scalar() {
    let text = "items: [yes, no]\n";
    let diag = make_diagnostic(0, 13, 15, "yaml11Boolean");
    let actions = code_actions(
        &docs_for(text),
        text,
        line_range(0),
        &[diag],
        &test_uri(),
        &YamlFormatOptions::default(),
    );
    let action = actions
        .iter()
        .find(|a| a.title == "Convert to boolean")
        .unwrap();
    let edits = &action.edit.as_ref().unwrap().changes.as_ref().unwrap()[&test_uri()];
    assert_eq!(edits[0].new_text, "false", "must convert `no` → `false`");
    assert_eq!(edits[0].range.start.character, 13);
}

#[test]
fn yaml11_bool_flow_seq_first_bool_not_displaced_when_second_is_targeted() {
    let text = "items: [yes, no]\n";
    let diag = make_diagnostic(0, 8, 11, "yaml11Boolean");
    let actions = code_actions(
        &docs_for(text),
        text,
        line_range(0),
        &[diag],
        &test_uri(),
        &YamlFormatOptions::default(),
    );
    let action = actions.iter().find(|a| a.title == "Quote value").unwrap();
    let edits = &action.edit.as_ref().unwrap().changes.as_ref().unwrap()[&test_uri()];
    assert_eq!(edits[0].new_text, "\"yes\"", "must quote `yes`, not `no`");
    assert_eq!(edits[0].range.start.character, 8);
}

#[test]
fn yaml11_bool_flow_seq_second_of_three_bools_targeted_correctly() {
    let text = "flags: [yes, no, on]\n";
    let diag = make_diagnostic(0, 13, 15, "yaml11Boolean");
    let actions = code_actions(
        &docs_for(text),
        text,
        line_range(0),
        &[diag],
        &test_uri(),
        &YamlFormatOptions::default(),
    );
    let action = actions
        .iter()
        .find(|a| a.title == "Convert to boolean")
        .unwrap();
    let edits = &action.edit.as_ref().unwrap().changes.as_ref().unwrap()[&test_uri()];
    assert_eq!(edits[0].new_text, "false", "must convert `no` → `false`");
    assert_eq!(edits[0].range.start.character, 13);
}

#[test]
fn yaml11_bool_flow_map_second_bool_quote_action_targets_correct_scalar() {
    let text = "{a: yes, b: no}\n";
    let diag = make_diagnostic(0, 12, 14, "yaml11Boolean");
    let actions = code_actions(
        &docs_for(text),
        text,
        line_range(0),
        &[diag],
        &test_uri(),
        &YamlFormatOptions::default(),
    );
    let action = actions.iter().find(|a| a.title == "Quote value").unwrap();
    let edits = &action.edit.as_ref().unwrap().changes.as_ref().unwrap()[&test_uri()];
    assert_eq!(edits[0].new_text, "\"no\"", "must quote `no`, not `yes`");
    assert_eq!(edits[0].range.start.character, 12);
}

#[test]
fn yaml11_bool_flow_map_second_bool_convert_action_targets_correct_scalar() {
    let text = "{a: yes, b: no}\n";
    let diag = make_diagnostic(0, 12, 14, "yaml11Boolean");
    let actions = code_actions(
        &docs_for(text),
        text,
        line_range(0),
        &[diag],
        &test_uri(),
        &YamlFormatOptions::default(),
    );
    let action = actions
        .iter()
        .find(|a| a.title == "Convert to boolean")
        .unwrap();
    let edits = &action.edit.as_ref().unwrap().changes.as_ref().unwrap()[&test_uri()];
    assert_eq!(edits[0].new_text, "false");
    assert_eq!(edits[0].range.start.character, 12);
}

#[test]
fn yaml11_bool_flow_map_first_bool_not_displaced_when_second_is_targeted() {
    let text = "{a: yes, b: no}\n";
    let diag = make_diagnostic(0, 4, 7, "yaml11Boolean");
    let actions = code_actions(
        &docs_for(text),
        text,
        line_range(0),
        &[diag],
        &test_uri(),
        &YamlFormatOptions::default(),
    );
    let action = actions.iter().find(|a| a.title == "Quote value").unwrap();
    let edits = &action.edit.as_ref().unwrap().changes.as_ref().unwrap()[&test_uri()];
    assert_eq!(edits[0].new_text, "\"yes\"");
    assert_eq!(edits[0].range.start.character, 4);
}

#[test]
fn yaml11_bool_nested_flow_seq_second_bool_targeted_correctly() {
    let text = "x:\n  flags: [yes, no]\n";
    let diag = make_diagnostic(1, 15, 17, "yaml11Boolean");
    let actions = code_actions(
        &docs_for(text),
        text,
        line_range(1),
        &[diag],
        &test_uri(),
        &YamlFormatOptions::default(),
    );
    let action = actions
        .iter()
        .find(|a| a.title == "Convert to boolean")
        .unwrap();
    let edits = &action.edit.as_ref().unwrap().changes.as_ref().unwrap()[&test_uri()];
    assert_eq!(edits[0].new_text, "false", "must convert `no` → `false`");
    assert_eq!(edits[0].range.start.character, 15);
}

#[test]
fn yaml11_bool_on_line_other_than_zero() {
    let text = "key: value\nflag: yes\n";
    let diag = make_diagnostic(1, 6, 9, "yaml11Boolean");
    let actions = code_actions(
        &docs_for(text),
        text,
        line_range(1),
        &[diag],
        &test_uri(),
        &YamlFormatOptions::default(),
    );

    let action = actions.iter().find(|a| a.title == "Quote value").unwrap();
    let edits = &action.edit.as_ref().unwrap().changes.as_ref().unwrap()[&test_uri()];
    assert_eq!(edits[0].range.start.line, 1, "edit must target line 1");
    assert_eq!(
        edits[0].range.start.character, 6,
        "edit must start at scalar col"
    );
    assert_eq!(edits[0].new_text, "\"yes\"");
}

#[test]
fn yaml11_bool_diagnostic_not_triggered_by_other_codes() {
    let text = "enabled: yes\n";
    let diag = make_diagnostic(0, 0, 12, "flowMap");
    let actions = code_actions(
        &docs_for(text),
        text,
        line_range(0),
        &[diag],
        &test_uri(),
        &YamlFormatOptions::default(),
    );

    assert!(actions.iter().all(|a| a.title != "Quote value"));
    assert!(actions.iter().all(|a| a.title != "Convert to boolean"));
}

#[test]
fn schema_yaml11_boolean_quote_value_action() {
    let text = "flag: yes\n";
    let diag = make_diagnostic(0, 6, 9, "schemaYaml11Boolean");
    let actions = code_actions(
        &docs_for(text),
        text,
        line_range(0),
        &[diag],
        &test_uri(),
        &YamlFormatOptions::default(),
    );
    let action = actions.iter().find(|a| a.title == "Quote value").unwrap();
    let edits = &action.edit.as_ref().unwrap().changes.as_ref().unwrap()[&test_uri()];
    assert_eq!(edits[0].new_text, "\"yes\"");
    assert_eq!(edits[0].range.start.character, 6);
}

#[test]
fn schema_yaml11_boolean_convert_to_boolean_action() {
    let text = "flag: yes\n";
    let diag = make_diagnostic(0, 6, 9, "schemaYaml11Boolean");
    let actions = code_actions(
        &docs_for(text),
        text,
        line_range(0),
        &[diag],
        &test_uri(),
        &YamlFormatOptions::default(),
    );
    let action = actions
        .iter()
        .find(|a| a.title == "Convert to boolean")
        .unwrap();
    let edits = &action.edit.as_ref().unwrap().changes.as_ref().unwrap()[&test_uri()];
    assert_eq!(edits[0].new_text, "true");
    assert_eq!(edits[0].range.start.character, 6);
}

#[test]
fn schema_yaml11_boolean_offers_exactly_two_actions() {
    let text = "flag: yes\n";
    let diag = make_diagnostic(0, 6, 9, "schemaYaml11Boolean");
    let actions = code_actions(
        &docs_for(text),
        text,
        line_range(0),
        &[diag],
        &test_uri(),
        &YamlFormatOptions::default(),
    );
    let count = actions
        .iter()
        .filter(|a| a.title == "Quote value" || a.title == "Convert to boolean")
        .count();
    assert_eq!(count, 2);
}

#[test]
fn schema_yaml11_boolean_actions_attach_diagnostic() {
    let text = "flag: yes\n";
    let diag = make_diagnostic(0, 6, 9, "schemaYaml11Boolean");
    let actions = code_actions(
        &docs_for(text),
        text,
        line_range(0),
        std::slice::from_ref(&diag),
        &test_uri(),
        &YamlFormatOptions::default(),
    );
    for action in actions
        .iter()
        .filter(|a| a.title == "Quote value" || a.title == "Convert to boolean")
    {
        let diags = action.diagnostics.as_ref().unwrap();
        assert_eq!(diags.len(), 1);
        assert_eq!(
            diagnostic_code(&diags[0]),
            Some("schemaYaml11Boolean"),
            "action '{}' should attach schemaYaml11Boolean diagnostic",
            action.title
        );
    }
}

#[test]
fn schema_yaml11_boolean_converts_false_family_to_false() {
    let text = "flag: NO\n";
    let diag = make_diagnostic(0, 6, 8, "schemaYaml11Boolean");
    let actions = code_actions(
        &docs_for(text),
        text,
        line_range(0),
        &[diag],
        &test_uri(),
        &YamlFormatOptions::default(),
    );
    let action = actions
        .iter()
        .find(|a| a.title == "Convert to boolean")
        .unwrap();
    let edits = &action.edit.as_ref().unwrap().changes.as_ref().unwrap()[&test_uri()];
    assert_eq!(edits[0].new_text, "false");
    assert_eq!(edits[0].range.start.character, 6);
}

#[test]
fn schema_yaml11_boolean_type_convert_to_boolean_action() {
    let text = "enabled: yes\n";
    let diag = make_diagnostic(0, 9, 12, "schemaYaml11BooleanType");
    let actions = code_actions(
        &docs_for(text),
        text,
        line_range(0),
        &[diag],
        &test_uri(),
        &YamlFormatOptions::default(),
    );
    let action = actions
        .iter()
        .find(|a| a.title == "Convert to boolean")
        .unwrap();
    let edits = &action.edit.as_ref().unwrap().changes.as_ref().unwrap()[&test_uri()];
    assert_eq!(edits[0].new_text, "true");
    assert_eq!(edits[0].range.start.character, 9);
}

#[test]
fn schema_yaml11_boolean_type_converts_false_family_correctly() {
    let text = "enabled: OFF\n";
    let diag = make_diagnostic(0, 9, 12, "schemaYaml11BooleanType");
    let actions = code_actions(
        &docs_for(text),
        text,
        line_range(0),
        &[diag],
        &test_uri(),
        &YamlFormatOptions::default(),
    );
    let action = actions
        .iter()
        .find(|a| a.title == "Convert to boolean")
        .unwrap();
    let edits = &action.edit.as_ref().unwrap().changes.as_ref().unwrap()[&test_uri()];
    assert_eq!(edits[0].new_text, "false");
    assert_eq!(edits[0].range.start.character, 9);
}

#[test]
fn schema_type_generic_no_convert_to_boolean_action() {
    let text = "enabled: hello\n";
    let diag = make_diagnostic(0, 9, 14, "schemaType");
    let actions = code_actions(
        &docs_for(text),
        text,
        line_range(0),
        &[diag],
        &test_uri(),
        &YamlFormatOptions::default(),
    );
    assert!(
        actions.iter().all(|a| a.title != "Convert to boolean"),
        "generic schemaType should not offer 'Convert to boolean': {actions:?}"
    );
}

#[test]
fn should_not_offer_yaml11_octal_quote_for_out_of_bounds_range() {
    let text = "mode: 0755\n";
    let diag = make_diagnostic(0, 100, 104, "yaml11Octal");
    let actions = code_actions(
        &docs_for(text),
        text,
        line_range(0),
        &[diag],
        &test_uri(),
        &YamlFormatOptions::default(),
    );

    assert!(actions.iter().all(|a| a.title != "Quote as string"));
}

#[test]
fn yaml11_octal_actions_attach_diagnostic() {
    let text = "mode: 0755\n";
    let diag = make_diagnostic(0, 6, 10, "yaml11Octal");
    let actions = code_actions(
        &docs_for(text),
        text,
        line_range(0),
        std::slice::from_ref(&diag),
        &test_uri(),
        &YamlFormatOptions::default(),
    );

    for action in actions
        .iter()
        .filter(|a| a.title == "Quote as string" || a.title == "Convert to YAML 1.2 octal")
    {
        let attached = action.diagnostics.as_ref().unwrap();
        assert_eq!(attached.len(), 1);
        assert_eq!(
            attached[0].code,
            Some(NumberOrString::String("yaml11Octal".to_string()))
        );
    }
}

#[test]
fn yaml11_octal_on_line_other_than_zero() {
    let text = "name: foo\nmode: 0755\n";
    let diag = make_diagnostic(1, 6, 10, "yaml11Octal");
    let actions = code_actions(
        &docs_for(text),
        text,
        line_range(1),
        &[diag],
        &test_uri(),
        &YamlFormatOptions::default(),
    );

    let action = actions
        .iter()
        .find(|a| a.title == "Quote as string")
        .unwrap();
    let edits = &action.edit.as_ref().unwrap().changes.as_ref().unwrap()[&test_uri()];
    assert_eq!(edits[0].range.start.line, 1, "edit must target line 1");
    assert_eq!(
        edits[0].range.start.character, 6,
        "edit must start at scalar col"
    );
    assert_eq!(edits[0].new_text, "\"0755\"");
}

#[test]
fn yaml11_octal_diagnostic_not_triggered_by_other_codes() {
    let text = "mode: 0755\n";
    let diag = make_diagnostic(0, 0, 10, "flowSeq");
    let actions = code_actions(
        &docs_for(text),
        text,
        line_range(0),
        &[diag],
        &test_uri(),
        &YamlFormatOptions::default(),
    );

    assert!(actions.iter().all(|a| a.title != "Quote as string"));
    assert!(
        actions
            .iter()
            .all(|a| a.title != "Convert to YAML 1.2 octal")
    );
}

#[test]
fn yaml11_octal_quote_action_new_text_is_scalar_only() {
    let text = "mode: 0755\n";
    let diag = make_diagnostic(0, 6, 10, "yaml11Octal");
    let actions = code_actions(
        &docs_for(text),
        text,
        line_range(0),
        &[diag],
        &test_uri(),
        &YamlFormatOptions::default(),
    );
    let action = actions
        .iter()
        .find(|a| a.title == "Quote as string")
        .unwrap();
    let edits = &action.edit.as_ref().unwrap().changes.as_ref().unwrap()[&test_uri()];
    assert_eq!(edits[0].new_text, "\"0755\"");
    assert_eq!(edits[0].range.start.character, 6);
    assert_eq!(edits[0].range.end.character, 10);
}

#[test]
fn yaml11_octal_convert_action_new_text_is_scalar_only() {
    let text = "mode: 0755\n";
    let diag = make_diagnostic(0, 6, 10, "yaml11Octal");
    let actions = code_actions(
        &docs_for(text),
        text,
        line_range(0),
        &[diag],
        &test_uri(),
        &YamlFormatOptions::default(),
    );
    let action = actions
        .iter()
        .find(|a| a.title == "Convert to YAML 1.2 octal")
        .unwrap();
    let edits = &action.edit.as_ref().unwrap().changes.as_ref().unwrap()[&test_uri()];
    assert_eq!(edits[0].new_text, "0o755");
    assert_eq!(edits[0].range.start.character, 6);
    assert_eq!(edits[0].range.end.character, 10);
}

#[test]
fn yaml11_octal_quote_on_0777_produces_valid_double_quoted_yaml() {
    let text = "perms: 0777\n";
    let diag = make_diagnostic(0, 7, 11, "yaml11Octal");
    let actions = code_actions(
        &docs_for(text),
        text,
        line_range(0),
        &[diag],
        &test_uri(),
        &YamlFormatOptions::default(),
    );
    let action = actions
        .iter()
        .find(|a| a.title == "Quote as string")
        .unwrap();
    let edits = &action.edit.as_ref().unwrap().changes.as_ref().unwrap()[&test_uri()];
    assert_eq!(edits[0].new_text, "\"0777\"");
    let start = edits[0].range.start.character as usize;
    let end = edits[0].range.end.character as usize;
    let line = "perms: 0777";
    let result = format!("{}{}{}\n", &line[..start], edits[0].new_text, &line[end..]);
    let parse_result = parse_yaml(&result);
    assert!(
        parse_result.diagnostics.is_empty(),
        "quoted octal must produce valid YAML; got: {:?}\nresult: {result:?}",
        parse_result.diagnostics
    );
}

#[test]
fn yaml11_octal_convert_on_0755_produces_0o755() {
    let text = "mode: 0755\n";
    let diag = make_diagnostic(0, 6, 10, "yaml11Octal");
    let actions = code_actions(
        &docs_for(text),
        text,
        line_range(0),
        &[diag],
        &test_uri(),
        &YamlFormatOptions::default(),
    );
    let action = actions
        .iter()
        .find(|a| a.title == "Convert to YAML 1.2 octal")
        .unwrap();
    let edits = &action.edit.as_ref().unwrap().changes.as_ref().unwrap()[&test_uri()];
    assert_eq!(edits[0].new_text, "0o755");
}

#[test]
fn yaml11_octal_convert_on_0777_produces_0o777() {
    let text = "perms: 0777\n";
    let diag = make_diagnostic(0, 7, 11, "yaml11Octal");
    let actions = code_actions(
        &docs_for(text),
        text,
        line_range(0),
        &[diag],
        &test_uri(),
        &YamlFormatOptions::default(),
    );
    let action = actions
        .iter()
        .find(|a| a.title == "Convert to YAML 1.2 octal")
        .unwrap();
    let edits = &action.edit.as_ref().unwrap().changes.as_ref().unwrap()[&test_uri()];
    assert_eq!(edits[0].new_text, "0o777");
}

#[test]
fn yaml11_octal_rejects_08_no_actions() {
    let text = "val: 08\n";
    let diag = make_diagnostic(0, 5, 7, "yaml11Octal");
    let actions = code_actions(
        &docs_for(text),
        text,
        line_range(0),
        &[diag],
        &test_uri(),
        &YamlFormatOptions::default(),
    );
    assert!(actions.iter().all(|a| a.title != "Quote as string"));
    assert!(
        actions
            .iter()
            .all(|a| a.title != "Convert to YAML 1.2 octal")
    );
}

#[test]
fn yaml11_octal_rejects_09_no_actions() {
    let text = "val: 09\n";
    let diag = make_diagnostic(0, 5, 7, "yaml11Octal");
    let actions = code_actions(
        &docs_for(text),
        text,
        line_range(0),
        &[diag],
        &test_uri(),
        &YamlFormatOptions::default(),
    );
    assert!(actions.iter().all(|a| a.title != "Quote as string"));
    assert!(
        actions
            .iter()
            .all(|a| a.title != "Convert to YAML 1.2 octal")
    );
}

#[test]
fn yaml11_octal_trailing_comment_preserved_quote_action() {
    let text = "mode: 0755  # keep this\n";
    let diag = make_diagnostic(0, 6, 10, "yaml11Octal");
    let actions = code_actions(
        &docs_for(text),
        text,
        line_range(0),
        &[diag],
        &test_uri(),
        &YamlFormatOptions::default(),
    );
    let action = actions
        .iter()
        .find(|a| a.title == "Quote as string")
        .unwrap();
    let edits = &action.edit.as_ref().unwrap().changes.as_ref().unwrap()[&test_uri()];
    assert_eq!(edits[0].new_text, "\"0755\"");
    assert!(
        edits[0].range.end.character <= 10,
        "range must not reach into comment"
    );
    let start = edits[0].range.start.character as usize;
    let end = edits[0].range.end.character as usize;
    let line = "mode: 0755  # keep this";
    let result = format!("{}{}{}", &line[..start], edits[0].new_text, &line[end..]);
    assert!(
        result.contains("# keep this"),
        "trailing comment must survive in: {result:?}"
    );
}

#[test]
fn yaml11_octal_trailing_comment_preserved_convert_action() {
    let text = "mode: 0755  # keep this\n";
    let diag = make_diagnostic(0, 6, 10, "yaml11Octal");
    let actions = code_actions(
        &docs_for(text),
        text,
        line_range(0),
        &[diag],
        &test_uri(),
        &YamlFormatOptions::default(),
    );
    let action = actions
        .iter()
        .find(|a| a.title == "Convert to YAML 1.2 octal")
        .unwrap();
    let edits = &action.edit.as_ref().unwrap().changes.as_ref().unwrap()[&test_uri()];
    assert_eq!(edits[0].new_text, "0o755");
    assert!(
        edits[0].range.end.character <= 10,
        "range must not reach into comment"
    );
    let start = edits[0].range.start.character as usize;
    let end = edits[0].range.end.character as usize;
    let line = "mode: 0755  # keep this";
    let result = format!("{}{}{}", &line[..start], edits[0].new_text, &line[end..]);
    assert!(
        result.contains("# keep this"),
        "trailing comment must survive in: {result:?}"
    );
}

#[test]
fn yaml11_octal_sequence_item_edit_starts_at_scalar_col() {
    let text = "modes:\n  - 0755\n";
    // `0755` starts at col 4 in line 1: "  - 0755"
    let diag = make_diagnostic(1, 4, 8, "yaml11Octal");
    let actions = code_actions(
        &docs_for(text),
        text,
        line_range(1),
        &[diag],
        &test_uri(),
        &YamlFormatOptions::default(),
    );
    let action = actions
        .iter()
        .find(|a| a.title == "Quote as string")
        .unwrap();
    let edits = &action.edit.as_ref().unwrap().changes.as_ref().unwrap()[&test_uri()];
    assert!(
        edits[0].range.start.character > 0,
        "sequence item edit must not start at col 0"
    );
    assert_eq!(edits[0].new_text, "\"0755\"");
}

#[test]
fn yaml11_octal_multi_octal_per_line_schema_code_offers_no_action() {
    let text = "{a: 0755, b: 0644}\n";
    // schemaYaml11Octal uses line-only matching; two octals on the same line must suppress both
    let diag = make_diagnostic(0, 4, 8, "schemaYaml11Octal");
    let actions = code_actions(
        &docs_for(text),
        text,
        line_range(0),
        &[diag],
        &test_uri(),
        &YamlFormatOptions::default(),
    );
    assert!(actions.iter().all(|a| a.title != "Quote as string"));
    assert!(
        actions
            .iter()
            .all(|a| a.title != "Convert to YAML 1.2 octal")
    );
}

#[test]
fn yaml11_octal_multi_octal_per_line_direct_code_resolves_by_col() {
    let text = "{a: 0755, b: 0644}\n";
    let first_diag = make_diagnostic(0, 4, 8, "yaml11Octal");
    let second_diag = make_diagnostic(0, 13, 17, "yaml11Octal");

    let first_actions = code_actions(
        &docs_for(text),
        text,
        line_range(0),
        &[first_diag],
        &test_uri(),
        &YamlFormatOptions::default(),
    );
    let first_action = first_actions
        .iter()
        .find(|a| a.title == "Quote as string")
        .unwrap();
    let first_edits = &first_action
        .edit
        .as_ref()
        .unwrap()
        .changes
        .as_ref()
        .unwrap()[&test_uri()];
    assert_eq!(first_edits[0].new_text, "\"0755\"");
    assert_eq!(first_edits[0].range.start.character, 4);

    let second_actions = code_actions(
        &docs_for(text),
        text,
        line_range(0),
        &[second_diag],
        &test_uri(),
        &YamlFormatOptions::default(),
    );
    let second_action = second_actions
        .iter()
        .find(|a| a.title == "Quote as string")
        .unwrap();
    let second_edits = &second_action
        .edit
        .as_ref()
        .unwrap()
        .changes
        .as_ref()
        .unwrap()[&test_uri()];
    assert_eq!(second_edits[0].new_text, "\"0644\"");
    assert_eq!(second_edits[0].range.start.character, 13);
}

#[test]
fn schema_yaml11_octal_actions_attach_diagnostic() {
    let text = "mode: 0755\n";
    let diag = make_diagnostic(0, 6, 10, "schemaYaml11Octal");
    let actions = code_actions(
        &docs_for(text),
        text,
        line_range(0),
        std::slice::from_ref(&diag),
        &test_uri(),
        &YamlFormatOptions::default(),
    );
    for action in actions
        .iter()
        .filter(|a| a.title == "Quote as string" || a.title == "Convert to YAML 1.2 octal")
    {
        let diags = action.diagnostics.as_ref().unwrap();
        assert_eq!(diags.len(), 1);
        assert_eq!(
            diagnostic_code(&diags[0]),
            Some("schemaYaml11Octal"),
            "action '{}' should attach schemaYaml11Octal diagnostic",
            action.title
        );
    }
}

#[test]
fn delete_anchor_plain_scalar_value() {
    let text = "defaults: &unused value\n";
    let diag = make_diagnostic(0, 10, 17, "unusedAnchor");
    let actions = code_actions(&docs_for(text), text, line_range(0), &[diag], &test_uri(), &YamlFormatOptions::default());

    let action = actions
        .iter()
        .find(|a| a.title.contains("unused anchor"))
        .unwrap();
    let edits = &action.edit.as_ref().unwrap().changes.as_ref().unwrap()[&test_uri()];
    assert_eq!(edits[0].new_text, "value");
    assert!(!edits[0].new_text.contains("&unused"));
    assert_eq!(edits[0].range.start.character, 10);
}

#[test]
fn delete_anchor_sole_value_empty_scalar() {
    let text = "data: &unused\n";
    let diag = make_diagnostic(0, 6, 13, "unusedAnchor");
    let actions = code_actions(&docs_for(text), text, line_range(0), &[diag], &test_uri(), &YamlFormatOptions::default());

    let action = actions
        .iter()
        .find(|a| a.title.contains("unused anchor"))
        .unwrap();
    let edits = &action.edit.as_ref().unwrap().changes.as_ref().unwrap()[&test_uri()];
    assert!(!edits[0].new_text.contains("&unused"));
}

#[test]
fn delete_anchor_quoted_scalar() {
    let text = "key: &a \"hello\"\n";
    let diag = make_diagnostic(0, 5, 7, "unusedAnchor");
    let actions = code_actions(&docs_for(text), text, line_range(0), &[diag], &test_uri(), &YamlFormatOptions::default());

    let action = actions
        .iter()
        .find(|a| a.title.contains("unused anchor"))
        .unwrap();
    let edits = &action.edit.as_ref().unwrap().changes.as_ref().unwrap()[&test_uri()];
    assert!(!edits[0].new_text.contains("&a"));
    assert!(edits[0].new_text.contains("hello"));
}

#[test]
fn delete_anchor_user_tag_preserved() {
    let text = "key: &a !custom \"hello\"\n";
    let diag = make_diagnostic(0, 5, 7, "unusedAnchor");
    let actions = code_actions(&docs_for(text), text, line_range(0), &[diag], &test_uri(), &YamlFormatOptions::default());

    let action = actions
        .iter()
        .find(|a| a.title.contains("unused anchor"))
        .unwrap();
    let edits = &action.edit.as_ref().unwrap().changes.as_ref().unwrap()[&test_uri()];
    assert!(!edits[0].new_text.contains("&a"));
    assert!(
        edits[0].new_text.contains("!custom"),
        "user tag must be preserved: {:?}",
        edits[0].new_text
    );
    assert!(edits[0].new_text.contains("hello"));
}

#[test]
fn delete_anchor_flow_sequence() {
    let text = "list: &nums [1, 2, 3]\n";
    let diag = make_diagnostic(0, 6, 11, "unusedAnchor");
    let actions = code_actions(&docs_for(text), text, line_range(0), &[diag], &test_uri(), &YamlFormatOptions::default());

    let action = actions
        .iter()
        .find(|a| a.title.contains("unused anchor"))
        .unwrap();
    let edits = &action.edit.as_ref().unwrap().changes.as_ref().unwrap()[&test_uri()];
    assert!(!edits[0].new_text.contains("&nums"));
    assert!(
        edits[0].new_text.contains('['),
        "flow sequence bracket must be preserved: {:?}",
        edits[0].new_text
    );
    assert!(edits[0].new_text.contains('1'));
}

#[test]
fn delete_anchor_block_mapping_value() {
    let text = "base: &defaults\n  x: 1\n  y: 2\n";
    let diag = make_diagnostic(0, 6, 15, "unusedAnchor");
    let actions = code_actions(&docs_for(text), text, line_range(0), &[diag], &test_uri(), &YamlFormatOptions::default());

    let action = actions
        .iter()
        .find(|a| a.title.contains("unused anchor"))
        .unwrap();
    let edits = &action.edit.as_ref().unwrap().changes.as_ref().unwrap()[&test_uri()];
    assert!(
        !edits[0].new_text.contains("&defaults"),
        "anchor must be removed: {:?}",
        edits[0].new_text
    );
    assert!(
        edits[0].new_text.contains("x: 1"),
        "x entry must be preserved: {:?}",
        edits[0].new_text
    );
    assert!(
        edits[0].new_text.contains("y: 2"),
        "y entry must be preserved: {:?}",
        edits[0].new_text
    );
}

#[test]
fn delete_anchor_trailing_comment_preserved() {
    let text = "key: &a value  # keep me\n";
    let diag = make_diagnostic(0, 5, 7, "unusedAnchor");
    let actions = code_actions(&docs_for(text), text, line_range(0), &[diag], &test_uri(), &YamlFormatOptions::default());
    let action = actions
        .iter()
        .find(|a| a.title.contains("unused anchor"))
        .unwrap();
    let edits = &action.edit.as_ref().unwrap().changes.as_ref().unwrap()[&test_uri()];
    assert!(
        edits[0].range.end.character as usize <= "key: &a value".len(),
        "edit end must not reach into trailing comment: {:?}",
        edits[0].range
    );
    assert!(
        !edits[0].new_text.contains('#'),
        "new_text must not contain the trailing comment: {:?}",
        edits[0].new_text
    );
    let mut result = text.to_string();
    let start = "key: ".len();
    let end = "key: &a value".len();
    result.replace_range(start..end, &edits[0].new_text);
    assert!(
        result.contains("# keep me"),
        "trailing comment must survive: {result:?}"
    );
}

#[test]
fn delete_anchor_stale_diagnostic_returns_no_action() {
    let text = "data: value\n";
    let diag = make_diagnostic(0, 6, 13, "unusedAnchor");
    let actions = code_actions(&docs_for(text), text, line_range(0), &[diag], &test_uri(), &YamlFormatOptions::default());
    assert!(
        actions.iter().all(|a| !a.title.contains("unused anchor")),
        "stale diagnostic must not produce an action"
    );
}

fn actions_for(yaml: &str) -> Vec<CodeAction> {
    let docs = parse_docs(yaml);
    string_to_block_scalar(&docs, yaml, 0, &test_uri(), &YamlFormatOptions::default())
}

fn apply_folded_edit(yaml: &str) -> (String, TextEdit) {

    let docs = parse_docs(yaml);
    let cursor = Range::new(Position::new(0, 0), Position::new(0, 0));
    let all_actions = code_actions(
        &docs,
        yaml,
        cursor,
        &[],
        &test_uri(),
        &YamlFormatOptions::default(),
    );
    let action = all_actions
        .iter()
        .find(|a| a.title.contains("folded"))
        .expect("expected folded action");
    let edits = &action.edit.as_ref().unwrap().changes.as_ref().unwrap()[&test_uri()];
    let edit = edits[0].clone();
    let source_lines: Vec<&str> = yaml.lines().collect();
    let line_idx = edit.range.start.line as usize;
    let start_col = edit.range.start.character as usize;
    let end_col = edit.range.end.character as usize;
    let src_line = source_lines[line_idx];
    let new_line = format!(
        "{}{}{}",
        &src_line[..start_col],
        edit.new_text,
        &src_line[end_col..]
    );
    let mut result = String::new();
    for (i, l) in source_lines.iter().enumerate() {
        if i == line_idx {
            result.push_str(&new_line);
        } else {
            result.push_str(l);
        }
        result.push('\n');
    }
    (result, edit)
}

#[test]
fn returns_two_actions_for_qualifying_scalar() {
    let text = "key: \"aaaaaaaaaaaaaaaaaaaaaaaaaaaaaaaaaaaaaaaaaaaaaaaaaa\"\n";
    let actions = actions_for(text);
    assert_eq!(
        actions.len(),
        2,
        "expected two actions for qualifying scalar: {actions:?}"
    );
}

#[test]
fn first_action_title_is_literal() {
    let text = "key: \"aaaaaaaaaaaaaaaaaaaaaaaaaaaaaaaaaaaaaaaaaaaaaaaaaa\"\n";
    let actions = actions_for(text);
    assert_eq!(
        actions[0].title, "Convert to block scalar (literal)",
        "first action must be literal"
    );
}

#[test]
fn second_action_title_is_folded() {
    let text = "key: \"aaaaaaaaaaaaaaaaaaaaaaaaaaaaaaaaaaaaaaaaaaaaaaaaaa\"\n";
    let actions = actions_for(text);
    assert_eq!(
        actions[1].title, "Convert to block scalar (folded)",
        "second action must be folded"
    );
}

#[test]
fn literal_action_new_text_starts_with_pipe() {
    let text = "key: \"aaaaaaaaaaaaaaaaaaaaaaaaaaaaaaaaaaaaaaaaaaaaaaaaaa\"\n";
    let actions = actions_for(text);
    let new_text = actions[0].edit.as_ref().unwrap().changes.as_ref().unwrap()[&test_uri()][0]
        .new_text
        .clone();
    assert!(
        new_text.starts_with('|'),
        "literal action new_text must start with '|': {new_text:?}"
    );
}

#[test]
fn folded_action_new_text_starts_with_gt() {
    let text = "key: \"aaaaaaaaaaaaaaaaaaaaaaaaaaaaaaaaaaaaaaaaaaaaaaaaaa\"\n";
    let actions = actions_for(text);
    let new_text = actions[1].edit.as_ref().unwrap().changes.as_ref().unwrap()[&test_uri()][0]
        .new_text
        .clone();
    assert!(
        new_text.starts_with('>'),
        "folded action new_text must start with '>': {new_text:?}"
    );
}

#[test]
fn should_preserve_trailing_comment_when_converting_to_block_scalar() {
    let text = "description: \"this is a long string that exceeds forty chars\"  # keep me\n";
    let (result, edit) = apply_block_scalar_edit(text, 0);
    let scalar_end_col =
        "description: \"this is a long string that exceeds forty chars\"".len();
    assert_eq!(
        edit.range.end.character as usize, scalar_end_col,
        "edit end column must equal the exclusive end of the scalar span: range={:?}",
        edit.range
    );
    assert!(
        !edit.new_text.contains("# keep me"),
        "new_text must not contain the trailing comment: {:?}",
        edit.new_text
    );
    assert!(
        result.contains("# keep me"),
        "trailing comment must survive in the final edited text: {result:?}"
    );
    // folded sibling must also exist
    let actions = actions_for(text);
    assert!(
        actions.iter().any(|a| a.title.contains("folded")),
        "folded action must also be present: {actions:?}"
    );
}

#[test]
fn new_text_does_not_duplicate_anchor() {
    let text = "description: &myanchor \"this is a long string that exceeds forty chars\"\n";
    let (result, edit) = apply_block_scalar_edit(text, 0);
    assert_eq!(
        count(&edit.new_text, "&myanchor"),
        0,
        "new_text must not contain the anchor (source buffer preserves it): {:?}",
        edit.new_text
    );
    assert_eq!(
        count(&result, "&myanchor"),
        1,
        "final document must contain the anchor exactly once: {result:?}"
    );
    let actions = actions_for(text);
    assert!(
        actions.iter().any(|a| a.title.contains("folded")),
        "folded action must also be present: {actions:?}"
    );
}

#[test]
fn new_text_does_not_duplicate_user_tag() {
    let text = "description: !mytag \"this is a long string that exceeds forty chars\"\n";
    let (result, edit) = apply_block_scalar_edit(text, 0);
    assert_eq!(
        count(&edit.new_text, "!mytag"),
        0,
        "new_text must not contain the user tag (source buffer preserves it): {:?}",
        edit.new_text
    );
    assert_eq!(
        count(&result, "!mytag"),
        1,
        "final document must contain the user tag exactly once: {result:?}"
    );
    let actions = actions_for(text);
    assert!(
        actions.iter().any(|a| a.title.contains("folded")),
        "folded action must also be present: {actions:?}"
    );
}

#[test]
fn new_text_does_not_duplicate_anchor_or_tag_when_both_present() {
    let text = "description: &a !mytag \"this is a long string that exceeds forty chars\"\n";
    let (result, edit) = apply_block_scalar_edit(text, 0);
    assert_eq!(
        count(&edit.new_text, "&a"),
        0,
        "new_text must not contain the anchor (source buffer preserves it): {:?}",
        edit.new_text
    );
    assert_eq!(
        count(&edit.new_text, "!mytag"),
        0,
        "new_text must not contain the user tag (source buffer preserves it): {:?}",
        edit.new_text
    );
    assert_eq!(
        count(&result, "&a"),
        1,
        "final document must contain the anchor exactly once: {result:?}"
    );
    assert_eq!(
        count(&result, "!mytag"),
        1,
        "final document must contain the user tag exactly once: {result:?}"
    );
    let actions = actions_for(text);
    assert!(
        actions.iter().any(|a| a.title.contains("folded")),
        "folded action must also be present: {actions:?}"
    );
}

#[test]
fn folded_action_does_not_duplicate_anchor() {
    let text = "description: &myanchor \"this is a long string that exceeds forty chars\"\n";
    let (result, edit) = apply_folded_edit(text);
    assert_eq!(
        count(&edit.new_text, "&myanchor"),
        0,
        "folded new_text must not contain the anchor (source buffer preserves it): {:?}",
        edit.new_text
    );
    assert_eq!(
        count(&result, "&myanchor"),
        1,
        "final document must contain the anchor exactly once: {result:?}"
    );
}

#[test]
fn folded_action_does_not_duplicate_user_tag() {
    let text = "description: !mytag \"this is a long string that exceeds forty chars\"\n";
    let (result, edit) = apply_folded_edit(text);
    assert_eq!(
        count(&edit.new_text, "!mytag"),
        0,
        "folded new_text must not contain the user tag (source buffer preserves it): {:?}",
        edit.new_text
    );
    assert_eq!(
        count(&result, "!mytag"),
        1,
        "final document must contain the user tag exactly once: {result:?}"
    );
}

#[test]
fn folded_action_edit_range_end_column_is_exact() {
    let text = "description: \"this is a long string that exceeds forty chars\"  # keep me\n";
    let (_, edit) = apply_folded_edit(text);
    let scalar_end_col =
        "description: \"this is a long string that exceeds forty chars\"".len();
    assert_eq!(
        edit.range.end.character as usize, scalar_end_col,
        "folded edit end column must equal the exclusive end of the scalar span: range={:?}",
        edit.range
    );
}

#[test]
fn returns_empty_vec_for_short_scalar() {
    let text = "key: \"short\"\n";
    let actions = actions_for(text);
    assert!(
        actions.is_empty(),
        "expected empty Vec for short scalar, got: {actions:?}"
    );
}

#[test]
fn returns_empty_vec_for_already_literal_scalar() {
    let text = "key: |\n  aaaaaaaaaaaaaaaaaaaaaaaaaaaaaaaaaaaaaaaaaaaaaaaaaa\n";
    let actions = actions_for(text);
    assert!(
        actions.is_empty(),
        "expected empty Vec for already-literal scalar, got: {actions:?}"
    );
}

#[test]
fn should_produce_reparseable_yaml_when_long_sequence_wraps() {
    let text = "items:\n  - long_item_aaa\n  - long_item_bbb\n  - long_item_ccc\n  - long_item_ddd\n  - long_item_eee\n  - long_item_fff\n";
    let result = apply_block_to_flow_edit(text, 0);
    let parse_result = parse_yaml(&result);
    assert!(
        parse_result.diagnostics.is_empty(),
        "edited YAML must reparse without diagnostics; got: {:?}\nresult text:\n{result}",
        parse_result.diagnostics
    );
    assert_eq!(
        parse_result.documents.len(),
        1,
        "edited YAML must produce exactly one document; result text:\n{result}"
    );
}

#[test]
fn should_produce_reparseable_yaml_when_long_nested_mapping_wraps() {
    let text = "outer:\n  inner:\n    key_aaa: val_aaa\n    key_bbb: val_bbb\n    key_ccc: val_ccc\n    key_ddd: val_ddd\n    key_eee: val_eee\n";
    let result = apply_block_to_flow_edit(text, 1);
    let parse_result = parse_yaml(&result);
    assert!(
        parse_result.diagnostics.is_empty(),
        "edited YAML must reparse without diagnostics; got: {:?}\nresult text:\n{result}",
        parse_result.diagnostics
    );
    assert_eq!(
        parse_result.documents.len(),
        1,
        "edited YAML must produce exactly one document; result text:\n{result}"
    );
}

#[test]
fn should_produce_reparseable_yaml_when_nested_mapping_converts() {
    let text = "outer:\n  inner:\n    a: 1\n    b: 2\n";
    let result = apply_block_to_flow_edit(text, 0);
    let parse_result = parse_yaml(&result);
    assert!(
        parse_result.diagnostics.is_empty(),
        "edited YAML must reparse without diagnostics; got: {:?}\nresult text:\n{result}",
        parse_result.diagnostics
    );
    assert_eq!(
        parse_result.documents.len(),
        1,
        "edited YAML must produce exactly one document; result text:\n{result}"
    );
}

#[test]
fn should_produce_reparseable_yaml_when_nested_sequence_converts() {
    let text = "items:\n  - - a\n    - b\n  - - c\n    - d\n";
    let result = apply_block_to_flow_edit(text, 0);
    let parse_result = parse_yaml(&result);
    assert!(
        parse_result.diagnostics.is_empty(),
        "edited YAML must reparse without diagnostics; got: {:?}\nresult text:\n{result}",
        parse_result.diagnostics
    );
    assert_eq!(
        parse_result.documents.len(),
        1,
        "edited YAML must produce exactly one document; result text:\n{result}"
    );
}

#[test]
fn should_indent_block_items_under_key_when_nested() {
    let text = "      command: [\"python\", \"-m\"]\n";
    let actions = code_actions(
        &docs_for(text),
        text,
        line_range(0),
        &flow_diags_for(text),
        &test_uri(),
    &YamlFormatOptions::default());

    let action = actions
        .iter()
        .find(|a| a.title.contains("flow sequence"))
        .unwrap();
    let edits = &action.edit.as_ref().unwrap().changes.as_ref().unwrap()[&test_uri()];
    let new_text = &edits[0].new_text;
    assert!(
        new_text.contains("python"),
        "python must be present: {new_text:?}"
    );
    assert!(
        new_text.contains("\"-m\"") || new_text.contains("'-m'") || new_text.contains("- -m"),
        "second item must be present: {new_text:?}"
    );
    assert!(
        edits[0].range.start.character > 0,
        "edit must not start at col 0 (key is preserved by caller): {:?}",
        edits[0].range
    );
}

#[test]
fn should_indent_block_items_at_top_level_key() {
    let text = "items: [one, two]\n";
    let actions = code_actions(
        &docs_for(text),
        text,
        line_range(0),
        &flow_diags_for(text),
        &test_uri(),
    &YamlFormatOptions::default());

    let action = actions
        .iter()
        .find(|a| a.title.contains("flow sequence"))
        .unwrap();
    let edits = &action.edit.as_ref().unwrap().changes.as_ref().unwrap()[&test_uri()];
    let new_text = &edits[0].new_text;
    assert!(
        new_text.contains("- one"),
        "one must be present: {new_text:?}"
    );
    assert!(
        new_text.contains("- two"),
        "two must be present: {new_text:?}"
    );
    assert!(
        edits[0].range.start.character > 0,
        "edit must not start at col 0 (key is preserved by caller): {:?}",
        edits[0].range
    );
}

#[test]
fn should_indent_block_items_under_key_at_indent_2() {
    let text = "  command: [\"a\", \"b\"]\n";
    let actions = code_actions(
        &docs_for(text),
        text,
        line_range(0),
        &flow_diags_for(text),
        &test_uri(),
    &YamlFormatOptions::default());

    let action = actions
        .iter()
        .find(|a| a.title.contains("flow sequence"))
        .unwrap();
    let edits = &action.edit.as_ref().unwrap().changes.as_ref().unwrap()[&test_uri()];
    let new_text = &edits[0].new_text;
    assert!(
        new_text.contains("- a") || new_text.contains("- \"a\""),
        "a must be present: {new_text:?}"
    );
    assert!(
        new_text.contains("- b") || new_text.contains("- \"b\""),
        "b must be present: {new_text:?}"
    );
    assert!(
        edits[0].range.start.character > 0,
        "edit must not start at col 0 (key is preserved by caller): {:?}",
        edits[0].range
    );
}

#[test]
fn should_not_produce_actions_for_non_overlapping_diagnostics() {
    let text = "config: {a: 1}\nother: value\n";
    let diag = make_diagnostic(0, 8, 14, "flowMap");
    let actions = code_actions(
        &docs_for(text),
        text,
        cursor_range(1, 0),
        &[diag],
        &test_uri(),
    &YamlFormatOptions::default());

    assert!(actions.iter().all(|a| !a.title.contains("flow mapping")));
}

#[test]
fn should_return_empty_for_plain_yaml_no_diagnostics() {
    let text = "key: value\n";
    let actions = code_actions(&docs_for(text), text, cursor_range(0, 0), &[], &test_uri(), &YamlFormatOptions::default());

    assert!(actions.is_empty());
}

#[test]
fn should_preserve_double_quoted_item_when_converting_block_seq_to_flow() {
    let text = "items:\n  - \"true\"\n  - \"false\"\n";
    let actions = code_actions(&docs_for(text), text, cursor_range(0, 0), &[], &test_uri(), &YamlFormatOptions::default());

    let action = actions
        .iter()
        .find(|a| a.title.contains("block to flow"))
        .unwrap();
    let edit = action.edit.as_ref().unwrap();
    let changes = edit.changes.as_ref().unwrap();
    let edits = &changes[&test_uri()];
    assert!(
        edits[0].new_text.contains("[\"true\", \"false\"]"),
        "pre-quoted items must not be double-quoted: {:?}",
        edits[0].new_text
    );
}

#[test]
fn should_preserve_single_quoted_item_when_converting_block_seq_to_flow() {
    let text = "items:\n  - 'hello'\n  - 'world'\n";
    let actions = code_actions(&docs_for(text), text, cursor_range(0, 0), &[], &test_uri(), &YamlFormatOptions::default());

    let action = actions
        .iter()
        .find(|a| a.title.contains("block to flow"))
        .unwrap();
    let edit = action.edit.as_ref().unwrap();
    let changes = edit.changes.as_ref().unwrap();
    let edits = &changes[&test_uri()];
    assert!(
        edits[0].new_text.contains("hello") && edits[0].new_text.contains("world"),
        "single-quoted items must appear in flow output: {:?}",
        edits[0].new_text
    );
    assert!(
        !edits[0].new_text.contains("\"hello\"") && !edits[0].new_text.contains("\"world\""),
        "safe items must not be double-quoted: {:?}",
        edits[0].new_text
    );
}

#[test]
fn should_quote_unsafe_item_alongside_pre_quoted_item() {
    let text = "args:\n  - \"true\"\n  - value, with comma\n";
    let actions = code_actions(&docs_for(text), text, cursor_range(0, 0), &[], &test_uri(), &YamlFormatOptions::default());

    let action = actions
        .iter()
        .find(|a| a.title.contains("block to flow"))
        .unwrap();
    let edit = action.edit.as_ref().unwrap();
    let changes = edit.changes.as_ref().unwrap();
    let edits = &changes[&test_uri()];
    assert!(
        edits[0]
            .new_text
            .contains("[\"true\", \"value, with comma\"]"),
        "pre-quoted item preserved and unsafe item quoted: {:?}",
        edits[0].new_text
    );
}

#[test]
fn should_not_quote_plain_item_alongside_pre_quoted_item() {
    let text = "args:\n  - \"true\"\n  - plain\n";
    let actions = code_actions(&docs_for(text), text, cursor_range(0, 0), &[], &test_uri(), &YamlFormatOptions::default());

    let action = actions
        .iter()
        .find(|a| a.title.contains("block to flow"))
        .unwrap();
    let edit = action.edit.as_ref().unwrap();
    let changes = edit.changes.as_ref().unwrap();
    let edits = &changes[&test_uri()];
    assert!(
        edits[0].new_text.contains("[\"true\", plain]"),
        "pre-quoted item preserved and plain item unquoted: {:?}",
        edits[0].new_text
    );
}

#[test]
fn flow_seq_empty_no_destructive_action() {
    let text = "list: []\n";
    let docs = docs_for(text);
    let diags = flow_diags_for(text);
    let whole = Range::new(Position::new(0, 0), Position::new(999, 0));
    let actions = code_actions(&docs, text, whole, &diags, &test_uri(), &YamlFormatOptions::default());
    let has_seq_action = actions.iter().any(|a| a.title.contains("flow sequence"));
    if has_seq_action {
        let action = actions
            .iter()
            .find(|a| a.title.contains("flow sequence"))
            .unwrap();
        let new_text = new_text_for(action);
        assert!(
            !new_text.is_empty(),
            "action for empty seq must produce non-empty text"
        );
    }
}

#[test]
fn sig_accepts_empty_docs() {
    let actions = code_actions(&[], "key: value\n", cursor_range(0, 0), &[], &test_uri(), &YamlFormatOptions::default());
    assert!(actions.iter().all(|a| !a.title.contains("flow")));
}

#[test]
fn sig_parsed_docs_with_flow_map_returns_action() {
    let text = "- {k: v}\n";
    let docs = docs_for(text);
    let diags = flow_diags_for(text);
    let whole = Range::new(Position::new(0, 0), Position::new(999, 0));
    let actions = code_actions(&docs, text, whole, &diags, &test_uri(), &YamlFormatOptions::default());
    assert!(
        actions.iter().any(|a| a.title.contains("flow mapping")),
        "should return flow map action: {actions:?}"
    );
}

#[test]
fn sig_tab_action_still_works_with_docs() {
    let text = "\tkey: value\n";
    let docs = docs_for(text);
    let actions = code_actions(&docs, text, cursor_range(0, 0), &[], &test_uri(), &YamlFormatOptions::default());
    assert!(
        actions.iter().any(|a| a.title.contains("tabs to spaces")),
        "tab action should still be offered: {actions:?}"
    );
}

#[test]
fn int_sequence_item_flow_map_preserves_all_scalars() {

    let text = "- {target: linux, os: ubuntu}\n";
    let docs = docs_for(text);
    let pre_scalars: Vec<String> = {
        let mut out = Vec::new();
        fn collect(node: &Node, out: &mut Vec<String>) {
            match node {
                Node::Scalar { value, .. } => out.push(value.clone()),
                Node::Mapping { entries, .. } => {
                    for (k, v) in entries {
                        collect(k, out);
                        collect(v, out);
                    }
                }
                Node::Sequence { items, .. } => {
                    for item in items {
                        collect(item, out);
                    }
                }
                Node::Alias { .. } => {}
            }
        }
        for doc in &docs {
            collect(&doc.root, &mut out);
        }
        out
    };

    let diags = flow_diags_for(text);
    let whole = Range::new(Position::new(0, 0), Position::new(999, 0));
    let actions = code_actions(&docs, text, whole, &diags, &test_uri(), &YamlFormatOptions::default());

    for action in &actions {
        if action.kind.as_ref() != Some(&CodeActionKind::REFACTOR_REWRITE) {
            continue;
        }
        let Some(edits) = action
            .edit
            .as_ref()
            .and_then(|e| e.changes.as_ref())
            .and_then(|c| c.get(&test_uri()))
        else {
            continue;
        };
        if edits.is_empty() {
            continue;
        }

        let edit = &edits[0];
        let lines: Vec<&str> = text.lines().collect();
        let start_line = edit.range.start.line as usize;
        let end_line = edit.range.end.line as usize;
        let start_char = edit.range.start.character as usize;
        let end_char = edit.range.end.character as usize;

        let mut result = String::new();
        for (i, line) in lines.iter().enumerate() {
            if i < start_line || i > end_line {
                result.push_str(line);
                result.push('\n');
            } else if i == start_line && i == end_line {
                result.push_str(&line[..start_char]);
                result.push_str(&edit.new_text);
                result.push_str(&line[end_char..]);
                result.push('\n');
            } else if i == start_line {
                result.push_str(&line[..start_char]);
                result.push_str(&edit.new_text);
            } else if i == end_line {
                result.push_str(&line[end_char..]);
                result.push('\n');
            }
        }

        let post_docs = docs_for(&result);
        let mut post_scalars = Vec::new();
        fn collect2(node: &Node, out: &mut Vec<String>) {
            match node {
                Node::Scalar { value, .. } => out.push(value.clone()),
                Node::Mapping { entries, .. } => {
                    for (k, v) in entries {
                        collect2(k, out);
                        collect2(v, out);
                    }
                }
                Node::Sequence { items, .. } => {
                    for item in items {
                        collect2(item, out);
                    }
                }
                Node::Alias { .. } => {}
            }
        }
        for doc in &post_docs {
            collect2(&doc.root, &mut post_scalars);
        }

        for scalar in &pre_scalars {
            assert!(
                post_scalars.contains(scalar),
                "scalar {scalar:?} was lost after applying action {:?}\npre: {pre_scalars:?}\npost: {post_scalars:?}\nresult: {result:?}",
                action.title
            );
        }
    }
}

#[test]
fn int_github_token_expression_preserved() {
    let text = "env:\n  - {GITHUB_TOKEN: \"${{ secrets.GITHUB_TOKEN }}\"}\n";
    let docs = docs_for(text);
    let diags = flow_diags_for(text);
    let whole = Range::new(Position::new(0, 0), Position::new(999, 0));
    let actions = code_actions(&docs, text, whole, &diags, &test_uri(), &YamlFormatOptions::default());

    for action in &actions {
        if action.kind.as_ref() != Some(&CodeActionKind::REFACTOR_REWRITE) {
            continue;
        }
        let Some(edits) = action
            .edit
            .as_ref()
            .and_then(|e| e.changes.as_ref())
            .and_then(|c| c.get(&test_uri()))
        else {
            continue;
        };
        if edits.is_empty() {
            continue;
        }
        let new_text = &edits[0].new_text;
        assert!(
            new_text.contains("GITHUB_TOKEN"),
            "GITHUB_TOKEN key must be preserved: {new_text:?}"
        );
        assert!(
            new_text.contains("secrets.GITHUB_TOKEN"),
            "token value must be preserved: {new_text:?}"
        );
    }
}
