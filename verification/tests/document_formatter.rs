//! The document formatter on parsed documents: duplicate keys removed when
//! asked for, laid out, printed within the width, then finished (document
//! markers, line endings, final newline).
//!
//! The documents are built by `parse_docs` below, a small reader for the
//! YAML these tests use, recording spans as the parser does.

use rlsp_yaml::ast::{Chomp, CollectionStyle, Document, Node, NodeMeta, Pos, ScalarStyle, Span};
use rlsp_yaml::dedup::prepare_documents;
use rlsp_yaml::doc::Doc;
use rlsp_yaml::editor_config::LineEnding;
use rlsp_yaml::format_options::YamlFormatOptions;
use rlsp_yaml::node_to_doc::node_to_doc;
use rlsp_yaml::yaml_format::{finish_formatting, layout_documents, place_subtree, unformatted_result};

#[derive(Clone)]
struct Line {
    no: u32,
    indent: usize,
    chars: Vec<char>,
    /// Comment lines between the previous content line and this one.
    leading: Vec<String>,
    /// The comment at the end of this line.
    trailing: Option<String>,
}

fn sp(l1: u32, c1: usize, l2: u32, c2: usize) -> Span {
    Span { start: Pos { line: l1, column: c1 as u32 }, end: Pos { line: l2, column: c2 as u32 } }
}

fn is_item(line: &Line, indent: usize) -> bool {
    line.indent == indent
        && line.chars.get(indent) == Some(&'-')
        && (line.chars.len() == indent + 1 || line.chars.get(indent + 1) == Some(&' '))
}

/// The line holds a `key:` (a colon at its end or before a space).
fn has_mapping_colon(chars: &[char]) -> bool {
    (0..chars.len()).any(|j| chars[j] == ':' && (j + 1 == chars.len() || chars[j + 1] == ' '))
}

fn text_of(chars: &[char]) -> String {
    chars.iter().collect()
}

/// Node properties read before a value: an anchor and a tag.
#[derive(Default)]
struct Props {
    anchor: Option<(String, Span)>,
    tag: Option<(String, Span)>,
}

fn with_props(node: Node, props: Props) -> Node {
    if props.anchor.is_none() && props.tag.is_none() {
        return node;
    }
    let (anchor, anchor_loc) = match props.anchor {
        Some((a, l)) => (Some(a), Some(l)),
        None => (None, None),
    };
    let (tag, tag_loc) = match props.tag {
        Some((t, l)) => (Some(t), Some(l)),
        None => (None, None),
    };
    let meta = Some(Box::new(NodeMeta {
        anchor,
        anchor_loc,
        tag_loc,
        leading_comments: Vec::new(),
        trailing_comment: None,
    }));
    match node {
        Node::Scalar { value, style, loc, .. } => Node::Scalar { value, style, tag, loc, meta },
        Node::Mapping { entries, style, loc, .. } => Node::Mapping { entries, style, tag, loc, meta },
        Node::Sequence { items, style, loc, .. } => Node::Sequence { items, style, tag, loc, meta },
        other => other,
    }
}

/// The node with comments attached: `leading` before it, `trailing` on its
/// last line.
fn with_comments(node: Node, leading: Vec<String>, trailing: Option<String>) -> Node {
    if leading.is_empty() && trailing.is_none() {
        return node;
    }
    let attach = |meta: Option<Box<NodeMeta>>| {
        let mut m = meta.unwrap_or_else(|| {
            Box::new(NodeMeta { anchor: None, anchor_loc: None, tag_loc: None, leading_comments: Vec::new(), trailing_comment: None })
        });
        if !leading.is_empty() {
            m.leading_comments = leading.clone();
        }
        if trailing.is_some() {
            m.trailing_comment = trailing.clone();
        }
        Some(m)
    };
    match node {
        Node::Scalar { value, style, tag, loc, meta } => Node::Scalar { value, style, tag, loc, meta: attach(meta) },
        Node::Mapping { entries, style, tag, loc, meta } => Node::Mapping { entries, style, tag, loc, meta: attach(meta) },
        Node::Sequence { items, style, tag, loc, meta } => Node::Sequence { items, style, tag, loc, meta: attach(meta) },
        Node::Alias { name, loc, meta } => Node::Alias { name, loc, meta: attach(meta) },
    }
}

/// Where the next token starts: the next line's first character, or the end.
fn next_token(lines: &[Line], i: usize, eof: Pos) -> Pos {
    match lines.get(i) {
        Some(l) => Pos { line: l.no, column: l.indent as u32 },
        None => eof,
    }
}

/// The value that starts at column `c` of line `no` (its text `rest`), with
/// any lines below it that belong to it.
fn parse_value(lines: &mut Vec<Line>, i: &mut usize, no: u32, c: usize, parent: usize, eof: Pos) -> Node {
    let full = lines[*i - 1].chars.clone();
    let mut c = c;
    let mut props = Props::default();
    while full.get(c) == Some(&'&') || full.get(c) == Some(&'!') {
        let mut e = c + 1;
        while e < full.len() && full[e] != ' ' {
            e += 1;
        }
        let token = text_of(&full[c..e]);
        let loc = sp(no, c, no, e);
        if full[c] == '&' {
            props.anchor = Some((token[1..].to_string(), loc));
        } else if let Some(core) = token.strip_prefix("!!") {
            props.tag = Some((format!("tag:yaml.org,2002:{core}"), loc));
        } else {
            props.tag = Some((token, loc));
        }
        c = e;
        while c < full.len() && full[c] == ' ' {
            c += 1;
        }
    }
    let rest: Vec<char> = full[c.min(full.len())..].to_vec();
    let node = if rest.first() == Some(&'{') || rest.first() == Some(&'[') {
        let mut cur = Cursor { li: *i - 1, ci: c };
        let n = parse_flow(lines, &mut cur);
        *i = cur.li + 1;
        n
    } else if rest.first() == Some(&'*') {
        Node::Alias { name: text_of(&rest[1..]), loc: sp(no, c, no, c + rest.len()), meta: None }
    } else if rest.first() == Some(&'|') || rest.first() == Some(&'>') {
        let chomp = match rest.get(1) {
            Some('-') => Chomp::Strip,
            Some('+') => Chomp::Keep,
            _ => Chomp::Clip,
        };
        let style = if rest[0] == '|' { ScalarStyle::Literal(chomp) } else { ScalarStyle::Folded(chomp) };
        let mut body = String::new();
        let mut last = no;
        while *i < lines.len() && lines[*i].indent > parent {
            body.push_str(&text_of(&lines[*i].chars[lines[*i].indent..]));
            body.push('\n');
            last = lines[*i].no;
            *i += 1;
        }
        Node::Scalar { value: body, style, tag: None, loc: sp(no, c, last + 1, 0), meta: None }
    } else if !rest.is_empty() {
        let (value, style) = if rest[0] == '"' && rest.len() >= 2 {
            (text_of(&rest[1..rest.len() - 1]), ScalarStyle::DoubleQuoted)
        } else if rest[0] == '\'' && rest.len() >= 2 {
            (text_of(&rest[1..rest.len() - 1]), ScalarStyle::SingleQuoted)
        } else {
            (text_of(&rest), ScalarStyle::Plain)
        };
        Node::Scalar { value, style, tag: None, loc: sp(no, c, no, c + rest.len()), meta: None }
    } else if *i < lines.len() && (lines[*i].indent > parent || is_item(&lines[*i], parent)) {
        let ind = lines[*i].indent;
        parse_block(lines, i, ind, eof)
    } else {
        let at = next_token(lines, *i, eof);
        Node::Scalar {
            value: String::new(),
            style: ScalarStyle::Plain,
            tag: None,
            loc: Span { start: at, end: at },
            meta: None,
        }
    };
    let node = with_props(node, props);
    let trailing = if matches!(node, Node::Scalar { .. } | Node::Alias { .. }) && node_line(&node) == no {
        lines[*i - 1].trailing.clone()
    } else {
        None
    };
    with_comments(node, Vec::new(), trailing)
}

fn node_line(n: &Node) -> u32 {
    match n {
        Node::Scalar { loc, .. } | Node::Mapping { loc, .. } | Node::Sequence { loc, .. } | Node::Alias { loc, .. } => loc.start.line,
    }
}

/// A reading position in the content lines.
struct Cursor {
    li: usize,
    ci: usize,
}

impl Cursor {
    fn peek(&self, lines: &[Line]) -> Option<char> {
        lines.get(self.li).and_then(|l| l.chars.get(self.ci).copied())
    }
    fn at(&self, lines: &[Line]) -> Pos {
        Pos { line: lines[self.li].no, column: self.ci as u32 }
    }
    /// Skips blanks, moving to the next line at a line's end.
    fn skip_ws(&mut self, lines: &[Line]) {
        loop {
            match self.peek(lines) {
                Some(' ') => self.ci += 1,
                None if self.li + 1 < lines.len() => {
                    self.li += 1;
                    self.ci = lines[self.li].indent;
                }
                _ => return,
            }
        }
    }
}

/// A flow scalar: quoted, or plain up to `,`, `]`, `}` or `: `.
fn flow_scalar(lines: &[Line], cur: &mut Cursor) -> Node {
    let start = cur.at(lines);
    let chars = &lines[cur.li].chars;
    if chars.get(cur.ci) == Some(&'"') {
        let mut e = cur.ci + 1;
        while e < chars.len() && chars[e] != '"' {
            e += 1;
        }
        let value = text_of(&chars[cur.ci + 1..e]);
        cur.ci = e + 1;
        return Node::Scalar {
            value,
            style: ScalarStyle::DoubleQuoted,
            tag: None,
            loc: Span { start, end: cur.at(lines) },
            meta: None,
        };
    }
    let mut e = cur.ci;
    while e < chars.len()
        && chars[e] != ','
        && chars[e] != ']'
        && chars[e] != '}'
        && !(chars[e] == ':' && (e + 1 == chars.len() || chars[e + 1] == ' '))
    {
        e += 1;
    }
    let mut end = e;
    while end > cur.ci && chars[end - 1] == ' ' {
        end -= 1;
    }
    let value = text_of(&chars[cur.ci..end]);
    let loc = Span { start, end: Pos { line: start.line, column: end as u32 } };
    cur.ci = e;
    Node::Scalar { value, style: ScalarStyle::Plain, tag: None, loc, meta: None }
}

fn flow_node(lines: &[Line], cur: &mut Cursor) -> Node {
    match cur.peek(lines) {
        Some('{') | Some('[') => parse_flow(lines, cur),
        _ => flow_scalar(lines, cur),
    }
}

/// A flow mapping or sequence; its span ends at its closing bracket.
fn parse_flow(lines: &[Line], cur: &mut Cursor) -> Node {
    let start = cur.at(lines);
    let mapping = cur.peek(lines) == Some('{');
    let close = if mapping { '}' } else { ']' };
    cur.ci += 1;
    let mut entries = Vec::new();
    let mut items = Vec::new();
    loop {
        cur.skip_ws(lines);
        match cur.peek(lines) {
            Some(c) if c == close => break,
            Some(',') => {
                cur.ci += 1;
                continue;
            }
            None => break,
            _ => {}
        }
        if mapping {
            let key = flow_node(lines, cur);
            cur.skip_ws(lines);
            if cur.peek(lines) == Some(':') {
                cur.ci += 1;
            }
            cur.skip_ws(lines);
            let value = flow_node(lines, cur);
            entries.push((key, value));
        } else {
            items.push(flow_node(lines, cur));
        }
    }
    let end = cur.at(lines);
    cur.ci += 1;
    let loc = Span { start, end };
    if mapping {
        Node::Mapping { entries, style: CollectionStyle::Flow, tag: None, loc, meta: None }
    } else {
        Node::Sequence { items, style: CollectionStyle::Flow, tag: None, loc, meta: None }
    }
}

fn parse_block(lines: &mut Vec<Line>, i: &mut usize, indent: usize, eof: Pos) -> Node {
    let first = lines[*i].no;
    let lead = lines[*i].chars.get(indent).copied();
    if lead == Some('{') || lead == Some('[') {
        let mut cur = Cursor { li: *i, ci: indent };
        let n = parse_flow(lines, &mut cur);
        *i = cur.li + 1;
        return n;
    }
    if is_item(&lines[*i], indent) {
        let mut items = Vec::new();
        while *i < lines.len() && is_item(&lines[*i], indent) {
            let line = lines[*i].clone();
            let body: String = text_of(&line.chars[(indent + 2).min(line.chars.len())..]);
            let compact = !body.starts_with('&') && !body.starts_with('*') && !body.starts_with('"')
                && (body.contains(": ") || body.ends_with(':'));
            if compact {
                lines[*i].chars[indent] = ' ';
                lines[*i].indent = indent + 2;
                let leading = std::mem::take(&mut lines[*i].leading);
                let item = parse_block(lines, i, indent + 2, eof);
                items.push(with_comments(item, leading, None));
            } else {
                *i += 1;
                let item = parse_value(lines, i, line.no, indent + 2, indent, eof);
                items.push(with_comments(item, line.leading.clone(), None));
            }
        }
        let last = lines[*i - 1].no;
        Node::Sequence {
            items,
            style: CollectionStyle::Block,
            tag: None,
            loc: sp(first, indent, last + 1, 0),
            meta: None,
        }
    } else if !has_mapping_colon(&lines[*i].chars[indent..]) && lines[*i].chars.get(indent) != Some(&'?') {
        let no = lines[*i].no;
        *i += 1;
        parse_value(lines, i, no, indent, indent, eof)
    } else {
        let mut entries = Vec::new();
        while *i < lines.len() && lines[*i].indent == indent && !is_item(&lines[*i], indent) {
            let line = lines[*i].clone();
            if line.chars.get(indent) == Some(&'?') {
                // An explicit key `? k`, its value on a `: v` line below.
                *i += 1;
                let key = parse_value(lines, i, line.no, indent + 2, indent, eof);
                let value = if *i < lines.len() && lines[*i].indent == indent && lines[*i].chars.get(indent) == Some(&':') {
                    let vline = lines[*i].clone();
                    *i += 1;
                    parse_value(lines, i, vline.no, indent + 2, indent, eof)
                } else {
                    let at = next_token(lines, *i, eof);
                    Node::Scalar { value: String::new(), style: ScalarStyle::Plain, tag: None, loc: Span { start: at, end: at }, meta: None }
                };
                entries.push((key, value));
                continue;
            }
            let chars = &line.chars;
            let mut colon = indent;
            while colon < chars.len()
                && !(chars[colon] == ':' && (colon + 1 == chars.len() || chars[colon + 1] == ' '))
            {
                colon += 1;
            }
            let key = with_comments(
                Node::Scalar {
                    value: text_of(&chars[indent..colon.min(chars.len())]),
                    style: ScalarStyle::Plain,
                    tag: None,
                    loc: sp(line.no, indent, line.no, colon.min(chars.len())),
                    meta: None,
                },
                line.leading.clone(),
                None,
            );
            let mut c = colon + 1;
            while c < chars.len() && chars[c] == ' ' {
                c += 1;
            }
            *i += 1;
            let value = parse_value(lines, i, line.no, c, indent, eof);
            entries.push((key, value));
        }
        let last = lines[*i - 1].no;
        Node::Mapping {
            entries,
            style: CollectionStyle::Block,
            tag: None,
            loc: sp(first, indent, last + 1, 0),
            meta: None,
        }
    }
}

fn parse_docs(text: &str) -> Vec<Document> {
    let raw: Vec<&str> = text.split('\n').collect();
    let n = if text.ends_with('\n') { raw.len() - 1 } else { raw.len() };
    let eof = if text.ends_with('\n') || text.is_empty() {
        Pos { line: n as u32 + 1, column: 0 }
    } else {
        Pos { line: n as u32, column: raw[n - 1].chars().count() as u32 }
    };
    let mut groups: Vec<(bool, bool, Vec<Line>)> = vec![(false, false, Vec::new())];
    let mut pending: Vec<String> = Vec::new();
    for (k, l) in raw.iter().take(n).enumerate() {
        if *l == "---" {
            groups.push((true, false, Vec::new()));
            pending.clear();
            continue;
        }
        if *l == "..." {
            groups.last_mut().unwrap().1 = true;
            continue;
        }
        let chars: Vec<char> = l.chars().collect();
        let indent = chars.iter().take_while(|c| **c == ' ').count();
        if indent == chars.len() {
            continue;
        }
        if chars[indent] == '#' {
            // Comments before a document's first content line are not attached.
            let group = groups.last_mut().unwrap();
            if !group.2.is_empty() {
                pending.push(text_of(&chars[indent..]));
            }
            continue;
        }
        let mut chars = chars;
        let mut trailing = None;
        if let Some(h) = (indent..chars.len()).find(|&j| chars[j] == '#' && j > 0 && chars[j - 1] == ' ') {
            trailing = Some(text_of(&chars[h..]));
            chars.truncate(h);
            while chars.last() == Some(&' ') {
                chars.pop();
            }
        }
        let leading = std::mem::take(&mut pending);
        groups.last_mut().unwrap().2.push(Line { no: k as u32 + 1, indent, chars, leading, trailing });
    }
    let mut docs = Vec::new();
    for (explicit_start, explicit_end, mut lines) in groups {
        if lines.is_empty() {
            continue;
        }
        let mut i = 0;
        let ind = lines[0].indent;
        let root = parse_block(&mut lines, &mut i, ind, eof);
        docs.push(Document { root, explicit_start, explicit_end });
    }
    docs
}

/// The width of a layout laid out flat, `None` when it holds a hard break.
fn flat_width(d: &Doc) -> Option<usize> {
    match d {
        Doc::Text(s) => Some(s.chars().count()),
        Doc::HardLine => None,
        Doc::Line => Some(1),
        Doc::FlatAlt(a, _) | Doc::Indent(a) | Doc::Group(a) => flat_width(a),
        Doc::Concat(v) => v.iter().map(flat_width).sum(),
    }
}

/// Lays a layout out within `width`: a group goes flat when it fits on
/// the rest of the line.
fn lay_out(d: &Doc, level: usize, flat: bool, width: usize, tab: usize, out: &mut String, col: &mut usize) {
    match d {
        Doc::Text(s) => {
            out.push_str(s);
            *col += s.chars().count();
        }
        Doc::HardLine => {
            out.push('\n');
            out.push_str(&" ".repeat(level * tab));
            *col = level * tab;
        }
        Doc::Line => {
            if flat {
                out.push(' ');
                *col += 1;
            } else {
                out.push('\n');
                out.push_str(&" ".repeat(level * tab));
                *col = level * tab;
            }
        }
        Doc::FlatAlt(a, b) => lay_out(if flat { a } else { b }, level, flat, width, tab, out, col),
        Doc::Indent(a) => lay_out(a, level + 1, flat, width, tab, out, col),
        Doc::Group(a) => {
            let fits = flat || flat_width(a).is_some_and(|w| *col + w <= width);
            lay_out(a, level, fits, width, tab, out, col);
        }
        Doc::Concat(v) => v.iter().for_each(|x| lay_out(x, level, flat, width, tab, out, col)),
    }
}

fn print_doc(d: &Doc, width: usize, tab: usize) -> String {
    let mut out = String::new();
    let mut col = 0;
    lay_out(d, 0, false, width, tab, &mut out, &mut col);
    out.push('\n');
    out
}

fn format_yaml(text_input: &str, options: &YamlFormatOptions) -> String {
    let documents = parse_docs(text_input);
    if let Some(unchanged) = unformatted_result(text_input, false, documents.len()) {
        return unchanged;
    }
    let documents = prepare_documents(documents, options);
    let layout = layout_documents(&documents, options);
    let printed = print_doc(&layout, options.print_width, options.tab_width);
    finish_formatting(text_input, &printed, &documents, options)
}

fn format_subtree(node: &Node, options: &YamlFormatOptions, base_indent: usize) -> String {
    if let Some(flat) = rlsp_yaml::yaml_format::format_subtree(node, options, base_indent) {
        return flat;
    }
    let printed = print_doc(&node_to_doc(node, options, false), options.print_width, options.tab_width);
    place_subtree(&printed.chars().collect(), base_indent).into_iter().collect()
}

fn parse_root(src: &str) -> Node {
    parse_docs(src).remove(0).root
}

fn default_opts() -> YamlFormatOptions {
    YamlFormatOptions::default()
}

fn dedup_opts() -> YamlFormatOptions {
    YamlFormatOptions { format_remove_duplicate_keys: true, ..default_opts() }
}

#[test]
fn anchor_scalar_preserved() {
    let result = format_yaml("key: &anchor value\n", &default_opts());
    assert_eq!(result, "key: &anchor value\n");
}

#[test]
fn anchor_block_mapping_preserved() {
    let result = format_yaml("defaults: &defaults\n  timeout: 30\n", &default_opts());
    assert_eq!(result, "defaults: &defaults\n  timeout: 30\n");
}

#[test]
fn anchor_block_sequence_preserved() {
    let result = format_yaml("items: &mylist\n  - a\n  - b\n", &default_opts());
    assert_eq!(result, "items: &mylist\n  - a\n  - b\n");
}

#[test]
fn anchor_flow_mapping_preserved() {
    let result = format_yaml("key: &anchor {a: 1}\n", &default_opts());
    assert!(result.contains("&anchor"), "anchor missing: {result:?}");
}

#[test]
fn anchor_flow_sequence_preserved() {
    let result = format_yaml("key: &anchor [a, b]\n", &default_opts());
    assert_eq!(result, "key: &anchor [a, b]\n");
}

#[test]
fn anchor_sequence_item_block_mapping_preserved() {
    let result = format_yaml("items:\n  - &item\n    key: val\n", &default_opts());
    assert_eq!(result, "items:\n  - &item\n    key: val\n");
}

#[test]
fn alias_reference_preserved() {
    let result = format_yaml(
        "defaults: &defaults\n  timeout: 30\nservice:\n  <<: *defaults\n",
        &default_opts(),
    );
    assert!(result.contains("&defaults"), "anchor missing: {result:?}");
    assert!(result.contains("*defaults"), "alias missing: {result:?}");
}

#[test]
fn anchor_alias_idempotent() {
    let input = "defaults: &defaults\n  timeout: 30\nservice:\n  <<: *defaults\n";
    let first = format_yaml(input, &default_opts());
    let second = format_yaml(&first, &default_opts());
    assert_eq!(first, second, "anchor/alias not idempotent: {first:?}");
}

#[test]
fn anchor_on_top_level_scalar_preserved() {
    let result = format_yaml("&doc hello\n", &default_opts());
    assert_eq!(result, "&doc hello\n");
}

#[test]
fn anchor_and_alias_round_trip_sequence() {
    let input = "base: &base\n  - x\n  - y\nextended:\n  - *base\n";
    let result = format_yaml(input, &default_opts());
    assert!(result.contains("&base"), "anchor missing: {result:?}");
    assert!(result.contains("- x"), "sequence item missing: {result:?}");
    assert!(result.contains("*base"), "alias missing: {result:?}");
}

#[test]
fn anchor_before_tag_on_scalar() {
    let result = format_yaml("item: &myanchor !mytag value\n", &default_opts());
    assert!(result.contains("&myanchor"), "anchor missing: {result:?}");
    assert!(result.contains("!mytag"), "tag missing: {result:?}");
    assert!(result.contains("value"), "value missing: {result:?}");
    // Anchor must precede tag in the output string (YAML spec §6.8.1).
    // Split on the tag: the prefix must contain the anchor.
    let before_tag = result.split("!mytag").next().unwrap_or("");
    assert!(
        before_tag.contains("&myanchor"),
        "anchor must precede tag per YAML spec §6.8.1: {result:?}"
    );
}

#[test]
fn anchor_with_trailing_comment_preserved() {
    let result = format_yaml("key: &anchor value  # inline comment\n", &default_opts());
    assert!(
        result.contains("&anchor value"),
        "anchor+value missing: {result:?}"
    );
    assert!(
        result.contains("# inline comment"),
        "comment missing: {result:?}"
    );
}

#[test]
fn anchor_on_empty_flow_mapping_preserved() {
    let result = format_yaml("empty: &empty {}\n", &default_opts());
    assert_eq!(result, "empty: &empty {}\n");
}

#[test]
fn anchor_on_empty_flow_sequence_preserved() {
    let result = format_yaml("empty: &empty []\n", &default_opts());
    assert_eq!(result, "empty: &empty []\n");
}

#[test]
fn no_spurious_anchor_when_none() {
    let result = format_yaml("key: value\n", &default_opts());
    assert!(
        !result.contains('&'),
        "spurious anchor in output: {result:?}"
    );
}

#[test]
fn bare_document_emits_no_markers() {
    let result = format_yaml("key: value\n", &default_opts());
    assert!(result.contains("key: value"), "content missing: {result:?}");
    assert!(
        !result.contains("---"),
        "unexpected `---` in output: {result:?}"
    );
    assert!(
        !result.contains("..."),
        "unexpected `...` in output: {result:?}"
    );
}

#[test]
fn explicit_start_marker_preserved() {
    let result = format_yaml("---\nkey: value\n", &default_opts());
    assert!(
        result.contains("---"),
        "`---` missing from output: {result:?}"
    );
}

#[test]
fn explicit_end_marker_preserved() {
    let result = format_yaml("key: value\n...\n", &default_opts());
    assert!(
        result.contains("..."),
        "`...` missing from output: {result:?}"
    );
}

#[test]
fn both_markers_preserved() {
    let result = format_yaml("---\nkey: value\n...\n", &default_opts());
    assert!(
        result.contains("---"),
        "`---` missing from output: {result:?}"
    );
    assert!(
        result.contains("..."),
        "`...` missing from output: {result:?}"
    );
}

#[test]
fn multi_document_separator_always_emitted() {
    let result = format_yaml("doc1: a\n---\ndoc2: b\n", &default_opts());
    assert!(
        result.contains("---"),
        "`---` separator missing: {result:?}"
    );
    assert!(
        result.contains("doc1: a"),
        "doc1 content missing: {result:?}"
    );
    assert!(
        result.contains("doc2: b"),
        "doc2 content missing: {result:?}"
    );
}

#[test]
fn explicit_end_only_on_first_document() {
    let result = format_yaml("doc1: a\n...\n---\ndoc2: b\n", &default_opts());
    assert!(
        result.contains("---"),
        "`---` separator missing: {result:?}"
    );
    // The full output should be exactly: doc1 content, ..., ---, doc2 content.
    // The `...` appears before `doc2: b`, not after it.
    assert!(
        result.contains("..."),
        "`...` missing from output: {result:?}"
    );
    assert!(
        result.find("...") < result.find("doc2: b"),
        "`...` should appear before doc2, got: {result:?}"
    );
    // The portion after `doc2: b` must not contain `...`.
    let after_doc2 = result.find("doc2: b").map_or("", |pos| &result[pos..]);
    assert!(
        !after_doc2.contains("..."),
        "unexpected `...` after doc2: {result:?}"
    );
}

#[test]
fn explicit_end_on_all_documents_preserved() {
    let result = format_yaml("doc1: a\n...\n---\ndoc2: b\n...\n", &default_opts());
    // Both `...` markers should be present
    let count = result.matches("...").count();
    assert_eq!(
        count, 2,
        "expected 2 `...` markers, got {count}: {result:?}"
    );
}

#[test]
fn format_subtree_scalar_base_indent_zero() {
    let node = parse_root("hello");
    let result = format_subtree(&node, &default_opts(), 0);
    assert_eq!(result, "hello");
}

#[test]
fn format_subtree_scalar_base_indent_never_indents_first_line() {
    let node = parse_root("hello");
    let result = format_subtree(&node, &default_opts(), 4);
    assert_eq!(result, "hello");
}

#[test]
fn format_subtree_empty_mapping_emits_inline() {
    let node = parse_root("{}");
    let result = format_subtree(&node, &default_opts(), 0);
    assert_eq!(result, "{}");
}

#[test]
fn format_subtree_empty_sequence_emits_inline() {
    let node = parse_root("[]");
    let result = format_subtree(&node, &default_opts(), 0);
    assert_eq!(result, "[]");
}

#[test]
fn format_subtree_block_sequence_continuation_indented() {
    let node = parse_root("- x\n- y\n");
    let result = format_subtree(&node, &default_opts(), 2);
    match result.lines().collect::<Vec<_>>().as_slice() {
        [line0, line1, ..] => {
            assert_eq!(*line0, "- x", "line 0 mismatch: {result:?}");
            assert_eq!(*line1, "  - y", "line 1 mismatch: {result:?}");
        }
        other => panic!("expected at least 2 lines, got: {other:?}"),
    }
}

#[test]
fn format_subtree_nested_mapping_in_sequence_base_indent() {
    let node = parse_root("- a: 1\n  b: 2\n- c: 3\n");
    let result = format_subtree(&node, &default_opts(), 2);
    let lines: Vec<&str> = result.lines().collect();
    // First line has no leading spaces regardless of base_indent
    let first = lines.first().expect("output must have at least one line");
    assert!(
        first.starts_with("- a: 1"),
        "first line should start with `- a: 1`: {result:?}"
    );
    // The `- c: 3` item must have two leading spaces from base_indent
    let c_line = lines
        .iter()
        .find(|l| l.contains("c: 3"))
        .copied()
        .expect("output must contain `c: 3`");
    assert!(
        c_line.starts_with("  - c: 3"),
        "`- c: 3` line should have two leading spaces: {result:?}"
    );
}

#[test]
fn format_subtree_enforce_block_style_option_converts_flow_to_block() {
    let node = parse_root("{a: 1, b: 2}");
    let opts = YamlFormatOptions {
        format_enforce_block_style: true,
        ..YamlFormatOptions::default()
    };
    let result = format_subtree(&node, &opts, 2);
    match result.lines().collect::<Vec<_>>().as_slice() {
        [line0, line1, ..] => {
            assert_eq!(*line0, "a: 1", "line 0 mismatch: {result:?}");
            assert_eq!(*line1, "  b: 2", "line 1 mismatch: {result:?}");
        }
        other => panic!("expected at least 2 lines, got: {other:?}"),
    }
}

#[test]
fn format_subtree_flow_mapping_style_mutation_to_block() {
    let mut node = parse_root("{a: 1, b: 2}");
    if let Node::Mapping { style, .. } = &mut node {
        *style = CollectionStyle::Block;
    }
    let result = format_subtree(&node, &default_opts(), 2);
    match result.lines().collect::<Vec<_>>().as_slice() {
        [line0, line1, ..] => {
            assert_eq!(*line0, "a: 1", "line 0 mismatch: {result:?}");
            assert_eq!(*line1, "  b: 2", "line 1 mismatch: {result:?}");
        }
        other => panic!("expected at least 2 lines, got: {other:?}"),
    }
}

#[test]
fn format_subtree_flow_sequence_style_mutation_to_block() {
    let mut node = parse_root("[a, b, c]");
    if let Node::Sequence { style, .. } = &mut node {
        *style = CollectionStyle::Block;
    }
    let result = format_subtree(&node, &default_opts(), 2);
    match result.lines().collect::<Vec<_>>().as_slice() {
        [line0, line1, line2, ..] => {
            assert_eq!(*line0, "- a", "line 0 mismatch: {result:?}");
            assert_eq!(*line1, "  - b", "line 1 mismatch: {result:?}");
            assert_eq!(*line2, "  - c", "line 2 mismatch: {result:?}");
        }
        other => panic!("expected at least 3 lines, got: {other:?}"),
    }
}

#[test]
fn format_subtree_nested_flow_in_flow_sequence_to_block() {
    let mut node = parse_root("[{a: 1}, {b: 2}]");
    // Flip outer sequence and each inner mapping to Block — mimics Task 2's approach
    if let Node::Sequence { style, items, .. } = &mut node {
        *style = CollectionStyle::Block;
        for item in items.iter_mut() {
            if let Node::Mapping { style: ms, .. } = item {
                *ms = CollectionStyle::Block;
            }
        }
    }
    let result = format_subtree(&node, &default_opts(), 2);
    // Each sequence item becomes a `- key: val` block entry
    assert!(result.contains("a: 1"), "a: 1 missing: {result:?}");
    assert!(result.contains("b: 2"), "b: 2 missing: {result:?}");
    // Continuation lines must have 2 leading spaces
    let second_item_line = result
        .lines()
        .find(|l| l.contains("b: 2"))
        .expect("line with b: 2 must exist");
    assert!(
        second_item_line.starts_with("  "),
        "second item line must be indented by 2: {result:?}"
    );
}

#[test]
fn format_subtree_multiline_flow_mapping_to_block() {
    let mut node = parse_root("{\n  a: 1,\n  b: 2,\n}");
    if let Node::Mapping { style, .. } = &mut node {
        *style = CollectionStyle::Block;
    }
    let result = format_subtree(&node, &default_opts(), 2);
    match result.lines().collect::<Vec<_>>().as_slice() {
        [line0, line1, ..] => {
            assert_eq!(*line0, "a: 1", "line 0 mismatch: {result:?}");
            assert_eq!(*line1, "  b: 2", "line 1 mismatch: {result:?}");
        }
        other => panic!("expected at least 2 lines, got: {other:?}"),
    }
}

#[test]
fn line_ending_crlf_replaces_all_newlines() {
    let opts = YamlFormatOptions {
        line_ending: LineEnding::Crlf,
        ..default_opts()
    };
    let output = format_yaml("a: 1\nb: 2\n", &opts);
    assert!(output.contains("\r\n"), "output should contain CRLF");
    for (i, ch) in output.char_indices() {
        if ch == '\n' {
            assert!(
                i > 0 && output.as_bytes()[i - 1] == b'\r',
                "bare LF at byte {i}"
            );
        }
    }
}

#[test]
fn line_ending_cr_replaces_all_newlines() {
    let opts = YamlFormatOptions {
        line_ending: LineEnding::Cr,
        ..default_opts()
    };
    let output = format_yaml("a: 1\nb: 2\n", &opts);
    assert!(!output.contains('\n'), "output should have no LF");
    assert!(output.contains('\r'), "output should have at least one CR");
    assert!(!output.contains("\r\n"), "output should have no CRLF");
}

#[test]
fn line_ending_lf_leaves_output_unchanged() {
    let opts = YamlFormatOptions {
        line_ending: LineEnding::Lf,
        ..default_opts()
    };
    let output = format_yaml("a: 1\nb: 2\n", &opts);
    assert!(!output.contains('\r'), "LF mode should produce no CR");
    assert!(output.ends_with('\n'), "LF mode should end with LF");
}

#[test]
fn insert_final_newline_false_strips_trailing_newline() {
    let opts = YamlFormatOptions {
        insert_final_newline: false,
        ..default_opts()
    };
    let output = format_yaml("key: value\n", &opts);
    assert_eq!(
        output, "key: value",
        "trailing newline should be stripped; got: {output:?}"
    );
}

#[test]
fn insert_final_newline_true_leaves_trailing_newline() {
    let opts = YamlFormatOptions {
        insert_final_newline: true,
        ..default_opts()
    };
    let output = format_yaml("key: value\n", &opts);
    assert!(
        output.ends_with('\n'),
        "trailing newline should be preserved; got: {output:?}"
    );
}

#[test]
fn insert_final_newline_false_with_crlf_strips_crlf_terminator() {
    let opts = YamlFormatOptions {
        line_ending: LineEnding::Crlf,
        insert_final_newline: false,
        ..default_opts()
    };
    let output = format_yaml("key: value\n", &opts);
    assert!(
        !output.ends_with("\r\n") && !output.ends_with('\n') && !output.ends_with('\r'),
        "trailing CRLF terminator should be stripped; got: {output:?}"
    );
    assert!(
        output.ends_with("value"),
        "content should be intact; got: {output:?}"
    );
}

#[test]
fn format_yaml_default_options_still_ends_with_newline() {
    let output = format_yaml("key: value\n", &default_opts());
    assert!(
        output.ends_with('\n'),
        "default options should preserve trailing newline; got: {output:?}"
    );
}

#[test]
fn dedup_disabled_does_not_remove_duplicate_keys() {
    let input = "key: 1\nkey: 2\n";
    let result = format_yaml(input, &default_opts());
    let count = result.matches("key:").count();
    assert!(
        count >= 2,
        "both keys should remain when dedup disabled: {result:?}"
    );
}

#[test]
fn dedup_single_duplicate_keeps_last() {
    let result = format_yaml("key: 1\nkey: 2\n", &dedup_opts());
    assert!(
        result.contains("key: 2"),
        "last occurrence missing: {result:?}"
    );
    assert!(
        !result.contains("key: 1"),
        "first occurrence should be removed: {result:?}"
    );
}

#[test]
fn dedup_three_occurrences_keeps_only_last() {
    let result = format_yaml("key: a\nkey: b\nkey: c\n", &dedup_opts());
    assert!(
        result.contains("key: c"),
        "last occurrence missing: {result:?}"
    );
    assert!(
        !result.contains("key: a"),
        "first occurrence should be removed: {result:?}"
    );
    assert!(
        !result.contains("key: b"),
        "middle occurrence should be removed: {result:?}"
    );
}

#[test]
fn dedup_unique_keys_unchanged() {
    let result = format_yaml("a: 1\nb: 2\n", &dedup_opts());
    assert!(result.contains("a: 1"), "a:1 missing: {result:?}");
    assert!(result.contains("b: 2"), "b:2 missing: {result:?}");
}

#[test]
fn dedup_mixed_unique_and_duplicate() {
    let result = format_yaml("a: 1\nb: 2\na: 3\n", &dedup_opts());
    assert!(
        result.contains("a: 3"),
        "last a: should be present: {result:?}"
    );
    assert!(
        result.contains("b: 2"),
        "unique b: should be present: {result:?}"
    );
    assert!(
        !result.contains("a: 1"),
        "first a: should be removed: {result:?}"
    );
}

#[test]
fn dedup_empty_mapping_unchanged() {
    let result = format_yaml("map: {}\n", &dedup_opts());
    assert!(
        result.contains("{}"),
        "empty mapping should be preserved: {result:?}"
    );
}

#[test]
fn dedup_single_entry_mapping_unchanged() {
    let result = format_yaml("key: value\n", &dedup_opts());
    assert!(
        result.contains("key: value"),
        "single entry should be preserved: {result:?}"
    );
}

#[test]
fn dedup_alias_key_duplicate_keeps_last() {
    // `? *ref` is explicit-key syntax that produces Node::Alias in key position.
    let input = "? *ref\n: value1\n? *ref\n: value2\n";
    let result = format_yaml(input, &dedup_opts());
    assert!(
        result.contains("value2"),
        "last alias-keyed value missing: {result:?}"
    );
    assert!(
        !result.contains("value1"),
        "first alias-keyed value should be removed: {result:?}"
    );
}

#[test]
fn dedup_complex_mapping_key_no_panic() {
    // Explicit complex key: `? {a: 1}: value`
    // Parser may or may not support this; if parsing fails, format_yaml returns input unchanged.
    let input = "? {a: 1}\n: value\n";
    let result = format_yaml(input, &dedup_opts());
    // Must not panic. Output may be unchanged (if unparseable) or formatted.
    let _ = result;
}

#[test]
fn dedup_complex_sequence_key_no_panic() {
    let input = "? [1, 2]\n: value\n";
    let result = format_yaml(input, &dedup_opts());
    let _ = result;
}

#[test]
fn dedup_case_sensitive_keys_both_kept() {
    let result = format_yaml("Key: 1\nkey: 2\n", &dedup_opts());
    assert!(result.contains("Key: 1"), "Key:1 missing: {result:?}");
    assert!(result.contains("key: 2"), "key:2 missing: {result:?}");
}

#[test]
fn dedup_nested_mapping_removes_inner_duplicates() {
    let input = "outer:\n  inner: 1\n  inner: 2\n";
    let result = format_yaml(input, &dedup_opts());
    assert!(result.contains("outer:"), "outer key missing: {result:?}");
    assert!(
        result.contains("inner: 2"),
        "last inner should be kept: {result:?}"
    );
    assert!(
        !result.contains("inner: 1"),
        "first inner should be removed: {result:?}"
    );
}

#[test]
fn dedup_recurses_into_sequence_items() {
    let input = "items:\n  - key: 1\n    key: 2\n  - key: 3\n    key: 4\n";
    let result = format_yaml(input, &dedup_opts());
    assert!(
        result.contains("key: 2"),
        "last key in first item missing: {result:?}"
    );
    assert!(
        result.contains("key: 4"),
        "last key in second item missing: {result:?}"
    );
    assert!(
        !result.contains("key: 1"),
        "first key in first item should be removed: {result:?}"
    );
    assert!(
        !result.contains("key: 3"),
        "first key in second item should be removed: {result:?}"
    );
}

#[test]
fn dedup_deeply_nested_removes_innermost_duplicates() {
    let input = "a:\n  b:\n    c: 1\n    c: 2\n";
    let result = format_yaml(input, &dedup_opts());
    assert!(result.contains("a:"), "a: missing: {result:?}");
    assert!(result.contains("b:"), "b: missing: {result:?}");
    assert!(
        result.contains("c: 2"),
        "last c: should be kept: {result:?}"
    );
    assert!(
        !result.contains("c: 1"),
        "first c: should be removed: {result:?}"
    );
}

#[test]
fn dedup_flow_mapping_removes_duplicate() {
    let result = format_yaml("{key: 1, key: 2}\n", &dedup_opts());
    assert!(
        result.contains("key: 2"),
        "last occurrence missing: {result:?}"
    );
    assert!(
        !result.contains("key: 1"),
        "first occurrence should be removed: {result:?}"
    );
}

#[test]
fn dedup_removed_entry_with_trailing_comment_no_crash() {
    // The first `key` has an inline comment; it should be removed without panic.
    let input = "key: 1  # this gets removed\nkey: 2\n";
    let result = format_yaml(input, &dedup_opts());
    assert!(
        result.contains("key: 2"),
        "last occurrence missing: {result:?}"
    );
    assert!(
        !result.contains("key: 1"),
        "first occurrence should be removed: {result:?}"
    );
}

#[test]
fn dedup_surviving_entry_leading_comment_preserved() {
    // The last `key` has a leading comment; it should survive dedup.
    let input = "key: 1\n# keep this\nkey: 2\n";
    let result = format_yaml(input, &dedup_opts());
    assert!(
        result.contains("key: 2"),
        "last occurrence missing: {result:?}"
    );
    assert!(
        result.contains("# keep this"),
        "leading comment should be preserved: {result:?}"
    );
}

#[test]
fn dedup_multi_document_per_document() {
    let input = "key: 1\nkey: 2\n---\nkey: 3\nkey: 4\n";
    let result = format_yaml(input, &dedup_opts());
    // Each document should have had its first `key` removed.
    // The result should contain `key: 2` and `key: 4` (the last in each doc).
    assert!(
        result.contains("key: 2"),
        "last key in doc1 missing: {result:?}"
    );
    assert!(
        result.contains("key: 4"),
        "last key in doc2 missing: {result:?}"
    );
    assert!(
        result.contains("---"),
        "document separator missing: {result:?}"
    );
    assert!(
        !result.contains("key: 1"),
        "first key in doc1 should be removed: {result:?}"
    );
    assert!(
        !result.contains("key: 3"),
        "first key in doc2 should be removed: {result:?}"
    );
}

#[test]
fn dedup_idempotent() {
    let input = "key: 1\nkey: 2\n";
    let first = format_yaml(input, &dedup_opts());
    let second = format_yaml(&first, &dedup_opts());
    assert_eq!(first, second, "dedup not idempotent: {first:?}");
}

#[test]
fn dedup_two_identical_complex_keys_both_kept() {
    let input = "? [1, 2]\n: first\n? [1, 2]\n: second\n";
    let result = format_yaml(input, &dedup_opts());
    assert!(result.contains("first"), "first complex-keyed entry missing: {result:?}");
    assert!(result.contains("second"), "second complex-keyed entry missing: {result:?}");
}

#[test]
fn line_endings_follow_the_lf_result() {
    let input = "# head\na: 1\n\nb:\n  - x\n  - y\n# tail\n";
    for final_newline in [true, false] {
        let base = YamlFormatOptions { insert_final_newline: final_newline, ..default_opts() };
        let lf = format_yaml(input, &YamlFormatOptions { line_ending: LineEnding::Lf, ..base });
        let crlf = format_yaml(input, &YamlFormatOptions { line_ending: LineEnding::Crlf, ..base });
        let cr = format_yaml(input, &YamlFormatOptions { line_ending: LineEnding::Cr, ..base });
        assert_eq!(crlf, lf.replace('\n', "\r\n"));
        assert_eq!(cr, lf.replace('\n', "\r"));
    }
}

#[test]
fn subtree_base_indent_indents_continuation_lines() {
    let docs = parse_docs("a: 1\nb:\n  c: 2\n");
    let at0 = format_subtree(&docs[0].root, &default_opts(), 0);
    let at2 = format_subtree(&docs[0].root, &default_opts(), 2);
    let expected: Vec<String> = at0
        .lines()
        .enumerate()
        .map(|(i, l)| if i == 0 { l.to_string() } else { format!("  {l}") })
        .collect();
    assert_eq!(at2, expected.join("\n"));
    assert!(!at0.ends_with('\n') && !at2.ends_with('\n'));
}
