//! Code actions whose replacement text is a subtree laid out by the pretty
//! printer: the action is decided here, the subtree printed by the caller,
//! and the printed text turned into the action's edit here.
use vstd::prelude::*;

use crate::ast::Node;
use crate::dedup::{node_view, NodeV};
use crate::format_options::YamlFormatOptions;
use crate::lsp::{
    action_view, edits_view, make_action, CodeAction, CodeActionKind, Diagnostic, Range, TextEdit,
};
use crate::text::{push_all, str_chars, string_from_chars, trim, trimmed};
use crate::yaml_format::subtree_text;

verus! {

/// An action waiting for its subtree to be printed: the replacement text is
/// `prefix`, then `node` laid out with `options` and placed at column
/// `base_indent`, then `suffix`.
#[derive(Debug)]
pub struct PendingEdit {
    pub title: String,
    pub kind: CodeActionKind,
    pub range: Range,
    pub node: Node,
    pub options: YamlFormatOptions,
    pub base_indent: usize,
    pub prefix: String,
    pub suffix: String,
    pub diagnostics: Option<Vec<Diagnostic>>,
}

/// The view of a pending edit.
pub type PendingView = (Seq<char>, CodeActionKind, Range, NodeV, YamlFormatOptions, nat, Seq<char>, Seq<char>, Option<Seq<(Range, Option<Seq<char>>)>>);

pub open spec fn diags_view(ds: Option<Vec<Diagnostic>>) -> Option<Seq<(Range, Option<Seq<char>>)>> {
    match ds {
        Some(v) => Some(v@.map_values(|d: Diagnostic| crate::lsp::diag_view(d))),
        None => None,
    }
}

pub open spec fn pending_view(p: PendingEdit) -> PendingView {
    (p.title@, p.kind, p.range, node_view(p.node), p.options, p.base_indent as nat, p.prefix@, p.suffix@, diags_view(p.diagnostics))
}

pub open spec fn pendings_view(ps: Seq<PendingEdit>) -> Seq<PendingView> {
    ps.map_values(|p: PendingEdit| pending_view(p))
}

/// The replacement text of a pending edit whose subtree printed as
/// `printed`.
pub open spec fn pending_text(prefix: Seq<char>, printed: Seq<char>, base: nat, suffix: Seq<char>) -> Seq<char> {
    prefix + subtree_text(printed, base) + suffix
}

/// The action a pending edit becomes once its subtree printed as `printed`:
/// none for a rewrite (a change of style) whose replacement text is only
/// whitespace; a quick fix is offered whatever its text.
pub open spec fn completed(p: PendingEdit, printed: Seq<char>) -> Option<(Seq<char>, CodeActionKind, Seq<(Range, Seq<char>)>, Option<Seq<(Range, Option<Seq<char>>)>>)> {
    let t = pending_text(p.prefix@, printed, p.base_indent as nat, p.suffix@);
    if p.kind == CodeActionKind::RefactorRewrite && trim(t).len() == 0 {
        None
    } else {
        Some((p.title@, p.kind, seq![(p.range, t)], diags_view(p.diagnostics)))
    }
}

/// Turns a pending edit into its code action, given the printed subtree.
pub fn complete_action(p: PendingEdit, printed: &str) -> (r: Option<CodeAction>)
    ensures
        match r {
            Some(a) => completed(p, printed@) == Some(action_view(a)),
            None => completed(p, printed@) is None,
        },
{
    let pv = str_chars(printed);
    let placed = crate::yaml_format::place_subtree(&pv, p.base_indent);
    let mut t = str_chars(p.prefix.as_str());
    push_all(&mut t, &placed);
    push_all(&mut t, &str_chars(p.suffix.as_str()));
    match p.kind {
        CodeActionKind::RefactorRewrite => {
            if trimmed(&t).len() == 0 {
                return None;
            }
        },
        CodeActionKind::QuickFix => {},
    }
    let ghost tv = t@;
    let ghost title = p.title@;
    let ghost range = p.range;
    let edit = TextEdit { range: p.range, new_text: string_from_chars(&t) };
    let mut edits: Vec<TextEdit> = Vec::new();
    edits.push(edit);
    let a = make_action(p.title, edits, p.kind, p.diagnostics);
    assert(edits_view(a.edits@) =~= seq![(range, tv)]);
    Some(a)
}

} // verus!
