//! Editor-support logic for YAML documents: scalar classification, comment
//! preservation, folding, anchors and aliases, hover text and code actions.
pub mod text;
pub mod numbers;
pub mod scalar_helpers;
pub mod comments;
pub mod formatter;
pub mod folding;
pub mod lsp;
pub mod on_type_formatting;
pub mod anchor_scan;
pub mod references;
pub mod rename;
pub mod editor_config;
pub mod format_options;
pub mod ast;
pub mod doc;
pub mod scalar_render;
pub mod node_render;
pub mod node_to_doc;
pub mod doc_comments;
pub mod yaml_format;
pub mod scalar_actions;
pub mod yaml11_actions;
pub mod dedup;
pub mod pending_edit;
pub mod block_scalar;
pub mod flow_actions;
pub mod code_actions;
pub mod navigation;
pub mod hover;
pub mod newline_indent;
pub mod value_layout;
