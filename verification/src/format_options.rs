//! Options of the document formatter.
use vstd::prelude::*;

use crate::editor_config::LineEnding;

verus! {

/// YAML specification version used for quoting decisions.
#[derive(Debug, Clone, Copy, PartialEq, Eq, Structural)]
pub enum YamlVersion {
    V1_1,
    V1_2,
}

/// YAML-specific formatting options.
#[derive(Debug, Clone, Copy, PartialEq, Eq, Structural)]
pub struct YamlFormatOptions {
    /// Maximum line width. Default: 80.
    pub print_width: usize,
    /// Spaces per indent level. Default: 2.
    pub tab_width: usize,
    /// Prefer single-quoted strings. Default: false (double quotes).
    pub single_quote: bool,
    /// Preserve the source quote style of scalars. Default: false.
    pub preserve_quotes: bool,
    /// Add spaces inside flow braces: `{ a: 1 }` vs `{a: 1}`. Default: true.
    pub bracket_spacing: bool,
    /// YAML specification version for quoting decisions. Default: `V1_2`.
    pub yaml_version: YamlVersion,
    /// Override all collection styles to block. Default: false.
    pub format_enforce_block_style: bool,
    /// Remove duplicate mapping keys before formatting, keeping the last
    /// occurrence (YAML spec: last value wins). Default: false.
    pub format_remove_duplicate_keys: bool,
    /// Indent block sequences that are values of mapping keys. Default: true.
    pub format_indent_sequences: bool,
    /// Line-ending style for output. Default: `LineEnding::Lf`.
    pub line_ending: LineEnding,
    /// Whether to append a trailing newline to the output. Default: `true`.
    pub insert_final_newline: bool,
}

/// The default formatting options.
pub open spec fn default_options() -> YamlFormatOptions {
    YamlFormatOptions {
        print_width: 80,
        tab_width: 2,
        single_quote: false,
        preserve_quotes: false,
        bracket_spacing: true,
        yaml_version: YamlVersion::V1_2,
        format_enforce_block_style: false,
        format_remove_duplicate_keys: false,
        format_indent_sequences: true,
        line_ending: LineEnding::Lf,
        insert_final_newline: true,
    }
}

impl Default for YamlFormatOptions {
    fn default() -> (r: Self)
        ensures
            r == default_options(),
    {
        YamlFormatOptions {
            print_width: 80,
            tab_width: 2,
            single_quote: false,
            preserve_quotes: false,
            bracket_spacing: true,
            yaml_version: YamlVersion::V1_2,
            format_enforce_block_style: false,
            format_remove_duplicate_keys: false,
            format_indent_sequences: true,
            line_ending: LineEnding::Lf,
            insert_final_newline: true,
        }
    }
}

} // verus!
