//! A markup-template parser and attribute-cascade resolver for declarative
//! UI component trees: an indentation-based grammar for component templates
//! and stylesheets, and a deterministic, document-order merge of style rules
//! with per-component attributes, gated by runtime-evaluated conditionals.

mod attributes;
mod error;
mod events;
mod laws;
mod parser;
mod save_input;
mod template;
mod top_bar;
mod value;

pub use attributes::{
    Attributes, ConditionalEvaluator, TableRuntime, UiContext, spec_apply_attrs,
    spec_apply_style, spec_include, spec_resolve, table_lookup,
};
pub use error::{Error, ParseErrorKind, ParserError, ParserErrorSpec};
pub use events::ComponentEvents;
pub use laws::{
    lemma_build_flatten, lemma_later_rule_wins, lemma_local_overrides_style,
    lemma_no_duplicate_unconditional_keys, lemma_no_indent_jump, lemma_resolve_char,
    lemma_resolve_idempotent, lemma_single_root, lemma_unit_indentation, spec_cascade_attrs,
    spec_flatten, spec_flatten_seq, spec_last_included, spec_matching_attrs,
};
pub use parser::{
    EntrySpec, TemplateParser, spec_blank_len, spec_blank_newlines, spec_build,
    spec_build_children, spec_build_node, spec_build_style, spec_digits_len, spec_digits_value,
    spec_dup_uncond, spec_ident_len, spec_lex, spec_parse_block_items, spec_parse_document,
    spec_parse_entry, spec_parse_number, spec_parse_string, spec_parse_style,
    spec_parse_tuple_items, spec_parse_value, spec_quote_dist, spec_spaces_len, tpl_seq_view,
    val_seq_view,
};
pub use save_input::{SaveAction, SaveInputController, spec_save_action, spec_save_actions};
pub use top_bar::{
    BuildChoice, BuildMenu, BuildState, GameMenu, ObjectClassId, TopBar, spec_button_fold,
    spec_menu_choice,
};
pub use template::{
    AttrSpec, Attribute, AttributeList, ComponentTemplate, Style, StyleComponent, StyleRuleSpec,
    Template, TemplateSpec, attr_seq_view, spec_attr_lookup,
};
pub use value::{Decimal, Value, ValueSpec};
