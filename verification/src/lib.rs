//! A localization-lowering pass for a component-template language.
//!
//! Given a parsed template tree and a set of per-locale translation tables,
//! the engine rewrites the tree so that every locale's text is baked in as a
//! chain of static conditional branches selected by a runtime `locale` value.
//! The template parser and the serializer are external collaborators; this
//! crate holds the transform engine itself, specified and verified over a
//! plain tree model of its own.

pub mod catalog;
pub mod compile;
pub mod key;
pub mod loc;
pub mod scan;
pub mod search;
pub mod strings;
pub mod tree;

pub use catalog::{merge_map, order_trans_content, parse_trans_content};
pub use catalog::{OrderedTransContent, TransContent};
pub use compile::{
    compile_template, contains_i18n_translate_children, get_first_child_position, is_i18n_tag,
    remove_i18n_tag, remove_i18n_translate_children, translate, translate_attribute,
    translate_entire_children, translate_template, translate_value, CompiledTemplate,
};
pub use search::{collect_terms, search_template, search_terms, UntranslatedTerms};
