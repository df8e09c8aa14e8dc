//! A compiler core for a small structure-based markup language with named
//! fragments (variables) and parameterised fragments (macros).
//!
//! The front end hands over a parse tree, which is read into a syntax tree;
//! the engine expands that into a tree of elements and literals in which
//! every reference has been resolved, and the renderer turns that tree into
//! a plain description of the markup. Beside that stands the reading of
//! the older line-by-line notation, one line at a time.
pub mod attributes;
pub mod engine;
pub mod error;
pub mod html;
pub mod identifier;
pub mod laws;
pub mod lines;
pub mod node;
pub mod parse_tree;
pub mod scope;
pub mod semantics;
pub mod syntax;

pub use attributes::merge_attributes;
pub use engine::{
    process_children, process_definition, process_element, process_line, process_string_line,
    process_variable, transpile, Document,
};
pub use error::CompileError;
pub use html::{stack_to_html, stack_to_str, HtmlElement};
pub use identifier::is_valid_identifier;
pub use lines::{
    classify_line, classify_with, find_line_facts, indent_level, is_skipped_line, LineFacts,
    LineKind,
};
pub use node::{ElementNode, LiteralNode, Node, PlaceholderNode};
pub use parse_tree::{
    read_attribute, read_definition, read_element, read_line, read_lines, read_variable,
    unwrap_identifier, unwrap_string, ParseNode, RuleKind,
};
pub use scope::{Binding, ScopeArena};
pub use syntax::{Attribute, SyntaxNode};
