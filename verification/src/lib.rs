//! A small document pipeline: a markup parser that builds a tree, a stylesheet
//! parser that builds an ordered rule list, and a resolver that cascades the
//! rules onto the tree's elements.
//!
//! - [`parser`] is the cursor that both parsers read their text with;
//!   [`parser::html_grammar`] and [`parser::css_grammar`] say what a text
//!   holds, and [`parser::html_parser`] and [`parser::css_parser`] compute it.
//! - [`dom`] is the tree and [`cssom`] the stylesheet.
//! - [`styling`] gives each element its values, and [`cascade`] states which
//!   declaration wins.
//! - [`document`] puts the three together, and [`entry`] holds what the
//!   command line program decides and prints.
//!
//! Neither parser fails: what cannot be parsed is left out, and a warning of
//! the form `line:column (offset) - message` stands for it.
pub mod cascade;
pub mod cssom;
pub mod document;
pub mod dom;
pub mod entry;
pub mod parser;
pub mod string_map;
pub mod styling;
pub mod text;
