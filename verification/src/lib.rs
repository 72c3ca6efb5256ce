//! A reader for a small part of SQL: one `SELECT` statement with its
//! fields, its source table, joins, a filter, a grouping, an ordering and a
//! limit. The text is matched against a grammar of ordered choices, the
//! match is turned into a tree of clauses, and the tree can be written out
//! as indented text.
//!
//! `syntax` holds the grammar, `parser` the code that matches a text
//! against it, `ast` the tree and how it comes from a match, `render` its
//! text. `shape`, `span`, `laws` and `layout` hold what is proved of the
//! grammar, of the tree and of its text.

pub mod ast;
pub mod laws;
pub mod layout;
pub mod number;
pub mod parser;
pub mod render;
pub mod report;
pub mod rule;
pub mod shape;
pub mod span;
pub mod statement;
pub mod syntax;
pub mod text;
pub mod token;
pub mod tree;

pub use ast::SQLNode;
pub use parser::Grammar;
pub use rule::Rule;
pub use statement::{parse_sql, SQLError};
pub use tree::{Pair, ParseFailure};
