use vstd::prelude::*;
use vstd::string::StringExecFns;
use crate::ast::{build_statement, statement_ast, SQLNode};
use crate::parser::Grammar;
use crate::report::{describe, failure_text};
use crate::rule::Rule;
use crate::syntax::{matching, Outcome};

verus! {

/// Why a text is no statement.
#[derive(Debug, PartialEq, Eq)]
pub enum SQLError {
    /// The text does not match the grammar; the string tells where matching
    /// stopped and which rule was wanted there.
    ParseError(String),
}

impl SQLError {
    /// What the error holds: the account of the failure.
    pub open spec fn detail(self) -> Seq<char> {
        match self {
            SQLError::ParseError(detail) => detail@,
        }
    }

    /// The error as a line for a reader.
    pub fn to_string(&self) -> (text: String)
        ensures
            text@ == "Failed to parse SQL statement: "@ + self.detail(),
    {
        match self {
            SQLError::ParseError(detail) => {
                let mut text = String::from_str("Failed to parse SQL statement: ");
                text.append(detail.as_str());
                text
            },
        }
    }
}

/// The outcome of matching a statement at the start of the text `s`.
pub open spec fn statement(s: Seq<char>) -> Outcome {
    matching(Rule::select_stmt, s, 0)
}

/// Reads `input` as one statement. The statement has to start at the first
/// character; what follows its semicolon is not read. The result is the
/// tree of the statement's match where there is one, and else the account
/// of the furthest failure of matching.
pub fn parse_sql(input: &str) -> (r: Result<SQLNode, SQLError>)
    ensures
        match r {
            Ok(node) => statement(input@).node is Some && node@ == statement_ast(
                statement(input@).node->0,
            ) && node@.is_statement(),
            Err(e) => statement(input@).node is None && statement(input@).furthest is Some
                && e.detail() == failure_text(input@, statement(input@).furthest->0),
        },
{
    match Grammar::parse(Rule::select_stmt, input) {
        Ok(tree) => Ok(build_statement(&tree)),
        Err(failure) => Err(SQLError::ParseError(describe(input, failure))),
    }
}

} // verus!
