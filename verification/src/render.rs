use vstd::prelude::*;
use vstd::string::StringExecFns;
use crate::ast::{asts_of, lemma_asts, Ast, SQLNode};
use crate::layout::{
    lemma_clause_layout, lemma_condition_layout, lemma_statement_layout, outline, outline_by,
};

verus! {

/// What `Debug` of std writes for a string with the characters `text`: the
/// text between double quotes, with escapes for the characters that need
/// them.
pub uninterp spec fn debug_text(text: Seq<char>) -> Seq<char>;

/// `Debug` of std for `str`, through `format!`: the result is the value
/// that `debug_text` names.
#[verifier::external_body]
fn quoted(text: &str) -> (shown: String)
    ensures
        shown@ == debug_text(text@),
{
    format!("{:?}", text)
}

/// The text of a tree written as it stands, with its own node as the
/// root: see `rendered_as`.
pub open spec fn rendered(ast: Ast) -> Seq<char> {
    rendered_as(ast, false)
}

/// The text of a tree: a line that starts with `- ` and the node's tag for
/// each node, the fields of a node after its tag or on lines of their own
/// below it. The first line of a node has no margin of its own. `inside`
/// tells whether the node stands below a statement. Below a statement a
/// level is two spaces, so that the parts of a condition stand 6 spaces
/// in; in a tree with another root a level is four spaces, and they stand
/// 8 spaces in (`layout` proves the even steps).
pub open spec fn rendered_as(ast: Ast, inside: bool) -> Seq<char>
    decreases ast,
{
    match ast {
        Ast::AggField { func: Some(func), identifier } => "- agg_field\n    - aggregate_func: "@
            + debug_text(func) + "\n    - identifier: "@ + debug_text(identifier),
        Ast::AggField { func: None, identifier } => "- agg_field > identifier: "@ + debug_text(
            identifier,
        ),
        Ast::SelectStmt(clauses) => "- select_stmt\n"@ + rendered_each(
            clauses,
            "  "@,
            "\n"@,
            true,
        ),
        Ast::FromClause(table) => "- from_clause > identifier: "@ + debug_text(table),
        Ast::JoinClause { table, left, right } => "- join_clause\n    - identifier: "@
            + debug_text(table) + "\n    - identifier: "@ + debug_text(left)
            + "\n    - identifier: "@ + debug_text(right),
        Ast::WhereClause(parts) => "- where_clause"@ + rendered_each(
            parts,
            "\n    "@,
            ""@,
            inside,
        ),
        Ast::WhereCondition(parts) => "- where_condition"@ + rendered_each(
            parts,
            if inside {
                "\n      "@
            } else {
                "\n        "@
            },
            ""@,
            inside,
        ),
        Ast::GroupByClause(columns) => "- group_by_clause"@ + rendered_each(
            columns,
            "\n    "@,
            ""@,
            inside,
        ),
        Ast::OrderByClause { identifier, order_type: Some(order) } =>
            "- order_by_clause\n    - identifier: "@ + debug_text(identifier)
            + "\n    - order_type: "@ + debug_text(order),
        Ast::OrderByClause { identifier, order_type: None } =>
            "- order_by_clause\n    - identifier: "@ + debug_text(identifier),
        Ast::LimitClause(number) => "- limit_clause > number: "@ + debug_text(number),
        Ast::Identifier(text) => "- identifier: "@ + debug_text(text),
        Ast::Number(text) => "- number: "@ + debug_text(text),
        Ast::ComparisonOp(text) => "- comparison_op: "@ + debug_text(text),
        Ast::LogicalOp(text) => "- logical_op: "@ + debug_text(text),
    }
}

/// The texts of `items` one after the other, each between `before` and
/// `after`.
pub open spec fn rendered_each(
    items: Seq<Ast>,
    before: Seq<char>,
    after: Seq<char>,
    inside: bool,
) -> Seq<char>
    decreases items,
{
    if items.len() == 0 {
        Seq::empty()
    } else {
        rendered_each(items.drop_last(), before, after, inside) + before + rendered_as(
            items.last(),
            inside,
        ) + after
    }
}

/// Appends a tag and the quoted form of `text`.
fn write_field(out: &mut String, tag: &str, text: &String)
    ensures
        final(out)@ == old(out)@ + tag@ + debug_text(text@),
{
    out.append(tag);
    let shown = quoted(text.as_str());
    out.append(shown.as_str());
}

/// Appends the texts of `items`, each between `before` and `after`.
fn write_each(items: &Vec<SQLNode>, before: &str, after: &str, inside: bool, out: &mut String)
    ensures
        final(out)@ == old(out)@ + rendered_each(asts_of(items@), before@, after@, inside),
    decreases items, 1nat,
{
    let ghost base = out@;
    let ghost all = asts_of(items@);
    proof {
        lemma_asts(items@);
        assert(all.take(0) =~= Seq::empty());
        assert(out@ =~= base + rendered_each(all.take(0), before@, after@, inside));
    }
    let mut i: usize = 0;
    while i < items.len()
        invariant
            i <= items.len(),
            all == asts_of(items@),
            all.len() == items.len(),
            forall|k: int| 0 <= k < items.len() ==> #[trigger] all[k] == items[k]@,
            out@ == base + rendered_each(all.take(i as int), before@, after@, inside),
        decreases items.len() - i,
    {
        let ghost done = rendered_each(all.take(i as int), before@, after@, inside);
        out.append(before);
        write_node(&items[i], inside, out);
        out.append(after);
        proof {
            let next = all.take(i + 1);
            assert(next.drop_last() =~= all.take(i as int));
            assert(next.last() == items[i as int]@);
            assert(out@ =~= base + (done + before@ + rendered_as(items[i as int]@, inside)
                + after@));
        }
        i += 1;
    }
    proof {
        assert(all.take(items.len() as int) =~= all);
    }
}

/// Appends the text of `node`; `inside` tells whether the node stands
/// below a statement.
fn write_node(node: &SQLNode, inside: bool, out: &mut String)
    ensures
        final(out)@ == old(out)@ + rendered_as(node@, inside),
    decreases node, 0nat,
{
    let ghost base = out@;
    match node {
        SQLNode::AggField { func: Some(func), identifier } => {
            write_field(out, "- agg_field\n    - aggregate_func: ", func);
            write_field(out, "\n    - identifier: ", identifier);
        },
        SQLNode::AggField { func: None, identifier } => {
            write_field(out, "- agg_field > identifier: ", identifier);
        },
        SQLNode::SelectStmt(clauses) => {
            out.append("- select_stmt\n");
            write_each(clauses, "  ", "\n", true, out);
        },
        SQLNode::FromClause(table) => {
            write_field(out, "- from_clause > identifier: ", table);
        },
        SQLNode::JoinClause { table, left, right } => {
            write_field(out, "- join_clause\n    - identifier: ", table);
            write_field(out, "\n    - identifier: ", left);
            write_field(out, "\n    - identifier: ", right);
        },
        SQLNode::WhereClause(parts) => {
            out.append("- where_clause");
            write_each(parts, "\n    ", "", inside, out);
        },
        SQLNode::WhereCondition(parts) => {
            out.append("- where_condition");
            let before = if inside {
                "\n      "
            } else {
                "\n        "
            };
            write_each(parts, before, "", inside, out);
        },
        SQLNode::GroupByClause(columns) => {
            out.append("- group_by_clause");
            write_each(columns, "\n    ", "", inside, out);
        },
        SQLNode::OrderByClause { identifier, order_type: Some(order) } => {
            write_field(out, "- order_by_clause\n    - identifier: ", identifier);
            write_field(out, "\n    - order_type: ", order);
        },
        SQLNode::OrderByClause { identifier, order_type: None } => {
            write_field(out, "- order_by_clause\n    - identifier: ", identifier);
        },
        SQLNode::LimitClause(number) => {
            write_field(out, "- limit_clause > number: ", number);
        },
        SQLNode::Identifier(text) => {
            write_field(out, "- identifier: ", text);
        },
        SQLNode::Number(text) => {
            write_field(out, "- number: ", text);
        },
        SQLNode::ComparisonOp(text) => {
            write_field(out, "- comparison_op: ", text);
        },
        SQLNode::LogicalOp(text) => {
            write_field(out, "- logical_op: ", text);
        },
    }
    assert(out@ =~= base + rendered_as(node@, inside));
}

impl SQLNode {
    /// The text of the tree. It is a function of the tree alone: two
    /// trees with the same nodes have the same text. Every node is a line,
    /// and the lines of what it holds stand one even step further in at
    /// every level: two spaces in the text of a statement, four in the
    /// text of a clause, eight in the text of a condition.
    pub fn to_string(&self) -> (text: String)
        ensures
            text@ == rendered(self@),
            self@.is_statement() ==> text@ == outline(self@, 0),
            self@.is_clause() ==> text@ == outline_by(self@, 0, 2),
            self@.is_condition() ==> text@ == outline_by(self@, 0, 4),
    {
        let mut out = String::new();
        write_node(self, false, &mut out);
        assert(out@ =~= rendered(self@));
        proof {
            if self@.is_statement() {
                lemma_statement_layout(self@);
            }
            if self@.is_clause() {
                lemma_clause_layout(self@);
            }
            if self@.is_condition() {
                lemma_condition_layout(self@);
            }
        }
        out
    }
}

} // verus!
