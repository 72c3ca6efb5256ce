use vstd::prelude::*;
use crate::ast::{lemma_statement_ast, statement_ast, Ast};
use crate::render::{debug_text, rendered, rendered_as, rendered_each};
use crate::rule::Rule;
use crate::shape::lemma_shaped;
use crate::statement::statement;

verus! {

/// The margin of `width` units: two spaces for each unit.
pub open spec fn margin(width: nat) -> Seq<char>
    decreases width,
{
    if width == 0 {
        Seq::empty()
    } else {
        margin((width - 1) as nat) + seq![' ', ' ']
    }
}

/// The end of a line.
pub open spec fn line_break() -> Seq<char> {
    seq!['\n']
}

/// A line behind a margin of `at` units that holds a tag and a text in its
/// quoted form.
pub open spec fn field_line(at: nat, tag: Seq<char>, text: Seq<char>) -> Seq<char> {
    margin(at) + tag + debug_text(text)
}

/// The text of a tree whose first line stands behind a margin of `at`
/// units and in which every level stands `step` units further in than the
/// one above it: every node is a line, and what a node holds stands below
/// it one level further in, or after its tag where it is the node's only
/// field. The lines of a node are parted by line breaks; each clause of a
/// statement ends with one.
pub open spec fn outline_by(ast: Ast, at: nat, step: nat) -> Seq<char>
    decreases ast,
{
    let below = at + step;
    match ast {
        Ast::AggField { func: Some(func), identifier } => margin(at) + "- agg_field"@
            + line_break() + field_line(below, "- aggregate_func: "@, func) + line_break()
            + field_line(below, "- identifier: "@, identifier),
        Ast::AggField { func: None, identifier } => field_line(
            at,
            "- agg_field > identifier: "@,
            identifier,
        ),
        Ast::SelectStmt(clauses) => margin(at) + "- select_stmt"@ + line_break() + outline_each(
            clauses,
            below,
            step,
            Seq::empty(),
            line_break(),
        ),
        Ast::FromClause(table) => field_line(at, "- from_clause > identifier: "@, table),
        Ast::JoinClause { table, left, right } => margin(at) + "- join_clause"@ + line_break()
            + field_line(below, "- identifier: "@, table) + line_break() + field_line(
            below,
            "- identifier: "@,
            left,
        ) + line_break() + field_line(below, "- identifier: "@, right),
        Ast::WhereClause(parts) => margin(at) + "- where_clause"@ + outline_each(
            parts,
            below,
            step,
            line_break(),
            Seq::empty(),
        ),
        Ast::WhereCondition(parts) => margin(at) + "- where_condition"@ + outline_each(
            parts,
            below,
            step,
            line_break(),
            Seq::empty(),
        ),
        Ast::GroupByClause(columns) => margin(at) + "- group_by_clause"@ + outline_each(
            columns,
            below,
            step,
            line_break(),
            Seq::empty(),
        ),
        Ast::OrderByClause { identifier, order_type: Some(order) } => margin(at)
            + "- order_by_clause"@ + line_break() + field_line(
            below,
            "- identifier: "@,
            identifier,
        ) + line_break() + field_line(below, "- order_type: "@, order),
        Ast::OrderByClause { identifier, order_type: None } => margin(at) + "- order_by_clause"@
            + line_break() + field_line(below, "- identifier: "@, identifier),
        Ast::LimitClause(number) => field_line(at, "- limit_clause > number: "@, number),
        Ast::Identifier(text) => field_line(at, "- identifier: "@, text),
        Ast::Number(text) => field_line(at, "- number: "@, text),
        Ast::ComparisonOp(text) => field_line(at, "- comparison_op: "@, text),
        Ast::LogicalOp(text) => field_line(at, "- logical_op: "@, text),
    }
}

/// The texts of `items` behind a margin of `at` units one after the other,
/// each between `before` and `after`.
pub open spec fn outline_each(
    items: Seq<Ast>,
    at: nat,
    step: nat,
    before: Seq<char>,
    after: Seq<char>,
) -> Seq<char>
    decreases items,
{
    if items.len() == 0 {
        Seq::empty()
    } else {
        outline_each(items.drop_last(), at, step, before, after) + before + outline_by(
            items.last(),
            at,
            step,
        ) + after
    }
}

/// The text of a tree whose first line stands at `level`, each level two
/// spaces further in than the one above it.
pub open spec fn outline(ast: Ast, level: nat) -> Seq<char> {
    outline_by(ast, level, 1)
}

/// True of the nodes that hold one text and nothing below them.
pub open spec fn is_leaf(ast: Ast) -> bool {
    ast is Identifier || ast is Number || ast is ComparisonOp || ast is LogicalOp
}

/// The margins that are written, and the empty text.
proof fn lemma_margins()
    ensures
        "  "@ == margin(1),
        "\n    "@ == line_break() + margin(2),
        "\n      "@ == line_break() + margin(3),
        "\n        "@ == line_break() + margin(4),
        "\n"@ == line_break(),
        ""@ == Seq::<char>::empty(),
        margin(0) == Seq::<char>::empty(),
{
    reveal_with_fuel(margin, 5);
    reveal_strlit("  ");
    reveal_strlit("\n    ");
    reveal_strlit("\n      ");
    reveal_strlit("\n        ");
    reveal_strlit("\n");
    reveal_strlit("");
    assert("  "@ =~= margin(1));
    assert("\n    "@ =~= line_break() + margin(2));
    assert("\n      "@ =~= line_break() + margin(3));
    assert("\n        "@ =~= line_break() + margin(4));
    assert("\n"@ =~= line_break());
    assert(""@ =~= Seq::<char>::empty());
}

/// The tags that are written with what follows them on the next line, in
/// their parts.
proof fn lemma_tags()
    ensures
        "- select_stmt\n"@ == "- select_stmt"@ + line_break(),
        "- agg_field\n    - aggregate_func: "@ == "- agg_field"@ + line_break() + margin(2)
            + "- aggregate_func: "@,
        "- join_clause\n    - identifier: "@ == "- join_clause"@ + line_break() + margin(2)
            + "- identifier: "@,
        "- order_by_clause\n    - identifier: "@ == "- order_by_clause"@ + line_break() + margin(2)
            + "- identifier: "@,
        "\n    - identifier: "@ == line_break() + margin(2) + "- identifier: "@,
        "\n    - order_type: "@ == line_break() + margin(2) + "- order_type: "@,
{
    reveal_with_fuel(margin, 3);
    reveal_strlit("- select_stmt\n");
    reveal_strlit("- select_stmt");
    reveal_strlit("- agg_field\n    - aggregate_func: ");
    reveal_strlit("- agg_field");
    reveal_strlit("- aggregate_func: ");
    reveal_strlit("- join_clause\n    - identifier: ");
    reveal_strlit("- join_clause");
    reveal_strlit("- identifier: ");
    reveal_strlit("- order_by_clause\n    - identifier: ");
    reveal_strlit("- order_by_clause");
    reveal_strlit("\n    - identifier: ");
    reveal_strlit("\n    - order_type: ");
    reveal_strlit("- order_type: ");
    assert("- select_stmt\n"@ =~= "- select_stmt"@ + line_break());
    assert("- agg_field\n    - aggregate_func: "@ =~= "- agg_field"@ + line_break() + margin(2)
        + "- aggregate_func: "@);
    assert("- join_clause\n    - identifier: "@ =~= "- join_clause"@ + line_break() + margin(2)
        + "- identifier: "@);
    assert("- order_by_clause\n    - identifier: "@ =~= "- order_by_clause"@ + line_break()
        + margin(2) + "- identifier: "@);
    assert("\n    - identifier: "@ =~= line_break() + margin(2) + "- identifier: "@);
    assert("\n    - order_type: "@ =~= line_break() + margin(2) + "- order_type: "@);
}

/// Where each of `items` is written as its text behind the margin, the
/// items in a row are written so too.
proof fn lemma_each(
    items: Seq<Ast>,
    at: nat,
    step: nat,
    lead: Seq<char>,
    before: Seq<char>,
    after: Seq<char>,
    inside: bool,
)
    requires
        before == lead + margin(at),
        forall|i: int|
            0 <= i < items.len() ==> outline_by(#[trigger] items[i], at, step) == margin(at)
                + rendered_as(items[i], inside),
    ensures
        rendered_each(items, before, after, inside) == outline_each(items, at, step, lead, after),
    decreases items.len(),
{
    if items.len() > 0 {
        let front = items.drop_last();
        assert forall|i: int| 0 <= i < front.len() implies outline_by(
            #[trigger] front[i],
            at,
            step,
        ) == margin(at) + rendered_as(front[i], inside) by {
            assert(front[i] == items[i]);
        }
        lemma_each(front, at, step, lead, before, after, inside);
        assert(outline_by(items.last(), at, step) == margin(at) + rendered_as(
            items.last(),
            inside,
        ));
        assert(rendered_each(items, before, after, inside) =~= outline_each(
            items,
            at,
            step,
            lead,
            after,
        ));
    }
}

/// A leaf behind a margin is its text behind that margin.
proof fn lemma_leaf(ast: Ast, at: nat, step: nat, inside: bool)
    requires
        is_leaf(ast),
    ensures
        outline_by(ast, at, step) == margin(at) + rendered_as(ast, inside),
{
    assert(outline_by(ast, at, step) =~= margin(at) + rendered_as(ast, inside));
}

/// The margin of the parts of a condition, in units: 3 below a statement,
/// 4 in a tree with another root.
pub open spec fn parts_margin(inside: bool) -> nat {
    if inside {
        3
    } else {
        4
    }
}

/// A condition whose parts stand behind their margin is its text behind
/// its own margin.
proof fn lemma_condition(ast: Ast, at: nat, step: nat, inside: bool)
    requires
        ast.is_condition(),
        at + step == parts_margin(inside),
    ensures
        outline_by(ast, at, step) == margin(at) + rendered_as(ast, inside),
{
    lemma_margins();
    let parts = ast->WhereCondition_0;
    let below = (at + step) as nat;
    assert forall|i: int| 0 <= i < parts.len() implies outline_by(
        #[trigger] parts[i],
        below,
        step,
    ) == margin(below) + rendered_as(parts[i], inside) by {
        lemma_leaf(parts[i], below, step, inside);
    }
    let before = if inside {
        "\n      "@
    } else {
        "\n        "@
    };
    lemma_each(parts, below, step, line_break(), before, Seq::empty(), inside);
    assert(outline_by(ast, at, step) =~= margin(at) + rendered_as(ast, inside));
}

/// A clause that holds texts alone, its fields behind a margin of 2
/// units, is its text behind its own margin.
proof fn lemma_plain_clause(ast: Ast, at: nat, step: nat, inside: bool)
    requires
        ast is AggField || ast is FromClause || ast is JoinClause || ast is OrderByClause
            || ast is LimitClause,
        at + step == 2,
    ensures
        outline_by(ast, at, step) == margin(at) + rendered_as(ast, inside),
{
    lemma_tags();
    assert(outline_by(ast, at, step) =~= margin(at) + rendered_as(ast, inside));
}

/// A filter whose conditions stand behind a margin of 2 units, and their
/// parts behind theirs, is its text behind its own margin.
proof fn lemma_filter_clause(ast: Ast, at: nat, step: nat, inside: bool)
    requires
        ast is WhereClause,
        ast.is_clause(),
        at + step == 2,
        at + step + step == parts_margin(inside),
    ensures
        outline_by(ast, at, step) == margin(at) + rendered_as(ast, inside),
{
    lemma_margins();
    let parts = ast->WhereClause_0;
    assert forall|i: int| 0 <= i < parts.len() implies outline_by(#[trigger] parts[i], 2, step)
        == margin(2) + rendered_as(parts[i], inside) by {
        assert(parts[i].is_filter_part(i));
        if i % 2 == 0 {
            lemma_condition(parts[i], 2, step, inside);
        } else {
            lemma_leaf(parts[i], 2, step, inside);
        }
    }
    lemma_each(parts, 2, step, line_break(), "\n    "@, Seq::empty(), inside);
    assert(outline_by(ast, at, step) =~= margin(at) + rendered_as(ast, inside));
}

/// A grouping whose columns stand behind a margin of 2 units is its text
/// behind its own margin.
proof fn lemma_grouping_clause(ast: Ast, at: nat, step: nat, inside: bool)
    requires
        ast is GroupByClause,
        ast.is_clause(),
        at + step == 2,
    ensures
        outline_by(ast, at, step) == margin(at) + rendered_as(ast, inside),
{
    lemma_margins();
    let columns = ast->GroupByClause_0;
    assert forall|i: int| 0 <= i < columns.len() implies outline_by(
        #[trigger] columns[i],
        2,
        step,
    ) == margin(2) + rendered_as(columns[i], inside) by {
        lemma_leaf(columns[i], 2, step, inside);
    }
    lemma_each(columns, 2, step, line_break(), "\n    "@, Seq::empty(), inside);
    assert(outline_by(ast, at, step) =~= margin(at) + rendered_as(ast, inside));
}

/// A clause whose fields stand behind a margin of 2 units, and the parts
/// of its conditions behind theirs, is its text behind its own margin.
proof fn lemma_clause(ast: Ast, at: nat, step: nat, inside: bool)
    requires
        ast.is_clause(),
        at + step == 2,
        at + step + step == parts_margin(inside),
    ensures
        outline_by(ast, at, step) == margin(at) + rendered_as(ast, inside),
{
    if ast is WhereClause {
        lemma_filter_clause(ast, at, step, inside);
    } else if ast is GroupByClause {
        lemma_grouping_clause(ast, at, step, inside);
    } else {
        lemma_plain_clause(ast, at, step, inside);
    }
}

/// In the text of a statement every node is a line at its level and what
/// it holds stands one level further in: the step from a node's line to
/// the lines of its children is two spaces at every level.
pub proof fn lemma_statement_layout(ast: Ast)
    requires
        ast.is_statement(),
    ensures
        rendered(ast) == outline(ast, 0),
{
    lemma_margins();
    lemma_tags();
    let clauses = ast->SelectStmt_0;
    assert forall|i: int| 0 <= i < clauses.len() implies outline_by(#[trigger] clauses[i], 1, 1)
        == margin(1) + rendered_as(clauses[i], true) by {
        lemma_clause(clauses[i], 1, 1, true);
    }
    assert("  "@ =~= Seq::<char>::empty() + margin(1));
    lemma_each(clauses, 1, 1, Seq::empty(), "  "@, line_break(), true);
    assert(rendered(ast) =~= outline(ast, 0));
}

/// In the text of a clause that is written alone the step from a node's
/// line to the lines of its children is four spaces at every level: the
/// fields of a clause and the conditions of a filter stand 4 spaces in,
/// the parts of a condition 8.
pub proof fn lemma_clause_layout(ast: Ast)
    requires
        ast.is_clause(),
    ensures
        rendered(ast) == outline_by(ast, 0, 2),
{
    lemma_margins();
    lemma_clause(ast, 0, 2, false);
    assert(rendered(ast) =~= outline_by(ast, 0, 2));
}

/// In the text of a condition that is written alone its parts stand 8
/// spaces in.
pub proof fn lemma_condition_layout(ast: Ast)
    requires
        ast.is_condition(),
    ensures
        rendered(ast) == outline_by(ast, 0, 4),
{
    lemma_margins();
    lemma_condition(ast, 0, 4, false);
    assert(rendered(ast) =~= outline_by(ast, 0, 4));
}

/// The text of the tree of every text that is a statement is laid out in
/// steps of two spaces.
pub proof fn lemma_parsed_layout(s: Seq<char>)
    requires
        statement(s).node is Some,
    ensures
        rendered(statement_ast(statement(s).node->0)) == outline(
            statement_ast(statement(s).node->0),
            0,
        ),
{
    lemma_shaped(Rule::select_stmt, s, 0);
    lemma_statement_ast(statement(s).node->0);
    lemma_statement_layout(statement_ast(statement(s).node->0));
}

} // verus!
