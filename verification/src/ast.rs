use vstd::prelude::*;
use crate::number::{float_literal, is_float_literal};
use crate::rule::Rule;
use crate::shape::{clause_shaped, filter_part, flat_shaped, place, shaped};
use crate::tree::{lemma_inner, Node, Pair};

verus! {

/// A node of the statement's tree. A statement is a `SelectStmt` whose
/// children are the clauses in the order in which they were written.
#[derive(Debug, PartialEq, Eq)]
pub enum SQLNode {
    AggField { func: Option<String>, identifier: String },
    SelectStmt(Vec<SQLNode>),
    FromClause(String),
    JoinClause { table: String, left: String, right: String },
    WhereClause(Vec<SQLNode>),
    WhereCondition(Vec<SQLNode>),
    GroupByClause(Vec<SQLNode>),
    OrderByClause { identifier: String, order_type: Option<String> },
    LimitClause(String),
    Identifier(String),
    Number(String),
    ComparisonOp(String),
    LogicalOp(String),
}

/// A node of the statement's tree as the contracts speak of it.
pub enum Ast {
    AggField { func: Option<Seq<char>>, identifier: Seq<char> },
    SelectStmt(Seq<Ast>),
    FromClause(Seq<char>),
    JoinClause { table: Seq<char>, left: Seq<char>, right: Seq<char> },
    WhereClause(Seq<Ast>),
    WhereCondition(Seq<Ast>),
    GroupByClause(Seq<Ast>),
    OrderByClause { identifier: Seq<char>, order_type: Option<Seq<char>> },
    LimitClause(Seq<char>),
    Identifier(Seq<char>),
    Number(Seq<char>),
    ComparisonOp(Seq<char>),
    LogicalOp(Seq<char>),
}

/// The text that an optional string holds.
pub open spec fn text_in(t: Option<String>) -> Option<Seq<char>> {
    match t {
        Some(x) => Some(x@),
        None => None,
    }
}

impl View for SQLNode {
    type V = Ast;

    open spec fn view(&self) -> Ast
        decreases self,
    {
        match self {
            SQLNode::AggField { func, identifier } => Ast::AggField {
                func: text_in(*func),
                identifier: identifier@,
            },
            SQLNode::SelectStmt(children) => Ast::SelectStmt(asts_of(children@)),
            SQLNode::FromClause(table) => Ast::FromClause(table@),
            SQLNode::JoinClause { table, left, right } => Ast::JoinClause {
                table: table@,
                left: left@,
                right: right@,
            },
            SQLNode::WhereClause(children) => Ast::WhereClause(asts_of(children@)),
            SQLNode::WhereCondition(children) => Ast::WhereCondition(asts_of(children@)),
            SQLNode::GroupByClause(children) => Ast::GroupByClause(asts_of(children@)),
            SQLNode::OrderByClause { identifier, order_type } => Ast::OrderByClause {
                identifier: identifier@,
                order_type: text_in(*order_type),
            },
            SQLNode::LimitClause(number) => Ast::LimitClause(number@),
            SQLNode::Identifier(text) => Ast::Identifier(text@),
            SQLNode::Number(text) => Ast::Number(text@),
            SQLNode::ComparisonOp(text) => Ast::ComparisonOp(text@),
            SQLNode::LogicalOp(text) => Ast::LogicalOp(text@),
        }
    }
}

/// The trees that a sequence of nodes stands for.
pub open spec fn asts_of(nodes: Seq<SQLNode>) -> Seq<Ast>
    decreases nodes,
{
    Seq::new(
        nodes.len(),
        |i: int|
            if 0 <= i < nodes.len() {
                nodes[i]@
            } else {
                arbitrary()
            },
    )
}

/// The trees of a sequence of nodes are the trees of each, in order.
pub proof fn lemma_asts(nodes: Seq<SQLNode>)
    ensures
        asts_of(nodes).len() == nodes.len(),
        forall|i: int| 0 <= i < nodes.len() ==> #[trigger] asts_of(nodes)[i] == nodes[i]@,
{
}

/// The node for the value of a condition: a number where its text reads as
/// a floating-point literal, an identifier where it does not. A quoted
/// string keeps its quotes and is an identifier.
pub open spec fn value_ast(text: Seq<char>) -> Ast {
    if float_literal(text) {
        Ast::Number(text)
    } else {
        Ast::Identifier(text)
    }
}

/// The node for one match of `where_condition`.
pub open spec fn condition_ast(n: Node) -> Ast {
    Ast::WhereCondition(
        seq![
            Ast::Identifier(n.inner[0].text),
            Ast::ComparisonOp(n.inner[1].text),
            value_ast(n.inner[2].text),
        ],
    )
}

/// The node for one inner match of `where_clause`: a condition or a logical
/// operator.
pub open spec fn filter_ast(n: Node) -> Ast {
    if n.rule == Rule::logical_op {
        Ast::LogicalOp(n.text)
    } else {
        condition_ast(n)
    }
}

/// The node for one match of `identifier` in a grouping clause.
pub open spec fn column_ast(n: Node) -> Ast {
    Ast::Identifier(n.text)
}

/// The node for one clause of the statement.
pub open spec fn clause_ast(n: Node) -> Ast {
    match n.rule {
        Rule::agg_field => if n.inner[0].rule == Rule::aggregate_func {
            Ast::AggField { func: Some(n.inner[0].text), identifier: n.inner[1].text }
        } else {
            Ast::AggField { func: None, identifier: n.inner[0].text }
        },
        Rule::from_clause => Ast::FromClause(n.inner[0].text),
        Rule::join_clause => Ast::JoinClause {
            table: n.inner[0].text,
            left: n.inner[1].text,
            right: n.inner[2].text,
        },
        Rule::where_clause => Ast::WhereClause(n.inner.map_values(|c: Node| filter_ast(c))),
        Rule::group_by_clause => Ast::GroupByClause(n.inner.map_values(|c: Node| column_ast(c))),
        Rule::order_by_clause => Ast::OrderByClause {
            identifier: n.inner[0].text,
            order_type: if n.inner.len() > 1 {
                Some(n.inner[1].text)
            } else {
                None
            },
        },
        _ => Ast::LimitClause(n.inner[0].text),
    }
}

/// The tree for a match of `select_stmt`: its clauses in their order.
pub open spec fn statement_ast(n: Node) -> Ast {
    Ast::SelectStmt(n.inner.map_values(|c: Node| clause_ast(c)))
}

impl Ast {
    /// True of a condition: an identifier, a comparison operator and a
    /// value, which is a number exactly when its text reads as a
    /// floating-point literal and an identifier otherwise.
    pub open spec fn is_condition(self) -> bool {
        self matches Ast::WhereCondition(c) && c.len() == 3 && c[0] is Identifier
            && c[1] is ComparisonOp && match c[2] {
            Ast::Number(t) => float_literal(t),
            Ast::Identifier(t) => !float_literal(t),
            _ => false,
        }
    }

    /// True of what stands at place `k` of a filter: a condition at the
    /// even places, a logical operator at the odd ones.
    pub open spec fn is_filter_part(self, k: int) -> bool {
        if k % 2 == 0 {
            self.is_condition()
        } else {
            self is LogicalOp
        }
    }

    /// True of a clause of a statement. A filter holds conditions and
    /// logical operators in turn, a condition first and last; a grouping
    /// clause holds identifiers, at least one.
    pub open spec fn is_clause(self) -> bool {
        match self {
            Ast::AggField { .. } => true,
            Ast::FromClause(_) => true,
            Ast::JoinClause { .. } => true,
            Ast::WhereClause(parts) => parts.len() % 2 == 1 && forall|i: int|
                0 <= i < parts.len() ==> (#[trigger] parts[i]).is_filter_part(i),
            Ast::GroupByClause(columns) => columns.len() >= 1 && forall|i: int|
                0 <= i < columns.len() ==> #[trigger] columns[i] is Identifier,
            Ast::OrderByClause { .. } => true,
            Ast::LimitClause(_) => true,
            _ => false,
        }
    }

    /// The place of a clause in a statement, by its kind: fields first,
    /// then the source, the joins, the filter, the grouping, the ordering
    /// and the limit.
    pub open spec fn place(self) -> int {
        match self {
            Ast::AggField { .. } => 0,
            Ast::FromClause(_) => 1,
            Ast::JoinClause { .. } => 2,
            Ast::WhereClause(_) => 3,
            Ast::GroupByClause(_) => 4,
            Ast::OrderByClause { .. } => 5,
            Ast::LimitClause(_) => 6,
            _ => 7,
        }
    }

    /// True of a statement: a `SelectStmt` of clauses in the order of
    /// their places, the first of them a field and one of them the source,
    /// of which only fields and joins come more than once.
    pub open spec fn is_statement(self) -> bool {
        self matches Ast::SelectStmt(clauses) && {
            &&& forall|i: int| 0 <= i < clauses.len() ==> (#[trigger] clauses[i]).is_clause()
            &&& forall|i: int, j: int|
                0 <= i < j < clauses.len() ==> (#[trigger] clauses[i]).place() <= (
                #[trigger] clauses[j]).place() && (clauses[i].place() == clauses[j].place()
                    ==> clauses[i] is AggField || clauses[i] is JoinClause)
            &&& clauses.len() >= 2
            &&& clauses[0] is AggField
            &&& exists|k: int| 0 <= k < clauses.len() && #[trigger] clauses[k] is FromClause
        }
    }
}

/// The tree of a statement's match is a statement.
pub proof fn lemma_statement_ast(n: Node)
    requires
        n.rule == Rule::select_stmt,
        shaped(n),
    ensures
        statement_ast(n).is_statement(),
{
    let clauses = n.inner.map_values(|c: Node| clause_ast(c));
    assert forall|i: int| 0 <= i < clauses.len() implies (#[trigger] clauses[i]).place()
        == place(n.inner[i].rule) by {
        assert(clause_shaped(n.inner[i]));
    }
    assert forall|i: int, j: int| 0 <= i < j < clauses.len() implies (
    #[trigger] clauses[i]).place() <= (#[trigger] clauses[j]).place() && (clauses[i].place()
        == clauses[j].place() ==> clauses[i] is AggField || clauses[i] is JoinClause) by {
        assert(place(n.inner[i].rule) <= place(n.inner[j].rule));
        assert(clause_shaped(n.inner[i]));
    }
    let k = choose|k: int| 0 <= k < n.inner.len() && (#[trigger] n.inner[k]).rule
        == Rule::from_clause;
    assert(clauses[k] is FromClause);
    assert(clauses[0] is AggField);
    assert forall|i: int| 0 <= i < clauses.len() implies (#[trigger] clauses[i]).is_clause() by {
        let c = n.inner[i];
        assert(clause_shaped(c));
        assert(clauses[i] == clause_ast(c));
        if c.rule == Rule::where_clause {
            let parts = c.inner.map_values(|x: Node| filter_ast(x));
            assert forall|k: int| 0 <= k < parts.len() implies (#[trigger] parts[k]).is_filter_part(
                k,
            ) by {
                assert(filter_part(c.inner[k], k));
            }
        } else if c.rule == Rule::group_by_clause {
            let columns = c.inner.map_values(|x: Node| column_ast(x));
            assert forall|k: int| 0 <= k < columns.len() implies #[trigger] columns[k]
                is Identifier by {}
        }
    }
}

/// A copy of the text that `pair` covers.
fn text_at(pair: &Pair) -> (text: String)
    ensures
        text@ == pair@.text,
{
    pair.text.clone()
}

/// The node for the value of a condition.
fn build_value(pair: &Pair) -> (node: SQLNode)
    ensures
        node@ == value_ast(pair@.text),
{
    let text = text_at(pair);
    if is_float_literal(text.as_str()) {
        SQLNode::Number(text)
    } else {
        SQLNode::Identifier(text)
    }
}

/// The node for one match of `where_condition`.
fn build_condition(pair: &Pair) -> (node: SQLNode)
    requires
        pair@.rule == Rule::where_condition,
        flat_shaped(pair@),
    ensures
        node@ == condition_ast(pair@),
{
    proof {
        lemma_inner(*pair);
    }
    let mut parts: Vec<SQLNode> = Vec::new();
    parts.push(SQLNode::Identifier(text_at(&pair.inner[0])));
    parts.push(SQLNode::ComparisonOp(text_at(&pair.inner[1])));
    parts.push(build_value(&pair.inner[2]));
    let node = SQLNode::WhereCondition(parts);
    proof {
        lemma_asts(parts@);
    }
    assert(node@->WhereCondition_0 =~= condition_ast(pair@)->WhereCondition_0);
    node
}

/// The nodes for the inner matches of a `where_clause`.
fn build_filter(pair: &Pair) -> (node: SQLNode)
    requires
        pair@.rule == Rule::where_clause,
        shaped(pair@),
    ensures
        node@ == clause_ast(pair@),
{
    proof {
        lemma_inner(*pair);
    }
    let mut parts: Vec<SQLNode> = Vec::new();
    let mut i: usize = 0;
    while i < pair.inner.len()
        invariant
            i <= pair.inner.len(),
            pair@.rule == Rule::where_clause,
            shaped(pair@),
            pair@.inner.len() == pair.inner.len(),
            forall|k: int|
                0 <= k < pair.inner.len() ==> #[trigger] pair@.inner[k] == pair.inner[k]@,
            parts.len() == i,
            forall|k: int| 0 <= k < i ==> (#[trigger] parts[k])@ == filter_ast(pair@.inner[k]),
        decreases pair.inner.len() - i,
    {
        let part = &pair.inner[i];
        assert(part@ == pair@.inner[i as int]);
        assert(filter_part(pair@.inner[i as int], i as int));
        let node = if part.rule == Rule::logical_op {
            SQLNode::LogicalOp(text_at(part))
        } else {
            build_condition(part)
        };
        parts.push(node);
        i += 1;
    }
    let node = SQLNode::WhereClause(parts);
    proof {
        lemma_asts(parts@);
    }
    assert(node@->WhereClause_0 =~= pair@.inner.map_values(|c: Node| filter_ast(c)));
    node
}

/// The nodes for the inner matches of a `group_by_clause`.
fn build_grouping(pair: &Pair) -> (node: SQLNode)
    requires
        pair@.rule == Rule::group_by_clause,
    ensures
        node@ == clause_ast(pair@),
{
    proof {
        lemma_inner(*pair);
    }
    let mut columns: Vec<SQLNode> = Vec::new();
    let mut i: usize = 0;
    while i < pair.inner.len()
        invariant
            i <= pair.inner.len(),
            pair@.inner.len() == pair.inner.len(),
            forall|k: int|
                0 <= k < pair.inner.len() ==> #[trigger] pair@.inner[k] == pair.inner[k]@,
            columns.len() == i,
            forall|k: int| 0 <= k < i ==> (#[trigger] columns[k])@ == column_ast(pair@.inner[k]),
        decreases pair.inner.len() - i,
    {
        let part = &pair.inner[i];
        assert(part@ == pair@.inner[i as int]);
        columns.push(SQLNode::Identifier(text_at(part)));
        i += 1;
    }
    let node = SQLNode::GroupByClause(columns);
    proof {
        lemma_asts(columns@);
    }
    assert(node@->GroupByClause_0 =~= pair@.inner.map_values(|c: Node| column_ast(c)));
    node
}

/// The node for one clause of a statement.
pub fn build_clause(pair: &Pair) -> (node: SQLNode)
    requires
        clause_shaped(pair@),
    ensures
        node@ == clause_ast(pair@),
{
    proof {
        lemma_inner(*pair);
    }
    match pair.rule {
        Rule::agg_field => {
            let first = &pair.inner[0];
            if first.rule == Rule::aggregate_func {
                SQLNode::AggField {
                    func: Some(text_at(first)),
                    identifier: text_at(&pair.inner[1]),
                }
            } else {
                SQLNode::AggField { func: None, identifier: text_at(first) }
            }
        },
        Rule::from_clause => SQLNode::FromClause(text_at(&pair.inner[0])),
        Rule::join_clause => SQLNode::JoinClause {
            table: text_at(&pair.inner[0]),
            left: text_at(&pair.inner[1]),
            right: text_at(&pair.inner[2]),
        },
        Rule::where_clause => build_filter(pair),
        Rule::group_by_clause => build_grouping(pair),
        Rule::order_by_clause => SQLNode::OrderByClause {
            identifier: text_at(&pair.inner[0]),
            order_type: if pair.inner.len() > 1 {
                Some(text_at(&pair.inner[1]))
            } else {
                None
            },
        },
        _ => SQLNode::LimitClause(text_at(&pair.inner[0])),
    }
}

/// The tree of a statement from its match: one node for each clause, in
/// the order of the text.
pub fn build_statement(tree: &Pair) -> (node: SQLNode)
    requires
        tree@.rule == Rule::select_stmt,
        shaped(tree@),
    ensures
        node@ == statement_ast(tree@),
        node@.is_statement(),
{
    proof {
        lemma_inner(*tree);
    }
    let mut clauses: Vec<SQLNode> = Vec::new();
    let mut i: usize = 0;
    while i < tree.inner.len()
        invariant
            i <= tree.inner.len(),
            tree@.rule == Rule::select_stmt,
            shaped(tree@),
            tree@.inner.len() == tree.inner.len(),
            forall|k: int|
                0 <= k < tree.inner.len() ==> #[trigger] tree@.inner[k] == tree.inner[k]@,
            clauses.len() == i,
            forall|k: int| 0 <= k < i ==> (#[trigger] clauses[k])@ == clause_ast(tree@.inner[k]),
        decreases tree.inner.len() - i,
    {
        let part = &tree.inner[i];
        assert(part@ == tree@.inner[i as int]);
        clauses.push(build_clause(part));
        i += 1;
    }
    let node = SQLNode::SelectStmt(clauses);
    proof {
        lemma_asts(clauses@);
    }
    assert(node@->SelectStmt_0 =~= tree@.inner.map_values(|c: Node| clause_ast(c)));
    proof {
        lemma_statement_ast(tree@);
    }
    node
}

} // verus!
