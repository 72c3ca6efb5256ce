use vstd::prelude::*;

verus! {

/// The rules of the grammar: the lexical ones first, then the syntactic ones.
#[allow(non_camel_case_types)]
#[derive(Clone, Copy, Debug, PartialEq, Eq, Hash, Structural)]
pub enum Rule {
    WHITESPACE,
    reserved_keyword,
    identifier,
    number,
    string,
    comparison_op,
    logical_op,
    aggregate_func,
    order_type,
    agg_field,
    from_clause,
    join_clause,
    where_condition,
    where_clause,
    group_by_clause,
    order_by_clause,
    limit_clause,
    select_stmt,
}

impl Rule {
    /// How many levels of rules a rule is built on: 0 for a token.
    pub open spec fn depth(self) -> nat {
        match self {
            Rule::select_stmt => 3,
            Rule::where_clause => 2,
            Rule::agg_field
            | Rule::from_clause
            | Rule::join_clause
            | Rule::where_condition
            | Rule::group_by_clause
            | Rule::order_by_clause
            | Rule::limit_clause => 1,
            _ => 0,
        }
    }

    /// The rule's name as the grammar writes it.
    pub open spec fn label(self) -> Seq<char> {
        match self {
            Rule::WHITESPACE => "WHITESPACE"@,
            Rule::reserved_keyword => "reserved_keyword"@,
            Rule::identifier => "identifier"@,
            Rule::number => "number"@,
            Rule::string => "string"@,
            Rule::comparison_op => "comparison_op"@,
            Rule::logical_op => "logical_op"@,
            Rule::aggregate_func => "aggregate_func"@,
            Rule::order_type => "order_type"@,
            Rule::agg_field => "agg_field"@,
            Rule::from_clause => "from_clause"@,
            Rule::join_clause => "join_clause"@,
            Rule::where_condition => "where_condition"@,
            Rule::where_clause => "where_clause"@,
            Rule::group_by_clause => "group_by_clause"@,
            Rule::order_by_clause => "order_by_clause"@,
            Rule::limit_clause => "limit_clause"@,
            Rule::select_stmt => "select_stmt"@,
        }
    }

    /// The rule's name as the grammar writes it.
    pub fn name(self) -> (name: &'static str)
        ensures
            name@ == self.label(),
    {
        match self {
            Rule::WHITESPACE => "WHITESPACE",
            Rule::reserved_keyword => "reserved_keyword",
            Rule::identifier => "identifier",
            Rule::number => "number",
            Rule::string => "string",
            Rule::comparison_op => "comparison_op",
            Rule::logical_op => "logical_op",
            Rule::aggregate_func => "aggregate_func",
            Rule::order_type => "order_type",
            Rule::agg_field => "agg_field",
            Rule::from_clause => "from_clause",
            Rule::join_clause => "join_clause",
            Rule::where_condition => "where_condition",
            Rule::where_clause => "where_clause",
            Rule::group_by_clause => "group_by_clause",
            Rule::order_by_clause => "order_by_clause",
            Rule::limit_clause => "limit_clause",
            Rule::select_stmt => "select_stmt",
        }
    }
}

} // verus!
