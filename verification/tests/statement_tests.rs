use sql_query_parser::number::is_float_literal;
use sql_query_parser::report::describe;
use sql_query_parser::{parse_sql, Grammar, ParseFailure, Rule, SQLError, SQLNode};

fn text(s: &str) -> String {
    String::from(s)
}

fn field(name: &str) -> SQLNode {
    SQLNode::AggField { func: None, identifier: text(name) }
}

fn call(func: &str, name: &str) -> SQLNode {
    SQLNode::AggField { func: Some(text(func)), identifier: text(name) }
}

fn condition(left: &str, op: &str, value: SQLNode) -> SQLNode {
    SQLNode::WhereCondition(vec![
        SQLNode::Identifier(text(left)),
        SQLNode::ComparisonOp(text(op)),
        value,
    ])
}

fn number(n: &str) -> SQLNode {
    SQLNode::Number(text(n))
}

fn name(n: &str) -> SQLNode {
    SQLNode::Identifier(text(n))
}

fn failure_of(rule: Rule, input: &str) -> ParseFailure {
    match Grammar::parse(rule, input) {
        Ok(pair) => panic!("matched {:?}", pair),
        Err(failure) => failure,
    }
}

fn detail_of(input: &str) -> String {
    match parse_sql(input) {
        Ok(node) => panic!("parsed {:?}", node),
        Err(SQLError::ParseError(detail)) => detail,
    }
}

#[test]
fn plain_field_and_source() {
    let tree = parse_sql("SELECT b FROM table;").expect("a statement");
    assert_eq!(
        tree,
        SQLNode::SelectStmt(vec![field("b"), SQLNode::FromClause(text("table"))])
    );
}

#[test]
fn aggregate_and_filter_with_two_conditions() {
    let tree = parse_sql("SELECT COUNT(name), surname FROM users WHERE a = 5 OR b > 67;")
        .expect("a statement");
    assert_eq!(
        tree,
        SQLNode::SelectStmt(vec![
            call("COUNT", "name"),
            field("surname"),
            SQLNode::FromClause(text("users")),
            SQLNode::WhereClause(vec![
                condition("a", "=", number("5")),
                SQLNode::LogicalOp(text("OR")),
                condition("b", ">", number("67")),
            ]),
        ])
    );
}

#[test]
fn every_optional_clause() {
    let tree = parse_sql(
        "SELECT name FROM employees WHERE age > 30 GROUP BY department ORDER BY salary ASC LIMIT 10;",
    )
    .expect("a statement");
    assert_eq!(
        tree,
        SQLNode::SelectStmt(vec![
            field("name"),
            SQLNode::FromClause(text("employees")),
            SQLNode::WhereClause(vec![condition("age", ">", number("30"))]),
            SQLNode::GroupByClause(vec![name("department")]),
            SQLNode::OrderByClause { identifier: text("salary"), order_type: Some(text("ASC")) },
            SQLNode::LimitClause(text("10")),
        ])
    );
}

#[test]
fn grouping_needs_its_whole_keyword() {
    assert_eq!(
        failure_of(Rule::group_by_clause, "GROUP name"),
        ParseFailure { position: 0, expected: Rule::group_by_clause }
    );
}

#[test]
fn filter_needs_operator_and_value() {
    assert_eq!(
        failure_of(Rule::where_clause, "WHERE id"),
        ParseFailure { position: 8, expected: Rule::comparison_op }
    );
    assert_eq!(
        failure_of(Rule::where_clause, "WHERE id ="),
        ParseFailure { position: 10, expected: Rule::identifier }
    );
}

#[test]
fn joins_in_order() {
    let tree = parse_sql("SELECT a FROM t JOIN u ON x = y JOIN v ON p = q;").expect("a statement");
    assert_eq!(
        tree,
        SQLNode::SelectStmt(vec![
            field("a"),
            SQLNode::FromClause(text("t")),
            SQLNode::JoinClause { table: text("u"), left: text("x"), right: text("y") },
            SQLNode::JoinClause { table: text("v"), left: text("p"), right: text("q") },
        ])
    );
}

#[test]
fn ordering_without_direction() {
    let tree = parse_sql("SELECT a FROM t ORDER BY a;").expect("a statement");
    assert_eq!(
        tree,
        SQLNode::SelectStmt(vec![
            field("a"),
            SQLNode::FromClause(text("t")),
            SQLNode::OrderByClause { identifier: text("a"), order_type: None },
        ])
    );
}

#[test]
fn quoted_string_stays_an_identifier_with_its_quotes() {
    let tree = parse_sql("SELECT a FROM t WHERE city = \"Kyiv\";").expect("a statement");
    assert_eq!(
        tree,
        SQLNode::SelectStmt(vec![
            field("a"),
            SQLNode::FromClause(text("t")),
            SQLNode::WhereClause(vec![condition("city", "=", name("\"Kyiv\""))]),
        ])
    );
    let tree = parse_sql("SELECT a FROM t WHERE n = \"12\";").expect("a statement");
    assert_eq!(
        tree,
        SQLNode::SelectStmt(vec![
            field("a"),
            SQLNode::FromClause(text("t")),
            SQLNode::WhereClause(vec![condition("n", "=", name("\"12\""))]),
        ])
    );
}

#[test]
fn value_that_reads_as_a_float_is_a_number() {
    let tree = parse_sql("SELECT a FROM t WHERE x = inf AND y != NaN AND z = nano;")
        .expect("a statement");
    assert_eq!(
        tree,
        SQLNode::SelectStmt(vec![
            field("a"),
            SQLNode::FromClause(text("t")),
            SQLNode::WhereClause(vec![
                condition("x", "=", number("inf")),
                SQLNode::LogicalOp(text("AND")),
                condition("y", "!=", number("NaN")),
                SQLNode::LogicalOp(text("AND")),
                condition("z", "=", name("nano")),
            ]),
        ])
    );
}

#[test]
fn float_literals_are_those_of_the_standard_library() {
    let cases = [
        "", "0", "13", "007", "1.", ".5", ".", "1.5", "1.5.2", "1e5", "1E5", "1e", "1e+", "1e+5",
        "1e-5", "1.e5", ".e5", "e5", "1e5.0", "+1", "-1", "+", "-", "+-1", "--1", "1+", "inf",
        "INF", "Inf", "iNf", "infinity", "INFINITY", "Infinity", "infinit", "infinityy", "nan",
        "NaN", "NAN", "nano", "+inf", "-inf", "+nan", "-NaN", "+infinity", "in", "1_000", "0x10",
        " 1", "1 ", "1f", "\"1\"", "1,5", "١", "1e٥", "٣.5", "ınf", "99999999999999999999999999",
        "1e999999", "0.0000000000000000000000000001", "-.5e-10", "+5.E+3", "é",
    ];
    for case in cases {
        assert_eq!(is_float_literal(case), case.parse::<f64>().is_ok(), "{:?}", case);
    }
}

#[test]
fn reserved_words_are_no_identifiers() {
    for word in ["SELECT", "FROM", "JOIN", "ON", "WHERE", "LIMIT", "ASC", "DESC", "AND", "OR"] {
        assert_eq!(
            Grammar::parse(Rule::identifier, word),
            Err(ParseFailure { position: 0, expected: Rule::identifier }),
            "{}",
            word
        );
    }
    assert!(parse_sql("SELECT a FROM WHERE;").is_err());
    assert!(parse_sql("SELECT LIMIT FROM t;").is_err());
}

#[test]
fn words_that_only_start_like_a_keyword_are_identifiers() {
    for word in ["select", "SELECTED", "FROMAGE", "ONLINE", "ORDERS", "GROUP", "ORDER", "COUNT", "_", "_1", "Asc"] {
        let pair = Grammar::parse(Rule::identifier, word).expect("an identifier");
        assert_eq!(pair.as_str(), word);
        assert_eq!(pair.as_rule(), Rule::identifier);
        assert_eq!((pair.start, pair.end), (0, word.len()));
        assert!(pair.inner.is_empty());
    }
    let tree = parse_sql("SELECT COUNT FROM ORDERS;").expect("a statement");
    assert_eq!(
        tree,
        SQLNode::SelectStmt(vec![field("COUNT"), SQLNode::FromClause(text("ORDERS"))])
    );
}

#[test]
fn a_rule_matches_a_prefix() {
    let pair = Grammar::parse(Rule::identifier, "abc def").expect("an identifier");
    assert_eq!(pair.as_str(), "abc");
    let pair = Grammar::parse(Rule::number, "12ab").expect("a number");
    assert_eq!(pair.as_str(), "12");
    let pair = Grammar::parse(Rule::comparison_op, "<>").expect("an operator");
    assert_eq!(pair.as_str(), "<");
    let pair = Grammar::parse(Rule::comparison_op, ">=1").expect("an operator");
    assert_eq!(pair.as_str(), ">=");
    let pair = Grammar::parse(Rule::comparison_op, "!=").expect("an operator");
    assert_eq!(pair.as_str(), "!=");
    let pair = Grammar::parse(Rule::reserved_keyword, "ORDER").expect("a keyword");
    assert_eq!(pair.as_str(), "OR");
    let pair = Grammar::parse(Rule::select_stmt, "SELECT a FROM b; and more").expect("a statement");
    assert_eq!(pair.as_str(), "SELECT a FROM b;");
    assert!(parse_sql(" SELECT a FROM b;").is_err());
    assert!(parse_sql("SELECT a FROM b").is_err());
    assert!(parse_sql("").is_err());
}

#[test]
fn whitespace_between_tokens_is_free() {
    let tree = parse_sql("SELECT  COUNT ( a ) ,b\r\n\tFROM\nt\n;").expect("a statement");
    assert_eq!(
        tree,
        SQLNode::SelectStmt(vec![call("COUNT", "a"), field("b"), SQLNode::FromClause(text("t"))])
    );
    assert!(parse_sql("SELECT a FROM t GROUP  BY a;").is_err());
    assert!(parse_sql("SELECT a\rFROM t;").is_err());
    assert!(Grammar::parse(Rule::WHITESPACE, "\r").is_err());
    assert!(Grammar::parse(Rule::WHITESPACE, "a").is_err());
}

#[test]
fn the_tree_of_the_match_has_spans_and_inner_pairs() {
    let pair = Grammar::parse(Rule::where_clause, "WHERE a = 1 AND b<c rest").expect("a filter");
    assert_eq!(pair.as_rule(), Rule::where_clause);
    assert_eq!((pair.start, pair.end), (0, 19));
    let rules: Vec<Rule> = pair.inner.iter().map(|p| p.rule).collect();
    assert_eq!(rules, vec![Rule::where_condition, Rule::logical_op, Rule::where_condition]);
    let second = &pair.inner[2];
    assert_eq!(second.as_str(), "b<c");
    assert_eq!((second.start, second.end), (16, 19));
    let parts: Vec<(Rule, &str)> = second.inner.iter().map(|p| (p.rule, p.as_str())).collect();
    assert_eq!(
        parts,
        vec![(Rule::identifier, "b"), (Rule::comparison_op, "<"), (Rule::identifier, "c")]
    );
}

#[test]
fn a_logical_operator_that_starts_another_clause_is_given_back() {
    let tree = parse_sql("SELECT a FROM t WHERE x = y ORDER BY z;").expect("a statement");
    assert_eq!(
        tree,
        SQLNode::SelectStmt(vec![
            field("a"),
            SQLNode::FromClause(text("t")),
            SQLNode::WhereClause(vec![condition("x", "=", name("y"))]),
            SQLNode::OrderByClause { identifier: text("z"), order_type: None },
        ])
    );
}

#[test]
fn a_filter_has_one_condition_more_than_operators() {
    let tree = parse_sql("SELECT a FROM t WHERE a = 1 AND b = 2 OR c = 3 AND d = 4;")
        .expect("a statement");
    let clauses = match tree {
        SQLNode::SelectStmt(clauses) => clauses,
        other => panic!("{:?}", other),
    };
    let parts = match &clauses[2] {
        SQLNode::WhereClause(parts) => parts,
        other => panic!("{:?}", other),
    };
    let conditions = parts.iter().filter(|p| matches!(p, SQLNode::WhereCondition(_))).count();
    let operators = parts.iter().filter(|p| matches!(p, SQLNode::LogicalOp(_))).count();
    assert_eq!((conditions, operators), (4, 3));
    for (i, part) in parts.iter().enumerate() {
        assert_eq!(matches!(part, SQLNode::WhereCondition(_)), i % 2 == 0);
    }
}

#[test]
fn the_text_of_a_statement() {
    let tree = parse_sql(
        "SELECT COUNT(name), surname FROM users JOIN jobs ON a = b WHERE a = 5 OR b > \"x\" GROUP BY c, d ORDER BY e DESC LIMIT 7;",
    )
    .expect("a statement");
    let expected = "- select_stmt\n  - agg_field\n    - aggregate_func: \"COUNT\"\n    - identifier: \"name\"\n  - agg_field > identifier: \"surname\"\n  - from_clause > identifier: \"users\"\n  - join_clause\n    - identifier: \"jobs\"\n    - identifier: \"a\"\n    - identifier: \"b\"\n  - where_clause\n    - where_condition\n      - identifier: \"a\"\n      - comparison_op: \"=\"\n      - number: \"5\"\n    - logical_op: \"OR\"\n    - where_condition\n      - identifier: \"b\"\n      - comparison_op: \">\"\n      - identifier: \"\\\"x\\\"\"\n  - group_by_clause\n    - identifier: \"c\"\n    - identifier: \"d\"\n  - order_by_clause\n    - identifier: \"e\"\n    - order_type: \"DESC\"\n  - limit_clause > number: \"7\"\n";
    assert_eq!(tree.to_string(), expected);
    assert_eq!(tree.to_string(), tree.to_string());
}

#[test]
fn the_text_of_single_nodes() {
    assert_eq!(field("b").to_string(), "- agg_field > identifier: \"b\"");
    assert_eq!(SQLNode::SelectStmt(vec![]).to_string(), "- select_stmt\n");
    assert_eq!(SQLNode::WhereClause(vec![]).to_string(), "- where_clause");
    assert_eq!(
        SQLNode::OrderByClause { identifier: text("a"), order_type: None }.to_string(),
        "- order_by_clause\n    - identifier: \"a\""
    );
    assert_eq!(number("1").to_string(), "- number: \"1\"");
    assert_eq!(SQLNode::LogicalOp(text("AND")).to_string(), "- logical_op: \"AND\"");
    assert_eq!(SQLNode::ComparisonOp(text("<=")).to_string(), "- comparison_op: \"<=\"");
    assert_eq!(SQLNode::LimitClause(text("3")).to_string(), "- limit_clause > number: \"3\"");
}

#[test]
fn every_level_of_a_statement_stands_one_step_further_in() {
    let tree = parse_sql("SELECT a FROM t WHERE x = 1;").expect("a statement");
    let shown = tree.to_string();
    assert_eq!(
        shown,
        "- select_stmt\n  - agg_field > identifier: \"a\"\n  - from_clause > identifier: \"t\"\n  - where_clause\n    - where_condition\n      - identifier: \"x\"\n      - comparison_op: \"=\"\n      - number: \"1\"\n"
    );
    let margins: Vec<usize> =
        shown.lines().map(|line| line.len() - line.trim_start_matches(' ').len()).collect();
    assert_eq!(margins, vec![0, 2, 2, 2, 4, 6, 6, 6]);
    let (statement, filter, condition, leaf) = (margins[0], margins[3], margins[4], margins[5]);
    assert_eq!(filter - statement, 2);
    assert_eq!(condition - filter, 2);
    assert_eq!(leaf - condition, 2);

    let tree = parse_sql(
        "SELECT MAX(a) FROM t JOIN u ON b = c WHERE x = 1 AND y = z GROUP BY g ORDER BY o ASC LIMIT 1;",
    )
    .expect("a statement");
    let shown = tree.to_string();
    let margins: Vec<usize> =
        shown.lines().map(|line| line.len() - line.trim_start_matches(' ').len()).collect();
    assert_eq!(
        margins,
        vec![0, 2, 4, 4, 2, 2, 4, 4, 4, 2, 4, 6, 6, 6, 4, 4, 6, 6, 6, 2, 4, 2, 4, 4, 2]
    );
}

#[test]
fn the_text_of_a_condition_and_of_a_filter_alone() {
    let one = condition("a", "<", number("2"));
    assert_eq!(
        one.to_string(),
        "- where_condition\n        - identifier: \"a\"\n        - comparison_op: \"<\"\n        - number: \"2\""
    );
    assert_eq!(
        SQLNode::WhereClause(vec![one]).to_string(),
        "- where_clause\n    - where_condition\n        - identifier: \"a\"\n        - comparison_op: \"<\"\n        - number: \"2\""
    );
}

#[test]
fn a_filter_alone_steps_four_spaces_a_level() {
    let filter = SQLNode::WhereClause(vec![
        condition("a", "=", number("5")),
        SQLNode::LogicalOp(text("OR")),
        condition("b", ">", number("67")),
    ]);
    let lines = [
        "- where_clause",
        "    - where_condition",
        "        - identifier: \"a\"",
        "        - comparison_op: \"=\"",
        "        - number: \"5\"",
        "    - logical_op: \"OR\"",
        "    - where_condition",
        "        - identifier: \"b\"",
        "        - comparison_op: \">\"",
        "        - number: \"67\"",
    ];
    let shown = filter.to_string();
    assert_eq!(shown, lines.join("\n"));
    let margins: Vec<usize> =
        shown.lines().map(|line| line.len() - line.trim_start_matches(' ').len()).collect();
    assert_eq!(margins, vec![0, 4, 8, 8, 8, 4, 4, 8, 8, 8]);

    let inside = SQLNode::SelectStmt(vec![field("x"), SQLNode::FromClause(text("t")), filter]);
    let margins: Vec<usize> = inside
        .to_string()
        .lines()
        .map(|line| line.len() - line.trim_start_matches(' ').len())
        .collect();
    assert_eq!(margins, vec![0, 2, 2, 2, 4, 6, 6, 6, 4, 4, 6, 6, 6]);
}

#[test]
fn clauses_alone_hold_their_fields_four_spaces_in() {
    assert_eq!(
        call("SUM", "a").to_string(),
        "- agg_field\n    - aggregate_func: \"SUM\"\n    - identifier: \"a\""
    );
    assert_eq!(
        SQLNode::JoinClause { table: text("t"), left: text("l"), right: text("r") }.to_string(),
        "- join_clause\n    - identifier: \"t\"\n    - identifier: \"l\"\n    - identifier: \"r\""
    );
    assert_eq!(
        SQLNode::GroupByClause(vec![name("a"), name("b")]).to_string(),
        "- group_by_clause\n    - identifier: \"a\"\n    - identifier: \"b\""
    );
    assert_eq!(
        SQLNode::OrderByClause { identifier: text("a"), order_type: Some(text("ASC")) }
            .to_string(),
        "- order_by_clause\n    - identifier: \"a\"\n    - order_type: \"ASC\""
    );
}

#[test]
fn text_is_shown_with_escapes() {
    assert_eq!(name("a\\b\t\"c\"\n").to_string(), "- identifier: \"a\\\\b\\t\\\"c\\\"\\n\"");
    let tree = parse_sql("SELECT a FROM t WHERE x = \"tab\there\";").expect("a statement");
    let shown = tree.to_string();
    assert!(shown.ends_with("\n      - identifier: \"\\\"tab\\there\\\"\"\n"), "{}", shown);
}

#[test]
fn the_account_of_a_failure() {
    assert_eq!(
        detail_of("SELECT FROM t;"),
        " --> 1:8\n  |\n1 | SELECT FROM t;\n  |        ^---\n  |\n  = expected agg_field"
    );
    assert_eq!(
        detail_of("SELECT a\nFROM b\nWHERE;"),
        " --> 3:6\n  |\n3 | WHERE;\n  |      ^---\n  |\n  = expected where_condition"
    );
    assert_eq!(
        detail_of("select"),
        " --> 1:1\n  |\n1 | select\n  | ^---\n  |\n  = expected select_stmt"
    );
}

#[test]
fn the_place_of_a_failure_counts_bytes_behind_wide_characters() {
    let input = "SELECT a FROM t WHERE b = \"é€😀\" x;";
    assert_eq!(
        failure_of(Rule::select_stmt, input),
        ParseFailure { position: 32, expected: Rule::select_stmt }
    );
    assert_eq!(
        detail_of(input),
        " --> 1:33\n  |\n1 | SELECT a FROM t WHERE b = \"é€😀\" x;\n  |                                 ^---\n  |\n  = expected select_stmt"
    );
    assert_eq!(
        describe("é€😀", ParseFailure { position: 3, expected: Rule::number }),
        " --> 1:4\n  |\n1 | é€😀\n  |    ^---\n  |\n  = expected number"
    );
}

#[test]
fn the_furthest_failure_is_told() {
    assert_eq!(
        failure_of(Rule::select_stmt, "SELECT a FROM b WHERE x;"),
        ParseFailure { position: 23, expected: Rule::comparison_op }
    );
    assert_eq!(
        failure_of(Rule::select_stmt, "SELECT a FROM b JOIN c ON d;"),
        ParseFailure { position: 27, expected: Rule::join_clause }
    );
    assert_eq!(
        failure_of(Rule::select_stmt, "SELECT a FROM b GROUP BY a, ;"),
        ParseFailure { position: 28, expected: Rule::identifier }
    );
    assert_eq!(
        failure_of(Rule::select_stmt, "SELECT a FROM b WHERE x = y ORDER BY;"),
        ParseFailure { position: 36, expected: Rule::identifier }
    );
    assert_eq!(
        failure_of(Rule::agg_field, "()"),
        ParseFailure { position: 0, expected: Rule::agg_field }
    );
    assert_eq!(
        failure_of(Rule::select_stmt, "SELECT a FROM b LIMIT x;"),
        ParseFailure { position: 22, expected: Rule::number }
    );
}

#[test]
fn the_error_as_a_line() {
    let error = parse_sql("SELECT").expect_err("no statement");
    assert_eq!(
        error.to_string(),
        "Failed to parse SQL statement:  --> 1:7\n  |\n1 | SELECT\n  |       ^---\n  |\n  = expected agg_field"
    );
    assert_eq!(
        SQLError::ParseError(text("why")).to_string(),
        "Failed to parse SQL statement: why"
    );
}

#[test]
fn rule_names() {
    assert_eq!(Rule::WHITESPACE.name(), "WHITESPACE");
    assert_eq!(Rule::select_stmt.name(), "select_stmt");
    assert_eq!(Rule::comparison_op.name(), "comparison_op");
}

#[test]
fn a_long_list_of_fields() {
    let mut query = String::from("SELECT a");
    for _ in 0..20000 {
        query.push_str(", a");
    }
    query.push_str(" FROM t;");
    let tree = parse_sql(&query).expect("a statement");
    match tree {
        SQLNode::SelectStmt(clauses) => assert_eq!(clauses.len(), 20002),
        other => panic!("{:?}", other),
    }
}
