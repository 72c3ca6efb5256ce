use sql_query_parser::{Grammar, Rule};

#[test]
fn test_reserved_keyword() {
    let pair = Grammar::parse(Rule::reserved_keyword, "ORDER BY").expect("no pair");
    assert_eq!(pair.as_str(), "ORDER BY");

    let pair = Grammar::parse(Rule::reserved_keyword, "ASC").expect("no pair");
    assert_eq!(pair.as_str(), "ASC");

    let pair = Grammar::parse(Rule::reserved_keyword, "SELECT").expect("no pair");
    assert_eq!(pair.as_str(), "SELECT");

    let pair = Grammar::parse(Rule::reserved_keyword, "GROUP BY").expect("no pair");
    assert_eq!(pair.as_str(), "GROUP BY");

    let pair = Grammar::parse(Rule::reserved_keyword, "id");
    assert!(pair.is_err());
}

#[test]
fn test_whitespace() {
    let pair = Grammar::parse(Rule::WHITESPACE, " ");
    assert!(pair.is_ok());

    let pair = Grammar::parse(Rule::WHITESPACE, "\t");
    assert!(pair.is_ok());

    let pair = Grammar::parse(Rule::WHITESPACE, "\n");
    assert!(pair.is_ok());

    let pair = Grammar::parse(Rule::WHITESPACE, "\r\n");
    assert!(pair.is_ok());

    Grammar::parse(Rule::select_stmt, "SELECT a\r\nFROM b;").expect("no pair");

    Grammar::parse(Rule::select_stmt, "SELECT a\nFROM b;").expect("no pair");

    Grammar::parse(Rule::select_stmt, "SELECT a\tFROM b;").expect("no pair");
}

#[test]
fn test_identifier() {
    let pair = Grammar::parse(Rule::identifier, "id").expect("no pair");
    assert_eq!(pair.as_str(), "id");

    let pair = Grammar::parse(Rule::identifier, "id_1").expect("no pair");
    assert_eq!(pair.as_str(), "id_1");

    let pair = Grammar::parse(Rule::identifier, "1a");
    assert!(pair.is_err());

    let pair = Grammar::parse(Rule::identifier, "SELECT");
    assert!(pair.is_err());
}

#[test]
fn test_number() {
    let pair = Grammar::parse(Rule::number, "13").expect("no pair");
    assert_eq!(pair.as_str(), "13");

    let pair = Grammar::parse(Rule::number, "a");
    assert!(pair.is_err());
}

#[test]
fn test_string() {
    let pair = Grammar::parse(Rule::string, "\"str\"").expect("no pair");
    assert_eq!(pair.as_str(), "\"str\"");

    let pair = Grammar::parse(Rule::string, "str");
    assert!(pair.is_err());
}

#[test]
fn test_comparison_op() {
    let pair = Grammar::parse(Rule::comparison_op, "<=").expect("no pair");
    assert_eq!(pair.as_str(), "<=");

    let pair = Grammar::parse(Rule::comparison_op, "+");
    assert!(pair.is_err());
}

#[test]
fn test_logical_op() {
    let pair = Grammar::parse(Rule::logical_op, "AND").expect("no pair");
    assert_eq!(pair.as_str(), "AND");

    let pair = Grammar::parse(Rule::logical_op, "NO");
    assert!(pair.is_err());
}

#[test]
fn test_aggregate_func() {
    let pair = Grammar::parse(Rule::aggregate_func, "MAX").expect("no pair");
    assert_eq!(pair.as_str(), "MAX");

    let pair = Grammar::parse(Rule::aggregate_func, "STR");
    assert!(pair.is_err());
}

#[test]
fn test_order_type() {
    let pair = Grammar::parse(Rule::order_type, "DESC").expect("no pair");
    assert_eq!(pair.as_str(), "DESC");

    let pair = Grammar::parse(Rule::order_type, "ORDER");
    assert!(pair.is_err());
}

#[test]
fn test_agg_field() {
    let pair = Grammar::parse(Rule::agg_field, "COUNT(id)").expect("no pair");
    assert_eq!(pair.as_str(), "COUNT(id)");

    let pair = Grammar::parse(Rule::agg_field, "id").expect("no pair");
    assert_eq!(pair.as_str(), "id");

    let pair = Grammar::parse(Rule::agg_field, "()");
    assert!(pair.is_err());
}

#[test]
fn test_where_condition() {
    let pair = Grammar::parse(Rule::where_condition, "n < 56").expect("no pair");
    assert_eq!(pair.as_str(), "n < 56");

    let pair = Grammar::parse(Rule::where_condition, "city = \"Kyiv\"").expect("no pair");
    assert_eq!(pair.as_str(), "city = \"Kyiv\"");

    let pair = Grammar::parse(Rule::where_condition, "n =");
    assert!(pair.is_err());
}

#[test]
fn test_from_clause() {
    let pair = Grammar::parse(Rule::from_clause, "FROM table_name").expect("no pair");
    assert_eq!(pair.as_str(), "FROM table_name");

    let pair = Grammar::parse(Rule::from_clause, "FROM");
    assert!(pair.is_err());
}

#[test]
fn test_join_clause() {
    let pair = Grammar::parse(Rule::join_clause, "JOIN table ON id1 = id2").expect("no pair");
    assert_eq!(pair.as_str(), "JOIN table ON id1 = id2");

    let pair = Grammar::parse(Rule::join_clause, "JOIN table");
    assert!(pair.is_err());
}

#[test]
fn test_where_clause() {
    let pair = Grammar::parse(Rule::where_clause, "WHERE id = 45").expect("no pair");
    assert_eq!(pair.as_str(), "WHERE id = 45");

    let pair = Grammar::parse(Rule::where_clause, "WHERE id = 45 AND a > 56").expect("no pair");
    assert_eq!(pair.as_str(), "WHERE id = 45 AND a > 56");

    let pair = Grammar::parse(
        Rule::where_clause,
        "WHERE id = 45 AND a > 56 OR b = \"str\"",
    )
    .expect("no pair");
    assert_eq!(pair.as_str(), "WHERE id = 45 AND a > 56 OR b = \"str\"");

    let pair = Grammar::parse(Rule::where_clause, "WHERE id");
    assert!(pair.is_err());
}

#[test]
fn test_group_by_clause() {
    let pair = Grammar::parse(Rule::group_by_clause, "GROUP BY name").expect("no pair");
    assert_eq!(pair.as_str(), "GROUP BY name");

    let pair = Grammar::parse(Rule::group_by_clause, "GROUP BY name, surname").expect("no pair");
    assert_eq!(pair.as_str(), "GROUP BY name, surname");

    let pair = Grammar::parse(Rule::group_by_clause, "GROUP name");
    assert!(pair.is_err());
}

#[test]
fn test_order_by_clause() {
    let pair = Grammar::parse(Rule::order_by_clause, "ORDER BY name").expect("no pair");
    assert_eq!(pair.as_str(), "ORDER BY name");

    let pair = Grammar::parse(Rule::order_by_clause, "ORDER BY name DESC").expect("no pair");
    assert_eq!(pair.as_str(), "ORDER BY name DESC");

    let pair = Grammar::parse(Rule::order_by_clause, "ORDER BY ASC");
    assert!(pair.is_err());
}

#[test]
fn test_limit_clause() {
    let pair = Grammar::parse(Rule::limit_clause, "LIMIT 10").expect("no pair");
    assert_eq!(pair.as_str(), "LIMIT 10");

    let pair = Grammar::parse(Rule::limit_clause, "LIMIT num");
    assert!(pair.is_err());
}

#[test]
fn test_select_stmt() {
    let query = "SELECT COUNT(name), surname FROM users;";
    let pair = Grammar::parse(Rule::select_stmt, query).expect("no pair");
    assert_eq!(pair.as_str(), query);

    let query = "SELECT COUNT(name), surname FROM users WHERE a = 5 OR b > 67;";
    let pair = Grammar::parse(Rule::select_stmt, query).expect("no pair");
    assert_eq!(pair.as_str(), query);

    let query =
        "SELECT name, SUM(sales) FROM products GROUP BY category, price ORDER BY sales DESC;";
    let pair = Grammar::parse(Rule::select_stmt, query).expect("no pair");
    assert_eq!(pair.as_str(), query);

    let query = "SELECT name FROM employees WHERE age > 30 GROUP BY department ORDER BY salary ASC LIMIT 10;";
    let pair = Grammar::parse(Rule::select_stmt, query).expect("no pair");
    assert_eq!(pair.as_str(), query);
}
