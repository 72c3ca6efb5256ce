use vstd::prelude::*;
use crate::ast::{condition_ast, lemma_statement_ast, statement_ast, value_ast, Ast, SQLNode};
use crate::number::float_literal;
use crate::render::rendered;
use crate::rule::Rule;
use crate::shape::{lemma_many, lemma_maybe, lemma_part, lemma_shaped};
use crate::span::{lemma_run, lemma_sound, spanned};
use crate::statement::statement;
use crate::syntax::{matching, Item, Step};
use crate::token::{digit, letter, reserved_word, run_end, spell, token_end, CharClass};

verus! {

/// The text of a tree depends on the tree alone: nodes that stand for the
/// same tree have the same text, however often it is written out.
pub proof fn lemma_rendering_is_a_function(a: SQLNode, b: SQLNode)
    requires
        a@ == b@,
    ensures
        rendered(a@) == rendered(b@),
{
}

/// How many of `parts` are conditions.
pub open spec fn conditions(parts: Seq<Ast>) -> nat
    decreases parts.len(),
{
    if parts.len() == 0 {
        0
    } else {
        conditions(parts.drop_last()) + if parts.last() is WhereCondition {
            1nat
        } else {
            0nat
        }
    }
}

/// How many of `parts` are logical operators.
pub open spec fn operators(parts: Seq<Ast>) -> nat
    decreases parts.len(),
{
    if parts.len() == 0 {
        0
    } else {
        operators(parts.drop_last()) + if parts.last() is LogicalOp {
            1nat
        } else {
            0nat
        }
    }
}

/// Among the first `n` parts of a filter, conditions and logical operators
/// take turns.
proof fn lemma_turns(parts: Seq<Ast>, n: int)
    requires
        Ast::WhereClause(parts).is_clause(),
        0 <= n <= parts.len(),
    ensures
        conditions(parts.take(n)) == (n + 1) / 2,
        operators(parts.take(n)) == n / 2,
    decreases n,
{
    if n > 0 {
        lemma_turns(parts, n - 1);
        assert(parts.take(n).drop_last() =~= parts.take(n - 1));
        assert(parts.take(n).last() == parts[n - 1]);
        assert(parts[n - 1].is_filter_part(n - 1));
    }
}

/// A filter holds one condition more than it holds logical operators.
pub proof fn lemma_filter_counts(parts: Seq<Ast>)
    requires
        Ast::WhereClause(parts).is_clause(),
    ensures
        conditions(parts) == operators(parts) + 1,
{
    lemma_turns(parts, parts.len() as int);
    assert(parts.take(parts.len() as int) =~= parts);
}

/// The tree of every text that is a statement is a statement: its clauses
/// stand in their order, and each filter holds conditions and logical
/// operators in turn.
pub proof fn lemma_parsed_statement(s: Seq<char>)
    requires
        statement(s).node is Some,
    ensures
        statement_ast(statement(s).node->0).is_statement(),
{
    lemma_shaped(Rule::select_stmt, s, 0);
    lemma_statement_ast(statement(s).node->0);
}

/// Every filter in the tree of a statement holds one condition more than
/// it holds logical operators.
pub proof fn lemma_parsed_filter_counts(s: Seq<char>, i: int)
    requires
        statement(s).node is Some,
        0 <= i < statement_ast(statement(s).node->0)->SelectStmt_0.len(),
        statement_ast(statement(s).node->0)->SelectStmt_0[i] is WhereClause,
    ensures
        conditions(statement_ast(statement(s).node->0)->SelectStmt_0[i]->WhereClause_0)
            == operators(statement_ast(statement(s).node->0)->SelectStmt_0[i]->WhereClause_0)
            + 1,
{
    lemma_parsed_statement(s);
    let clauses = statement_ast(statement(s).node->0)->SelectStmt_0;
    assert(clauses[i].is_clause());
    lemma_filter_counts(clauses[i]->WhereClause_0);
}

/// The node of a condition holds, in this order, the identifier, the
/// comparison operator and the value as they stand in the text; the value
/// is a number exactly when the text it covers reads as a floating-point
/// literal.
pub proof fn lemma_condition_of_text(s: Seq<char>, p: int)
    requires
        0 <= p <= s.len(),
        matching(Rule::where_condition, s, p).node is Some,
    ensures
        ({
            let n = matching(Rule::where_condition, s, p).node->0;
            let value = s.subrange(n.inner[2].start, n.inner[2].end);
            &&& n.inner.len() == 3
            &&& condition_ast(n).is_condition()
            &&& condition_ast(n)->WhereCondition_0 == seq![
                Ast::Identifier(s.subrange(n.inner[0].start, n.inner[0].end)),
                Ast::ComparisonOp(s.subrange(n.inner[1].start, n.inner[1].end)),
                value_ast(value),
            ]
            &&& condition_ast(n)->WhereCondition_0[2] is Number <==> float_literal(value)
        }),
{
    lemma_shaped(Rule::where_condition, s, p);
    lemma_sound(Rule::where_condition, s, p);
    let n = matching(Rule::where_condition, s, p).node->0;
    assert(spanned(n.inner[0], s));
    assert(spanned(n.inner[1], s));
    assert(spanned(n.inner[2], s));
}

/// The value of a condition is a number exactly when its text reads as a
/// floating-point literal; either way the node holds the text unchanged.
pub proof fn lemma_value_kind(text: Seq<char>)
    ensures
        value_ast(text) is Number <==> float_literal(text),
        value_ast(text) is Identifier <==> !float_literal(text),
        float_literal(text) ==> value_ast(text) == Ast::Number(text),
        !float_literal(text) ==> value_ast(text) == Ast::Identifier(text),
{
}

/// A text that starts with a double quote is no floating-point literal, so
/// a quoted string as the value of a condition is an identifier, quotes
/// and all.
pub proof fn lemma_quoted_value(text: Seq<char>)
    requires
        text.len() > 0,
        text[0] == '"',
    ensures
        value_ast(text) == Ast::Identifier(text),
{
    reveal_with_fuel(run_end, 2);
}

/// Where every character of `t` from `k` on is of `class`, the run from
/// `k` goes to the end of `t`.
proof fn lemma_run_to_end(t: Seq<char>, k: int, class: CharClass)
    requires
        0 <= k <= t.len(),
        forall|i: int| k <= i < t.len() ==> class.has(#[trigger] t[i]),
    ensures
        run_end(t, k, class) == t.len(),
    decreases t.len() - k,
{
    if k < t.len() {
        lemma_run_to_end(t, k + 1, class);
    }
}

/// The text of a `number` token reads as a floating-point literal, so a
/// number as the value of a condition is a number.
pub proof fn lemma_number_value(s: Seq<char>, p: int)
    requires
        0 <= p,
        token_end(Rule::number, s, p) is Some,
    ensures
        value_ast(s.subrange(p, token_end(Rule::number, s, p)->0)) == Ast::Number(
            s.subrange(p, token_end(Rule::number, s, p)->0),
        ),
{
    let e = run_end(s, p, CharClass::Digit);
    lemma_run(s, p, CharClass::Digit);
    let t = s.subrange(p, e);
    assert forall|i: int| 0 <= i < t.len() implies CharClass::Digit.has(#[trigger] t[i]) by {
        assert(t[i] == s[p + i]);
    }
    lemma_run_to_end(t, 0, CharClass::Digit);
}

/// True of the rules that begin with a keyword: the statement and its
/// clauses but for the fields.
pub open spec fn keyed(rule: Rule) -> bool {
    rule == Rule::select_stmt || rule == Rule::from_clause || rule == Rule::join_clause || rule
        == Rule::where_clause || rule == Rule::group_by_clause || rule == Rule::order_by_clause
        || rule == Rule::limit_clause
}

/// The keyword that a rule begins with, where it begins with one.
pub open spec fn keyword(rule: Rule) -> Seq<char> {
    match rule {
        Rule::select_stmt => "SELECT"@,
        Rule::from_clause => "FROM"@,
        Rule::join_clause => "JOIN"@,
        Rule::where_clause => "WHERE"@,
        Rule::group_by_clause => "GROUP BY"@,
        Rule::order_by_clause => "ORDER BY"@,
        Rule::limit_clause => "LIMIT"@,
        _ => Seq::empty(),
    }
}

/// A step that is well after parts and runs was well before them.
proof fn lemma_was_ok(st: Step, s: Seq<char>)
    ensures
        forall|rule: Rule| #[trigger] st.part(s, rule).ok ==> st.ok,
        forall|rule: Rule| #[trigger] st.maybe(s, rule).ok ==> st.ok,
        forall|item: Item| #[trigger] st.many(s, item).ok ==> st.ok,
{
    assert forall|rule: Rule| #[trigger] st.part(s, rule).ok implies st.ok by {
        lemma_part(st, s, rule);
    }
    assert forall|rule: Rule| #[trigger] st.maybe(s, rule).ok implies st.ok by {
        lemma_maybe(st, s, rule);
    }
    assert forall|item: Item| #[trigger] st.many(s, item).ok implies st.ok by {
        lemma_many(st, s, item);
    }
}

/// A match of a statement or of one of its clauses begins with the keyword
/// of its rule.
pub proof fn lemma_begins_with_keyword(rule: Rule, s: Seq<char>, p: int)
    requires
        keyed(rule),
        matching(rule, s, p).node is Some,
    ensures
        spell(s, p, keyword(rule)) is Some,
{
    let a = Step::start(p).word(s, keyword(rule), rule);
    match rule {
        Rule::from_clause => {
            lemma_was_ok(a, s);
        },
        Rule::join_clause => {
            let b = a.part(s, Rule::identifier);
            let c = b.word(s, "ON"@, rule).part(s, Rule::identifier);
            lemma_was_ok(a, s);
            lemma_was_ok(b.word(s, "ON"@, rule), s);
            lemma_was_ok(c.word(s, "="@, rule), s);
        },
        Rule::where_clause => {
            lemma_was_ok(a, s);
            lemma_was_ok(a.part(s, Rule::where_condition), s);
        },
        Rule::group_by_clause => {
            lemma_was_ok(a, s);
            lemma_was_ok(a.part(s, Rule::identifier), s);
        },
        Rule::order_by_clause => {
            lemma_was_ok(a, s);
            lemma_was_ok(a.part(s, Rule::identifier), s);
        },
        Rule::limit_clause => {
            lemma_was_ok(a, s);
        },
        Rule::select_stmt => {
            lemma_statement_frame(s, p);
        },
        _ => {},
    }
}

/// A match of a statement begins with `SELECT` and ends with a semicolon.
pub proof fn lemma_statement_frame(s: Seq<char>, p: int)
    requires
        matching(Rule::select_stmt, s, p).node is Some,
    ensures
        spell(s, p, "SELECT"@) is Some,
        ({
            let n = matching(Rule::select_stmt, s, p).node->0;
            1 <= n.end <= s.len() && s[n.end - 1] == ';'
        }),
{
    let rule = Rule::select_stmt;
    let a = Step::start(p).word(s, "SELECT"@, rule);
    let b = a.part(s, Rule::agg_field);
    let c = b.many(s, Item::Field);
    let d = c.part(s, Rule::from_clause);
    let e = d.many(s, Item::Join);
    let f = e.maybe(s, Rule::where_clause);
    let g = f.maybe(s, Rule::group_by_clause);
    let h = g.maybe(s, Rule::order_by_clause);
    let k = h.maybe(s, Rule::limit_clause);
    let z = k.word(s, ";"@, rule);
    assert(matching(rule, s, p) == z.finish(s, rule));
    lemma_was_ok(a, s);
    lemma_was_ok(b, s);
    lemma_was_ok(c, s);
    lemma_was_ok(d, s);
    lemma_was_ok(e, s);
    lemma_was_ok(f, s);
    lemma_was_ok(g, s);
    lemma_was_ok(h, s);
    reveal_strlit(";");
    let end = z.end;
    assert(s.subrange(k.at, end)[0] == ';');
}

/// An identifier is a letter or an underscore and then letters, digits
/// and underscores, as many as stand there, and is no reserved word.
pub proof fn lemma_identifier_token(s: Seq<char>, p: int)
    requires
        0 <= p <= s.len(),
        token_end(Rule::identifier, s, p) is Some,
    ensures
        ({
            let e = token_end(Rule::identifier, s, p)->0;
            &&& p < e <= s.len()
            &&& letter(s[p]) || s[p] == '_'
            &&& forall|i: int| p <= i < e ==> CharClass::Word.has(#[trigger] s[i])
            &&& e < s.len() ==> !CharClass::Word.has(s[e])
            &&& !reserved_word(s.subrange(p, e))
        }),
{
    lemma_run(s, p + 1, CharClass::Word);
}

/// A number is decimal digits, at least one and as many as stand there.
pub proof fn lemma_number_token(s: Seq<char>, p: int)
    requires
        0 <= p <= s.len(),
        token_end(Rule::number, s, p) is Some,
    ensures
        ({
            let e = token_end(Rule::number, s, p)->0;
            &&& p < e <= s.len()
            &&& forall|i: int| p <= i < e ==> digit(#[trigger] s[i])
            &&& e < s.len() ==> !digit(s[e])
        }),
{
    lemma_run(s, p, CharClass::Digit);
}

/// A string is a double quote, then characters that are no double quote,
/// then a double quote; the token holds both quotes.
pub proof fn lemma_string_token(s: Seq<char>, p: int)
    requires
        0 <= p <= s.len(),
        token_end(Rule::string, s, p) is Some,
    ensures
        ({
            let e = token_end(Rule::string, s, p)->0;
            &&& p + 2 <= e <= s.len()
            &&& s[p] == '"'
            &&& s[e - 1] == '"'
            &&& forall|i: int| p < i < e - 1 ==> #[trigger] s[i] != '"'
        }),
{
    lemma_run(s, p + 1, CharClass::Unquoted);
}

/// No match of `identifier` covers a reserved word.
pub proof fn lemma_identifier_is_not_reserved(s: Seq<char>, p: int)
    ensures
        matching(Rule::identifier, s, p).node matches Some(n) ==> !reserved_word(n.text),
{
}

/// True of the reserved words that are one word.
pub open spec fn single_keyword(t: Seq<char>) -> bool {
    t == "SELECT"@ || t == "FROM"@ || t == "JOIN"@ || t == "ON"@ || t == "WHERE"@ || t
        == "LIMIT"@ || t == "ASC"@ || t == "DESC"@ || t == "AND"@ || t == "OR"@
}

/// A text that is a reserved word of one word does not match `identifier`.
pub proof fn lemma_keyword_is_no_identifier(s: Seq<char>)
    requires
        single_keyword(s),
    ensures
        reserved_word(s),
        matching(Rule::identifier, s, 0).node is None,
{
    reveal_strlit("SELECT");
    reveal_strlit("FROM");
    reveal_strlit("JOIN");
    reveal_strlit("ON");
    reveal_strlit("WHERE");
    reveal_strlit("LIMIT");
    reveal_strlit("ASC");
    reveal_strlit("DESC");
    reveal_strlit("AND");
    reveal_strlit("OR");
    assert forall|i: int| 0 <= i < s.len() implies CharClass::Word.has(#[trigger] s[i]) by {}
    lemma_run_to_end(s, 1, CharClass::Word);
    assert(s.subrange(0, s.len() as int) =~= s);
}

} // verus!
