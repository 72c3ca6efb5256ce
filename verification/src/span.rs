use vstd::prelude::*;
use crate::rule::Rule;
use crate::shape::{lemma_shaped, shaped};
use crate::syntax::{further, matching, Item, Outcome, Step};
use crate::token::{run_end, skip_spaces, space_len, spell, token_end, CharClass};
use crate::tree::{Failure, Node};

verus! {

/// True when the matches `nodes` lie one after the other, none reaching
/// into the next, all of them between `from` and `to`.
pub open spec fn lined_up(nodes: Seq<Node>, from: int, to: int) -> bool {
    &&& forall|i: int|
        0 <= i < nodes.len() ==> from <= (#[trigger] nodes[i]).start && nodes[i].end <= to
    &&& forall|i: int, j: int|
        0 <= i < j < nodes.len() ==> (#[trigger] nodes[i]).end <= (#[trigger] nodes[j]).start
}

/// True when the match `n` and the matches inside it cover spans of the
/// text `s`, none of them empty, and hold the characters of their spans,
/// and the matches inside a match lie in order inside its span.
pub open spec fn spanned(n: Node, s: Seq<char>) -> bool
    decreases n,
{
    &&& 0 <= n.start < n.end <= s.len()
    &&& n.text == s.subrange(n.start, n.end)
    &&& lined_up(n.inner, n.start, n.end)
    &&& forall|i: int| 0 <= i < n.inner.len() ==> spanned(#[trigger] n.inner[i], s)
}

/// True when the failure, if there is one, lies at or after `from` and not
/// after the end of the text `s`.
pub open spec fn placed(f: Option<Failure>, from: int, s: Seq<char>) -> bool {
    f matches Some(x) ==> from <= x.at <= s.len()
}

/// What holds of the outcome of matching `rule` in `s` at `p`: a match is
/// one of `rule`, starts at `p` and covers a span of the text, as the
/// matches inside it do; a failure lies between `p` and the end of the
/// text; and where there is no match there is a failure.
pub open spec fn sound(o: Outcome, rule: Rule, s: Seq<char>, p: int) -> bool {
    &&& o.node matches Some(n) ==> n.rule == rule && n.start == p && spanned(n, s)
    &&& placed(o.furthest, p, s)
    &&& o.node is None ==> o.furthest is Some
}

/// What holds of every step of a rule in the text `s`.
pub open spec fn tidy(st: Step, s: Seq<char>) -> bool {
    &&& 0 <= st.from <= st.end <= st.at <= s.len()
    &&& lined_up(st.nodes, st.from, st.end)
    &&& forall|i: int| 0 <= i < st.nodes.len() ==> spanned(#[trigger] st.nodes[i], s)
    &&& placed(st.furthest, st.from, s)
    &&& !st.ok ==> st.furthest is Some
}

/// Whitespace is passed over forwards and inside the text.
pub proof fn lemma_skip_spaces(s: Seq<char>, p: int)
    requires
        0 <= p <= s.len(),
    ensures
        p <= skip_spaces(s, p) <= s.len(),
        space_len(s, skip_spaces(s, p)) == 0,
    decreases s.len() - p,
{
    if space_len(s, p) > 0 {
        lemma_skip_spaces(s, p + space_len(s, p));
    }
}

/// A run ends at or after its start and inside the text, and holds
/// characters of its class alone.
pub proof fn lemma_run(s: Seq<char>, p: int, class: CharClass)
    requires
        0 <= p <= s.len(),
    ensures
        p <= run_end(s, p, class) <= s.len(),
        forall|i: int| p <= i < run_end(s, p, class) ==> class.has(#[trigger] s[i]),
        run_end(s, p, class) < s.len() ==> !class.has(s[run_end(s, p, class)]),
    decreases s.len() - p,
{
    if p < s.len() && class.has(s[p]) {
        lemma_run(s, p + 1, class);
    }
}

/// A token ends after its start and inside the text.
pub proof fn lemma_token(rule: Rule, s: Seq<char>, p: int)
    requires
        0 <= p <= s.len(),
    ensures
        token_end(rule, s, p) matches Some(e) ==> p < e <= s.len(),
{
    lemma_run(s, p, CharClass::Digit);
    if p < s.len() {
        lemma_run(s, p + 1, CharClass::Word);
        lemma_run(s, p + 1, CharClass::Unquoted);
    }
    reveal_strlit("SELECT");
    reveal_strlit("FROM");
    reveal_strlit("JOIN");
    reveal_strlit("ON");
    reveal_strlit("WHERE");
    reveal_strlit("GROUP BY");
    reveal_strlit("ORDER BY");
    reveal_strlit("LIMIT");
    reveal_strlit("ASC");
    reveal_strlit("DESC");
    reveal_strlit("AND");
    reveal_strlit("OR");
    reveal_strlit("<=");
    reveal_strlit(">=");
    reveal_strlit("!=");
    reveal_strlit("=");
    reveal_strlit("<");
    reveal_strlit(">");
    reveal_strlit("COUNT");
    reveal_strlit("SUM");
    reveal_strlit("MAX");
    reveal_strlit("MIN");
    reveal_strlit("AVG");
}

/// A literal as the next part keeps the step tidy.
pub proof fn lemma_word_tidy(st: Step, s: Seq<char>, word: Seq<char>, owner: Rule)
    requires
        tidy(st, s),
    ensures
        tidy(st.word(s, word, owner), s),
        st.word(s, word, owner).from == st.from,
{
    if st.ok {
        match spell(s, st.at, word) {
            Some(e) => {
                lemma_skip_spaces(s, e);
            },
            None => {},
        }
    }
}

/// A match of a rule as the next part keeps the step tidy.
pub proof fn lemma_part_tidy(st: Step, s: Seq<char>, rule: Rule)
    requires
        tidy(st, s),
    ensures
        tidy(st.part(s, rule), s),
        st.part(s, rule).from == st.from,
    decreases rule.depth(), 1nat, 0int,
{
    if st.ok {
        lemma_sound(rule, s, st.at);
        let o = matching(rule, s, st.at);
        let t = st.part(s, rule);
        match o.node {
            Some(n) => {
                lemma_skip_spaces(s, n.end);
                assert forall|i: int| 0 <= i < t.nodes.len() implies spanned(
                    #[trigger] t.nodes[i],
                    s,
                ) by {
                    if i < st.nodes.len() {
                        assert(t.nodes[i] == st.nodes[i]);
                    }
                }
                assert forall|i: int| 0 <= i < t.nodes.len() implies t.from <= (
                #[trigger] t.nodes[i]).start && t.nodes[i].end <= t.end by {
                    if i < st.nodes.len() {
                        assert(t.nodes[i] == st.nodes[i]);
                    }
                }
                assert forall|i: int, j: int| 0 <= i < j < t.nodes.len() implies (
                #[trigger] t.nodes[i]).end <= (#[trigger] t.nodes[j]).start by {
                    assert(t.nodes[i] == st.nodes[i]);
                    if j < st.nodes.len() {
                        assert(t.nodes[j] == st.nodes[j]);
                    }
                }
            },
            None => {},
        }
    }
}

/// Remembering the failures of an earlier attempt from the same place
/// keeps the step tidy.
pub proof fn lemma_after_tidy(st: Step, earlier: Step, s: Seq<char>)
    requires
        tidy(st, s),
        tidy(earlier, s),
        earlier.from == st.from,
    ensures
        tidy(st.after(earlier), s),
        st.after(earlier).from == st.from,
        st.after(earlier).ok == st.ok,
{
}

/// Taking in a side attempt that began where the step stood keeps the step
/// tidy, whether the attempt had to match or not.
pub proof fn lemma_absorb_tidy(st: Step, t: Step, s: Seq<char>)
    requires
        tidy(st, s),
        tidy(t, s),
        t.from == st.at,
    ensures
        tidy(st.absorb(t), s),
        tidy(st.join(t), s),
        st.absorb(t).from == st.from,
        st.join(t).from == st.from,
        st.absorb(t).ok == st.ok,
{
    let r = st.absorb(t);
    if t.ok {
        assert forall|i: int| 0 <= i < r.nodes.len() implies spanned(#[trigger] r.nodes[i], s)
            && r.from <= r.nodes[i].start && r.nodes[i].end <= r.end by {
            if i < st.nodes.len() {
                assert(r.nodes[i] == st.nodes[i]);
            } else {
                assert(r.nodes[i] == t.nodes[i - st.nodes.len()]);
            }
        }
        assert forall|i: int, j: int| 0 <= i < j < r.nodes.len() implies (
        #[trigger] r.nodes[i]).end <= (#[trigger] r.nodes[j]).start by {
            if j < st.nodes.len() {
                assert(r.nodes[i] == st.nodes[i]);
                assert(r.nodes[j] == st.nodes[j]);
            } else if i < st.nodes.len() {
                assert(r.nodes[i] == st.nodes[i]);
                assert(r.nodes[j] == t.nodes[j - st.nodes.len()]);
            } else {
                assert(r.nodes[i] == t.nodes[i - st.nodes.len()]);
                assert(r.nodes[j] == t.nodes[j - st.nodes.len()]);
            }
        }
    }
}

/// Remembering the failures of a side attempt that is given up keeps the
/// step tidy.
pub proof fn lemma_pass_tidy(st: Step, t: Step, s: Seq<char>)
    requires
        tidy(st, s),
        tidy(t, s),
        t.from == st.at,
        st.ok,
    ensures
        tidy(Step { furthest: further(st.furthest, t.furthest), ..st }, s),
{
}

/// An optional part keeps the step tidy.
pub proof fn lemma_maybe_tidy(st: Step, s: Seq<char>, rule: Rule)
    requires
        tidy(st, s),
    ensures
        tidy(st.maybe(s, rule), s),
        st.maybe(s, rule).from == st.from,
    decreases rule.depth(), 2nat, 0int,
{
    if st.ok {
        lemma_part_tidy(Step::start(st.at), s, rule);
        lemma_absorb_tidy(st, Step::start(st.at).part(s, rule), s);
    }
}

/// A value as the next part keeps the step tidy.
pub proof fn lemma_value_tidy(st: Step, s: Seq<char>)
    requires
        tidy(st, s),
    ensures
        tidy(st.value(s), s),
        st.value(s).from == st.from,
    decreases 0nat, 2nat, 0int,
{
    if st.ok {
        let o = Step::start(st.at);
        lemma_part_tidy(o, s, Rule::number);
        lemma_part_tidy(o, s, Rule::string);
        lemma_part_tidy(o, s, Rule::identifier);
        let n = o.part(s, Rule::number);
        lemma_after_tidy(o.part(s, Rule::string), n, s);
        let q = o.part(s, Rule::string).after(n);
        lemma_after_tidy(o.part(s, Rule::identifier), q, s);
        let i = o.part(s, Rule::identifier).after(q);
        lemma_absorb_tidy(st, n, s);
        lemma_absorb_tidy(st, q, s);
        lemma_absorb_tidy(st, i, s);
    }
}

/// One item as the next parts keeps the step tidy.
pub proof fn lemma_once_tidy(st: Step, s: Seq<char>, item: Item)
    requires
        tidy(st, s),
    ensures
        tidy(st.once(s, item), s),
        st.once(s, item).from == st.from,
    decreases item.depth(), 2nat, 0int,
{
    match item {
        Item::Field => {
            lemma_word_tidy(st, s, ","@, Rule::select_stmt);
            lemma_part_tidy(st.word(s, ","@, Rule::select_stmt), s, Rule::agg_field);
        },
        Item::Join => {
            lemma_part_tidy(st, s, Rule::join_clause);
        },
        Item::Condition => {
            lemma_part_tidy(st, s, Rule::logical_op);
            lemma_part_tidy(st.part(s, Rule::logical_op), s, Rule::where_condition);
        },
        Item::Column => {
            lemma_word_tidy(st, s, ","@, Rule::group_by_clause);
            lemma_part_tidy(st.word(s, ","@, Rule::group_by_clause), s, Rule::identifier);
        },
    }
}

/// A run of items keeps the step tidy.
pub proof fn lemma_many_tidy(st: Step, s: Seq<char>, item: Item)
    requires
        tidy(st, s),
    ensures
        tidy(st.many(s, item), s),
        st.many(s, item).from == st.from,
    decreases item.depth(), 3nat, s.len() - st.end,
{
    if st.ok {
        let o = Step::start(st.at);
        lemma_once_tidy(o, s, item);
        let t = o.once(s, item);
        lemma_absorb_tidy(st, t, s);
        if t.ok && st.end < t.end <= s.len() {
            lemma_many_tidy(st.absorb(t), s, item);
        }
    }
}

/// The outcome of a tidy step whose rule has inner matches is sound.
pub proof fn lemma_finish_sound(st: Step, s: Seq<char>, rule: Rule)
    requires
        tidy(st, s),
        st.finish(s, rule).node matches Some(n) ==> n.rule == rule && shaped(n),
        rule.depth() > 0,
    ensures
        sound(st.finish(s, rule), rule, s, st.from),
{
    if st.ok {
        assert(st.nodes.len() >= 1);
        assert(spanned(st.nodes[0], s));
    }
}

/// The outcome of matching `agg_field` is sound.
proof fn lemma_field_sound(s: Seq<char>, p: int)
    requires
        0 <= p <= s.len(),
    ensures
        sound(matching(Rule::agg_field, s, p), Rule::agg_field, s, p),
    decreases 1nat, 0nat, 0int,
{
    let rule = Rule::agg_field;
    let o = Step::start(p);
    lemma_part_tidy(o, s, Rule::aggregate_func);
    let a = o.part(s, Rule::aggregate_func);
    lemma_word_tidy(a, s, "("@, rule);
    let b = a.word(s, "("@, rule);
    lemma_part_tidy(b, s, Rule::identifier);
    let c = b.part(s, Rule::identifier);
    lemma_word_tidy(c, s, ")"@, rule);
    let call = c.word(s, ")"@, rule);
    lemma_shaped(rule, s, p);
    lemma_part_tidy(o, s, Rule::identifier);
    lemma_after_tidy(o.part(s, Rule::identifier), call, s);
    if call.ok {
        lemma_finish_sound(call, s, rule);
    } else {
        lemma_finish_sound(o.part(s, Rule::identifier).after(call), s, rule);
    }
}

/// The outcome of matching `from_clause` is sound.
proof fn lemma_from_sound(s: Seq<char>, p: int)
    requires
        0 <= p <= s.len(),
    ensures
        sound(matching(Rule::from_clause, s, p), Rule::from_clause, s, p),
    decreases 1nat, 0nat, 0int,
{
    let rule = Rule::from_clause;
    let o = Step::start(p);
    lemma_word_tidy(o, s, "FROM"@, rule);
    let a = o.word(s, "FROM"@, rule);
    lemma_part_tidy(a, s, Rule::identifier);
    lemma_shaped(rule, s, p);
    lemma_finish_sound(a.part(s, Rule::identifier), s, rule);
}

/// The outcome of matching `join_clause` is sound.
proof fn lemma_join_sound(s: Seq<char>, p: int)
    requires
        0 <= p <= s.len(),
    ensures
        sound(matching(Rule::join_clause, s, p), Rule::join_clause, s, p),
    decreases 1nat, 0nat, 0int,
{
    let rule = Rule::join_clause;
    let o = Step::start(p);
    lemma_word_tidy(o, s, "JOIN"@, rule);
    let a = o.word(s, "JOIN"@, rule);
    lemma_part_tidy(a, s, Rule::identifier);
    let b = a.part(s, Rule::identifier);
    lemma_word_tidy(b, s, "ON"@, rule);
    let c = b.word(s, "ON"@, rule);
    lemma_part_tidy(c, s, Rule::identifier);
    let d = c.part(s, Rule::identifier);
    lemma_word_tidy(d, s, "="@, rule);
    let e = d.word(s, "="@, rule);
    lemma_part_tidy(e, s, Rule::identifier);
    lemma_shaped(rule, s, p);
    lemma_finish_sound(e.part(s, Rule::identifier), s, rule);
}

/// The outcome of matching `where_condition` is sound.
proof fn lemma_condition_sound(s: Seq<char>, p: int)
    requires
        0 <= p <= s.len(),
    ensures
        sound(matching(Rule::where_condition, s, p), Rule::where_condition, s, p),
    decreases 1nat, 0nat, 0int,
{
    let rule = Rule::where_condition;
    let o = Step::start(p);
    lemma_part_tidy(o, s, Rule::identifier);
    let a = o.part(s, Rule::identifier);
    lemma_part_tidy(a, s, Rule::comparison_op);
    let b = a.part(s, Rule::comparison_op);
    lemma_value_tidy(b, s);
    lemma_shaped(rule, s, p);
    lemma_finish_sound(b.value(s), s, rule);
}

/// The outcome of matching `where_clause` is sound.
proof fn lemma_filter_sound(s: Seq<char>, p: int)
    requires
        0 <= p <= s.len(),
    ensures
        sound(matching(Rule::where_clause, s, p), Rule::where_clause, s, p),
    decreases 2nat, 0nat, 0int,
{
    let rule = Rule::where_clause;
    let o = Step::start(p);
    lemma_word_tidy(o, s, "WHERE"@, rule);
    let a = o.word(s, "WHERE"@, rule);
    lemma_part_tidy(a, s, Rule::where_condition);
    let b = a.part(s, Rule::where_condition);
    lemma_many_tidy(b, s, Item::Condition);
    lemma_shaped(rule, s, p);
    lemma_finish_sound(b.many(s, Item::Condition), s, rule);
}

/// The outcome of matching `group_by_clause` is sound.
proof fn lemma_group_sound(s: Seq<char>, p: int)
    requires
        0 <= p <= s.len(),
    ensures
        sound(matching(Rule::group_by_clause, s, p), Rule::group_by_clause, s, p),
    decreases 1nat, 0nat, 0int,
{
    let rule = Rule::group_by_clause;
    let o = Step::start(p);
    lemma_word_tidy(o, s, "GROUP BY"@, rule);
    let a = o.word(s, "GROUP BY"@, rule);
    lemma_part_tidy(a, s, Rule::identifier);
    let b = a.part(s, Rule::identifier);
    lemma_many_tidy(b, s, Item::Column);
    lemma_shaped(rule, s, p);
    lemma_finish_sound(b.many(s, Item::Column), s, rule);
}

/// The outcome of matching `order_by_clause` is sound.
proof fn lemma_order_sound(s: Seq<char>, p: int)
    requires
        0 <= p <= s.len(),
    ensures
        sound(matching(Rule::order_by_clause, s, p), Rule::order_by_clause, s, p),
    decreases 1nat, 0nat, 0int,
{
    let rule = Rule::order_by_clause;
    let o = Step::start(p);
    lemma_word_tidy(o, s, "ORDER BY"@, rule);
    let a = o.word(s, "ORDER BY"@, rule);
    lemma_part_tidy(a, s, Rule::identifier);
    let b = a.part(s, Rule::identifier);
    lemma_maybe_tidy(b, s, Rule::order_type);
    lemma_shaped(rule, s, p);
    lemma_finish_sound(b.maybe(s, Rule::order_type), s, rule);
}

/// The outcome of matching `limit_clause` is sound.
proof fn lemma_limit_sound(s: Seq<char>, p: int)
    requires
        0 <= p <= s.len(),
    ensures
        sound(matching(Rule::limit_clause, s, p), Rule::limit_clause, s, p),
    decreases 1nat, 0nat, 0int,
{
    let rule = Rule::limit_clause;
    let o = Step::start(p);
    lemma_word_tidy(o, s, "LIMIT"@, rule);
    let a = o.word(s, "LIMIT"@, rule);
    lemma_part_tidy(a, s, Rule::number);
    lemma_shaped(rule, s, p);
    lemma_finish_sound(a.part(s, Rule::number), s, rule);
}

/// The outcome of matching `select_stmt` is sound.
proof fn lemma_statement_sound(s: Seq<char>, p: int)
    requires
        0 <= p <= s.len(),
    ensures
        sound(matching(Rule::select_stmt, s, p), Rule::select_stmt, s, p),
    decreases 3nat, 0nat, 0int,
{
    let rule = Rule::select_stmt;
    let o = Step::start(p);
    lemma_word_tidy(o, s, "SELECT"@, rule);
    let a = o.word(s, "SELECT"@, rule);
    lemma_part_tidy(a, s, Rule::agg_field);
    let b = a.part(s, Rule::agg_field);
    lemma_many_tidy(b, s, Item::Field);
    let c = b.many(s, Item::Field);
    lemma_part_tidy(c, s, Rule::from_clause);
    let d = c.part(s, Rule::from_clause);
    lemma_many_tidy(d, s, Item::Join);
    let e = d.many(s, Item::Join);
    lemma_maybe_tidy(e, s, Rule::where_clause);
    let f = e.maybe(s, Rule::where_clause);
    lemma_maybe_tidy(f, s, Rule::group_by_clause);
    let g = f.maybe(s, Rule::group_by_clause);
    lemma_maybe_tidy(g, s, Rule::order_by_clause);
    let h = g.maybe(s, Rule::order_by_clause);
    lemma_maybe_tidy(h, s, Rule::limit_clause);
    let k = h.maybe(s, Rule::limit_clause);
    lemma_word_tidy(k, s, ";"@, rule);
    lemma_shaped(rule, s, p);
    lemma_finish_sound(k.word(s, ";"@, rule), s, rule);
}

/// Every outcome of matching is sound: a match covers a span of the text
/// that starts where the rule was tried, the matches inside it lie in order
/// inside that span, each holds the characters of its own span, and a
/// failure lies between the start and the end of the text.
pub proof fn lemma_sound(rule: Rule, s: Seq<char>, p: int)
    requires
        0 <= p <= s.len(),
    ensures
        sound(matching(rule, s, p), rule, s, p),
    decreases rule.depth(), 0nat, 1int,
{
    match rule {
        Rule::agg_field => lemma_field_sound(s, p),
        Rule::from_clause => lemma_from_sound(s, p),
        Rule::join_clause => lemma_join_sound(s, p),
        Rule::where_condition => lemma_condition_sound(s, p),
        Rule::where_clause => lemma_filter_sound(s, p),
        Rule::group_by_clause => lemma_group_sound(s, p),
        Rule::order_by_clause => lemma_order_sound(s, p),
        Rule::limit_clause => lemma_limit_sound(s, p),
        Rule::select_stmt => lemma_statement_sound(s, p),
        _ => {
            lemma_token(rule, s, p);
        },
    }
}

} // verus!
