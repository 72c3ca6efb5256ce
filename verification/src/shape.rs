use vstd::prelude::*;
use crate::rule::Rule;
use crate::syntax::{matching, Item, Step};
use crate::tree::Node;

verus! {

/// True of a match of `rule` that has no inner matches.
pub open spec fn leaf_of(n: Node, rule: Rule) -> bool {
    n.rule == rule && n.inner.len() == 0
}

/// The shape of a match of a lexical rule or of a rule that is built on
/// lexical rules alone: which inner matches it has, in which order.
pub open spec fn flat_shaped(n: Node) -> bool {
    match n.rule {
        Rule::agg_field => (n.inner.len() == 1 && leaf_of(n.inner[0], Rule::identifier)) || (
        n.inner.len() == 2 && leaf_of(n.inner[0], Rule::aggregate_func) && leaf_of(
            n.inner[1],
            Rule::identifier,
        )),
        Rule::from_clause => n.inner.len() == 1 && leaf_of(n.inner[0], Rule::identifier),
        Rule::join_clause => n.inner.len() == 3 && leaf_of(n.inner[0], Rule::identifier)
            && leaf_of(n.inner[1], Rule::identifier) && leaf_of(n.inner[2], Rule::identifier),
        Rule::where_condition => n.inner.len() == 3 && leaf_of(n.inner[0], Rule::identifier)
            && leaf_of(n.inner[1], Rule::comparison_op) && (leaf_of(n.inner[2], Rule::number)
            || leaf_of(n.inner[2], Rule::string) || leaf_of(n.inner[2], Rule::identifier)),
        Rule::group_by_clause => n.inner.len() >= 1 && forall|i: int|
            0 <= i < n.inner.len() ==> leaf_of(#[trigger] n.inner[i], Rule::identifier),
        Rule::order_by_clause => leaf_of(n.inner[0], Rule::identifier) && (n.inner.len() == 1 || (
        n.inner.len() == 2 && leaf_of(n.inner[1], Rule::order_type))),
        Rule::limit_clause => n.inner.len() == 1 && leaf_of(n.inner[0], Rule::number),
        _ => n.inner.len() == 0,
    }
}

/// The shape of the `k`-th inner match of a `where_clause`: conditions at
/// the even places, logical operators between them.
pub open spec fn filter_part(n: Node, k: int) -> bool {
    if k % 2 == 0 {
        n.rule == Rule::where_condition && flat_shaped(n)
    } else {
        leaf_of(n, Rule::logical_op)
    }
}

/// The shape of a match of `where_clause`: conditions and logical operators
/// in turn, a condition first and last.
pub open spec fn filter_shaped(n: Node) -> bool {
    n.inner.len() % 2 == 1 && forall|i: int|
        0 <= i < n.inner.len() ==> filter_part(#[trigger] n.inner[i], i)
}

/// True of the rules whose matches are the clauses of a statement.
pub open spec fn clause_rule(rule: Rule) -> bool {
    rule == Rule::agg_field || rule == Rule::from_clause || rule == Rule::join_clause || rule
        == Rule::where_clause || rule == Rule::group_by_clause || rule == Rule::order_by_clause
        || rule == Rule::limit_clause
}

/// The place of a clause in a statement, by its rule: fields first, then
/// the source, the joins, the filter, the grouping, the ordering and the
/// limit.
pub open spec fn place(rule: Rule) -> int {
    match rule {
        Rule::agg_field => 0,
        Rule::from_clause => 1,
        Rule::join_clause => 2,
        Rule::where_clause => 3,
        Rule::group_by_clause => 4,
        Rule::order_by_clause => 5,
        Rule::limit_clause => 6,
        _ => 7,
    }
}

/// True of the clauses that a statement may hold more than one of.
pub open spec fn repeats(rule: Rule) -> bool {
    rule == Rule::agg_field || rule == Rule::join_clause
}

/// True when the clauses `nodes` stand in the order of their places, none
/// of them after place `hi`, and only fields and joins come more than once.
pub open spec fn in_places(nodes: Seq<Node>, hi: int) -> bool {
    &&& forall|i: int| 0 <= i < nodes.len() ==> place((#[trigger] nodes[i]).rule) <= hi
    &&& forall|i: int, j: int|
        0 <= i < j < nodes.len() ==> place((#[trigger] nodes[i]).rule) <= place(
            (#[trigger] nodes[j]).rule,
        ) && (place(nodes[i].rule) == place(nodes[j].rule) ==> repeats(nodes[i].rule))
}

/// The shape of a match of `select_stmt`: clauses in their shapes and in
/// the order of their places, a field first, and a source among them.
pub open spec fn statement_shaped(n: Node) -> bool {
    &&& all_clauses(n.inner)
    &&& in_places(n.inner, 6)
    &&& n.inner.len() >= 2
    &&& n.inner[0].rule == Rule::agg_field
    &&& exists|k: int| 0 <= k < n.inner.len() && (#[trigger] n.inner[k]).rule == Rule::from_clause
}

/// The shape of a match of any rule.
pub open spec fn shaped(n: Node) -> bool {
    match n.rule {
        Rule::select_stmt => statement_shaped(n),
        Rule::where_clause => filter_shaped(n),
        _ => flat_shaped(n),
    }
}

/// The shape of a clause of a statement.
pub open spec fn clause_shaped(n: Node) -> bool {
    clause_rule(n.rule) && if n.rule == Rule::where_clause {
        filter_shaped(n)
    } else {
        flat_shaped(n)
    }
}

/// True when the step `t` has the nodes of `st` and `k` more after them.
pub open spec fn grows(st: Step, t: Step, k: int) -> bool {
    t.nodes.len() == st.nodes.len() + k && forall|i: int|
        0 <= i < st.nodes.len() ==> #[trigger] t.nodes[i] == st.nodes[i]
}

/// How many nodes one `item` adds.
pub open spec fn width(item: Item) -> int {
    match item {
        Item::Condition => 2,
        _ => 1,
    }
}

/// True when a run of `item` that added `n` nodes added whole items.
pub open spec fn whole(item: Item, n: int) -> bool {
    item == Item::Condition ==> n % 2 == 0
}

/// The shape of the `k`-th node that a run of `item` adds.
pub open spec fn item_node(item: Item, n: Node, k: int) -> bool {
    match item {
        Item::Field => n.rule == Rule::agg_field && shaped(n),
        Item::Join => n.rule == Rule::join_clause && shaped(n),
        Item::Condition => filter_part(n, k + 1),
        Item::Column => leaf_of(n, Rule::identifier),
    }
}

/// A part that matched added one node, a match of the rule in its shape.
pub proof fn lemma_part(st: Step, s: Seq<char>, rule: Rule)
    ensures
        ({
            let t = st.part(s, rule);
            &&& t.ok ==> st.ok && grows(st, t, 1) && t.nodes.last().rule == rule && shaped(
                t.nodes.last(),
            )
            &&& !t.ok ==> t.nodes == st.nodes
        }),
    decreases rule.depth(), 1nat, 0int,
{
    if st.ok {
        lemma_shaped(rule, s, st.at);
    }
}

/// An optional part added one node in its shape, or none.
pub proof fn lemma_maybe(st: Step, s: Seq<char>, rule: Rule)
    ensures
        ({
            let t = st.maybe(s, rule);
            &&& t.ok == st.ok
            &&& t.nodes == st.nodes || (grows(st, t, 1) && t.nodes.last().rule == rule && shaped(
                t.nodes.last(),
            ))
        }),
    decreases rule.depth(), 2nat, 0int,
{
    if st.ok {
        lemma_part(Step::start(st.at), s, rule);
        let u = Step::start(st.at).part(s, rule);
        if u.ok {
            assert(u.nodes =~= seq![u.nodes.last()]);
        } else {
            assert(st.absorb(u).nodes == st.nodes);
        }
    }
}

/// A value that matched added one node: a number, a string or an
/// identifier.
pub proof fn lemma_value(st: Step, s: Seq<char>)
    ensures
        ({
            let t = st.value(s);
            &&& t.ok ==> st.ok && grows(st, t, 1) && (leaf_of(t.nodes.last(), Rule::number)
                || leaf_of(t.nodes.last(), Rule::string) || leaf_of(
                t.nodes.last(),
                Rule::identifier,
            ))
        }),
    decreases 0nat, 2nat, 0int,
{
    if st.ok {
        let o = Step::start(st.at);
        lemma_part(o, s, Rule::number);
        lemma_part(o, s, Rule::string);
        lemma_part(o, s, Rule::identifier);
        let n = o.part(s, Rule::number);
        let q = o.part(s, Rule::string).after(n);
        let i = o.part(s, Rule::identifier).after(q);
        let pick = if n.ok {
            n
        } else if q.ok {
            q
        } else {
            i
        };
        if pick.ok {
            assert(pick.nodes =~= seq![pick.nodes.last()]);
        }
    }
}

/// One item that matched, begun with no nodes, gave its nodes in their
/// shapes.
pub proof fn lemma_once(p: int, s: Seq<char>, item: Item)
    ensures
        ({
            let u = Step::start(p).once(s, item);
            u.ok ==> u.nodes.len() == width(item) && forall|k: int|
                0 <= k < u.nodes.len() ==> item_node(item, #[trigger] u.nodes[k], k)
        }),
    decreases item.depth(), 2nat, 0int,
{
    let o = Step::start(p);
    match item {
        Item::Field => {
            lemma_part(o.word(s, ","@, Rule::select_stmt), s, Rule::agg_field);
        },
        Item::Join => {
            lemma_part(o, s, Rule::join_clause);
        },
        Item::Condition => {
            lemma_part(o, s, Rule::logical_op);
            lemma_part(o.part(s, Rule::logical_op), s, Rule::where_condition);
        },
        Item::Column => {
            lemma_part(o.word(s, ","@, Rule::group_by_clause), s, Rule::identifier);
        },
    }
}

/// A run of items added whole items only, each node in its shape.
pub proof fn lemma_many(st: Step, s: Seq<char>, item: Item)
    ensures
        ({
            let t = st.many(s, item);
            &&& t.ok == st.ok
            &&& t.nodes.len() >= st.nodes.len()
            &&& whole(item, t.nodes.len() - st.nodes.len())
            &&& forall|i: int| 0 <= i < st.nodes.len() ==> #[trigger] t.nodes[i] == st.nodes[i]
            &&& forall|i: int|
                st.nodes.len() <= i < t.nodes.len() ==> item_node(
                    item,
                    #[trigger] t.nodes[i],
                    i - st.nodes.len(),
                )
        }),
    decreases item.depth(), 3nat, s.len() - st.end,
{
    let t = st.many(s, item);
    if st.ok {
        let u = Step::start(st.at).once(s, item);
        lemma_once(st.at, s, item);
        if u.ok && st.end < u.end <= s.len() {
            let v = st.absorb(u);
            lemma_many(v, s, item);
            assert(t == v.many(s, item));
            assert(v.nodes.len() == st.nodes.len() + width(item));
            assert(t.ok == st.ok);
            assert(t.nodes.len() >= st.nodes.len());
            assert(whole(item, t.nodes.len() - v.nodes.len()));
            assert(whole(item, t.nodes.len() - st.nodes.len()));
            assert forall|i: int| st.nodes.len() <= i < t.nodes.len() implies item_node(
                item,
                #[trigger] t.nodes[i],
                i - st.nodes.len(),
            ) by {
                if i < v.nodes.len() {
                    assert(t.nodes[i] == v.nodes[i]);
                    assert(v.nodes[i] == u.nodes[i - st.nodes.len()]);
                    assert(item_node(item, u.nodes[i - st.nodes.len()], i - st.nodes.len()));
                } else {
                    assert(item_node(item, t.nodes[i], i - v.nodes.len()));
                    assert((i - st.nodes.len()) == (i - v.nodes.len()) + width(item));
                }
            }
            assert forall|i: int| 0 <= i < st.nodes.len() implies #[trigger] t.nodes[i]
                == st.nodes[i] by {
                assert(t.nodes[i] == v.nodes[i]);
            }
        } else {
            assert(t.nodes == st.nodes);
        }
    } else {
        assert(t == st);
    }
}

/// True when `t` is `st` or has one clause more, a match of `rule` in its
/// shape.
pub open spec fn one_more(st: Step, t: Step, rule: Rule) -> bool {
    t.nodes == st.nodes || (grows(st, t, 1) && t.nodes.last().rule == rule && shaped(
        t.nodes.last(),
    ))
}

/// Clauses in their places with at most one clause of a later place more,
/// or of the same place where that may repeat, are clauses in their places.
proof fn lemma_clauses_one(st: Step, t: Step, rule: Rule, hi: int)
    requires
        all_clauses(st.nodes),
        in_places(st.nodes, hi),
        one_more(st, t, rule),
        clause_rule(rule),
        hi < place(rule) || (hi == place(rule) && repeats(rule)),
    ensures
        all_clauses(t.nodes),
        in_places(t.nodes, place(rule)),
{
    if t.nodes != st.nodes {
        assert forall|i: int| 0 <= i < t.nodes.len() implies clause_shaped(
            #[trigger] t.nodes[i],
        ) && place(t.nodes[i].rule) <= place(rule) by {
            if i < st.nodes.len() {
                assert(t.nodes[i] == st.nodes[i]);
            } else {
                assert(t.nodes[i] == t.nodes.last());
            }
        }
        assert forall|i: int, j: int| 0 <= i < j < t.nodes.len() implies place(
            (#[trigger] t.nodes[i]).rule,
        ) <= place((#[trigger] t.nodes[j]).rule) && (place(t.nodes[i].rule) == place(
            t.nodes[j].rule,
        ) ==> repeats(t.nodes[i].rule)) by {
            assert(t.nodes[i] == st.nodes[i]);
            if j < st.nodes.len() {
                assert(t.nodes[j] == st.nodes[j]);
            } else {
                assert(t.nodes[j] == t.nodes.last());
            }
        }
    }
}

/// Clauses in their places with a run of fields or joins after them are
/// clauses in their places.
proof fn lemma_clauses_many(st: Step, s: Seq<char>, item: Item, rule: Rule, hi: int)
    requires
        all_clauses(st.nodes),
        in_places(st.nodes, hi),
        (item == Item::Field && rule == Rule::agg_field) || (item == Item::Join && rule
            == Rule::join_clause),
        hi <= place(rule),
    ensures
        all_clauses(st.many(s, item).nodes),
        in_places(st.many(s, item).nodes, place(rule)),
        st.many(s, item).ok == st.ok,
        st.many(s, item).nodes.len() >= st.nodes.len(),
        forall|i: int|
            0 <= i < st.nodes.len() ==> #[trigger] st.many(s, item).nodes[i] == st.nodes[i],
    decreases item.depth(), 4nat, 0int,
{
    lemma_many(st, s, item);
    let t = st.many(s, item);
    assert forall|i: int| 0 <= i < t.nodes.len() implies clause_shaped(#[trigger] t.nodes[i])
        && place(t.nodes[i].rule) <= place(rule) by {
        if i < st.nodes.len() {
            assert(t.nodes[i] == st.nodes[i]);
        } else {
            assert(item_node(item, t.nodes[i], i - st.nodes.len()));
        }
    }
    assert forall|i: int, j: int| 0 <= i < j < t.nodes.len() implies place(
        (#[trigger] t.nodes[i]).rule,
    ) <= place((#[trigger] t.nodes[j]).rule) && (place(t.nodes[i].rule) == place(
        t.nodes[j].rule,
    ) ==> repeats(t.nodes[i].rule)) by {
        if i < st.nodes.len() {
            assert(t.nodes[i] == st.nodes[i]);
        } else {
            assert(item_node(item, t.nodes[i], i - st.nodes.len()));
        }
        if j < st.nodes.len() {
            assert(t.nodes[j] == st.nodes[j]);
        } else {
            assert(item_node(item, t.nodes[j], j - st.nodes.len()));
        }
    }
}

/// A step that has `t.nodes == st.nodes` or one node more keeps the nodes
/// of `st` where they were.
proof fn lemma_kept(st: Step, t: Step, rule: Rule, k: int)
    requires
        one_more(st, t, rule),
        0 <= k < st.nodes.len(),
    ensures
        0 <= k < t.nodes.len(),
        t.nodes[k] == st.nodes[k],
{
}

/// A match of `select_stmt` holds clauses in their shapes and places.
proof fn lemma_statement_shaped(s: Seq<char>, p: int)
    ensures
        matching(Rule::select_stmt, s, p).node matches Some(n) ==> n.rule == Rule::select_stmt
            && shaped(n),
    decreases 3nat, 0nat, 0int,
{
    let rule = Rule::select_stmt;
    let a = Step::start(p).word(s, "SELECT"@, rule);
    let b = a.part(s, Rule::agg_field);
    let c = b.many(s, Item::Field);
    let d = c.part(s, Rule::from_clause);
    let e = d.many(s, Item::Join);
    let f = e.maybe(s, Rule::where_clause);
    let g = f.maybe(s, Rule::group_by_clause);
    let h = g.maybe(s, Rule::order_by_clause);
    let k = h.maybe(s, Rule::limit_clause);
    let z = k.word(s, ";"@, rule);
    assert(matching(rule, s, p) == z.finish(s, rule));
    lemma_part(a, s, Rule::agg_field);
    if b.ok {
        lemma_clauses_one(a, b, Rule::agg_field, 0);
        lemma_clauses_many(b, s, Item::Field, Rule::agg_field, 0);
        lemma_part(c, s, Rule::from_clause);
        if d.ok {
            let at = c.nodes.len() as int;
            lemma_clauses_one(c, d, Rule::from_clause, 0);
            lemma_clauses_many(d, s, Item::Join, Rule::join_clause, 1);
            lemma_maybe(e, s, Rule::where_clause);
            lemma_clauses_one(e, f, Rule::where_clause, 2);
            lemma_maybe(f, s, Rule::group_by_clause);
            lemma_clauses_one(f, g, Rule::group_by_clause, 3);
            lemma_maybe(g, s, Rule::order_by_clause);
            lemma_clauses_one(g, h, Rule::order_by_clause, 4);
            lemma_maybe(h, s, Rule::limit_clause);
            lemma_clauses_one(h, k, Rule::limit_clause, 5);
            assert(z.nodes == k.nodes);
            assert(d.nodes[at] == d.nodes.last());
            assert(e.nodes[at] == d.nodes[at]);
            assert(e.nodes[0] == d.nodes[0]);
            assert(d.nodes[0] == c.nodes[0]);
            assert(c.nodes[0] == b.nodes[0]);
            assert(b.nodes[0] == b.nodes.last());
            lemma_kept(e, f, Rule::where_clause, at);
            lemma_kept(f, g, Rule::group_by_clause, at);
            lemma_kept(g, h, Rule::order_by_clause, at);
            lemma_kept(h, k, Rule::limit_clause, at);
            lemma_kept(e, f, Rule::where_clause, 0);
            lemma_kept(f, g, Rule::group_by_clause, 0);
            lemma_kept(g, h, Rule::order_by_clause, 0);
            lemma_kept(h, k, Rule::limit_clause, 0);
            assert(k.nodes[at].rule == Rule::from_clause);
        } else {
            lemma_many(d, s, Item::Join);
            lemma_maybe(e, s, Rule::where_clause);
            lemma_maybe(f, s, Rule::group_by_clause);
            lemma_maybe(g, s, Rule::order_by_clause);
            lemma_maybe(h, s, Rule::limit_clause);
        }
    } else {
        lemma_many(b, s, Item::Field);
        lemma_part(c, s, Rule::from_clause);
        lemma_many(d, s, Item::Join);
        lemma_maybe(e, s, Rule::where_clause);
        lemma_maybe(f, s, Rule::group_by_clause);
        lemma_maybe(g, s, Rule::order_by_clause);
        lemma_maybe(h, s, Rule::limit_clause);
    }
}

/// A match of `agg_field` has its shape.
proof fn lemma_field_shaped(s: Seq<char>, p: int)
    ensures
        matching(Rule::agg_field, s, p).node matches Some(n) ==> n.rule == Rule::agg_field
            && shaped(n),
    decreases 1nat, 0nat, 0int,
{
    let rule = Rule::agg_field;
    let o = Step::start(p);
    let a = o.part(s, Rule::aggregate_func);
    lemma_part(o, s, Rule::aggregate_func);
    let b = a.word(s, "("@, rule);
    lemma_part(b, s, Rule::identifier);
    lemma_part(o, s, Rule::identifier);
}

/// A match of `from_clause` has its shape.
proof fn lemma_from_shaped(s: Seq<char>, p: int)
    ensures
        matching(Rule::from_clause, s, p).node matches Some(n) ==> n.rule == Rule::from_clause
            && shaped(n),
    decreases 1nat, 0nat, 0int,
{
    lemma_part(Step::start(p).word(s, "FROM"@, Rule::from_clause), s, Rule::identifier);
}

/// A match of `join_clause` has its shape.
proof fn lemma_join_shaped(s: Seq<char>, p: int)
    ensures
        matching(Rule::join_clause, s, p).node matches Some(n) ==> n.rule == Rule::join_clause
            && shaped(n),
    decreases 1nat, 0nat, 0int,
{
    let rule = Rule::join_clause;
    let a = Step::start(p).word(s, "JOIN"@, rule);
    lemma_part(a, s, Rule::identifier);
    let b = a.part(s, Rule::identifier).word(s, "ON"@, rule);
    lemma_part(b, s, Rule::identifier);
    let c = b.part(s, Rule::identifier).word(s, "="@, rule);
    lemma_part(c, s, Rule::identifier);
}

/// A match of `where_condition` has its shape.
proof fn lemma_condition_shaped(s: Seq<char>, p: int)
    ensures
        matching(Rule::where_condition, s, p).node matches Some(n) ==> n.rule
            == Rule::where_condition && shaped(n),
    decreases 1nat, 0nat, 0int,
{
    let o = Step::start(p);
    lemma_part(o, s, Rule::identifier);
    let a = o.part(s, Rule::identifier);
    lemma_part(a, s, Rule::comparison_op);
    let b = a.part(s, Rule::comparison_op);
    lemma_value(b, s);
}

/// A match of `where_clause` has its shape.
proof fn lemma_filter_shaped(s: Seq<char>, p: int)
    ensures
        matching(Rule::where_clause, s, p).node matches Some(n) ==> n.rule == Rule::where_clause
            && shaped(n),
    decreases 2nat, 0nat, 0int,
{
    let a = Step::start(p).word(s, "WHERE"@, Rule::where_clause);
    lemma_part(a, s, Rule::where_condition);
    let b = a.part(s, Rule::where_condition);
    lemma_many(b, s, Item::Condition);
    let c = b.many(s, Item::Condition);
    if c.ok {
        assert forall|i: int| 0 <= i < c.nodes.len() implies filter_part(
            #[trigger] c.nodes[i],
            i,
        ) by {
            if i >= 1 {
                assert(item_node(Item::Condition, c.nodes[i], i - 1));
            } else {
                assert(c.nodes[i] == b.nodes[i]);
            }
        }
    }
}

/// A match of `group_by_clause` has its shape.
proof fn lemma_group_shaped(s: Seq<char>, p: int)
    ensures
        matching(Rule::group_by_clause, s, p).node matches Some(n) ==> n.rule
            == Rule::group_by_clause && shaped(n),
    decreases 1nat, 0nat, 0int,
{
    let a = Step::start(p).word(s, "GROUP BY"@, Rule::group_by_clause);
    lemma_part(a, s, Rule::identifier);
    let b = a.part(s, Rule::identifier);
    lemma_many(b, s, Item::Column);
    let c = b.many(s, Item::Column);
    if c.ok {
        assert forall|i: int| 0 <= i < c.nodes.len() implies leaf_of(
            #[trigger] c.nodes[i],
            Rule::identifier,
        ) by {
            if i >= 1 {
                assert(item_node(Item::Column, c.nodes[i], i - 1));
            } else {
                assert(c.nodes[i] == b.nodes[i]);
            }
        }
    }
}

/// A match of `order_by_clause` has its shape.
proof fn lemma_order_shaped(s: Seq<char>, p: int)
    ensures
        matching(Rule::order_by_clause, s, p).node matches Some(n) ==> n.rule
            == Rule::order_by_clause && shaped(n),
    decreases 1nat, 0nat, 0int,
{
    let a = Step::start(p).word(s, "ORDER BY"@, Rule::order_by_clause);
    lemma_part(a, s, Rule::identifier);
    let b = a.part(s, Rule::identifier);
    lemma_maybe(b, s, Rule::order_type);
}

/// A match of `limit_clause` has its shape.
proof fn lemma_limit_shaped(s: Seq<char>, p: int)
    ensures
        matching(Rule::limit_clause, s, p).node matches Some(n) ==> n.rule == Rule::limit_clause
            && shaped(n),
    decreases 1nat, 0nat, 0int,
{
    lemma_part(Step::start(p).word(s, "LIMIT"@, Rule::limit_clause), s, Rule::number);
}

/// Every match has the shape of its rule.
pub proof fn lemma_shaped(rule: Rule, s: Seq<char>, p: int)
    ensures
        matching(rule, s, p).node matches Some(n) ==> n.rule == rule && shaped(n),
    decreases rule.depth(), 0nat, 1int,
{
    match rule {
        Rule::agg_field => lemma_field_shaped(s, p),
        Rule::from_clause => lemma_from_shaped(s, p),
        Rule::join_clause => lemma_join_shaped(s, p),
        Rule::where_condition => lemma_condition_shaped(s, p),
        Rule::where_clause => lemma_filter_shaped(s, p),
        Rule::group_by_clause => lemma_group_shaped(s, p),
        Rule::order_by_clause => lemma_order_shaped(s, p),
        Rule::limit_clause => lemma_limit_shaped(s, p),
        Rule::select_stmt => lemma_statement_shaped(s, p),
        _ => {},
    }
}

/// True when every node is a clause in its shape.
pub open spec fn all_clauses(nodes: Seq<Node>) -> bool {
    forall|i: int| 0 <= i < nodes.len() ==> clause_shaped(#[trigger] nodes[i])
}

} // verus!
