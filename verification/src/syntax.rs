use vstd::prelude::*;
use crate::rule::Rule;
use crate::token::{skip_spaces, spell, token_end};
use crate::tree::{Failure, Node};

verus! {

/// What matching a rule at a position gives: the match, if there is one, and
/// the furthest failure that was met on the way, if any was. Where there is
/// no match there is a failure.
pub struct Outcome {
    pub node: Option<Node>,
    pub furthest: Option<Failure>,
}

/// The further of two failures, the later one where they lie at the same
/// position.
pub open spec fn further(a: Option<Failure>, b: Option<Failure>) -> Option<Failure> {
    match (a, b) {
        (Some(x), Some(y)) => if y.at >= x.at {
            b
        } else {
            a
        },
        (None, _) => b,
        (_, None) => a,
    }
}

/// What a rule repeats: a comma and a field, a join, a logical operator and
/// a condition, a comma and a column.
#[derive(Clone, Copy, Debug, PartialEq, Eq, Structural)]
pub enum Item {
    Field,
    Join,
    Condition,
    Column,
}

impl Item {
    /// The depth of the deepest rule in the item.
    pub open spec fn depth(self) -> nat {
        match self {
            Item::Column => 0,
            _ => 1,
        }
    }
}

/// How far the parts of a rule have been matched. `from` is where the rule
/// started, `end` is where the last part that matched ended, `at` is where
/// the next part starts (whitespace after `end` is passed over), `nodes` are
/// the matches of the inner rules so far. Once a part that had to match has
/// not, `ok` is false and the step changes no more.
pub struct Step {
    pub from: int,
    pub ok: bool,
    pub at: int,
    pub end: int,
    pub nodes: Seq<Node>,
    pub furthest: Option<Failure>,
}

impl Step {
    /// The step before the first part of a rule that starts at `p`.
    pub open spec fn start(p: int) -> Step {
        Step { from: p, ok: true, at: p, end: p, nodes: Seq::empty(), furthest: None }
    }

    /// The step after a part has matched up to `e`.
    pub open spec fn advance(self, s: Seq<char>, e: int) -> Step {
        Step { at: skip_spaces(s, e), end: e, ..self }
    }

    /// The step after a part that had to match has failed with `f`.
    pub open spec fn miss(self, f: Option<Failure>) -> Step {
        Step { ok: false, furthest: further(self.furthest, f), ..self }
    }

    /// This step, remembering also the failures of an `earlier` attempt.
    pub open spec fn after(self, earlier: Step) -> Step {
        Step { furthest: further(earlier.furthest, self.furthest), ..self }
    }

    /// The step after what a side attempt `t`, begun at `self.at`, has
    /// matched is taken in. Where `t` has failed only its failures are.
    pub open spec fn absorb(self, t: Step) -> Step {
        if t.ok {
            Step {
                at: t.at,
                end: t.end,
                nodes: self.nodes + t.nodes,
                furthest: further(self.furthest, t.furthest),
                ..self
            }
        } else {
            Step { furthest: further(self.furthest, t.furthest), ..self }
        }
    }

    /// Like `absorb`, but the side attempt had to match.
    pub open spec fn join(self, t: Step) -> Step {
        if t.ok {
            self.absorb(t)
        } else {
            self.miss(t.furthest)
        }
    }

    /// The literal `word` as the next part; a failure is put down to `owner`.
    pub open spec fn word(self, s: Seq<char>, word: Seq<char>, owner: Rule) -> Step {
        if !self.ok {
            self
        } else {
            match spell(s, self.at, word) {
                Some(e) => self.advance(s, e),
                None => self.miss(Some(Failure { at: self.at, expected: owner })),
            }
        }
    }

    /// A match of `rule` as the next part.
    pub open spec fn part(self, s: Seq<char>, rule: Rule) -> Step
        decreases rule.depth(), 1nat, 0int,
    {
        if !self.ok {
            self
        } else {
            let o = matching(rule, s, self.at);
            match o.node {
                Some(n) => Step {
                    nodes: self.nodes.push(n),
                    furthest: further(self.furthest, o.furthest),
                    ..self.advance(s, n.end)
                },
                None => self.miss(o.furthest),
            }
        }
    }

    /// A match of `rule` as the next part if there is one there.
    pub open spec fn maybe(self, s: Seq<char>, rule: Rule) -> Step
        decreases rule.depth(), 2nat, 0int,
    {
        if !self.ok {
            self
        } else {
            self.absorb(Step::start(self.at).part(s, rule))
        }
    }

    /// A number, a string or an identifier as the next part: the first of
    /// the three that matches.
    pub open spec fn value(self, s: Seq<char>) -> Step
        decreases 0nat, 2nat, 0int,
    {
        if !self.ok {
            self
        } else {
            let n = Step::start(self.at).part(s, Rule::number);
            let q = Step::start(self.at).part(s, Rule::string).after(n);
            let i = Step::start(self.at).part(s, Rule::identifier).after(q);
            self.join(
                if n.ok {
                    n
                } else if q.ok {
                    q
                } else {
                    i
                },
            )
        }
    }

    /// One `item` as the next parts.
    pub open spec fn once(self, s: Seq<char>, item: Item) -> Step
        decreases item.depth(), 2nat, 0int,
    {
        match item {
            Item::Field => self.word(s, ","@, Rule::select_stmt).part(s, Rule::agg_field),
            Item::Join => self.part(s, Rule::join_clause),
            Item::Condition => self.part(s, Rule::logical_op).part(s, Rule::where_condition),
            Item::Column => self.word(s, ","@, Rule::group_by_clause).part(s, Rule::identifier),
        }
    }

    /// As many of `item` as follow one another from here. An item that
    /// fails half way is not taken in, and matching goes on from before it.
    pub open spec fn many(self, s: Seq<char>, item: Item) -> Step
        decreases item.depth(), 3nat, s.len() - self.end,
    {
        if !self.ok {
            self
        } else {
            let t = Step::start(self.at).once(s, item);
            if t.ok && self.end < t.end <= s.len() {
                self.absorb(t).many(s, item)
            } else {
                Step { furthest: further(self.furthest, t.furthest), ..self }
            }
        }
    }

    /// The outcome for `rule` when its parts have been gone through.
    pub open spec fn finish(self, s: Seq<char>, rule: Rule) -> Outcome {
        if self.ok {
            Outcome {
                node: Some(
                    Node {
                        rule,
                        start: self.from,
                        end: self.end,
                        text: s.subrange(self.from, self.end),
                        inner: self.nodes,
                    },
                ),
                furthest: self.furthest,
            }
        } else {
            Outcome {
                node: None,
                furthest: further(self.furthest, Some(Failure { at: self.from, expected: rule })),
            }
        }
    }
}

/// The outcome of matching the lexical rule `rule` at `p`.
pub open spec fn leaf(rule: Rule, s: Seq<char>, p: int) -> Outcome {
    match token_end(rule, s, p) {
        Some(e) => Outcome {
            node: Some(Node { rule, start: p, end: e, text: s.subrange(p, e), inner: Seq::empty() }),
            furthest: None,
        },
        None => Outcome { node: None, furthest: Some(Failure { at: p, expected: rule }) },
    }
}

/// The grammar: the outcome of matching `rule` in the text `s` from
/// position `p` on. A rule matches a prefix of what is left; between two
/// parts of a syntactic rule any whitespace is passed over; an alternative
/// or a repetition that fails gives way to what follows it.
pub open spec fn matching(rule: Rule, s: Seq<char>, p: int) -> Outcome
    decreases rule.depth(), 0nat, 0int,
{
    match rule {
        Rule::agg_field => {
            let call = Step::start(p).part(s, Rule::aggregate_func).word(s, "("@, rule).part(
                s,
                Rule::identifier,
            ).word(s, ")"@, rule);
            if call.ok {
                call.finish(s, rule)
            } else {
                Step::start(p).part(s, Rule::identifier).after(call).finish(s, rule)
            }
        },
        Rule::from_clause => Step::start(p).word(s, "FROM"@, rule).part(
            s,
            Rule::identifier,
        ).finish(s, rule),
        Rule::join_clause => Step::start(p).word(s, "JOIN"@, rule).part(s, Rule::identifier).word(
            s,
            "ON"@,
            rule,
        ).part(s, Rule::identifier).word(s, "="@, rule).part(s, Rule::identifier).finish(s, rule),
        Rule::where_condition => Step::start(p).part(s, Rule::identifier).part(
            s,
            Rule::comparison_op,
        ).value(s).finish(s, rule),
        Rule::where_clause => Step::start(p).word(s, "WHERE"@, rule).part(
            s,
            Rule::where_condition,
        ).many(s, Item::Condition).finish(s, rule),
        Rule::group_by_clause => Step::start(p).word(s, "GROUP BY"@, rule).part(
            s,
            Rule::identifier,
        ).many(s, Item::Column).finish(s, rule),
        Rule::order_by_clause => Step::start(p).word(s, "ORDER BY"@, rule).part(
            s,
            Rule::identifier,
        ).maybe(s, Rule::order_type).finish(s, rule),
        Rule::limit_clause => Step::start(p).word(s, "LIMIT"@, rule).part(s, Rule::number).finish(
            s,
            rule,
        ),
        Rule::select_stmt => Step::start(p).word(s, "SELECT"@, rule).part(s, Rule::agg_field).many(
            s,
            Item::Field,
        ).part(s, Rule::from_clause).many(s, Item::Join).maybe(s, Rule::where_clause).maybe(
            s,
            Rule::group_by_clause,
        ).maybe(s, Rule::order_by_clause).maybe(s, Rule::limit_clause).word(s, ";"@, rule).finish(
            s,
            rule,
        ),
        _ => leaf(rule, s, p),
    }
}

} // verus!
