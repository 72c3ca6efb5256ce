use vstd::prelude::*;
use crate::rule::Rule;
use crate::shape::{lemma_shaped, shaped};
use crate::span::{
    lemma_absorb_tidy, lemma_after_tidy, lemma_part_tidy, lemma_pass_tidy, lemma_sound,
    lemma_word_tidy, spanned, tidy,
};
use crate::syntax::{further, matching, Item, Outcome, Step};
use crate::text::{chars_of, text_of};
use crate::token::{scan_token, skip_blank, spell_at};
use crate::tree::{lemma_nodes_concat, lemma_nodes_push, nodes_of, Failure, Pair, ParseFailure};

verus! {

/// The failure that an optional failure stands for.
pub open spec fn seen(f: Option<ParseFailure>) -> Option<Failure> {
    match f {
        Some(x) => Some(x@),
        None => None,
    }
}

/// What matching a rule at a position gave: the pair, if the rule matched,
/// and the furthest failure met on the way.
pub struct Attempt {
    pub pair: Option<Pair>,
    pub furthest: Option<ParseFailure>,
}

impl View for Attempt {
    type V = Outcome;

    open spec fn view(&self) -> Outcome {
        Outcome {
            node: match self.pair {
                Some(pair) => Some(pair@),
                None => None,
            },
            furthest: seen(self.furthest),
        }
    }
}

/// The further of two failures, the later one where they lie at the same
/// position.
pub fn further_of(a: Option<ParseFailure>, b: Option<ParseFailure>) -> (r: Option<ParseFailure>)
    ensures
        seen(r) == further(seen(a), seen(b)),
{
    match (a, b) {
        (Some(x), Some(y)) => if y.position >= x.position {
            b
        } else {
            a
        },
        (None, _) => b,
        (_, None) => a,
    }
}

/// How far the parts of a rule have been matched in the text at hand: the
/// step of the grammar, with the pairs of the inner matches.
struct Cursor {
    from: usize,
    ok: bool,
    at: usize,
    end: usize,
    pairs: Vec<Pair>,
    furthest: Option<ParseFailure>,
}

impl View for Cursor {
    type V = Step;

    closed spec fn view(&self) -> Step {
        Step {
            from: self.from as int,
            ok: self.ok,
            at: self.at as int,
            end: self.end as int,
            nodes: nodes_of(self.pairs@),
            furthest: seen(self.furthest),
        }
    }
}

impl Cursor {
    /// The cursor stands for a tidy step in the text `s`.
    spec fn wf(self, s: Seq<char>) -> bool {
        tidy(self@, s)
    }

    /// The cursor before the first part of a rule that starts at `p`.
    fn start(chars: &Vec<char>, p: usize) -> (r: Cursor)
        requires
            p <= chars.len(),
        ensures
            r.wf(chars@),
            r@ == Step::start(p as int),
    {
        let r = Cursor { from: p, ok: true, at: p, end: p, pairs: Vec::new(), furthest: None };
        assert(r@.nodes =~= Seq::empty());
        r
    }

    /// This cursor, remembering also the failures of an `earlier` attempt
    /// from the same place.
    fn after(self, earlier: &Cursor, Ghost(s): Ghost<Seq<char>>) -> (r: Cursor)
        requires
            self.wf(s),
            earlier.wf(s),
            earlier.from == self.from,
        ensures
            r.wf(s),
            r@ == self@.after(earlier@),
    {
        proof {
            lemma_after_tidy(self@, earlier@, s);
        }
        let Cursor { from, ok, at, end, pairs, furthest } = self;
        Cursor { from, ok, at, end, pairs, furthest: further_of(earlier.furthest, furthest) }
    }

    /// Takes in what the side attempt `t`, begun where this cursor stands,
    /// has matched; only its failures where it has failed.
    fn absorb(self, t: Cursor, Ghost(s): Ghost<Seq<char>>) -> (r: Cursor)
        requires
            self.wf(s),
            t.wf(s),
            t.from == self.at,
        ensures
            r.wf(s),
            r@ == self@.absorb(t@),
    {
        proof {
            lemma_absorb_tidy(self@, t@, s);
        }
        let Cursor { from, ok, at, end, mut pairs, furthest } = self;
        let mut t = t;
        let far = further_of(furthest, t.furthest);
        if t.ok {
            proof {
                lemma_nodes_concat(pairs@, t.pairs@);
            }
            pairs.append(&mut t.pairs);
            Cursor { from, ok, at: t.at, end: t.end, pairs, furthest: far }
        } else {
            Cursor { from, ok, at, end, pairs, furthest: far }
        }
    }

    /// Like `absorb`, but the side attempt had to match.
    fn join(self, t: Cursor, Ghost(s): Ghost<Seq<char>>) -> (r: Cursor)
        requires
            self.wf(s),
            t.wf(s),
            t.from == self.at,
        ensures
            r.wf(s),
            r@ == self@.join(t@),
    {
        proof {
            lemma_absorb_tidy(self@, t@, s);
        }
        if t.ok {
            self.absorb(t, Ghost(s))
        } else {
            let Cursor { from, ok, at, end, pairs, furthest } = self;
            Cursor { from, ok: false, at, end, pairs, furthest: further_of(furthest, t.furthest) }
        }
    }

    /// The literal `word` as the next part.
    fn word(self, chars: &Vec<char>, word: &str, owner: Rule) -> (r: Cursor)
        requires
            self.wf(chars@),
        ensures
            r.wf(chars@),
            r@ == self@.word(chars@, word@, owner),
    {
        proof {
            lemma_word_tidy(self@, chars@, word@, owner);
        }
        if !self.ok {
            return self;
        }
        let Cursor { from, ok, at, end, pairs, furthest } = self;
        match spell_at(chars, at, word) {
            Some(e) => Cursor { from, ok, at: skip_blank(chars, e), end: e, pairs, furthest },
            None => Cursor {
                from,
                ok: false,
                at,
                end,
                pairs,
                furthest: further_of(furthest, Some(ParseFailure { position: at, expected: owner })),
            },
        }
    }

    /// A match of `rule` as the next part.
    fn part(self, chars: &Vec<char>, rule: Rule) -> (r: Cursor)
        requires
            self.wf(chars@),
        ensures
            r.wf(chars@),
            r@ == self@.part(chars@, rule),
        decreases rule.depth(), 1nat, 0int,
    {
        proof {
            lemma_part_tidy(self@, chars@, rule);
        }
        if !self.ok {
            return self;
        }
        let Cursor { from, ok, at, end, mut pairs, furthest } = self;
        let found = match_rule(rule, chars, at);
        let far = further_of(furthest, found.furthest);
        match found.pair {
            Some(pair) => {
                let e = pair.end;
                proof {
                    lemma_nodes_push(pairs@, pair);
                }
                pairs.push(pair);
                Cursor { from, ok, at: skip_blank(chars, e), end: e, pairs, furthest: far }
            },
            None => Cursor { from, ok: false, at, end, pairs, furthest: far },
        }
    }

    /// A match of `rule` as the next part if there is one there.
    fn maybe(self, chars: &Vec<char>, rule: Rule) -> (r: Cursor)
        requires
            self.wf(chars@),
        ensures
            r.wf(chars@),
            r@ == self@.maybe(chars@, rule),
        decreases rule.depth(), 2nat, 0int,
    {
        if !self.ok {
            return self;
        }
        let t = Cursor::start(chars, self.at).part(chars, rule);
        self.absorb(t, Ghost(chars@))
    }

    /// A number, a string or an identifier as the next part.
    fn value(self, chars: &Vec<char>) -> (r: Cursor)
        requires
            self.wf(chars@),
        ensures
            r.wf(chars@),
            r@ == self@.value(chars@),
        decreases 0nat, 2nat, 0int,
    {
        if !self.ok {
            return self;
        }
        let n = Cursor::start(chars, self.at).part(chars, Rule::number);
        if n.ok {
            return self.join(n, Ghost(chars@));
        }
        let q = Cursor::start(chars, self.at).part(chars, Rule::string).after(&n, Ghost(chars@));
        if q.ok {
            return self.join(q, Ghost(chars@));
        }
        let i = Cursor::start(chars, self.at).part(chars, Rule::identifier).after(
            &q,
            Ghost(chars@),
        );
        self.join(i, Ghost(chars@))
    }

    /// One `item` as the next parts.
    fn once(self, chars: &Vec<char>, item: Item) -> (r: Cursor)
        requires
            self.wf(chars@),
        ensures
            r.wf(chars@),
            r@ == self@.once(chars@, item),
        decreases item.depth(), 2nat, 0int,
    {
        match item {
            Item::Field => self.word(chars, ",", Rule::select_stmt).part(chars, Rule::agg_field),
            Item::Join => self.part(chars, Rule::join_clause),
            Item::Condition => self.part(chars, Rule::logical_op).part(
                chars,
                Rule::where_condition,
            ),
            Item::Column => self.word(chars, ",", Rule::group_by_clause).part(
                chars,
                Rule::identifier,
            ),
        }
    }

    /// As many of `item` as follow one another from here.
    fn many(self, chars: &Vec<char>, item: Item) -> (r: Cursor)
        requires
            self.wf(chars@),
        ensures
            r.wf(chars@),
            r@ == self@.many(chars@, item),
        decreases item.depth(), 3nat, chars.len() - self.end,
    {
        let ghost whole = self@.many(chars@, item);
        let mut cur = self;
        let mut done = false;
        while !done
            invariant
                cur.wf(chars@),
                !done ==> cur@.many(chars@, item) == whole,
                done ==> cur@ == whole,
            decreases
                    chars.len() - cur.end + if done {
                        0int
                    } else {
                        1int
                    },
        {
            if !cur.ok {
                done = true;
            } else {
                let t = Cursor::start(chars, cur.at).once(chars, item);
                if t.ok && t.end > cur.end {
                    cur = cur.absorb(t, Ghost(chars@));
                } else {
                    proof {
                        lemma_pass_tidy(cur@, t@, chars@);
                    }
                    let Cursor { from, ok, at, end, pairs, furthest } = cur;
                    cur =
                    Cursor { from, ok, at, end, pairs, furthest: further_of(furthest, t.furthest) };
                    done = true;
                }
            }
        }
        cur
    }

    /// The attempt at `rule` when its parts have been gone through.
    fn finish(self, chars: &Vec<char>, rule: Rule) -> (r: Attempt)
        requires
            self.wf(chars@),
        ensures
            r@ == self@.finish(chars@, rule),
    {
        let Cursor { from, ok, at, end, pairs, furthest } = self;
        if ok {
            let text = text_of(chars, from, end);
            Attempt { pair: Some(Pair { rule, start: from, end, text, inner: pairs }), furthest }
        } else {
            Attempt {
                pair: None,
                furthest: further_of(furthest, Some(ParseFailure { position: from, expected: rule })),
            }
        }
    }
}

/// Matches `rule` in `chars` from position `p` on.
pub fn match_rule(rule: Rule, chars: &Vec<char>, p: usize) -> (r: Attempt)
    requires
        p <= chars.len(),
    ensures
        r@ == matching(rule, chars@, p as int),
    decreases rule.depth(), 0nat, 0int,
{
    match rule {
        Rule::agg_field => {
            let call = Cursor::start(chars, p).part(chars, Rule::aggregate_func).word(
                chars,
                "(",
                rule,
            ).part(chars, Rule::identifier).word(chars, ")", rule);
            if call.ok {
                call.finish(chars, rule)
            } else {
                Cursor::start(chars, p).part(chars, Rule::identifier).after(
                    &call,
                    Ghost(chars@),
                ).finish(chars, rule)
            }
        },
        Rule::from_clause => Cursor::start(chars, p).word(chars, "FROM", rule).part(
            chars,
            Rule::identifier,
        ).finish(chars, rule),
        Rule::join_clause => Cursor::start(chars, p).word(chars, "JOIN", rule).part(
            chars,
            Rule::identifier,
        ).word(chars, "ON", rule).part(chars, Rule::identifier).word(chars, "=", rule).part(
            chars,
            Rule::identifier,
        ).finish(chars, rule),
        Rule::where_condition => Cursor::start(chars, p).part(chars, Rule::identifier).part(
            chars,
            Rule::comparison_op,
        ).value(chars).finish(chars, rule),
        Rule::where_clause => Cursor::start(chars, p).word(chars, "WHERE", rule).part(
            chars,
            Rule::where_condition,
        ).many(chars, Item::Condition).finish(chars, rule),
        Rule::group_by_clause => Cursor::start(chars, p).word(chars, "GROUP BY", rule).part(
            chars,
            Rule::identifier,
        ).many(chars, Item::Column).finish(chars, rule),
        Rule::order_by_clause => Cursor::start(chars, p).word(chars, "ORDER BY", rule).part(
            chars,
            Rule::identifier,
        ).maybe(chars, Rule::order_type).finish(chars, rule),
        Rule::limit_clause => Cursor::start(chars, p).word(chars, "LIMIT", rule).part(
            chars,
            Rule::number,
        ).finish(chars, rule),
        Rule::select_stmt => Cursor::start(chars, p).word(chars, "SELECT", rule).part(
            chars,
            Rule::agg_field,
        ).many(chars, Item::Field).part(chars, Rule::from_clause).many(chars, Item::Join).maybe(
            chars,
            Rule::where_clause,
        ).maybe(chars, Rule::group_by_clause).maybe(chars, Rule::order_by_clause).maybe(
            chars,
            Rule::limit_clause,
        ).word(chars, ";", rule).finish(chars, rule),
        _ => {
            match scan_token(rule, chars, p) {
                Some(e) => {
                    let text = text_of(chars, p, e);
                    let pair = Pair { rule, start: p, end: e, text, inner: Vec::new() };
                    assert(pair@.inner =~= Seq::empty());
                    Attempt { pair: Some(pair), furthest: None }
                },
                None => Attempt {
                    pair: None,
                    furthest: Some(ParseFailure { position: p, expected: rule }),
                },
            }
        },
    }
}

/// The grammar of the statement, as a type to call `parse` on.
pub struct Grammar;

impl Grammar {
    /// Matches `rule` at the start of `input`. The rule has to match a
    /// prefix of the text; what follows the match is not read. A failure
    /// tells the furthest position at which a rule was wanted and not found.
    pub fn parse(rule: Rule, input: &str) -> (r: Result<Pair, ParseFailure>)
        ensures
            match r {
                Ok(pair) => matching(rule, input@, 0).node == Some(pair@) && pair@.rule == rule
                    && pair@.start == 0 && shaped(pair@) && spanned(pair@, input@),
                Err(failure) => matching(rule, input@, 0).node is None && matching(
                    rule,
                    input@,
                    0,
                ).furthest == Some(failure@) && failure.position <= input@.len(),
            },
    {
        proof {
            lemma_shaped(rule, input@, 0);
            lemma_sound(rule, input@, 0);
        }
        let chars = chars_of(input);
        let found = match_rule(rule, &chars, 0);
        match found.pair {
            Some(pair) => Ok(pair),
            None => Err(found.furthest.unwrap()),
        }
    }
}

} // verus!
