use vstd::prelude::*;
use crate::rule::Rule;

verus! {

/// One match of a rule, as the contracts speak of it: the rule, the span of
/// characters it covers, their text, and the matches of the rules inside it.
pub struct Node {
    pub rule: Rule,
    pub start: int,
    pub end: int,
    pub text: Seq<char>,
    pub inner: Seq<Node>,
}

/// One match of a rule: the rule, the span of characters it covers (counted
/// in characters, from zero), their text, and the matches inside it in order.
#[derive(Debug, PartialEq, Eq)]
pub struct Pair {
    pub rule: Rule,
    pub start: usize,
    pub end: usize,
    pub text: String,
    pub inner: Vec<Pair>,
}

impl View for Pair {
    type V = Node;

    open spec fn view(&self) -> Node
        decreases self,
    {
        Node {
            rule: self.rule,
            start: self.start as int,
            end: self.end as int,
            text: self.text@,
            inner: nodes_of(self.inner@),
        }
    }
}

/// The matches that a sequence of pairs stands for.
pub open spec fn nodes_of(pairs: Seq<Pair>) -> Seq<Node>
    decreases pairs,
{
    Seq::new(
        pairs.len(),
        |i: int|
            if 0 <= i < pairs.len() {
                pairs[i]@
            } else {
                arbitrary()
            },
    )
}

/// The inner matches of a pair's match are the matches of its inner pairs.
pub proof fn lemma_inner(pair: Pair)
    ensures
        pair@.inner.len() == pair.inner.len(),
        forall|i: int| 0 <= i < pair.inner.len() ==> #[trigger] pair@.inner[i] == pair.inner[i]@,
{
    assert(pair@.inner == nodes_of(pair.inner@));
}

/// The matches of a sequence of pairs with one more are those of the
/// sequence with the match of that one more.
pub proof fn lemma_nodes_push(pairs: Seq<Pair>, last: Pair)
    ensures
        nodes_of(pairs.push(last)) == nodes_of(pairs).push(last@),
{
    assert(nodes_of(pairs.push(last)) =~= nodes_of(pairs).push(last@));
}

/// The matches of two sequences of pairs in a row are the matches of the
/// first followed by those of the second.
pub proof fn lemma_nodes_concat(front: Seq<Pair>, back: Seq<Pair>)
    ensures
        nodes_of(front + back) == nodes_of(front) + nodes_of(back),
{
    assert(nodes_of(front + back) =~= nodes_of(front) + nodes_of(back));
}

/// Where matching stopped and the rule that was wanted there.
pub struct Failure {
    pub at: int,
    pub expected: Rule,
}

/// Where matching stopped (counted in characters, from zero) and the rule
/// that was wanted there.
#[derive(Clone, Copy, Debug, PartialEq, Eq, Structural)]
pub struct ParseFailure {
    pub position: usize,
    pub expected: Rule,
}

impl View for ParseFailure {
    type V = Failure;

    open spec fn view(&self) -> Failure {
        Failure { at: self.position as int, expected: self.expected }
    }
}

impl Pair {
    /// The text that the pair covers.
    pub fn as_str(&self) -> (text: &str)
        ensures
            text@ == self@.text,
    {
        self.text.as_str()
    }

    /// The rule that the pair matched.
    pub fn as_rule(&self) -> (rule: Rule)
        ensures
            rule == self@.rule,
    {
        self.rule
    }
}

} // verus!
