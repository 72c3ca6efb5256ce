use vstd::prelude::*;
use crate::rule::Rule;

verus! {

/// The kinds of character that a token is a run of.
#[derive(Clone, Copy, Debug, PartialEq, Eq, Structural)]
pub enum CharClass {
    /// A decimal digit.
    Digit,
    /// A letter, a decimal digit or an underscore.
    Word,
    /// Anything but a double quote.
    Unquoted,
}

/// True of the letters `a` to `z` and `A` to `Z`.
pub open spec fn letter(c: char) -> bool {
    ('a' <= c && c <= 'z') || ('A' <= c && c <= 'Z')
}

/// True of the digits `0` to `9`.
pub open spec fn digit(c: char) -> bool {
    '0' <= c && c <= '9'
}

impl CharClass {
    /// True when `c` is of this kind.
    pub open spec fn has(self, c: char) -> bool {
        match self {
            CharClass::Digit => digit(c),
            CharClass::Word => letter(c) || digit(c) || c == '_',
            CharClass::Unquoted => c != '"',
        }
    }

    /// Tells whether `c` is of this kind.
    pub fn holds(self, c: char) -> (b: bool)
        ensures
            b == self.has(c),
    {
        match self {
            CharClass::Digit => '0' <= c && c <= '9',
            CharClass::Word => ('a' <= c && c <= 'z') || ('A' <= c && c <= 'Z') || ('0' <= c && c
                <= '9') || c == '_',
            CharClass::Unquoted => c != '"',
        }
    }
}

/// The position after the longest run of characters of `class` that starts
/// at `p`; `p` itself when there is none.
pub open spec fn run_end(s: Seq<char>, p: int, class: CharClass) -> int
    decreases s.len() - p,
{
    if 0 <= p < s.len() && class.has(s[p]) {
        run_end(s, p + 1, class)
    } else {
        p
    }
}

/// The length of the unit of whitespace at `p`: 1 for a space, a tab or a
/// line feed, 2 for a carriage return with its line feed, 0 where there is
/// none.
pub open spec fn space_len(s: Seq<char>, p: int) -> int {
    if 0 <= p < s.len() && (s[p] == ' ' || s[p] == '\t' || s[p] == '\n') {
        1
    } else if 0 <= p && p + 1 < s.len() && s[p] == '\r' && s[p + 1] == '\n' {
        2
    } else {
        0
    }
}

/// The position of the first character at or after `p` that starts no
/// whitespace.
pub open spec fn skip_spaces(s: Seq<char>, p: int) -> int
    decreases s.len() - p,
{
    if space_len(s, p) > 0 {
        skip_spaces(s, p + space_len(s, p))
    } else {
        p
    }
}

/// Where `word` ends if it stands in `s` at `p`.
pub open spec fn spell(s: Seq<char>, p: int, word: Seq<char>) -> Option<int> {
    if 0 <= p && p + word.len() <= s.len() && s.subrange(p, p + word.len()) == word {
        Some(p + word.len())
    } else {
        None
    }
}

/// The first of two ends that is there.
pub open spec fn either(a: Option<int>, b: Option<int>) -> Option<int> {
    if a is Some {
        a
    } else {
        b
    }
}

/// True of the words that no identifier may be.
pub open spec fn reserved_word(t: Seq<char>) -> bool {
    t == "SELECT"@ || t == "FROM"@ || t == "JOIN"@ || t == "ON"@ || t == "WHERE"@ || t
        == "GROUP BY"@ || t == "ORDER BY"@ || t == "LIMIT"@ || t == "ASC"@ || t == "DESC"@ || t
        == "AND"@ || t == "OR"@
}

/// Where the reserved keyword at `p` ends: the longest one that stands there.
pub open spec fn keyword_end(s: Seq<char>, p: int) -> Option<int> {
    either(
        spell(s, p, "SELECT"@),
        either(
            spell(s, p, "FROM"@),
            either(
                spell(s, p, "JOIN"@),
                either(
                    spell(s, p, "ON"@),
                    either(
                        spell(s, p, "WHERE"@),
                        either(
                            spell(s, p, "GROUP BY"@),
                            either(
                                spell(s, p, "ORDER BY"@),
                                either(
                                    spell(s, p, "LIMIT"@),
                                    either(
                                        spell(s, p, "ASC"@),
                                        either(
                                            spell(s, p, "DESC"@),
                                            either(spell(s, p, "AND"@), spell(s, p, "OR"@)),
                                        ),
                                    ),
                                ),
                            ),
                        ),
                    ),
                ),
            ),
        ),
    )
}

/// Where the token of a lexical rule ends if one starts at `p`: the longest
/// that the rule allows there. `None` for a rule that is not lexical.
pub open spec fn token_end(rule: Rule, s: Seq<char>, p: int) -> Option<int> {
    match rule {
        Rule::WHITESPACE => if space_len(s, p) > 0 {
            Some(p + space_len(s, p))
        } else {
            None
        },
        Rule::reserved_keyword => keyword_end(s, p),
        Rule::identifier => if 0 <= p < s.len() && (letter(s[p]) || s[p] == '_') && !reserved_word(
            s.subrange(p, run_end(s, p + 1, CharClass::Word)),
        ) {
            Some(run_end(s, p + 1, CharClass::Word))
        } else {
            None
        },
        Rule::number => if run_end(s, p, CharClass::Digit) > p {
            Some(run_end(s, p, CharClass::Digit))
        } else {
            None
        },
        Rule::string => if 0 <= p < s.len() && s[p] == '"' && run_end(
            s,
            p + 1,
            CharClass::Unquoted,
        ) < s.len() {
            Some(run_end(s, p + 1, CharClass::Unquoted) + 1)
        } else {
            None
        },
        Rule::comparison_op => either(
            spell(s, p, "<="@),
            either(
                spell(s, p, ">="@),
                either(
                    spell(s, p, "!="@),
                    either(spell(s, p, "="@), either(spell(s, p, "<"@), spell(s, p, ">"@))),
                ),
            ),
        ),
        Rule::logical_op => either(spell(s, p, "AND"@), spell(s, p, "OR"@)),
        Rule::aggregate_func => either(
            spell(s, p, "COUNT"@),
            either(
                spell(s, p, "SUM"@),
                either(spell(s, p, "MAX"@), either(spell(s, p, "MIN"@), spell(s, p, "AVG"@))),
            ),
        ),
        Rule::order_type => either(spell(s, p, "ASC"@), spell(s, p, "DESC"@)),
        _ => None,
    }
}

/// The position after the longest run of characters of `class` from `p`.
pub fn scan_run(chars: &Vec<char>, p: usize, class: CharClass) -> (end: usize)
    ensures
        end == run_end(chars@, p as int, class),
        p <= end,
        p <= chars.len() ==> end <= chars.len(),
{
    let mut i: usize = p;
    while i < chars.len() && class.holds(chars[i])
        invariant
            p <= i,
            p <= chars.len() ==> i <= chars.len(),
            run_end(chars@, p as int, class) == run_end(chars@, i as int, class),
        decreases chars.len() - i,
    {
        i += 1;
    }
    i
}

/// The length of the unit of whitespace at `p`, 0 where there is none.
pub fn space_at(chars: &Vec<char>, p: usize) -> (n: usize)
    ensures
        n == space_len(chars@, p as int),
        n <= 2,
        p + n <= chars.len() || n == 0,
{
    if p >= chars.len() {
        return 0;
    }
    let c = chars[p];
    if c == ' ' || c == '\t' || c == '\n' {
        1
    } else if c == '\r' && p + 1 < chars.len() && chars[p + 1] == '\n' {
        2
    } else {
        0
    }
}

/// The position of the first character at or after `p` that starts no
/// whitespace.
pub fn skip_blank(chars: &Vec<char>, p: usize) -> (q: usize)
    ensures
        q == skip_spaces(chars@, p as int),
        p <= q,
        p <= chars.len() ==> q <= chars.len(),
{
    let mut i: usize = p;
    loop
        invariant
            p <= i,
            p <= chars.len() ==> i <= chars.len(),
            skip_spaces(chars@, p as int) == skip_spaces(chars@, i as int),
        decreases chars.len() - i,
    {
        let n = space_at(chars, i);
        if n == 0 {
            return i;
        }
        i += n;
    }
}

/// An end as a position in the text.
pub open spec fn end_of(end: Option<usize>) -> Option<int> {
    match end {
        Some(e) => Some(e as int),
        None => None,
    }
}

/// Where `word` ends if it stands in `chars` at `p`.
pub fn spell_at(chars: &Vec<char>, p: usize, word: &str) -> (end: Option<usize>)
    ensures
        end_of(end) == spell(chars@, p as int, word@),
        end matches Some(e) ==> p <= e <= chars.len(),
{
    if p > chars.len() {
        return None;
    }
    let mut i: usize = p;
    for c in it: word.chars()
        invariant
            it.seq() == word@,
            p <= i <= chars.len(),
            i == p + it.index(),
            chars@.subrange(p as int, i as int) == word@.take(it.index()),
    {
        if i >= chars.len() || chars[i] != c {
            proof {
                let k = it.index();
                if p + word@.len() <= chars.len() {
                    assert(chars@.subrange(p as int, p + word@.len())[k] == chars@[p + k]);
                    assert(word@[k] == c);
                }
            }
            return None;
        }
        proof {
            let k = it.index();
            assert(chars@.subrange(p as int, i + 1) =~= chars@.subrange(p as int, i as int).push(
                chars@[i as int],
            ));
            assert(word@.take(k + 1) =~= word@.take(k).push(word@[k]));
        }
        i += 1;
    }
    proof {
        assert(word@.take(word@.len() as int) =~= word@);
    }
    Some(i)
}

/// `found` if it is there, else where `word` ends if it stands at `p`.
fn or_spell(found: Option<usize>, chars: &Vec<char>, p: usize, word: &str) -> (end: Option<usize>)
    requires
        found matches Some(e) ==> p <= e <= chars.len(),
    ensures
        end_of(end) == either(end_of(found), spell(chars@, p as int, word@)),
        end matches Some(e) ==> p <= e <= chars.len(),
{
    if found.is_some() {
        found
    } else {
        spell_at(chars, p, word)
    }
}

/// Tells whether the characters from `p` up to `e` are exactly `word`.
fn spans(chars: &Vec<char>, p: usize, e: usize, word: &str) -> (b: bool)
    requires
        p <= e <= chars.len(),
    ensures
        b == (chars@.subrange(p as int, e as int) == word@),
{
    match spell_at(chars, p, word) {
        Some(x) => x == e,
        None => {
            assert(chars@.subrange(p as int, e as int).len() == e - p);
            false
        },
    }
}

/// Tells whether the characters from `p` up to `e` are a reserved word.
pub fn is_reserved(chars: &Vec<char>, p: usize, e: usize) -> (b: bool)
    requires
        p <= e <= chars.len(),
    ensures
        b == reserved_word(chars@.subrange(p as int, e as int)),
{
    spans(chars, p, e, "SELECT") || spans(chars, p, e, "FROM") || spans(chars, p, e, "JOIN")
        || spans(chars, p, e, "ON") || spans(chars, p, e, "WHERE") || spans(
        chars,
        p,
        e,
        "GROUP BY",
    ) || spans(chars, p, e, "ORDER BY") || spans(chars, p, e, "LIMIT") || spans(
        chars,
        p,
        e,
        "ASC",
    ) || spans(chars, p, e, "DESC") || spans(chars, p, e, "AND") || spans(chars, p, e, "OR")
}

/// Where the token of the lexical rule `rule` ends if one starts at `p`.
pub fn scan_token(rule: Rule, chars: &Vec<char>, p: usize) -> (end: Option<usize>)
    requires
        p <= chars.len(),
    ensures
        end_of(end) == token_end(rule, chars@, p as int),
        end matches Some(e) ==> p <= e <= chars.len(),
{
    match rule {
        Rule::WHITESPACE => {
            let n = space_at(chars, p);
            if n > 0 {
                Some(p + n)
            } else {
                None
            }
        },
        Rule::reserved_keyword => {
            let r = spell_at(chars, p, "SELECT");
            let r = or_spell(r, chars, p, "FROM");
            let r = or_spell(r, chars, p, "JOIN");
            let r = or_spell(r, chars, p, "ON");
            let r = or_spell(r, chars, p, "WHERE");
            let r = or_spell(r, chars, p, "GROUP BY");
            let r = or_spell(r, chars, p, "ORDER BY");
            let r = or_spell(r, chars, p, "LIMIT");
            let r = or_spell(r, chars, p, "ASC");
            let r = or_spell(r, chars, p, "DESC");
            let r = or_spell(r, chars, p, "AND");
            or_spell(r, chars, p, "OR")
        },
        Rule::identifier => {
            if p < chars.len() && (is_letter(chars[p]) || chars[p] == '_') {
                let e = scan_run(chars, p + 1, CharClass::Word);
                if is_reserved(chars, p, e) {
                    None
                } else {
                    Some(e)
                }
            } else {
                None
            }
        },
        Rule::number => {
            let e = scan_run(chars, p, CharClass::Digit);
            if e > p {
                Some(e)
            } else {
                None
            }
        },
        Rule::string => {
            if p < chars.len() && chars[p] == '"' {
                let e = scan_run(chars, p + 1, CharClass::Unquoted);
                if e < chars.len() {
                    Some(e + 1)
                } else {
                    None
                }
            } else {
                None
            }
        },
        Rule::comparison_op => {
            let r = spell_at(chars, p, "<=");
            let r = or_spell(r, chars, p, ">=");
            let r = or_spell(r, chars, p, "!=");
            let r = or_spell(r, chars, p, "=");
            let r = or_spell(r, chars, p, "<");
            or_spell(r, chars, p, ">")
        },
        Rule::logical_op => {
            let r = spell_at(chars, p, "AND");
            or_spell(r, chars, p, "OR")
        },
        Rule::aggregate_func => {
            let r = spell_at(chars, p, "COUNT");
            let r = or_spell(r, chars, p, "SUM");
            let r = or_spell(r, chars, p, "MAX");
            let r = or_spell(r, chars, p, "MIN");
            or_spell(r, chars, p, "AVG")
        },
        Rule::order_type => {
            let r = spell_at(chars, p, "ASC");
            or_spell(r, chars, p, "DESC")
        },
        _ => None,
    }
}

/// Tells whether `c` is one of the letters `a` to `z` and `A` to `Z`.
pub fn is_letter(c: char) -> (b: bool)
    ensures
        b == letter(c),
{
    ('a' <= c && c <= 'z') || ('A' <= c && c <= 'Z')
}

} // verus!
