use vstd::prelude::*;
use vstd::string::StringExecFns;
use vstd::utf8::{
    char_is_scalar, encode_scalar, encode_utf8, encode_utf8_first_scalar, encode_utf8_valid_utf8,
    is_char_boundary,
};
use crate::text::chars_of;
use crate::tree::{Failure, ParseFailure};

verus! {

/// What pest shows for an error with the message `message` at the byte
/// `offset` of `input`: the line and column, the line of the text with a
/// mark under the place, and the message.
pub uninterp spec fn report_text(input: Seq<char>, offset: int, message: Seq<char>) -> Seq<char>;

/// `Position::new`, `Error::new_from_pos` with a `CustomError`, and the
/// error's `Display`, all of pest. `Position::new` gives a position for
/// every offset that lies on a character boundary of the text, its end
/// included; the text shown depends on the text, the offset and the message
/// alone, and is the value that `report_text` names.
#[verifier::external_body]
fn report(input: &str, offset: usize, message: String) -> (shown: String)
    requires
        is_char_boundary(encode_utf8(input@), offset as int),
    ensures
        shown@ == report_text(input@, offset as int, message@),
{
    let at = pest::Position::new(input, offset).unwrap();
    let variant = pest::error::ErrorVariant::<()>::CustomError { message };
    pest::error::Error::new_from_pos(variant, at).to_string()
}

/// The number of bytes that the first `n` characters of `s` take in UTF-8.
pub open spec fn byte_offset(s: Seq<char>, n: int) -> int {
    encode_utf8(s.take(n)).len() as int
}

/// The message of a failure: the word `expected` and the rule's name.
pub open spec fn expectation(f: Failure) -> Seq<char> {
    "expected "@ + f.expected.label()
}

/// What is shown for the failure `f` of matching in the text `s`.
pub open spec fn failure_text(s: Seq<char>, f: Failure) -> Seq<char> {
    report_text(s, byte_offset(s, f.at), expectation(f))
}

/// The encoding of two texts in a row is the encoding of the first and
/// then that of the second.
proof fn lemma_encode_concat(a: Seq<char>, b: Seq<char>)
    ensures
        encode_utf8(a + b) == encode_utf8(a) + encode_utf8(b),
    decreases a.len(),
{
    if a.len() == 0 {
        assert(a + b =~= b);
        assert(encode_utf8(a) + encode_utf8(b) =~= encode_utf8(b));
    } else {
        lemma_encode_concat(a.drop_first(), b);
        assert((a + b).drop_first() =~= a.drop_first() + b);
        assert(encode_utf8(a + b) =~= encode_utf8(a) + encode_utf8(b));
    }
}

/// One character more adds the bytes of its encoding.
proof fn lemma_offset_step(s: Seq<char>, n: int)
    requires
        0 <= n < s.len(),
    ensures
        byte_offset(s, n + 1) == byte_offset(s, n) + encode_scalar(s[n] as u32).len(),
{
    let one = seq![s[n]];
    assert(s.take(n + 1) =~= s.take(n) + one);
    lemma_encode_concat(s.take(n), one);
    assert(one.drop_first() =~= Seq::<char>::empty());
    assert(encode_utf8(one) =~= encode_scalar(s[n] as u32)) by {
        reveal_with_fuel(encode_utf8, 2);
    }
}

/// No prefix takes more bytes than the whole text.
proof fn lemma_offset_bound(s: Seq<char>, n: int)
    requires
        0 <= n <= s.len(),
    ensures
        0 <= byte_offset(s, n) <= encode_utf8(s).len(),
{
    assert(s =~= s.take(n) + s.skip(n));
    lemma_encode_concat(s.take(n), s.skip(n));
}

/// The bytes of a prefix of the characters end on a character boundary.
proof fn lemma_offset_boundary(s: Seq<char>, n: int)
    requires
        0 <= n <= s.len(),
    ensures
        is_char_boundary(encode_utf8(s), byte_offset(s, n)),
    decreases n,
{
    let bytes = encode_utf8(s);
    encode_utf8_valid_utf8(s);
    if n == 0 {
        assert(s.take(0) =~= Seq::<char>::empty());
    } else {
        let rest = s.drop_first();
        let first = encode_scalar(s[0] as u32);
        char_is_scalar(s[0]);
        encode_utf8_first_scalar(s);
        lemma_offset_boundary(rest, n - 1);
        lemma_offset_bound(s, n);
        assert(s.take(n) =~= seq![s[0]] + rest.take(n - 1));
        lemma_encode_concat(seq![s[0]], rest.take(n - 1));
        assert(seq![s[0]].drop_first() =~= Seq::<char>::empty());
        assert(encode_utf8(seq![s[0]]) =~= first) by {
            reveal_with_fuel(encode_utf8, 2);
        }
        assert(byte_offset(s, n) == first.len() + byte_offset(rest, n - 1));
        assert(first.len() >= 1);
        assert(vstd::utf8::pop_first_scalar(bytes) =~= encode_utf8(rest));
    }
}

/// The number of bytes that `c` takes in UTF-8.
fn utf8_width(c: char) -> (n: usize)
    ensures
        n == encode_scalar(c as u32).len(),
        1 <= n <= 4,
{
    proof {
        char_is_scalar(c);
    }
    let code = c as u32;
    if code < 0x80 {
        1
    } else if code < 0x800 {
        2
    } else if code < 0x1_0000 {
        3
    } else {
        4
    }
}

/// The number of bytes that the first `n` characters of `input` take.
fn offset_of(input: &str, n: usize) -> (offset: usize)
    requires
        n <= input@.len(),
    ensures
        offset == byte_offset(input@, n as int),
        is_char_boundary(encode_utf8(input@), offset as int),
{
    let chars = chars_of(input);
    let total = input.as_bytes().len();
    let mut offset: usize = 0;
    let mut i: usize = 0;
    proof {
        assert(input@.take(0) =~= Seq::<char>::empty());
    }
    while i < n
        invariant
            i <= n <= chars.len(),
            chars@ == input@,
            total == encode_utf8(input@).len(),
            offset == byte_offset(input@, i as int),
        decreases n - i,
    {
        proof {
            lemma_offset_step(input@, i as int);
            lemma_offset_bound(input@, i + 1);
        }
        offset += utf8_width(chars[i]);
        i += 1;
    }
    proof {
        lemma_offset_boundary(input@, n as int);
    }
    offset
}

/// What is shown for a failure of matching in `input`: the place in the
/// text and the rule that was wanted there.
pub fn describe(input: &str, failure: ParseFailure) -> (shown: String)
    requires
        failure.position <= input@.len(),
    ensures
        shown@ == failure_text(input@, failure@),
{
    let mut message = String::from_str("expected ");
    message.append(failure.expected.name());
    let offset = offset_of(input, failure.position);
    report(input, offset, message)
}

} // verus!
