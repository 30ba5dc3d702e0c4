//! Operations on text that the rest of the crate builds on.

use vstd::prelude::*;
use vstd::string::*;

verus! {

/// Calls `str::strip_prefix` of the standard library, which is not verified
/// here. The contract is what its documentation says: where the text starts
/// with the prefix, the rest of the text after the prefix is returned; where
/// it does not, `None`.
#[verifier::external_body]
pub(crate) fn strip_prefix<'a>(text: &'a str, prefix: &str) -> (rest: Option<&'a str>)
    ensures
        match rest {
            Some(rest) => text@ == prefix@ + rest@,
            None => !prefix@.is_prefix_of(text@),
        },
{
    text.strip_prefix(prefix)
}

/// Calls `str::split_once` of the standard library, which is not verified
/// here. The contract is what its documentation says: the text is split at
/// the first occurrence of the delimiter, and the parts before and after it
/// are returned; where the delimiter does not occur, `None`.
#[verifier::external_body]
pub(crate) fn split_once<'a>(text: &'a str, delimiter: char) -> (parts: Option<(&'a str, &'a str)>)
    ensures
        match parts {
            Some((before, after)) => text@ == before@ + seq![delimiter] + after@
                && !before@.contains(delimiter),
            None => !text@.contains(delimiter),
        },
{
    text.split_once(delimiter)
}

/// Where the character first occurs in the text; the length of the text
/// where it does not occur.
pub open spec fn first_position(text: Seq<char>, c: char) -> int
    decreases text.len(),
{
    if text.len() == 0 {
        0
    } else if text[0] == c {
        0
    } else {
        1 + first_position(text.drop_first(), c)
    }
}

/// The first position of a character lies within the text exactly when the
/// character occurs, and the character stands there and nowhere before.
pub proof fn lemma_first_position(text: Seq<char>, c: char)
    ensures
        0 <= first_position(text, c) <= text.len(),
        first_position(text, c) < text.len() <==> text.contains(c),
        first_position(text, c) < text.len() ==> text[first_position(text, c)] == c,
        !text.take(first_position(text, c)).contains(c),
    decreases text.len(),
{
    if text.len() == 0 {
    } else if text[0] == c {
        assert(text.contains(c));
    } else {
        let rest = text.drop_first();
        lemma_first_position(rest, c);
        let at = first_position(rest, c);
        if rest.contains(c) {
            let i = choose|i: int| 0 <= i < rest.len() && rest[i] == c;
            assert(text[i + 1] == c);
        }
        if text.contains(c) {
            let i = choose|i: int| 0 <= i < text.len() && text[i] == c;
            assert(rest[i - 1] == c);
        }
        let head = text.take(at + 1);
        if head.contains(c) {
            let i = choose|i: int| 0 <= i < head.len() && head[i] == c;
            assert(rest.take(at)[i - 1] == c);
        }
    }
}

/// A text that is cut at a character which does not occur before the cut is
/// cut at the first position of that character.
pub proof fn lemma_cut_at_first_position(
    text: Seq<char>,
    before: Seq<char>,
    c: char,
    after: Seq<char>,
)
    requires
        text == before + seq![c] + after,
        !before.contains(c),
    ensures
        first_position(text, c) == before.len(),
        text.take(before.len() as int) == before,
        text.skip(before.len() as int + 1) == after,
        text.contains(c),
    decreases before.len(),
{
    assert(text.take(before.len() as int) =~= before);
    assert(text.skip(before.len() as int + 1) =~= after);
    assert(text[before.len() as int] == c);
    if before.len() > 0 {
        assert(before[0] != c);
        assert(text[0] == before[0]);
        assert(text.drop_first() =~= before.drop_first() + seq![c] + after);
        if before.drop_first().contains(c) {
            let i = choose|i: int|
                0 <= i < before.drop_first().len() && before.drop_first()[i] == c;
            assert(before[i + 1] == c);
        }
        lemma_cut_at_first_position(text.drop_first(), before.drop_first(), c, after);
    }
}

/// The three texts in a row, as one.
pub fn join3(first: &str, second: &str, third: &str) -> (joined: String)
    ensures
        joined@ == first@ + second@ + third@,
{
    String::from_str(first).concat(second).concat(third)
}

/// Two texts with the same beginning are equal exactly when their rests are.
pub proof fn lemma_same_prefix(prefix: Seq<char>, a: Seq<char>, b: Seq<char>)
    ensures
        (prefix + a == prefix + b) <==> a == b,
        prefix.is_prefix_of(prefix + a),
{
    assert((prefix + a).subrange(prefix.len() as int, (prefix + a).len() as int) =~= a);
    assert((prefix + b).subrange(prefix.len() as int, (prefix + b).len() as int) =~= b);
    assert((prefix + a).subrange(0, prefix.len() as int) =~= prefix);
}

/// Two texts with the same ending are equal exactly when their beginnings are.
pub proof fn lemma_same_suffix(a: Seq<char>, b: Seq<char>, suffix: Seq<char>)
    ensures
        (a + suffix == b + suffix) <==> a == b,
{
    assert((a + suffix).subrange(0, a.len() as int) =~= a);
    assert((b + suffix).subrange(0, b.len() as int) =~= b);
    if a + suffix == b + suffix {
        assert((a + suffix).len() == a.len() + suffix.len());
        assert((b + suffix).len() == b.len() + suffix.len());
    }
}

} // verus!
