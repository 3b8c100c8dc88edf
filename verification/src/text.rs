//! Small helpers on text, seen as a sequence of characters.

use vstd::prelude::*;
use vstd::std_specs::iter::IteratorSpec;

verus! {

/// The characters of `text`, in order.
pub fn chars_of(text: &str) -> (chars: Vec<char>)
    ensures
        chars@ == text@,
{
    let mut chars: Vec<char> = Vec::new();
    let mut rest = text.chars();
    loop
        invariant
            chars@ + rest.remaining() == text@,
            rest.obeys_prophetic_iter_laws(),
            rest.decrease() is Some,
        decreases rest.decrease()->0,
    {
        broadcast use vstd::string::next_postcondition;

        match rest.next() {
            Some(c) => {
                chars.push(c);
            },
            None => {
                return chars;
            },
        }
    }
}

/// The position of the first `wanted` in `text`, or the length of `text`
/// where it has none.
pub open spec fn first_position(text: Seq<char>, wanted: char) -> int
    decreases text.len(),
{
    if text.len() == 0 || text[0] == wanted {
        0
    } else {
        1 + first_position(text.drop_first(), wanted)
    }
}

/// Where the first `at` characters differ from `wanted` and the next one is
/// `wanted`, or there is no next one, `at` is the first position of `wanted`.
pub proof fn lemma_first_position_is(text: Seq<char>, wanted: char, at: int)
    requires
        0 <= at <= text.len(),
        forall|k: int| 0 <= k < at ==> #[trigger] text[k] != wanted,
        at < text.len() ==> text[at] == wanted,
    ensures
        first_position(text, wanted) == at,
    decreases text.len(),
{
    if at > 0 {
        let rest = text.drop_first();
        lemma_first_position_is(rest, wanted, at - 1);
    }
}

/// `text` cut at its first `delimiter`: what stands before it and what
/// stands behind it. `None` where `text` has no `delimiter`.
pub open spec fn split_once(text: Seq<char>, delimiter: char) -> Option<(Seq<char>, Seq<char>)> {
    let at = first_position(text, delimiter);
    if at < text.len() {
        Some((text.subrange(0, at), text.subrange(at + 1, text.len() as int)))
    } else {
        None
    }
}

/// Cuts `text` at its first `delimiter`.
pub fn cut_once(text: &str, delimiter: char) -> (parts: Option<(String, String)>)
    ensures
        match parts {
            Some((before, behind)) => split_once(text@, delimiter) == Some((before@, behind@)),
            None => split_once(text@, delimiter) is None,
        },
{
    let chars = chars_of(text);
    let mut i: usize = 0;
    while i < chars.len()
        invariant
            i <= chars.len(),
            chars@ == text@,
            forall|k: int| 0 <= k < i ==> #[trigger] text@[k] != delimiter,
        decreases chars.len() - i,
    {
        if chars[i] == delimiter {
            proof {
                lemma_first_position_is(text@, delimiter, i as int);
            }
            let before = text.substring_char(0, i).to_owned();
            let behind = text.substring_char(i + 1, chars.len()).to_owned();
            return Some((before, behind));
        }
        i = i + 1;
    }
    proof {
        lemma_first_position_is(text@, delimiter, i as int);
    }
    None
}

/// Appends one character. This is `String::push` of the standard library.
#[verifier::external_body]
pub(crate) fn push_char(text: &mut String, c: char)
    ensures
        final(text)@ == old(text)@.push(c),
{
    text.push(c)
}

} // verus!
