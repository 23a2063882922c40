//! What holds of trimming, of the first index of a character and of
//! replacing, as far as the rest of the library builds on it.

use crate::text::ascii_lower;
use crate::text::first_index;
use crate::text::is_whitespace;
use crate::text::lemma_first_index;
use crate::text::lemma_first_index_is;
use crate::text::replace_all;
use crate::text::strip_suffix;
use crate::text::to_ascii_lowercase;
use crate::text::trim;
use crate::text::trim_end;
use crate::text::trim_start;
use vstd::prelude::*;

verus! {

/// What is left after leading whitespace has gone is the end of the text,
/// and does not begin with whitespace.
pub proof fn lemma_trim_start(s: Seq<char>)
    ensures
        trim_start(s).is_suffix_of(s),
        trim_start(s).len() > 0 ==> !is_whitespace(trim_start(s).first()),
    decreases s.len(),
{
    if s.len() > 0 && is_whitespace(s.first()) {
        lemma_trim_start(s.drop_first());
    }
}

/// What is left after trailing whitespace has gone is the beginning of the
/// text, and does not end in whitespace.
pub proof fn lemma_trim_end(s: Seq<char>)
    ensures
        trim_end(s).is_prefix_of(s),
        trim_end(s).len() > 0 ==> !is_whitespace(trim_end(s).last()),
    decreases s.len(),
{
    if s.len() > 0 && is_whitespace(s.last()) {
        lemma_trim_end(s.drop_last());
    }
}

/// Trailing whitespace goes from the end of joined text: from the second part
/// as long as something of it is left, else from the first.
pub proof fn lemma_trim_end_of_joined(a: Seq<char>, b: Seq<char>)
    ensures
        trim_end(a + b) == if trim_end(b).len() > 0 {
            a + trim_end(b)
        } else {
            trim_end(a)
        },
    decreases b.len(),
{
    if b.len() > 0 && is_whitespace(b.last()) {
        assert((a + b).drop_last() == a + b.drop_last());
        lemma_trim_end_of_joined(a, b.drop_last());
    }
}

/// Text that neither begins nor ends with whitespace is its own trimmed form.
pub proof fn lemma_trim_of_trimmed(s: Seq<char>)
    requires
        s.len() > 0 ==> !is_whitespace(s.first()) && !is_whitespace(s.last()),
    ensures
        trim(s) == s,
{
}

/// Trimming once is enough.
pub proof fn lemma_trim_twice(s: Seq<char>)
    ensures
        trim(trim(s)) == trim(s),
{
    lemma_trim_start(s);
    lemma_trim_end(trim_start(s));
    lemma_trim_of_trimmed(trim(s));
}

/// In joined text whose first part lacks the character, the first index lies
/// in the second part.
pub proof fn lemma_first_index_past(a: Seq<char>, b: Seq<char>, c: char)
    requires
        !a.contains(c),
    ensures
        first_index(a + b, c) == a.len() + first_index(b, c),
{
    lemma_first_index(b, c);
    lemma_first_index_is(a + b, c, a.len() + first_index(b, c));
}

/// Text holds a character just where the character's first index is one of
/// its positions.
pub proof fn lemma_first_index_contains(s: Seq<char>, c: char)
    ensures
        s.contains(c) <==> first_index(s, c) < s.len(),
{
    lemma_first_index(s, c);
}

/// The first index of a character in the beginning of a text is its first
/// index in the text, or the length of the beginning where that comes first.
pub proof fn lemma_first_index_of_beginning(s: Seq<char>, n: int, c: char)
    requires
        0 <= n <= s.len(),
    ensures
        first_index(s.take(n), c) == if first_index(s, c) < n {
            first_index(s, c)
        } else {
            n
        },
{
    lemma_first_index(s, c);
    let at = if first_index(s, c) < n {
        first_index(s, c)
    } else {
        n
    };
    lemma_first_index_is(s.take(n), c, at);
}

/// Replacing a single character goes through joined text part by part.
pub proof fn lemma_replace_char_of_joined(a: Seq<char>, b: Seq<char>, c: char, with: Seq<char>)
    ensures
        replace_all(a + b, seq![c], with) == replace_all(a, seq![c], with) + replace_all(
            b,
            seq![c],
            with,
        ),
    decreases a.len(),
{
    if a.len() > 0 {
        assert((a + b).drop_first() == a.drop_first() + b);
        lemma_replace_char_of_joined(a.drop_first(), b, c, with);
    }
}

/// One character is replaced if it is the one looked for, and else kept.
pub proof fn lemma_replace_char_of_one(x: char, c: char, with: Seq<char>)
    ensures
        replace_all(seq![x], seq![c], with) == if x == c {
            with
        } else {
            seq![x]
        },
{
    let s = seq![x];
    let pattern = seq![c];
    assert(replace_all(Seq::<char>::empty(), pattern, with) == Seq::<char>::empty());
    assert(s.skip(1) == Seq::<char>::empty());
    if pattern.is_prefix_of(s) {
        assert(s.subrange(0, 1)[0] == pattern[0]);
    }
}

/// What holds of every character of a text and of every character of the
/// replacement holds of every character after a single character was replaced.
pub proof fn lemma_replace_char_keeps(
    s: Seq<char>,
    c: char,
    with: Seq<char>,
    holds: spec_fn(char) -> bool,
)
    requires
        forall|i: int| 0 <= i < s.len() ==> holds(#[trigger] s[i]),
        forall|i: int| 0 <= i < with.len() ==> holds(#[trigger] with[i]),
    ensures
        forall|i: int|
            0 <= i < replace_all(s, seq![c], with).len() ==> holds(
                #[trigger] replace_all(s, seq![c], with)[i],
            ),
    decreases s.len(),
{
    if s.len() > 0 {
        let rest = s.drop_first();
        let first = if seq![c].is_prefix_of(s) {
            with
        } else {
            seq![s.first()]
        };
        lemma_replace_char_keeps(rest, c, with, holds);
        assert(replace_all(s, seq![c], with) == first + replace_all(rest, seq![c], with));
    }
}

/// Text to which an ending was joined is that text again once the ending is
/// taken away.
pub proof fn lemma_strip_suffix_of_joined(s: Seq<char>, suffix: Seq<char>)
    ensures
        strip_suffix(s + suffix, suffix) == s,
{
}

/// Text without ASCII capitals is its own lower-case form.
pub proof fn lemma_lowercase_of_small(s: Seq<char>)
    requires
        forall|i: int| 0 <= i < s.len() ==> ascii_lower(#[trigger] s[i]) == s[i],
    ensures
        to_ascii_lowercase(s) == s,
{
}

} // verus!
