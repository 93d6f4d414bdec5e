//! Small operations on text.

use vstd::prelude::*;
use vstd::string::*;

verus! {

/// Whether two texts hold the same characters.
pub fn str_eq(a: &str, b: &str) -> (same: bool)
    ensures
        same == (a@ == b@),
{
    let left = String::from_str(a);
    let right = String::from_str(b);
    left == right
}

/// The index of the first occurrence of `c` in `text` at or after `from`;
/// the length of the text where there is none.
pub open spec fn find_char(text: Seq<char>, c: char, from: int) -> int
    decreases text.len() - from,
{
    if from < 0 || from >= text.len() {
        text.len() as int
    } else if text[from] == c {
        from
    } else {
        find_char(text, c, from + 1)
    }
}

/// The result of [`find_char`] lies between `from` and the length, names an
/// occurrence where it is an index, and nothing before it is one.
pub proof fn lemma_find_char(text: Seq<char>, c: char, from: int)
    requires
        0 <= from <= text.len(),
    ensures
        from <= find_char(text, c, from) <= text.len(),
        find_char(text, c, from) < text.len() ==> text[find_char(text, c, from)] == c,
        forall|j: int| from <= j < find_char(text, c, from) ==> text[j] != c,
    decreases text.len() - from,
{
    if from < text.len() && text[from] != c {
        lemma_find_char(text, c, from + 1);
    }
}

/// Finds the first occurrence of `c` in `text` at or after the character
/// index `from`; gives the number of characters where there is none.
pub fn index_of_char(text: &str, c: char, from: usize) -> (at: usize)
    ensures
        at == find_char(text@, c, from as int),
        at <= text@.len(),
        from <= text@.len() ==> from <= at,
{
    let n = text.unicode_len();
    if from >= n {
        return n;
    }
    let mut i: usize = from;
    while i < n
        invariant
            from <= i <= n,
            n == text@.len(),
            find_char(text@, c, from as int) == find_char(text@, c, i as int),
        decreases n - i,
    {
        if text.get_char(i) == c {
            return i;
        }
        i = i + 1;
    }
    i
}

/// Whether `text` starts with the characters of `prefix`.
pub open spec fn starts_with(text: Seq<char>, prefix: Seq<char>) -> bool {
    text.len() >= prefix.len() && text.subrange(0, prefix.len() as int) == prefix
}

/// Whether `text` starts with `prefix`.
pub fn has_prefix(text: &str, prefix: &str) -> (yes: bool)
    ensures
        yes == starts_with(text@, prefix@),
{
    let n = prefix.unicode_len();
    if text.unicode_len() < n {
        return false;
    }
    str_eq(text.substring_char(0, n), prefix)
}

/// The text after the first `n` characters; empty where the text has no
/// more than `n`.
pub open spec fn after_chars(text: Seq<char>, n: int) -> Seq<char> {
    if 0 <= n <= text.len() {
        text.skip(n)
    } else {
        Seq::empty()
    }
}

/// The text after the first `n` characters.
pub fn skip_chars(text: &str, n: usize) -> (rest: &str)
    ensures
        rest@ == after_chars(text@, n as int),
{
    let len = text.unicode_len();
    if n > len {
        text.substring_char(len, len)
    } else {
        text.substring_char(n, len)
    }
}

} // verus!
