//! Facts about sequences without duplicates.

use vstd::prelude::*;

verus! {

/// In a sequence without duplicates an element is found where it stands.
pub proof fn lemma_index_of_unique<A>(s: Seq<A>, i: int)
    requires
        s.no_duplicates(),
        0 <= i < s.len(),
    ensures
        s.contains(s[i]),
        s.index_of(s[i]) == i,
{
}

/// An element keeps its place when another one is appended.
pub proof fn lemma_index_of_push<A>(s: Seq<A>, extra: A, needle: A)
    requires
        s.push(extra).no_duplicates(),
        s.contains(needle),
    ensures
        s.push(extra).contains(needle),
        s.push(extra).index_of(needle) == s.index_of(needle),
{
    let i = s.index_of(needle);
    assert(s.push(extra)[i] == needle);
    lemma_index_of_unique(s.push(extra), i);
}

/// What is among the first `n` elements is among the first `m`, for `m` not
/// less than `n`.
pub proof fn lemma_take_contains_grows<A>(s: Seq<A>, n: int, m: int, needle: A)
    requires
        0 <= n <= m <= s.len(),
        s.take(n).contains(needle),
    ensures
        s.take(m).contains(needle),
{
    let at = choose|at: int| 0 <= at < s.take(n).len() && s.take(n)[at] == needle;
    assert(s.take(m)[at] == needle);
}

} // verus!
