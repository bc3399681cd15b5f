//! Finding the first position at which something holds.

use vstd::prelude::*;

verus! {

/// The least position in `from..to` at which `p` holds.
pub open spec fn first_from(from: int, to: int, p: spec_fn(int) -> bool) -> Option<int>
    decreases to - from,
{
    if from >= to {
        None
    } else if p(from) {
        Some(from)
    } else {
        first_from(from + 1, to, p)
    }
}

/// The least position below `n` at which `p` holds.
pub open spec fn first_such(n: int, p: spec_fn(int) -> bool) -> Option<int> {
    first_from(0, n, p)
}

/// `first_from` returns a position at which `p` holds and before which it
/// does not, and returns nothing only where `p` holds nowhere.
pub proof fn lemma_first_from(from: int, to: int, p: spec_fn(int) -> bool)
    ensures
        match first_from(from, to, p) {
            Some(i) => from <= i < to && p(i) && forall|k: int| from <= k < i ==> !(#[trigger] p(k)),
            None => forall|k: int| from <= k < to ==> !(#[trigger] p(k)),
        },
    decreases to - from,
{
    if from < to && !p(from) {
        lemma_first_from(from + 1, to, p);
    }
}

/// A position at which `p` holds and before which it does not is the one found.
pub proof fn lemma_first_such_is(n: int, p: spec_fn(int) -> bool, i: int)
    requires
        0 <= i < n,
        p(i),
        forall|k: int| 0 <= k < i ==> !(#[trigger] p(k)),
    ensures
        first_such(n, p) == Some(i),
{
    lemma_first_from(0, n, p);
}

/// Where `p` holds nowhere, nothing is found.
pub proof fn lemma_first_such_none(n: int, p: spec_fn(int) -> bool)
    requires
        forall|k: int| 0 <= k < n ==> !(#[trigger] p(k)),
    ensures
        first_such(n, p) == None::<int>,
{
    lemma_first_from(0, n, p);
}

} // verus!
