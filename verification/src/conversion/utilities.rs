//! The helper declarations that the generator emits for its own use: the
//! one that builds a string from a pointer to characters.

use vstd::prelude::*;
use crate::names::same_name;

verus! {

/// Whether `n` is the identifier of one of the generator's helpers.
pub open spec fn is_utility_name(n: Seq<char>) -> bool {
    n == "make_string"@
}

/// Whether `n` is the identifier of one of the generator's helpers.
pub fn is_utility(n: &String) -> (r: bool)
    ensures
        r == is_utility_name(n@),
{
    let helper = String::from_str("make_string");
    same_name(n, &helper)
}

} // verus!
