//! The mathematical model of identifier collections.
use vstd::prelude::*;

verus! {

/// The identifiers of a collection, each as its sequence of characters.
pub open spec fn identifiers(v: Seq<String>) -> Seq<Seq<char>> {
    v.map_values(|s: String| s@)
}

/// The set of distinct identifiers of a collection.
pub open spec fn identifier_set(v: Seq<String>) -> Set<Seq<char>> {
    identifiers(v).to_set()
}

/// The identifiers present in `previous` and absent from `current`.
pub open spec fn unfollowers(previous: Set<Seq<char>>, current: Set<Seq<char>>) -> Set<Seq<char>> {
    previous.difference(current)
}

} // verus!
