//! Unfollower detection: which identifiers of a recorded baseline are missing
//! from the current collection, and the compact binary form of a baseline.
use vstd::prelude::*;

pub mod model;
pub mod diff;
pub mod codec;

pub use codec::{decode_collection, serialize_followers_to_mpack, DecodeError, EncodeError};
pub use diff::diff;

use codec::{decoded_collection, encodable, encoded_collection};
use model::{identifier_set, identifiers, unfollowers};

verus! {

/// Reads the baseline stored in `old_followers_mpack` and returns, each once,
/// the identifiers it holds that `new_followers` lacks. Fails when a non-empty
/// baseline does not hold a collection of identifiers. A baseline written by
/// `serialize_followers_to_mpack` reads back as the collection it was written
/// from.
pub fn find_unfollowers(new_followers: &Vec<String>, old_followers_mpack: &[u8]) -> (r: Result<
    Vec<String>,
    DecodeError,
>)
    ensures
        r is Err <==> decoded_collection(old_followers_mpack@) is None,
        r matches Ok(u) ==> (identifier_set(u@) == unfollowers(
            decoded_collection(old_followers_mpack@)->Some_0.to_set(),
            identifier_set(new_followers@),
        ) && identifiers(u@).no_duplicates()),
        forall|c: Seq<Seq<char>>|
            encodable(c) && #[trigger] encoded_collection(c) == old_followers_mpack@ ==> (r matches Ok(
                u,
            ) && identifier_set(u@) == unfollowers(c.to_set(), identifier_set(new_followers@))),
{
    let old_followers = decode_collection(old_followers_mpack)?;
    Ok(diff(&old_followers, new_followers))
}

} // verus!
