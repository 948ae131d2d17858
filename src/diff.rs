//! The set difference "previous minus current" over identifier collections.
use vstd::prelude::*;

use crate::model::{identifier_set, identifiers, unfollowers};

verus! {

/// Whether `id` occurs in `v`.
fn contains_identifier(v: &Vec<String>, id: &String) -> (r: bool)
    ensures
        r == identifiers(v@).contains(id@),
{
    let mut i: usize = 0;
    while i < v.len()
        invariant
            i <= v.len(),
            forall|j: int| 0 <= j < i ==> v@[j]@ != id@,
        decreases v.len() - i,
    {
        if v[i] == *id {
            assert(identifiers(v@)[i as int] == id@);
            return true;
        }
        i += 1;
    }
    proof {
        if identifiers(v@).contains(id@) {
            let k = choose|k: int| 0 <= k < identifiers(v@).len() && identifiers(v@)[k] == id@;
            assert(v@[k]@ == id@);
        }
    }
    false
}

/// The identifiers of `previous` that are absent from `current`, each once,
/// in the order of their first occurrence in `previous`.
///
/// Membership is tested by scanning, so the cost is
/// O(|previous| * (|current| + |result|)) comparisons: vstd gives a hash set
/// of `String` keys no model of its contents, so a hashed version could not be
/// proved.
pub fn diff(previous: &Vec<String>, current: &Vec<String>) -> (r: Vec<String>)
    ensures
        identifier_set(r@) == unfollowers(identifier_set(previous@), identifier_set(current@)),
        identifiers(r@).no_duplicates(),
{
    let mut out: Vec<String> = Vec::new();
    let mut i: usize = 0;
    while i < previous.len()
        invariant
            i <= previous.len(),
            identifiers(out@).no_duplicates(),
            forall|x: Seq<char>|
                identifiers(out@).contains(x) <==> (identifiers(previous@.take(i as int)).contains(x)
                    && !identifiers(current@).contains(x)),
        decreases previous.len() - i,
    {
        let id = &previous[i];
        proof {
            assert(previous@.take(i as int + 1) == previous@.take(i as int).push(previous@[i as int]));
            assert(identifiers(previous@.take(i as int + 1)) == identifiers(previous@.take(i as int)).push(id@));
        }
        let ghost seen = identifiers(previous@.take(i as int));
        let ghost before = identifiers(out@);
        if !contains_identifier(current, id) && !contains_identifier(&out, id) {
            out.push(id.clone());
            proof {
                assert(identifiers(out@) == before.push(id@));
                assert(identifiers(out@)[before.len() as int] == id@);
            }
        }
        proof {
            assert forall|x: Seq<char>|
                identifiers(out@).contains(x) <==> (seen.push(id@).contains(x)
                    && !identifiers(current@).contains(x)) by {
                if seen.push(id@).contains(x) && x != id@ {
                    let k = choose|k: int| 0 <= k < seen.push(id@).len() && seen.push(id@)[k] == x;
                    assert(seen[k] == x);
                }
                if identifiers(out@).contains(x) && x != id@ {
                    let k = choose|k: int| 0 <= k < identifiers(out@).len() && identifiers(out@)[k] == x;
                    assert(before[k] == x);
                }
                if before.contains(x) {
                    let k = choose|k: int| 0 <= k < before.len() && before[k] == x;
                    assert(identifiers(out@)[k] == x);
                }
                if seen.contains(x) {
                    let k = choose|k: int| 0 <= k < seen.len() && seen[k] == x;
                    assert(seen.push(id@)[k] == x);
                }
                assert(seen.push(id@)[seen.len() as int] == id@);
            }
        }
        i += 1;
    }
    proof {
        assert(previous@.take(previous.len() as int) == previous@);
        assert(identifier_set(out@) == unfollowers(identifier_set(previous@), identifier_set(current@)));
    }
    out
}

/// When every identifier of `previous` also occurs in `current`, nobody
/// has gone: the difference is empty.
pub proof fn lemma_covered_previous_has_no_unfollowers(previous: Seq<String>, current: Seq<String>)
    requires
        identifier_set(previous).subset_of(identifier_set(current)),
    ensures
        unfollowers(identifier_set(previous), identifier_set(current)) == Set::<Seq<char>>::empty(),
{
    assert(unfollowers(identifier_set(previous), identifier_set(current)) =~= Set::<Seq<char>>::empty());
}

} // verus!
