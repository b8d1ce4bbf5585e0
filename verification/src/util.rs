//! First-match lookup over a sequence of keys, shared by the catalog
//! (identifiers) and the log store (dates).

use vstd::prelude::*;

verus! {

/// The index of the first occurrence of `key` in `keys`, or -1 when absent.
pub open spec fn first_index<A>(keys: Seq<A>, key: A) -> int
    decreases keys.len(),
{
    if keys.len() == 0 {
        -1
    } else if keys[0] == key {
        0
    } else {
        let r = first_index(keys.drop_first(), key);
        if r == -1 {
            -1
        } else {
            r + 1
        }
    }
}

/// `first_index` finds the first occurrence exactly: -1 means no occurrence,
/// and a nonnegative result is a match with none before it.
pub proof fn lemma_first_index<A>(keys: Seq<A>, key: A)
    ensures
        first_index(keys, key) == -1 ==> forall|j: int|
            0 <= j < keys.len() ==> keys[j] != key,
        first_index(keys, key) != -1 ==> {
            let r = first_index(keys, key);
            &&& 0 <= r < keys.len()
            &&& keys[r] == key
            &&& forall|j: int| 0 <= j < r ==> keys[j] != key
        },
    decreases keys.len(),
{
    if keys.len() > 0 && keys[0] != key {
        let sub = keys.drop_first();
        lemma_first_index(sub, key);
        let rs = first_index(sub, key);
        if rs == -1 {
            assert forall|j: int| 0 <= j < keys.len() implies keys[j] != key by {
                if j > 0 {
                    assert(sub[j - 1] == keys[j]);
                }
            }
        } else {
            assert(keys[rs + 1] == sub[rs]);
            assert forall|j: int| 0 <= j < rs + 1 implies keys[j] != key by {
                if j > 0 {
                    assert(sub[j - 1] == keys[j]);
                }
            }
        }
    }
}

} // verus!
