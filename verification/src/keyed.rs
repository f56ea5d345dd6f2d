//! Places by key: where in a list the first entry with a key stands.

use vstd::prelude::*;

verus! {

/// Where `key` stands first among `keys`, or their number if it does not.
pub open spec fn key_place(keys: Seq<Seq<char>>, key: Seq<char>) -> int
    decreases keys.len(),
{
    if keys.len() == 0 {
        0
    } else if keys[0] == key {
        0
    } else {
        1 + key_place(keys.skip(1), key)
    }
}

/// The place is within the keys or behind all of them, it holds the key, and no
/// place before it does.
pub proof fn lemma_key_place(keys: Seq<Seq<char>>, key: Seq<char>)
    ensures
        0 <= key_place(keys, key) <= keys.len(),
        key_place(keys, key) < keys.len() ==> keys[key_place(keys, key)] == key,
        forall|i: int| 0 <= i < key_place(keys, key) ==> #[trigger] keys[i] != key,
        keys.contains(key) <==> key_place(keys, key) < keys.len(),
    decreases keys.len(),
{
    if keys.len() > 0 && keys[0] != key {
        let rest = keys.skip(1);
        lemma_key_place(rest, key);
        assert forall|i: int| 0 <= i < key_place(keys, key) implies #[trigger] keys[i] != key by {
            if i > 0 {
                assert(rest[i - 1] == keys[i]);
            }
        }
        if keys.contains(key) {
            let i = choose|i: int| 0 <= i < keys.len() && keys[i] == key;
            assert(rest[i - 1] == key);
        }
        if rest.contains(key) {
            let i = choose|i: int| 0 <= i < rest.len() && rest[i] == key;
            assert(keys[i + 1] == key);
        }
    }
}

/// A place that holds the key, and before which none does, is its place.
pub proof fn lemma_key_place_is(keys: Seq<Seq<char>>, key: Seq<char>, k: int)
    requires
        0 <= k <= keys.len(),
        forall|i: int| 0 <= i < k ==> #[trigger] keys[i] != key,
        k < keys.len() ==> keys[k] == key,
    ensures
        key_place(keys, key) == k,
{
    lemma_key_place(keys, key);
    let p = key_place(keys, key);
    if p < k {
        assert(keys[p] != key);
    } else if k < p {
        assert(keys[k] != key);
    }
}

} // verus!
