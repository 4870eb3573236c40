use vstd::prelude::*;

verus! {

/// The elements of `items` in the opposite order.
pub fn reversed<T>(items: Vec<T>) -> (out: Vec<T>)
    ensures
        out@ == items@.reverse(),
{
    let ghost all = items@;
    let mut items = items;
    let mut out: Vec<T> = Vec::new();
    while items.len() > 0
        invariant
            items@.len() + out@.len() == all.len(),
            items@ == all.take(items@.len() as int),
            forall|j: int| 0 <= j < out@.len() ==> out@[j] == all[all.len() - 1 - j],
        decreases items.len(),
    {
        let last = items.pop();
        match last {
            Some(item) => out.push(item),
            None => {},
        }
    }
    assert(out@ =~= all.reverse());
    out
}

/// The set of the strings that occur in `paths`.
pub open spec fn string_set(paths: Seq<String>) -> Set<Seq<char>> {
    Set::new(|p: Seq<char>| exists|i: int| 0 <= i < paths.len() && #[trigger] paths[i]@ == p)
}

/// The place of the first pair whose first part is `key`.
pub open spec fn first_with_key<V>(pairs: Seq<(Seq<char>, V)>, key: Seq<char>) -> Option<int>
    decreases pairs.len(),
{
    if pairs.len() == 0 {
        None
    } else if pairs[0].0 == key {
        Some(0int)
    } else {
        match first_with_key(pairs.drop_first(), key) {
            Some(i) => Some(i + 1),
            None => None,
        }
    }
}

/// Where [`first_with_key`] finds a key, the pair there has it and no earlier
/// one; where it finds none, no pair has it.
pub proof fn first_with_key_found<V>(pairs: Seq<(Seq<char>, V)>, key: Seq<char>)
    ensures
        match first_with_key(pairs, key) {
            Some(i) => 0 <= i < pairs.len() && pairs[i].0 == key && forall|j: int|
                0 <= j < i ==> (#[trigger] pairs[j]).0 != key,
            None => forall|j: int| 0 <= j < pairs.len() ==> (#[trigger] pairs[j]).0 != key,
        },
    decreases pairs.len(),
{
    if pairs.len() > 0 && pairs[0].0 != key {
        let rest = pairs.drop_first();
        first_with_key_found(rest, key);
        match first_with_key(rest, key) {
            Some(i) => {
                assert forall|j: int| 0 <= j < i + 1 implies (#[trigger] pairs[j]).0 != key by {
                    if j > 0 {
                        assert(rest[j - 1].0 != key);
                    }
                }
            },
            None => {
                assert forall|j: int| 0 <= j < pairs.len() implies (#[trigger] pairs[j]).0 != key by {
                    if j > 0 {
                        assert(rest[j - 1].0 != key);
                    }
                }
            },
        }
    }
}

/// A place that holds the key, with no earlier place holding it, is the place
/// that [`first_with_key`] finds.
pub proof fn first_with_key_is<V>(pairs: Seq<(Seq<char>, V)>, key: Seq<char>, at: int)
    requires
        0 <= at < pairs.len(),
        pairs[at].0 == key,
        forall|j: int| 0 <= j < at ==> (#[trigger] pairs[j]).0 != key,
    ensures
        first_with_key(pairs, key) == Some(at),
{
    first_with_key_found(pairs, key);
    match first_with_key(pairs, key) {
        Some(i) => {
            if i < at {
                assert(pairs[i].0 != key);
            }
        },
        None => {
            assert(pairs[at].0 != key);
        },
    }
}

} // verus!
