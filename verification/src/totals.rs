use vstd::hash_map::StringHashMap;
use vstd::prelude::*;

verus! {

/// Token counts by path.
pub struct TokenTotals {
    counts: StringHashMap<usize>,
    paths: Vec<String>,
}

/// The characters of each path, in order.
pub open spec fn key_models(paths: Seq<String>) -> Seq<Seq<char>> {
    Seq::new(paths.len(), |i: int| paths[i]@)
}

/// The models of pairs of a path and a count, in order.
pub open spec fn pair_models(pairs: Seq<(String, usize)>) -> Seq<(Seq<char>, usize)> {
    Seq::new(pairs.len(), |i: int| (pairs[i].0@, pairs[i].1))
}

/// The pairs list each path of `totals` once, with its count.
pub open spec fn lists(pairs: Seq<(Seq<char>, usize)>, totals: Map<Seq<char>, usize>) -> bool {
    &&& forall|i: int|
        0 <= i < pairs.len() ==> totals.contains_key((#[trigger] pairs[i]).0) && totals[pairs[i].0]
            == pairs[i].1
    &&& forall|path: Seq<char>|
        totals.contains_key(path) ==> exists|i: int|
            0 <= i < pairs.len() && (#[trigger] pairs[i]).0 == path
    &&& forall|i: int, j: int|
        0 <= i < j < pairs.len() ==> (#[trigger] pairs[i]).0 != (#[trigger] pairs[j]).0
}

/// The keys are the paths of `totals`, each once.
pub open spec fn keyed_by(totals: Map<Seq<char>, usize>, keys: Seq<Seq<char>>) -> bool {
    &&& forall|i: int| 0 <= i < keys.len() ==> totals.contains_key(#[trigger] keys[i])
    &&& forall|path: Seq<char>|
        totals.contains_key(path) ==> exists|i: int| 0 <= i < keys.len() && #[trigger] keys[i] == path
    &&& forall|i: int, j: int| 0 <= i < j < keys.len() ==> #[trigger] keys[i] != #[trigger] keys[j]
}

impl View for TokenTotals {
    type V = Map<Seq<char>, usize>;

    closed spec fn view(&self) -> Map<Seq<char>, usize> {
        self.counts@
    }
}

impl TokenTotals {
    #[verifier::type_invariant]
    spec fn well_formed(self) -> bool {
        keyed_by(self.counts@, key_models(self.paths@))
    }

    /// No counts.
    pub fn new() -> (totals: Self)
        ensures
            totals@ == Map::<Seq<char>, usize>::empty(),
    {
        let totals = TokenTotals { counts: StringHashMap::new(), paths: Vec::new() };
        totals
    }

    /// Sets the count of `path`, in place of an earlier one.
    pub fn insert(&mut self, path: String, count: usize)
        ensures
            final(self)@ == old(self)@.insert(path@, count),
    {
        proof {
            use_type_invariant(&*self);
        }
        let ghost before = key_models(self.paths@);
        let ghost model = self.counts@;
        let known = self.counts.contains_key(path.as_str());
        let mut taken = TokenTotals::new();
        std::mem::swap(self, &mut taken);
        let TokenTotals { mut counts, mut paths } = taken;
        assert(counts@ == model);
        assert(key_models(paths@) == before);
        if !known {
            paths.push(path.clone());
        }
        counts.insert(path, count);
        proof {
            let after = key_models(paths@);
            assert(keyed_by(model, before));
            assert forall|i: int| 0 <= i < after.len() implies counts@.contains_key(
                #[trigger] after[i],
            ) by {
                if i < before.len() {
                    assert(after[i] == before[i]);
                }
            }
            assert forall|p: Seq<char>| counts@.contains_key(p) implies exists|i: int|
                0 <= i < after.len() && #[trigger] after[i] == p by {
                if model.contains_key(p) {
                    let i = choose|i: int| 0 <= i < before.len() && #[trigger] before[i] == p;
                    assert(after[i] == p);
                } else {
                    assert(after[before.len() as int] == p);
                }
            }
            assert forall|i: int, j: int| 0 <= i < j < after.len() implies #[trigger] after[i]
                != #[trigger] after[j] by {
                assert(after[i] == before[i]);
                if j < before.len() {
                    assert(after[j] == before[j]);
                } else {
                    assert(after[j] == path@);
                    assert(model.contains_key(before[i]));
                }
            }
        }
        assert(keyed_by(counts@, key_models(paths@)));
        *self = TokenTotals { counts, paths };
    }

    /// The count of `path`, if it has one.
    pub fn get(&self, path: &str) -> (count: Option<usize>)
        ensures
            count == if self@.contains_key(path@) {
                Some(self@[path@])
            } else {
                None
            },
    {
        match self.counts.get(path) {
            Some(count) => Some(*count),
            None => None,
        }
    }

    /// Whether `path` has a count.
    pub fn contains(&self, path: &str) -> (known: bool)
        ensures
            known == self@.contains_key(path@),
    {
        self.counts.contains_key(path)
    }

    /// The number of paths that have a count.
    pub fn len(&self) -> (count: usize)
        ensures
            count == self@.len(),
    {
        broadcast use vstd::hash_map::axiom_string_hash_map_spec_len;

        self.counts.len()
    }

    /// Every path with its count, each path once.
    pub fn entries(&self) -> (pairs: Vec<(String, usize)>)
        ensures
            lists(pair_models(pairs@), self@),
    {
        proof {
            use_type_invariant(self);
        }
        let ghost keys = key_models(self.paths@);
        let mut pairs: Vec<(String, usize)> = Vec::new();
        let mut i: usize = 0;
        while i < self.paths.len()
            invariant
                i <= self.paths.len(),
                keys == key_models(self.paths@),
                pairs@.len() == i,
                forall|k: int| 0 <= k < i ==> (#[trigger] pair_models(pairs@)[k]).0 == keys[k],
                forall|k: int|
                    0 <= k < i ==> (#[trigger] pair_models(pairs@)[k]).1 == self.counts@[keys[k]],
                keyed_by(self.counts@, keys),
            decreases self.paths.len() - i,
        {
            let path = &self.paths[i];
            assert(keys[i as int] == path@);
            let count = match self.counts.get(path.as_str()) {
                Some(count) => *count,
                None => 0,
            };
            let ghost before = pair_models(pairs@);
            pairs.push((path.clone(), count));
            proof {
                let after = pair_models(pairs@);
                assert forall|k: int| 0 <= k < i + 1 implies (#[trigger] after[k]).0 == keys[k]
                    && after[k].1 == self.counts@[keys[k]] by {
                    if k < i {
                        assert(after[k] == before[k]);
                    }
                }
            }
            i += 1;
        }
        proof {
            let models = pair_models(pairs@);
            assert forall|p: Seq<char>| self@.contains_key(p) implies exists|k: int|
                0 <= k < models.len() && (#[trigger] models[k]).0 == p by {
                let k = choose|k: int| 0 <= k < self.paths@.len() && #[trigger] keys[k] == p;
                assert(models[k].0 == p);
            }
            assert forall|a: int, b: int| 0 <= a < b < models.len() implies (#[trigger] models[a]).0
                != (#[trigger] models[b]).0 by {
                assert(keys[a] != keys[b]);
            }
        }
        pairs
    }
}

} // verus!
