use crate::cache::{
    distinct_keys, fresh_count, promoted, promoted_keeps_shape, put_front, stored_value,
    EntryModel,
};
use crate::sequences::{first_with_key, first_with_key_found};
use crate::binary::{has_nul, sniff_window};
use crate::counter::{
    cached_for, contributed, entries_after_count, entries_after_first_step, first_step,
    measured, merged_totals, planned_entries, planned_hits, planned_misses, untimed_count,
    CountStepModel, CountedModel, ProbeModel,
};
use crate::tokenizer::TokenErrorModel;
use vstd::prelude::*;

verus! {

/// With distinct paths, the value stored under a path is the value of the one
/// entry with that path.
pub proof fn stored_value_is_membership(entries: Seq<EntryModel>, key: Seq<char>, value: (u64, usize))
    requires
        distinct_keys(entries),
    ensures
        stored_value(entries, key) == Some(value) <==> entries.contains((key, value)),
{
    first_with_key_found(entries, key);
    if entries.contains((key, value)) {
        let x = choose|x: int| 0 <= x < entries.len() && entries[x] == (key, value);
        match first_with_key(entries, key) {
            Some(i) => {
                if i < x {
                    assert(entries[i].0 != entries[x].0);
                }
                if x < i {
                    assert(entries[x].0 != entries[i].0);
                }
            },
            None => {
                assert(entries[x].0 != key);
            },
        }
    }
    if stored_value(entries, key) == Some(value) {
        let i = first_with_key(entries, key)->0;
        assert(entries[i] == (key, value));
    }
}

/// Using a path moves its entry and keeps every entry.
pub proof fn promoted_same_members(entries: Seq<EntryModel>, key: Seq<char>, entry: EntryModel)
    ensures
        promoted(entries, key).contains(entry) <==> entries.contains(entry),
{
    first_with_key_found(entries, key);
    match first_with_key(entries, key) {
        Some(i) => {
            let after = promoted(entries, key);
            if after.contains(entry) {
                let x = choose|x: int| 0 <= x < after.len() && after[x] == entry;
                if x == 0 {
                    assert(entries[i] == entry);
                } else {
                    let origin = if x - 1 < i { x - 1 } else { x };
                    assert(entries[origin] == entry);
                }
            }
            if entries.contains(entry) {
                let x = choose|x: int| 0 <= x < entries.len() && entries[x] == entry;
                if x == i {
                    assert(after[0] == entry);
                } else if x < i {
                    assert(after[x + 1] == entry);
                } else {
                    assert(after[x] == entry);
                }
            }
        },
        None => {},
    }
}

/// Using one path changes the value stored under no path.
pub proof fn promoted_keeps_values(entries: Seq<EntryModel>, used: Seq<char>, key: Seq<char>)
    requires
        distinct_keys(entries),
    ensures
        stored_value(promoted(entries, used), key) == stored_value(entries, key),
{
    promoted_keeps_shape(entries, used);
    let after = promoted(entries, used);
    match stored_value(entries, key) {
        Some(value) => {
            stored_value_is_membership(entries, key, value);
            promoted_same_members(entries, used, (key, value));
            stored_value_is_membership(after, key, value);
        },
        None => {
            match stored_value(after, key) {
                Some(value) => {
                    stored_value_is_membership(after, key, value);
                    promoted_same_members(entries, used, (key, value));
                    stored_value_is_membership(entries, key, value);
                },
                None => {},
            }
        },
    }
}

/// A count that was just recorded is fresh at its modification time and stale
/// at every other.
pub proof fn recorded_count_is_stored(
    entries: Seq<EntryModel>,
    capacity: nat,
    path: Seq<char>,
    modified: u64,
    count: usize,
)
    ensures
        stored_value(put_front(entries, capacity, path, (modified, count)), path) == Some(
            (modified, count),
        ),
{
    let after = put_front(entries, capacity, path, (modified, count));
    assert(after[0] == (path, (modified, count)));
}

/// Cache correctness: once a file was counted and the count recorded, asking
/// again while the file's modification time is the same gives that count from
/// the cache, and does not ask for the content.
pub proof fn counted_file_is_answered_from_cache(
    entries: Seq<EntryModel>,
    capacity: nat,
    path: Seq<char>,
    modified: u64,
    count: usize,
)
    ensures
        first_step(
            entries_after_count(entries, capacity, path, modified, Ok(count)),
            path,
            true,
            Ok(modified),
        ) == CountStepModel::Done(Ok(count)),
{
    recorded_count_is_stored(entries, capacity, path, modified, count);
}

/// Cache correctness, for an answer that came from the cache: asking again
/// while the modification time is the same gives the same count, again from the
/// cache.
pub proof fn cached_answer_repeats(
    entries: Seq<EntryModel>,
    path: Seq<char>,
    modified: u64,
    count: usize,
)
    requires
        distinct_keys(entries),
        first_step(entries, path, true, Ok(modified)) == CountStepModel::Done(Ok(count)),
    ensures
        first_step(
            entries_after_first_step(entries, path, true, Ok(modified)),
            path,
            true,
            Ok(modified),
        ) == CountStepModel::Done(Ok(count)),
{
    promoted_keeps_values(entries, path, path);
}

/// Cache invalidation: once a file was counted at one modification time, asking
/// at any other modification time asks for the content again.
pub proof fn changed_file_is_recounted(
    entries: Seq<EntryModel>,
    capacity: nat,
    path: Seq<char>,
    modified: u64,
    count: usize,
    later: u64,
)
    requires
        later != modified,
    ensures
        first_step(
            entries_after_count(entries, capacity, path, modified, Ok(count)),
            path,
            true,
            Ok(later),
        ) == CountStepModel::ReadContent(later),
{
    recorded_count_is_stored(entries, capacity, path, modified, count);
}

/// Cache invalidation, for an answer that came from the cache: asking at any
/// other modification time asks for the content.
pub proof fn changed_file_misses_after_hit(
    entries: Seq<EntryModel>,
    path: Seq<char>,
    modified: u64,
    later: u64,
)
    requires
        distinct_keys(entries),
        fresh_count(entries, path, modified) is Some,
        later != modified,
    ensures
        first_step(
            entries_after_first_step(entries, path, true, Ok(modified)),
            path,
            true,
            Ok(later),
        ) == CountStepModel::ReadContent(later),
{
    promoted_keeps_values(entries, path, path);
}

/// Binary detection in a count: a file whose content has a NUL byte among the
/// bytes that are inspected counts as zero tokens whenever its content is read,
/// whether its modification time is known or not, and whatever the cache holds.
pub proof fn binary_file_counts_as_zero(bytes: Seq<u8>, message: Seq<char>)
    requires
        has_nul(sniff_window(bytes)),
    ensures
        measured(Ok(bytes)) == Ok::<usize, TokenErrorModel>(0usize),
        untimed_count(Ok(bytes), message) == Ok::<usize, TokenErrorModel>(0usize),
{
}

/// A file that exists is never refused for want of its modification time or
/// for what the cache holds: its count is answered from the cache, or its
/// content is asked for.
pub proof fn existing_file_is_counted_or_read(
    entries: Seq<EntryModel>,
    path: Seq<char>,
    modified: Result<u64, Seq<char>>,
)
    ensures
        !(first_step(entries, path, true, modified) matches CountStepModel::Done(Err(_))),
{
}

/// The paths of the probes are pairwise different.
pub open spec fn distinct_paths(probes: Seq<ProbeModel>) -> bool {
    forall|i: int, j: int|
        0 <= i < j < probes.len() ==> (#[trigger] probes[i]).0 != (#[trigger] probes[j]).0
}

/// The counted files are the files that were left to read, in their order.
pub open spec fn answers(counted: Seq<CountedModel>, misses: Seq<ProbeModel>) -> bool {
    &&& counted.len() == misses.len()
    &&& forall|j: int|
        0 <= j < counted.len() ==> (#[trigger] counted[j]).0 == misses[j].0 && counted[j].1
            == misses[j].1
}

/// The paths of a sequence of probes, in order.
pub open spec fn probe_paths(probes: Seq<ProbeModel>) -> Seq<Seq<char>> {
    Seq::new(probes.len(), |i: int| probes[i].0)
}

/// Asking the cache about a batch changes the value stored under no path.
pub proof fn planning_keeps_values(entries: Seq<EntryModel>, probes: Seq<ProbeModel>, key: Seq<char>)
    requires
        distinct_keys(entries),
    ensures
        distinct_keys(planned_entries(entries, probes)),
        stored_value(planned_entries(entries, probes), key) == stored_value(entries, key),
    decreases probes.len(),
{
    if probes.len() > 0 {
        let before = planned_entries(entries, probes.drop_last());
        planning_keeps_values(entries, probes.drop_last(), key);
        if probes.last().1 is Some {
            promoted_keeps_shape(before, probes.last().0);
            promoted_keeps_values(before, probes.last().0, key);
        }
    }
}

/// Whether the cache answers a probe does not depend on the probes before it.
pub proof fn planning_keeps_answers(entries: Seq<EntryModel>, probes: Seq<ProbeModel>, probe: ProbeModel)
    requires
        distinct_keys(entries),
    ensures
        cached_for(planned_entries(entries, probes), probe) == cached_for(entries, probe),
{
    planning_keeps_values(entries, probes, probe.0);
}

/// The counts that the cache answers are those of the probes with a fresh
/// cached count, and the probes left to read are the others, in their order and
/// with different paths.
pub proof fn plan_divides_batch(entries: Seq<EntryModel>, probes: Seq<ProbeModel>)
    requires
        distinct_keys(entries),
        distinct_paths(probes),
    ensures
        forall|p: Seq<char>| #[trigger]
            planned_hits(entries, probes).dom().contains(p) <==> exists|i: int|
                0 <= i < probes.len() && (#[trigger] probes[i]).0 == p && cached_for(
                    entries,
                    probes[i],
                ) is Some,
        forall|i: int|
            0 <= i < probes.len() && cached_for(entries, #[trigger] probes[i]) is Some
                ==> planned_hits(entries, probes)[probes[i].0] == cached_for(
                entries,
                probes[i],
            )->0,
        forall|x: ProbeModel| #[trigger]
            planned_misses(entries, probes).contains(x) <==> exists|i: int|
                0 <= i < probes.len() && #[trigger] probes[i] == x && cached_for(
                    entries,
                    probes[i],
                ) is None,
        distinct_paths(planned_misses(entries, probes)),
    decreases probes.len(),
{
    let hits = planned_hits(entries, probes);
    let misses = planned_misses(entries, probes);
    if probes.len() == 0 {
        assert(hits.dom() =~= Set::<Seq<char>>::empty());
    } else {
        let front = probes.drop_last();
        let last = probes.last();
        let n = front.len() as int;
        plan_divides_batch(entries, front);
        planning_keeps_answers(entries, front, last);
        let front_hits = planned_hits(entries, front);
        let front_misses = planned_misses(entries, front);
        assert(probes[n] == last);
        assert forall|i: int| 0 <= i < n implies probes[i] == front[i] by {}
        assert forall|p: Seq<char>| #[trigger]
            hits.dom().contains(p) <==> exists|i: int|
                0 <= i < probes.len() && (#[trigger] probes[i]).0 == p && cached_for(
                    entries,
                    probes[i],
                ) is Some by {
            if hits.dom().contains(p) {
                if front_hits.dom().contains(p) {
                    let i = choose|i: int|
                        0 <= i < front.len() && (#[trigger] front[i]).0 == p && cached_for(
                            entries,
                            front[i],
                        ) is Some;
                    assert(probes[i].0 == p);
                } else {
                    assert(probes[n].0 == p);
                }
            }
            if exists|i: int|
                0 <= i < probes.len() && (#[trigger] probes[i]).0 == p && cached_for(
                    entries,
                    probes[i],
                ) is Some {
                let i = choose|i: int|
                    0 <= i < probes.len() && (#[trigger] probes[i]).0 == p && cached_for(
                        entries,
                        probes[i],
                    ) is Some;
                if i < n {
                    assert(front[i].0 == p);
                    assert(front_hits.dom().contains(p));
                }
            }
        }
        assert forall|i: int|
            0 <= i < probes.len() && cached_for(entries, #[trigger] probes[i]) is Some implies hits[probes[i].0]
            == cached_for(entries, probes[i])->0 by {
            if i < n {
                assert(front[i] == probes[i]);
                assert(front_hits[front[i].0] == cached_for(entries, front[i])->0);
                assert(probes[i].0 != probes[n].0);
            }
        }
        assert forall|x: ProbeModel| #[trigger]
            misses.contains(x) <==> exists|i: int|
                0 <= i < probes.len() && #[trigger] probes[i] == x && cached_for(
                    entries,
                    probes[i],
                ) is None by {
            if misses.contains(x) {
                let k = choose|k: int| 0 <= k < misses.len() && misses[k] == x;
                if cached_for(entries, last) is None && k == front_misses.len() {
                    assert(probes[n] == x);
                } else {
                    assert(front_misses[k] == x);
                    assert(front_misses.contains(x));
                    let i = choose|i: int|
                        0 <= i < front.len() && #[trigger] front[i] == x && cached_for(
                            entries,
                            front[i],
                        ) is None;
                    assert(probes[i] == x);
                }
            }
            if exists|i: int|
                0 <= i < probes.len() && #[trigger] probes[i] == x && cached_for(
                    entries,
                    probes[i],
                ) is None {
                let i = choose|i: int|
                    0 <= i < probes.len() && #[trigger] probes[i] == x && cached_for(
                        entries,
                        probes[i],
                    ) is None;
                if i < n {
                    assert(front[i] == x);
                    assert(front_misses.contains(x));
                    let k = choose|k: int| 0 <= k < front_misses.len() && front_misses[k] == x;
                    assert(misses[k] == x);
                } else {
                    assert(misses[front_misses.len() as int] == x);
                }
            }
        }
        assert forall|a: int, b: int| 0 <= a < b < misses.len() implies (#[trigger] misses[a]).0
            != (#[trigger] misses[b]).0 by {
            if b < front_misses.len() {
                assert(misses[a] == front_misses[a]);
                assert(misses[b] == front_misses[b]);
            } else {
                assert(misses[b] == last);
                assert(misses[a] == front_misses[a]);
                assert(front_misses.contains(front_misses[a]));
                let i = choose|i: int|
                    0 <= i < front.len() && #[trigger] front[i] == front_misses[a] && cached_for(
                        entries,
                        front[i],
                    ) is None;
                assert(probes[i].0 != probes[n].0);
            }
        }
    }
}

/// The paths of the counted files are pairwise different.
pub open spec fn distinct_counted(counted: Seq<CountedModel>) -> bool {
    forall|i: int, j: int|
        0 <= i < j < counted.len() ==> (#[trigger] counted[i]).0 != (#[trigger] counted[j]).0
}

/// Merging counted files with different paths: each path stands with what its
/// file contributes, and every other path stands as before.
pub proof fn merge_sets_each_path(totals: Map<Seq<char>, usize>, counted: Seq<CountedModel>)
    requires
        distinct_counted(counted),
    ensures
        forall|p: Seq<char>| #[trigger]
            merged_totals(totals, counted).dom().contains(p) <==> (totals.dom().contains(p)
                || exists|j: int| 0 <= j < counted.len() && (#[trigger] counted[j]).0 == p),
        forall|j: int|
            0 <= j < counted.len() ==> merged_totals(totals, counted)[(#[trigger] counted[j]).0]
                == contributed(counted[j]),
        forall|p: Seq<char>|
            totals.dom().contains(p) && !(exists|j: int|
                0 <= j < counted.len() && (#[trigger] counted[j]).0 == p) ==> #[trigger] merged_totals(
                totals,
                counted,
            )[p] == totals[p],
    decreases counted.len(),
{
    if counted.len() > 0 {
        let front = counted.drop_last();
        let last = counted.last();
        let n = front.len() as int;
        let merged = merged_totals(totals, counted);
        let before = merged_totals(totals, front);
        assert forall|i: int| 0 <= i < n implies front[i] == counted[i] by {}
        merge_sets_each_path(totals, front);
        assert(counted[n] == last);
        assert forall|p: Seq<char>| #[trigger]
            merged.dom().contains(p) <==> (totals.dom().contains(p) || exists|j: int|
                0 <= j < counted.len() && (#[trigger] counted[j]).0 == p) by {
            if merged.dom().contains(p) && !totals.dom().contains(p) {
                if before.dom().contains(p) {
                    let j = choose|j: int| 0 <= j < front.len() && (#[trigger] front[j]).0 == p;
                    assert(counted[j].0 == p);
                } else {
                    assert(counted[n].0 == p);
                }
            }
            if exists|j: int| 0 <= j < counted.len() && (#[trigger] counted[j]).0 == p {
                let j = choose|j: int| 0 <= j < counted.len() && (#[trigger] counted[j]).0 == p;
                if j < n {
                    assert(front[j].0 == p);
                    assert(before.dom().contains(p));
                }
            }
        }
        assert forall|j: int| 0 <= j < counted.len() implies merged[(#[trigger] counted[j]).0]
            == contributed(counted[j]) by {
            if j < n {
                assert(front[j] == counted[j]);
                assert(before[front[j].0] == contributed(front[j]));
                assert(counted[j].0 != counted[n].0);
            }
        }
        assert forall|p: Seq<char>|
            totals.dom().contains(p) && !(exists|j: int|
                0 <= j < counted.len() && (#[trigger] counted[j]).0 == p) implies #[trigger] merged[p]
            == totals[p] by {
            assert(counted[n].0 != p);
            assert forall|j: int| 0 <= j < front.len() implies (#[trigger] front[j]).0 != p by {
                assert(counted[j].0 == front[j].0);
            }
            assert(before[p] == totals[p]);
        }
    }
}

/// Where asking for the file of `probe` alone is answered from the cache, the
/// totals hold that answer under the file's path.
pub open spec fn answered_alike(
    entries: Seq<EntryModel>,
    probe: ProbeModel,
    totals: Map<Seq<char>, usize>,
) -> bool {
    match probe.1 {
        Some(seconds) => match first_step(entries, probe.0, true, Ok(seconds)) {
            CountStepModel::Done(Ok(count)) => totals[probe.0] == count,
            _ => true,
        },
        None => true,
    }
}

/// Batch aggregation: for a batch of files with different paths, the result
/// holds exactly the paths of the batch, as many as there are files. A file
/// that the cache answers stands with the count that asking for it alone would
/// give; a file that had to be read stands with what its counting gave, zero
/// where that failed.
pub proof fn batch_agrees_with_single_counts(
    entries: Seq<EntryModel>,
    probes: Seq<ProbeModel>,
    counted: Seq<CountedModel>,
)
    requires
        distinct_keys(entries),
        distinct_paths(probes),
        answers(counted, planned_misses(entries, probes)),
    ensures
        merged_totals(planned_hits(entries, probes), counted).dom() == probe_paths(probes).to_set(),
        merged_totals(planned_hits(entries, probes), counted).dom().finite(),
        merged_totals(planned_hits(entries, probes), counted).dom().len() == probes.len(),
        forall|i: int|
            0 <= i < probes.len() ==> answered_alike(
                entries,
                #[trigger] probes[i],
                merged_totals(planned_hits(entries, probes), counted),
            ),
        forall|j: int|
            0 <= j < counted.len() ==> merged_totals(planned_hits(entries, probes), counted)[(
            #[trigger] counted[j]).0] == contributed(counted[j]),
{
    let hits = planned_hits(entries, probes);
    let misses = planned_misses(entries, probes);
    let totals = merged_totals(hits, counted);
    let paths = probe_paths(probes);
    plan_divides_batch(entries, probes);
    assert(distinct_counted(counted)) by {
        assert forall|a: int, b: int| 0 <= a < b < counted.len() implies (#[trigger] counted[a]).0
            != (#[trigger] counted[b]).0 by {
            assert(misses[a].0 != misses[b].0);
        }
    }
    merge_sets_each_path(hits, counted);
    assert forall|p: Seq<char>| totals.dom().contains(p) <==> paths.to_set().contains(p) by {
        if totals.dom().contains(p) {
            if hits.dom().contains(p) {
                let i = choose|i: int|
                    0 <= i < probes.len() && (#[trigger] probes[i]).0 == p && cached_for(
                        entries,
                        probes[i],
                    ) is Some;
                assert(paths[i] == p);
            } else {
                let j = choose|j: int| 0 <= j < counted.len() && (#[trigger] counted[j]).0 == p;
                assert(misses.contains(misses[j]));
                let i = choose|i: int|
                    0 <= i < probes.len() && #[trigger] probes[i] == misses[j] && cached_for(
                        entries,
                        probes[i],
                    ) is None;
                assert(paths[i] == p);
            }
        }
        if paths.to_set().contains(p) {
            let i = choose|i: int| 0 <= i < paths.len() && paths[i] == p;
            assert(probes[i].0 == p);
            if cached_for(entries, probes[i]) is None {
                assert(misses.contains(probes[i]));
                let k = choose|k: int| 0 <= k < misses.len() && misses[k] == probes[i];
                assert(counted[k].0 == p);
            }
        }
    }
    assert(totals.dom() =~= paths.to_set());
    assert(paths.no_duplicates()) by {
        assert forall|a: int, b: int|
            0 <= a < paths.len() && 0 <= b < paths.len() && a != b implies paths[a] != paths[b] by {
            if a < b {
                assert(probes[a].0 != probes[b].0);
            } else {
                assert(probes[b].0 != probes[a].0);
            }
        }
    }
    paths.unique_seq_to_set();
    vstd::seq_lib::seq_to_set_is_finite(paths);
    assert forall|i: int| 0 <= i < probes.len() implies answered_alike(
        entries,
        #[trigger] probes[i],
        totals,
    ) by {
        if cached_for(entries, probes[i]) is Some {
        let count = cached_for(entries, probes[i])->0;
        assert(hits[probes[i].0] == count);
        if exists|j: int| 0 <= j < counted.len() && (#[trigger] counted[j]).0 == probes[i].0 {
            let j = choose|j: int| 0 <= j < counted.len() && (#[trigger] counted[j]).0 == probes[i].0;
            assert(misses.contains(misses[j]));
            let k = choose|k: int|
                0 <= k < probes.len() && #[trigger] probes[k] == misses[j] && cached_for(
                    entries,
                    probes[k],
                ) is None;
            if k < i {
                assert(probes[k].0 != probes[i].0);
            }
            if i < k {
                assert(probes[i].0 != probes[k].0);
            }
        }
        assert(hits.dom().contains(probes[i].0));
        }
    }
}

} // verus!
