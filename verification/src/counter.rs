use crate::binary::{is_likely_binary_file, looks_binary};
use crate::cache::{
    check_cache, fresh_count, promoted, put_front, update_cache, EntryModel, TokenCache,
};
use crate::tokenizer::{
    content_tokens, count_model, tokenizer_available, tokenizer_known, tokens_of_content,
    TokenError, TokenErrorModel, TOKENIZER_MODEL,
};
use crate::totals::TokenTotals;
use vstd::prelude::*;

verus! {

/// What was seen of a file before its content is read.
#[derive(Debug)]
pub struct FileStat {
    /// Whether the path exists and names a regular file.
    pub is_file: bool,
    /// The modification time in seconds, or why it could not be read.
    pub modified: Result<u64, String>,
}

/// What is to happen next with a file whose tokens are asked for.
#[derive(Debug)]
pub enum CountStep {
    /// The answer is known; nothing is to be read.
    Done(Result<usize, TokenError>),
    /// The content is to be read, and counted as of this modification time.
    ReadContent(u64),
    /// The modification time is unknown, for the reason given: the content is
    /// to be read, and only binary or unreadable content has a count.
    ReadUntimed(String),
}

/// The mathematical value of a [`CountStep`].
pub enum CountStepModel {
    Done(Result<usize, TokenErrorModel>),
    ReadContent(u64),
    ReadUntimed(Seq<char>),
}

impl View for CountStep {
    type V = CountStepModel;

    open spec fn view(&self) -> CountStepModel {
        match *self {
            CountStep::Done(outcome) => CountStepModel::Done(count_model(outcome)),
            CountStep::ReadContent(modified) => CountStepModel::ReadContent(modified),
            CountStep::ReadUntimed(message) => CountStepModel::ReadUntimed(message@),
        }
    }
}

/// The next step for a file, given the cache and what was seen of the file: an
/// error where the file is missing; the cached count where it is fresh; else
/// the content is to be read, also where the modification time is unknown.
pub open spec fn first_step(
    entries: Seq<EntryModel>,
    path: Seq<char>,
    is_file: bool,
    modified: Result<u64, Seq<char>>,
) -> CountStepModel {
    if !is_file {
        CountStepModel::Done(Err(TokenErrorModel::FileMissing))
    } else {
        match modified {
            Err(message) => CountStepModel::ReadUntimed(message),
            Ok(seconds) => match fresh_count(entries, path, seconds) {
                Some(count) => CountStepModel::Done(Ok(count)),
                None => CountStepModel::ReadContent(seconds),
            },
        }
    }
}

/// The cache after the first step: the file's entry was used if the cache was
/// asked, which is when the file exists and its modification time is known.
pub open spec fn entries_after_first_step(
    entries: Seq<EntryModel>,
    path: Seq<char>,
    is_file: bool,
    modified: Result<u64, Seq<char>>,
) -> Seq<EntryModel> {
    if is_file && modified is Ok {
        promoted(entries, path)
    } else {
        entries
    }
}

/// The model of a modification time that may be unknown.
pub open spec fn modified_model(modified: Result<u64, String>) -> Result<u64, Seq<char>> {
    match modified {
        Ok(seconds) => Ok(seconds),
        Err(message) => Err(message@),
    }
}

/// Starts counting the tokens of the file at `file_path`, given what was seen of
/// it. Answers from the cache where the cached count was computed at the
/// file's present modification time, and only otherwise asks for the content.
pub fn calculate_file_tokens(file_path: &str, stat: FileStat, cache: &mut TokenCache) -> (step:
    CountStep)
    ensures
        step@ == first_step(
            old(cache).entries(),
            file_path@,
            stat.is_file,
            modified_model(stat.modified),
        ),
        final(cache).entries() == entries_after_first_step(
            old(cache).entries(),
            file_path@,
            stat.is_file,
            modified_model(stat.modified),
        ),
        final(cache).capacity() == old(cache).capacity(),
{
    if !stat.is_file {
        return CountStep::Done(Err(TokenError::FileMissing));
    }
    match stat.modified {
        Err(message) => CountStep::ReadUntimed(message),
        Ok(seconds) => match check_cache(file_path, seconds, cache) {
            Some(count) => CountStep::Done(Ok(count)),
            None => CountStep::ReadContent(seconds),
        },
    }
}

/// The model of a file's content that may have failed to be read.
pub open spec fn content_model(content: Result<Vec<u8>, String>) -> Result<Seq<u8>, Seq<char>> {
    match content {
        Ok(bytes) => Ok(bytes@),
        Err(message) => Err(message@),
    }
}

/// The count of a file whose content was asked for: zero where the content
/// could not be read, else the count of the content.
pub open spec fn measured(content: Result<Seq<u8>, Seq<char>>) -> Result<usize, TokenErrorModel> {
    match content {
        Ok(bytes) => content_tokens(bytes),
        Err(_) => Ok(0usize),
    }
}

/// Counts the tokens of a file from the outcome of reading it. A file that
/// cannot be read counts as zero tokens.
pub fn measure_content(content: Result<Vec<u8>, String>) -> (outcome: Result<usize, TokenError>)
    ensures
        count_model(outcome) == measured(content_model(content)),
{
    match content {
        Ok(bytes) => tokens_of_content(bytes),
        Err(_) => Ok(0),
    }
}

/// The count of a file whose modification time is unknown for the reason
/// `message`: zero for content that is binary or could not be read; for other
/// content there is none, and the reason is the error.
pub open spec fn untimed_count(content: Result<Seq<u8>, Seq<char>>, message: Seq<char>) -> Result<
    usize,
    TokenErrorModel,
> {
    match content {
        Ok(bytes) => if looks_binary(bytes) {
            Ok(0usize)
        } else {
            Err(TokenErrorModel::Metadata(message))
        },
        Err(_) => Ok(0usize),
    }
}

/// Finishes counting a file whose modification time is unknown, from the
/// outcome of reading it. Nothing is stored, since there is no time to store
/// it with.
pub fn complete_untimed_file_tokens(message: String, content: Result<Vec<u8>, String>) -> (outcome:
    Result<usize, TokenError>)
    ensures
        count_model(outcome) == untimed_count(content_model(content), message@),
{
    match content {
        Ok(bytes) => if is_likely_binary_file(bytes.as_slice()) {
            Ok(0)
        } else {
            Err(TokenError::Metadata(message))
        },
        Err(_) => Ok(0),
    }
}

/// The cache after a file was counted: a count is stored with the modification
/// time that it belongs to; a failure changes nothing.
pub open spec fn entries_after_count(
    entries: Seq<EntryModel>,
    capacity: nat,
    path: Seq<char>,
    modified: u64,
    outcome: Result<usize, TokenErrorModel>,
) -> Seq<EntryModel> {
    match outcome {
        Ok(count) => put_front(entries, capacity, path, (modified, count)),
        Err(_) => entries,
    }
}

/// What [`record_file_count`] hands back: the outcome, and whether the cache
/// changed and is to be written out.
#[derive(Debug)]
pub struct Recorded {
    pub outcome: Result<usize, TokenError>,
    pub flush: bool,
}

/// Records the outcome of counting the file at `file_path`, whose content was
/// read as of `modified`: a count goes into the cache, which is then to be
/// written out; a failure leaves the cache as it is. The outcome is handed on.
pub fn record_file_count(
    file_path: String,
    modified: u64,
    outcome: Result<usize, TokenError>,
    cache: &mut TokenCache,
) -> (recorded: Recorded)
    ensures
        recorded.outcome == outcome,
        recorded.flush == (outcome is Ok),
        final(cache).entries() == entries_after_count(
            old(cache).entries(),
            old(cache).capacity(),
            file_path@,
            modified,
            count_model(outcome),
        ),
        final(cache).capacity() == old(cache).capacity(),
{
    match outcome {
        Ok(count) => {
            update_cache(file_path, modified, count, cache);
            Recorded { outcome: Ok(count), flush: true }
        },
        Err(error) => Recorded { outcome: Err(error), flush: false },
    }
}

/// Finishes counting the file at `file_path` from the outcome of reading it:
/// counts the content and records the count.
pub fn complete_file_tokens(
    file_path: String,
    modified: u64,
    content: Result<Vec<u8>, String>,
    cache: &mut TokenCache,
) -> (recorded: Recorded)
    ensures
        count_model(recorded.outcome) == measured(content_model(content)),
        recorded.flush == (measured(content_model(content)) is Ok),
        final(cache).entries() == entries_after_count(
            old(cache).entries(),
            old(cache).capacity(),
            file_path@,
            modified,
            measured(content_model(content)),
        ),
        final(cache).capacity() == old(cache).capacity(),
{
    let outcome = measure_content(content);
    record_file_count(file_path, modified, outcome, cache)
}

/// A file of a batch: its path and its modification time, where that is known.
#[derive(Debug)]
pub struct FileProbe {
    pub path: String,
    pub modified: Option<u64>,
}

/// The mathematical value of a [`FileProbe`].
pub type ProbeModel = (Seq<char>, Option<u64>);

impl View for FileProbe {
    type V = ProbeModel;

    open spec fn view(&self) -> ProbeModel {
        (self.path@, self.modified)
    }
}

/// The models of a sequence of probes, in order.
pub open spec fn probe_models(probes: Seq<FileProbe>) -> Seq<ProbeModel> {
    Seq::new(probes.len(), |i: int| probes[i]@)
}

/// The cached count that answers a probe: none where the modification time is
/// unknown, else the count that is fresh at that time.
pub open spec fn cached_for(entries: Seq<EntryModel>, probe: ProbeModel) -> Option<usize> {
    match probe.1 {
        Some(seconds) => fresh_count(entries, probe.0, seconds),
        None => None,
    }
}

/// The cache after it was asked about a probe.
pub open spec fn entries_after_probe(entries: Seq<EntryModel>, probe: ProbeModel) -> Seq<EntryModel> {
    match probe.1 {
        Some(_) => promoted(entries, probe.0),
        None => entries,
    }
}

/// The cache after it was asked about each probe in turn.
pub open spec fn planned_entries(entries: Seq<EntryModel>, probes: Seq<ProbeModel>) -> Seq<EntryModel>
    decreases probes.len(),
{
    if probes.len() == 0 {
        entries
    } else {
        entries_after_probe(planned_entries(entries, probes.drop_last()), probes.last())
    }
}

/// The counts that the cache answers: for each probe with a fresh cached count,
/// its path with that count.
pub open spec fn planned_hits(entries: Seq<EntryModel>, probes: Seq<ProbeModel>) -> Map<Seq<char>, usize>
    decreases probes.len(),
{
    if probes.len() == 0 {
        Map::empty()
    } else {
        let before = planned_hits(entries, probes.drop_last());
        match cached_for(planned_entries(entries, probes.drop_last()), probes.last()) {
            Some(count) => before.insert(probes.last().0, count),
            None => before,
        }
    }
}

/// The probes that the cache does not answer, in their order.
pub open spec fn planned_misses(entries: Seq<EntryModel>, probes: Seq<ProbeModel>) -> Seq<ProbeModel>
    decreases probes.len(),
{
    if probes.len() == 0 {
        Seq::empty()
    } else {
        let before = planned_misses(entries, probes.drop_last());
        match cached_for(planned_entries(entries, probes.drop_last()), probes.last()) {
            Some(_) => before,
            None => before.push(probes.last()),
        }
    }
}

/// A batch divided: the counts that the cache answered, and the files that are
/// still to be read and counted.
pub struct BatchPlan {
    pub resolved: TokenTotals,
    pub pending: Vec<FileProbe>,
}

/// Divides a batch into the files that the cache answers and those that have to
/// be read. A file whose modification time is unknown always has to be read.
pub fn plan_batch(probes: Vec<FileProbe>, cache: &mut TokenCache) -> (plan: BatchPlan)
    ensures
        plan.resolved@ == planned_hits(old(cache).entries(), probe_models(probes@)),
        probe_models(plan.pending@) == planned_misses(old(cache).entries(), probe_models(probes@)),
        final(cache).entries() == planned_entries(old(cache).entries(), probe_models(probes@)),
        final(cache).capacity() == old(cache).capacity(),
{
    let ghost start = cache.entries();
    let ghost all = probe_models(probes@);
    let mut resolved = TokenTotals::new();
    let mut pending: Vec<FileProbe> = Vec::new();
    let mut i: usize = 0;
    while i < probes.len()
        invariant
            i <= probes.len(),
            all == probe_models(probes@),
            cache.capacity() == old(cache).capacity(),
            cache.entries() == planned_entries(start, all.take(i as int)),
            resolved@ == planned_hits(start, all.take(i as int)),
            probe_models(pending@) == planned_misses(start, all.take(i as int)),
        decreases probes.len() - i,
    {
        let probe = &probes[i];
        proof {
            assert(all.take(i + 1).drop_last() =~= all.take(i as int));
            assert(all.take(i + 1).last() == probe@);
        }
        let cached = match probe.modified {
            Some(seconds) => check_cache(probe.path.as_str(), seconds, cache),
            None => None,
        };
        match cached {
            Some(count) => {
                resolved.insert(probe.path.clone(), count);
            },
            None => {
                let ghost before = probe_models(pending@);
                pending.push(FileProbe { path: probe.path.clone(), modified: probe.modified });
                assert(probe_models(pending@) =~= before.push(probe@));
            },
        }
        i += 1;
    }
    assert(all.take(probes.len() as int) =~= all);
    BatchPlan { resolved, pending }
}

/// Starts a batch: fails where no tokenizer is available, and otherwise divides
/// the batch as [`plan_batch`] does.
pub fn calculate_tokens_for_files(probes: Vec<FileProbe>, cache: &mut TokenCache) -> (planned:
    Result<BatchPlan, TokenError>)
    ensures
        planned is Ok <==> tokenizer_known(TOKENIZER_MODEL@),
        planned matches Err(error) ==> error@ == TokenErrorModel::TokenizerUnavailable
            && final(cache).entries() == old(cache).entries(),
        planned matches Ok(plan) ==> {
            &&& plan.resolved@ == planned_hits(old(cache).entries(), probe_models(probes@))
            &&& probe_models(plan.pending@) == planned_misses(
                old(cache).entries(),
                probe_models(probes@),
            )
            &&& final(cache).entries() == planned_entries(
                old(cache).entries(),
                probe_models(probes@),
            )
        },
        final(cache).capacity() == old(cache).capacity(),
{
    if !tokenizer_available() {
        Err(TokenError::TokenizerUnavailable)
    } else {
        Ok(plan_batch(probes, cache))
    }
}

/// A file of a batch after it was read and counted.
#[derive(Debug)]
pub struct CountedFile {
    pub path: String,
    pub modified: Option<u64>,
    pub outcome: Result<usize, TokenError>,
}

/// The mathematical value of a [`CountedFile`]: the path, the modification time
/// where known, and the count where counting succeeded.
pub type CountedModel = (Seq<char>, Option<u64>, Option<usize>);

impl View for CountedFile {
    type V = CountedModel;

    open spec fn view(&self) -> CountedModel {
        (
            self.path@,
            self.modified,
            match self.outcome {
                Ok(count) => Some(count),
                Err(_) => None,
            },
        )
    }
}

/// The models of a sequence of counted files, in order.
pub open spec fn counted_models(counted: Seq<CountedFile>) -> Seq<CountedModel> {
    Seq::new(counted.len(), |i: int| counted[i]@)
}

/// The number that a counted file contributes: its count, or zero where
/// counting failed.
pub open spec fn contributed(file: CountedModel) -> usize {
    match file.2 {
        Some(count) => count,
        None => 0usize,
    }
}

/// Whether a counted file goes into the cache: it does if it was counted and
/// its modification time is known.
pub open spec fn storable(file: CountedModel) -> bool {
    file.1 is Some && file.2 is Some
}

/// The totals after the counted files were merged in, each under its path, a
/// later file replacing an earlier one of the same path.
pub open spec fn merged_totals(totals: Map<Seq<char>, usize>, counted: Seq<CountedModel>) -> Map<
    Seq<char>,
    usize,
>
    decreases counted.len(),
{
    if counted.len() == 0 {
        totals
    } else {
        merged_totals(totals, counted.drop_last()).insert(
            counted.last().0,
            contributed(counted.last()),
        )
    }
}

/// The cache after the counted files were merged in.
pub open spec fn merged_entries(
    entries: Seq<EntryModel>,
    capacity: nat,
    counted: Seq<CountedModel>,
) -> Seq<EntryModel>
    decreases counted.len(),
{
    if counted.len() == 0 {
        entries
    } else {
        let before = merged_entries(entries, capacity, counted.drop_last());
        let file = counted.last();
        if storable(file) {
            put_front(before, capacity, file.0, (file.1->0, file.2->0))
        } else {
            before
        }
    }
}

/// Whether any of the counted files goes into the cache.
pub open spec fn any_storable(counted: Seq<CountedModel>) -> bool {
    exists|i: int| 0 <= i < counted.len() && storable(#[trigger] counted[i])
}

/// The result of a batch: the token count of each path, and whether the cache
/// changed and is to be written out.
pub struct BatchTotals {
    pub totals: TokenTotals,
    pub flush: bool,
}

/// Finishes a batch: merges the counted files into the counts that the cache
/// answered and into the cache. A file that could not be counted stands with
/// zero tokens; a file whose modification time is unknown is not cached.
pub fn complete_tokens_for_files(
    resolved: TokenTotals,
    counted: Vec<CountedFile>,
    cache: &mut TokenCache,
) -> (result: BatchTotals)
    ensures
        result.totals@ == merged_totals(resolved@, counted_models(counted@)),
        result.flush == any_storable(counted_models(counted@)),
        final(cache).entries() == merged_entries(
            old(cache).entries(),
            old(cache).capacity(),
            counted_models(counted@),
        ),
        final(cache).capacity() == old(cache).capacity(),
{
    let ghost start = cache.entries();
    let ghost capacity = cache.capacity();
    let ghost all = counted_models(counted@);
    let ghost base = resolved@;
    let mut totals = resolved;
    let mut flush = false;
    let mut i: usize = 0;
    while i < counted.len()
        invariant
            i <= counted.len(),
            all == counted_models(counted@),
            cache.capacity() == capacity,
            cache.entries() == merged_entries(start, capacity, all.take(i as int)),
            totals@ == merged_totals(base, all.take(i as int)),
            flush == any_storable(all.take(i as int)),
        decreases counted.len() - i,
    {
        let file = &counted[i];
        proof {
            let grown = all.take(i + 1);
            assert(grown.drop_last() =~= all.take(i as int));
            assert(grown.last() == file@);
            if any_storable(all.take(i as int)) {
                let k = choose|k: int|
                    0 <= k < all.take(i as int).len() && storable(#[trigger] all.take(i as int)[k]);
                assert(storable(grown[k]));
            }
            if any_storable(grown) {
                let k = choose|k: int| 0 <= k < grown.len() && storable(#[trigger] grown[k]);
                if k < i {
                    assert(storable(all.take(i as int)[k]));
                }
            }
            if storable(file@) {
                assert(storable(grown[i as int]));
            }
        }
        match &file.outcome {
            Ok(count) => {
                totals.insert(file.path.clone(), *count);
                match file.modified {
                    Some(seconds) => {
                        update_cache(file.path.clone(), seconds, *count, cache);
                        flush = true;
                    },
                    None => {},
                }
            },
            Err(_) => {
                totals.insert(file.path.clone(), 0);
            },
        }
        i += 1;
    }
    assert(all.take(counted.len() as int) =~= all);
    BatchTotals { totals, flush }
}

} // verus!
