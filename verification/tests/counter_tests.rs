use reposnap::cache::{check_cache, save_cache, update_cache, TokenCache};
use reposnap::counter::{
    calculate_file_tokens, calculate_tokens_for_files, complete_file_tokens,
    complete_tokens_for_files, complete_untimed_file_tokens, measure_content, plan_batch,
    record_file_count, CountStep, CountedFile, FileProbe, FileStat,
};
use reposnap::tokenizer::TokenError;
use reposnap::totals::TokenTotals;

fn seen(modified: u64) -> FileStat {
    FileStat { is_file: true, modified: Ok(modified) }
}

fn probe(path: &str, modified: Option<u64>) -> FileProbe {
    FileProbe { path: path.to_string(), modified }
}

#[test]
fn missing_file_is_an_error() {
    let mut cache = TokenCache::new();
    let stat = FileStat { is_file: false, modified: Ok(1) };
    let step = calculate_file_tokens("/repo/a.txt", stat, &mut cache);
    assert!(matches!(step, CountStep::Done(Err(TokenError::FileMissing))));
}

#[test]
fn unknown_modification_time_asks_for_the_content() {
    let mut cache = TokenCache::new();
    update_cache("/repo/a.txt".to_string(), 1, 10, &mut cache);
    let stat = FileStat { is_file: true, modified: Err("no access".to_string()) };
    let step = calculate_file_tokens("/repo/a.txt", stat, &mut cache);
    match step {
        CountStep::ReadUntimed(message) => assert_eq!(message, "no access"),
        _ => panic!("expected a request for the content"),
    }
}

#[test]
fn binary_file_without_a_time_counts_as_zero() {
    let outcome = complete_untimed_file_tokens("no access".to_string(), Ok(b"ab\0cd".to_vec()));
    assert!(matches!(outcome, Ok(0)));
}

#[test]
fn unreadable_file_without_a_time_counts_as_zero() {
    let outcome = complete_untimed_file_tokens("no access".to_string(), Err("gone".to_string()));
    assert!(matches!(outcome, Ok(0)));
}

#[test]
fn text_file_without_a_time_is_an_error() {
    let outcome = complete_untimed_file_tokens("no access".to_string(), Ok(b"hello world".to_vec()));
    match outcome {
        Err(TokenError::Metadata(message)) => assert_eq!(message, "no access"),
        _ => panic!("expected a metadata error"),
    }
}

#[test]
fn binary_file_with_a_stale_entry_counts_as_zero() {
    let mut cache = TokenCache::new();
    update_cache("/repo/b.bin".to_string(), 1, 77, &mut cache);
    let step = calculate_file_tokens("/repo/b.bin", seen(2), &mut cache);
    assert!(matches!(step, CountStep::ReadContent(2)));
    let recorded =
        complete_file_tokens("/repo/b.bin".to_string(), 2, Ok(b"ab\0cd".to_vec()), &mut cache);
    assert!(matches!(recorded.outcome, Ok(0)));
    assert_eq!(check_cache("/repo/b.bin", 2, &mut cache), Some(0));
}

#[test]
fn empty_cache_asks_for_the_content() {
    let mut cache = TokenCache::new();
    let step = calculate_file_tokens("/repo/a.txt", seen(5), &mut cache);
    assert!(matches!(step, CountStep::ReadContent(5)));
}

#[test]
fn counted_file_is_answered_without_reading() {
    let mut cache = TokenCache::new();
    let step = calculate_file_tokens("/repo/a.txt", seen(5), &mut cache);
    assert!(matches!(step, CountStep::ReadContent(5)));
    let recorded =
        complete_file_tokens("/repo/a.txt".to_string(), 5, Ok(b"hello world".to_vec()), &mut cache);
    assert!(matches!(recorded.outcome, Ok(2)));
    assert!(recorded.flush);
    let again = calculate_file_tokens("/repo/a.txt", seen(5), &mut cache);
    assert!(matches!(again, CountStep::Done(Ok(2))));
    let third = calculate_file_tokens("/repo/a.txt", seen(5), &mut cache);
    assert!(matches!(third, CountStep::Done(Ok(2))));
}

#[test]
fn touched_file_is_read_again() {
    let mut cache = TokenCache::new();
    let recorded = record_file_count("/repo/a.txt".to_string(), 5, Ok(9), &mut cache);
    assert!(matches!(recorded.outcome, Ok(9)));
    let step = calculate_file_tokens("/repo/a.txt", seen(6), &mut cache);
    assert!(matches!(step, CountStep::ReadContent(6)));
    let recorded = record_file_count("/repo/a.txt".to_string(), 6, Ok(11), &mut cache);
    assert!(recorded.flush);
    assert!(matches!(calculate_file_tokens("/repo/a.txt", seen(6), &mut cache), CountStep::Done(Ok(11))));
    assert!(matches!(calculate_file_tokens("/repo/a.txt", seen(5), &mut cache), CountStep::ReadContent(5)));
}

#[test]
fn binary_file_is_recorded_as_zero() {
    let mut cache = TokenCache::new();
    let recorded =
        complete_file_tokens("/repo/b.bin".to_string(), 3, Ok(vec![1, 0, 2, 3]), &mut cache);
    assert!(matches!(recorded.outcome, Ok(0)));
    assert!(recorded.flush);
    assert_eq!(check_cache("/repo/b.bin", 3, &mut cache), Some(0));
}

#[test]
fn failed_read_counts_as_zero_and_is_cached() {
    let mut cache = TokenCache::new();
    let recorded =
        complete_file_tokens("/repo/a.txt".to_string(), 3, Err("gone".to_string()), &mut cache);
    assert!(matches!(recorded.outcome, Ok(0)));
    assert!(recorded.flush);
    assert_eq!(check_cache("/repo/a.txt", 3, &mut cache), Some(0));
}

#[test]
fn failed_count_is_handed_on_and_not_cached() {
    let mut cache = TokenCache::new();
    let recorded =
        record_file_count("/x".to_string(), 3, Err(TokenError::TokenizerFailed), &mut cache);
    assert!(matches!(recorded.outcome, Err(TokenError::TokenizerFailed)));
    assert!(!recorded.flush);
    assert!(save_cache(&cache).is_empty());
}

#[test]
fn measure_content_counts_text() {
    assert!(matches!(measure_content(Ok(b"hello world".to_vec())), Ok(2)));
    assert!(matches!(measure_content(Err("e".to_string())), Ok(0)));
    assert!(matches!(measure_content(Ok(vec![0xc3, 0x28, b'a', b'a', b'a', b'a', b'a', b'a', b'a', b'a', b'a'])), Err(TokenError::NotText)));
}

#[test]
fn plan_divides_hits_and_misses() {
    let mut cache = TokenCache::new();
    update_cache("/hit".to_string(), 1, 10, &mut cache);
    update_cache("/stale".to_string(), 1, 20, &mut cache);
    let probes = vec![
        probe("/hit", Some(1)),
        probe("/stale", Some(2)),
        probe("/new", Some(3)),
        probe("/unknown", None),
    ];
    let plan = plan_batch(probes, &mut cache);
    assert_eq!(plan.resolved.len(), 1);
    assert_eq!(plan.resolved.get("/hit"), Some(10));
    assert_eq!(plan.pending.len(), 3);
    assert_eq!(plan.pending[0].path, "/stale");
    assert_eq!(plan.pending[0].modified, Some(2));
    assert_eq!(plan.pending[1].path, "/new");
    assert_eq!(plan.pending[2].path, "/unknown");
    assert_eq!(plan.pending[2].modified, None);
}

#[test]
fn file_with_unknown_time_is_read_even_if_cached() {
    let mut cache = TokenCache::new();
    update_cache("/a".to_string(), 1, 10, &mut cache);
    let plan = plan_batch(vec![probe("/a", None)], &mut cache);
    assert_eq!(plan.resolved.len(), 0);
    assert_eq!(plan.pending.len(), 1);
}

#[test]
fn batch_starts_when_the_tokenizer_exists() {
    let mut cache = TokenCache::new();
    let planned = calculate_tokens_for_files(vec![probe("/a", Some(1))], &mut cache);
    assert!(planned.is_ok());
    assert_eq!(planned.ok().unwrap().pending.len(), 1);
}

#[test]
fn batch_has_one_entry_per_path() {
    let mut cache = TokenCache::new();
    update_cache("/hit".to_string(), 1, 10, &mut cache);
    let probes = vec![probe("/hit", Some(1)), probe("/miss", Some(2)), probe("/gone", Some(3)), probe("/timeless", None)];
    let plan = plan_batch(probes, &mut cache);
    let counted = vec![
        CountedFile { path: "/miss".to_string(), modified: Some(2), outcome: Ok(7) },
        CountedFile { path: "/gone".to_string(), modified: Some(3), outcome: Err(TokenError::Read("gone".to_string())) },
        CountedFile { path: "/timeless".to_string(), modified: None, outcome: Ok(4) },
    ];
    let result = complete_tokens_for_files(plan.resolved, counted, &mut cache);
    assert_eq!(result.totals.len(), 4);
    assert_eq!(result.totals.get("/hit"), Some(10));
    assert_eq!(result.totals.get("/miss"), Some(7));
    assert_eq!(result.totals.get("/gone"), Some(0));
    assert_eq!(result.totals.get("/timeless"), Some(4));
    assert_eq!(result.totals.get("/other"), None);
    assert!(result.flush);
    assert_eq!(check_cache("/miss", 2, &mut cache), Some(7));
    assert_eq!(check_cache("/gone", 3, &mut cache), None);
    assert_eq!(save_cache(&cache).len(), 2);
}

#[test]
fn batch_values_are_those_of_single_counts() {
    let mut single = TokenCache::new();
    let mut batch = TokenCache::new();
    update_cache("/hit".to_string(), 1, 10, &mut single);
    update_cache("/hit".to_string(), 1, 10, &mut batch);
    let content = b"hello world".to_vec();
    let one = match calculate_file_tokens("/hit", seen(1), &mut single) {
        CountStep::Done(Ok(n)) => n,
        _ => panic!("expected a hit"),
    };
    let two = match calculate_file_tokens("/miss", seen(2), &mut single) {
        CountStep::ReadContent(m) => {
            complete_file_tokens("/miss".to_string(), m, Ok(content.clone()), &mut single).outcome.ok().unwrap()
        }
        _ => panic!("expected a miss"),
    };
    let plan = plan_batch(vec![probe("/hit", Some(1)), probe("/miss", Some(2))], &mut batch);
    let counted = vec![CountedFile {
        path: "/miss".to_string(),
        modified: Some(2),
        outcome: measure_content(Ok(content)),
    }];
    let result = complete_tokens_for_files(plan.resolved, counted, &mut batch);
    assert_eq!(result.totals.len(), 2);
    assert_eq!(result.totals.get("/hit"), Some(one));
    assert_eq!(result.totals.get("/miss"), Some(two));
}

#[test]
fn batch_of_hits_needs_no_flush() {
    let mut cache = TokenCache::new();
    update_cache("/hit".to_string(), 1, 10, &mut cache);
    let plan = plan_batch(vec![probe("/hit", Some(1))], &mut cache);
    assert!(plan.pending.is_empty());
    let result = complete_tokens_for_files(plan.resolved, Vec::new(), &mut cache);
    assert!(!result.flush);
    assert_eq!(result.totals.len(), 1);
}

#[test]
fn batch_without_storable_counts_needs_no_flush() {
    let mut cache = TokenCache::new();
    let counted = vec![
        CountedFile { path: "/a".to_string(), modified: None, outcome: Ok(1) },
        CountedFile { path: "/b".to_string(), modified: Some(1), outcome: Err(TokenError::NotText) },
    ];
    let result = complete_tokens_for_files(TokenTotals::new(), counted, &mut cache);
    assert!(!result.flush);
    assert_eq!(result.totals.get("/a"), Some(1));
    assert_eq!(result.totals.get("/b"), Some(0));
    assert!(save_cache(&cache).is_empty());
}

#[test]
fn empty_batch_gives_empty_totals() {
    let mut cache = TokenCache::new();
    let plan = plan_batch(Vec::new(), &mut cache);
    let result = complete_tokens_for_files(plan.resolved, Vec::new(), &mut cache);
    assert_eq!(result.totals.len(), 0);
    assert!(result.totals.entries().is_empty());
}
