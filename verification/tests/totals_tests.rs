use reposnap::totals::TokenTotals;

#[test]
fn new_totals_are_empty() {
    let totals = TokenTotals::new();
    assert_eq!(totals.len(), 0);
    assert_eq!(totals.get("/a"), None);
    assert!(!totals.contains("/a"));
    assert!(totals.entries().is_empty());
}

#[test]
fn later_count_replaces_earlier() {
    let mut totals = TokenTotals::new();
    totals.insert("/a".to_string(), 1);
    totals.insert("/b".to_string(), 2);
    totals.insert("/a".to_string(), 3);
    assert_eq!(totals.len(), 2);
    assert_eq!(totals.get("/a"), Some(3));
    assert_eq!(totals.get("/b"), Some(2));
    assert!(totals.contains("/b"));
    let mut entries = totals.entries();
    entries.sort();
    assert_eq!(entries, vec![("/a".to_string(), 3), ("/b".to_string(), 2)]);
}
