use shorty::cache::CacheRepository;
use shorty::service::{ShortenError, UrlService};
use shorty::store::{StoreError, UrlRepository};

fn fresh_service() -> UrlService {
    UrlService::new(UrlRepository::new(), CacheRepository::new())
}

#[test]
fn shorten_then_resolve_returns_the_long_url() {
    let mut svc = fresh_service();
    let code = svc
        .shorten("https://example.com/some/long/path", Some(7), 0)
        .expect("shorten should succeed on a fresh store");
    let (url, _task) = svc.resolve(code.as_str(), 0);
    assert_eq!(url.as_deref(), Some("https://example.com/some/long/path"));
}

#[test]
fn shorten_returns_an_eight_character_url_safe_code() {
    let mut svc = fresh_service();
    let code = svc.shorten("https://example.com", None, 0).unwrap();
    assert_eq!(code.chars().count(), 8);
    for c in code.chars() {
        assert!(
            c == '_' || c == '-' || c.is_ascii_alphanumeric(),
            "unexpected character {:?} in short code",
            c
        );
    }
}

#[test]
fn distinct_codes_for_distinct_requests() {
    let mut svc = fresh_service();
    let a = svc.shorten("https://example.com/a", Some(1), 0).unwrap();
    let b = svc.shorten("https://example.com/b", Some(1), 0).unwrap();
    assert_ne!(a, b);
}

#[test]
fn duplicate_code_is_rejected_and_changes_nothing() {
    let mut svc = fresh_service();
    svc.shorten_with_code("abcd1234", "https://first.example", Some(1), 0)
        .expect("fresh code should insert");
    let second = svc.shorten_with_code("abcd1234", "https://second.example", Some(2), 0);
    assert!(matches!(second, Err(StoreError::DuplicateCode)));
    let (url, _task) = svc.resolve("abcd1234", 0);
    assert_eq!(url.as_deref(), Some("https://first.example"));
}

#[test]
fn resolving_a_code_never_created_returns_not_found_without_side_effects() {
    let mut svc = fresh_service();
    svc.shorten_with_code("known001", "https://example.com", Some(5), 0)
        .unwrap();
    let (url, task) = svc.resolve("unknown0", 0);
    assert!(url.is_none());
    assert!(task.is_none());
    // The store is untouched: the known record still has no clicks.
    let listing = svc.get_user_urls(5, 0);
    assert_eq!(listing.len(), 1);
    assert_eq!(listing[0].clicks, 0);
}

#[test]
fn cache_miss_backfills_so_the_next_resolve_hits() {
    let mut svc = fresh_service();
    svc.shorten_with_code("codeAAAA", "https://example.com/x", None, 0)
        .unwrap();
    // Past the link TTL the write-through entry has expired: a resolve
    // now takes the miss path (no deferred task) and backfills.
    let (url, task) = svc.resolve("codeAAAA", 4000);
    assert_eq!(url.as_deref(), Some("https://example.com/x"));
    assert!(task.is_none(), "an expired entry must read as a miss");
    // The immediately subsequent resolve is a hit: it answers from the
    // cache and hands the click back as a deferred task.
    let (url, task) = svc.resolve("codeAAAA", 4001);
    assert_eq!(url.as_deref(), Some("https://example.com/x"));
    assert!(task.is_some(), "the backfilled entry must read as a hit");
    assert_eq!(task.unwrap().short_code, "codeAAAA");
}

#[test]
fn a_click_invalidates_the_owners_cached_listing() {
    let mut svc = fresh_service();
    svc.shorten_with_code("mine0001", "https://example.com/mine", Some(42), 0)
        .unwrap();
    // Prime the owner-listing cache: zero clicks.
    let before = svc.get_user_urls(42, 10);
    assert_eq!(before.len(), 1);
    assert_eq!(before[0].clicks, 0);
    // A resolve hits the write-through link entry and defers the click;
    // running the deferred task records it and drops the snapshot.
    let (_url, task) = svc.resolve("mine0001", 20);
    let task = task.expect("write-through entry should be a hit");
    svc.run_click_task(&task);
    // Well inside the five-minute snapshot TTL, the listing must already
    // show the click: the stale snapshot was evicted, not waited out.
    let after = svc.get_user_urls(42, 30);
    assert_eq!(after.len(), 1);
    assert_eq!(after[0].clicks, 1);
}

#[test]
fn clicks_accumulate_at_least_once_and_never_decrease() {
    let mut svc = fresh_service();
    svc.shorten_with_code("clicky00", "https://example.com/c", Some(9), 0)
        .unwrap();
    let mut last = 0u64;
    for round in 0..5u64 {
        let (_url, task) = svc.resolve("clicky00", round);
        if let Some(task) = task {
            svc.run_click_task(&task);
        }
        let listing = svc.get_user_urls(9, round);
        assert!(listing[0].clicks >= last, "click counter must never decrease");
        assert_eq!(listing[0].clicks, last + 1, "each resolve records exactly one click");
        last = listing[0].clicks;
    }
}

#[test]
fn three_resolves_of_one_code_leave_the_other_untouched() {
    let mut svc = fresh_service();
    let a = svc.shorten("https://x", Some(77), 0).unwrap();
    let b = svc.shorten("https://y", Some(77), 0).unwrap();
    // Three resolves of A; deferred clicks are all run to convergence.
    let mut tasks = Vec::new();
    for _ in 0..3 {
        let (url, task) = svc.resolve(a.as_str(), 1);
        assert_eq!(url.as_deref(), Some("https://x"));
        if let Some(t) = task {
            tasks.push(t);
        }
    }
    for t in &tasks {
        svc.run_click_task(t);
    }
    let listing = svc.get_user_urls(77, 2);
    assert_eq!(listing.len(), 2);
    // Newest first: B was created after A.
    assert_eq!(listing[0].short_code, b);
    assert_eq!(listing[0].long_url, "https://y");
    assert_eq!(listing[0].clicks, 0);
    assert_eq!(listing[1].short_code, a);
    assert_eq!(listing[1].long_url, "https://x");
    assert_eq!(listing[1].clicks, 3);
}

#[test]
fn owner_listing_is_served_from_cache_within_its_ttl() {
    let mut svc = fresh_service();
    svc.shorten_with_code("list0001", "https://example.com/1", Some(3), 0)
        .unwrap();
    let first = svc.get_user_urls(3, 0);
    let second = svc.get_user_urls(3, 100);
    assert_eq!(first.len(), second.len());
    assert_eq!(first[0].short_code, second[0].short_code);
    assert_eq!(first[0].clicks, second[0].clicks);
}

#[test]
fn listings_are_scoped_to_their_owner() {
    let mut svc = fresh_service();
    svc.shorten_with_code("owner1aa", "https://example.com/1", Some(1), 0)
        .unwrap();
    svc.shorten_with_code("owner2aa", "https://example.com/2", Some(2), 0)
        .unwrap();
    svc.shorten_with_code("nobody00", "https://example.com/3", None, 0)
        .unwrap();
    let one = svc.get_user_urls(1, 0);
    let two = svc.get_user_urls(2, 0);
    let three = svc.get_user_urls(3, 0);
    assert_eq!(one.len(), 1);
    assert_eq!(one[0].short_code, "owner1aa");
    assert_eq!(two.len(), 1);
    assert_eq!(two[0].short_code, "owner2aa");
    assert!(three.is_empty());
}

#[test]
fn repository_increment_reports_a_missing_code() {
    let mut repo = UrlRepository::new();
    assert!(matches!(
        repo.increment_clicks("missing0"),
        Err(StoreError::NotFound)
    ));
    repo.store("present0", "https://example.com", None).unwrap();
    assert!(repo.increment_clicks("present0").is_ok());
    assert_eq!(repo.fetch("present0").as_deref(), Some("https://example.com"));
    assert!(repo.fetch("missing0").is_none());
}

#[test]
fn a_link_entry_lives_until_its_expiry_instant_and_no_longer() {
    let mut svc = fresh_service();
    // The write-through entry of the create lives for an hour.
    svc.shorten_with_code("ttl00001", "https://example.com/t", None, 0)
        .unwrap();
    // One second before expiry the entry still answers: a hit hands the
    // click back as a task.
    let (_url, task) = svc.resolve("ttl00001", 3599);
    assert!(task.is_some());
    // At the expiry instant the entry reads as a miss.
    let (_url, task) = svc.resolve("ttl00001", 7200);
    assert!(task.is_none());
}

#[test]
fn a_cached_listing_may_lag_a_create_until_its_ttl_passes() {
    let mut svc = fresh_service();
    let first = svc.shorten("https://example.com/1", Some(8), 0).unwrap();
    // Prime the owner's snapshot, then create a second URL: a create
    // does not touch the snapshot, only a click does.
    svc.get_user_urls(8, 0);
    let second = svc.shorten("https://example.com/2", Some(8), 10).unwrap();
    // Within the snapshot's five minutes the listing may still lag …
    let lagging = svc.get_user_urls(8, 100);
    assert_eq!(lagging.len(), 1);
    assert_eq!(lagging[0].short_code, first);
    // … but click counts it shows are always current, and once the
    // snapshot expires the listing is complete again, newest first.
    let fresh = svc.get_user_urls(8, 400);
    assert_eq!(fresh.len(), 2);
    assert_eq!(fresh[0].short_code, second);
    assert_eq!(fresh[1].short_code, first);
}

#[test]
fn total_clicks_adds_up_a_listing() {
    let mut svc = fresh_service();
    svc.shorten_with_code("sum00001", "https://example.com/1", Some(6), 0)
        .unwrap();
    svc.shorten_with_code("sum00002", "https://example.com/2", Some(6), 0)
        .unwrap();
    // Two clicks on the first record, one on the second, all on the
    // miss path so they are recorded synchronously.
    svc.resolve("sum00001", 4000);
    svc.resolve("sum00001", 8000);
    svc.resolve("sum00002", 4000);
    let listing = svc.get_user_urls(6, 9000);
    assert_eq!(shorty::models::total_clicks(&listing), 3);
}

#[test]
fn shorten_error_is_the_exhaustion_variant() {
    // The only way shorten fails is by exhausting its attempts; the
    // variant exists and is comparable for callers that match on it.
    assert_eq!(
        ShortenError::AttemptsExhausted,
        ShortenError::AttemptsExhausted
    );
}
