use rushort::store::{rounded_shards, OpenError, ShortenError};
use rushort::{base62_encode, validate_url, Store};

#[test]
fn resolve_returns_right_url_per_shard() {
    let mut store = Store::with_shards(8);
    let mut codes = Vec::new();
    for i in 0..1_000 {
        codes.push((
            store.shorten(&format!("https://example.com/{i}")).unwrap(),
            format!("https://example.com/{i}"),
        ));
    }
    for (code, url) in &codes {
        assert_eq!(store.resolve(code).as_deref(), Some(url.as_str()));
    }
}

#[test]
fn codes_are_unique_across_threads() {
    let mut store = Store::with_shards(16);
    let mut all = Vec::new();
    for i in 0..5_000u64 {
        for t in 0..8u64 {
            all.push(
                store
                    .shorten(&format!("https://example.com/{t}/{i}"))
                    .unwrap(),
            );
        }
    }
    assert_eq!(store.len(), 40_000);
    for code in &all {
        assert!(store.resolve(code).is_some(), "missing code {code}");
    }
    all.sort_unstable();
    all.dedup();
    assert_eq!(all.len(), 40_000, "duplicate codes generated");
    assert!(store.resolve("definitely-not-a-code").is_none());
}

#[test]
fn url_validation() {
    assert!(validate_url("https://example.com/a?b=c").is_ok());
    assert!(validate_url("http://example.com").is_ok());
    assert!(validate_url("ftp://example.com").is_err());
    assert!(validate_url("javascript:alert(1)").is_err());
    assert!(validate_url("").is_err());
    assert!(validate_url("https://exa mple.com").is_err());
    assert!(validate_url("https://exämple.com").is_err());
    assert!(validate_url(&format!("https://example.com/{}", "a".repeat(2100))).is_err());
}

#[test]
fn each_refused_url_has_its_reason() {
    let printable = "url must contain 1..2048 printable ASCII bytes";
    let scheme = "url must start with http:// or https://";
    let host = "url requires a host and must not contain credentials or backslashes";
    assert_eq!(validate_url("https://exa mple.com"), Err(printable));
    assert_eq!(
        validate_url(&format!("https://example.com/{}", "a".repeat(2029))),
        Err(printable)
    );
    assert_eq!(
        validate_url(&format!("https://example.com/{}", "a".repeat(2028))),
        Ok(())
    );
    assert_eq!(validate_url(""), Err(scheme));
    assert_eq!(validate_url("HTTP://example.com"), Err(scheme));
    assert_eq!(validate_url("http://example.com:99999"), Err("invalid URL"));
    assert_eq!(validate_url("http://user@example.com"), Err(host));
    assert_eq!(validate_url("http://:secret@example.com"), Err(host));
    assert_eq!(validate_url("http://example.com/a\\b"), Err(host));
    assert_eq!(validate_url("http:///example.com"), Err("url requires a host"));
}

#[test]
fn a_full_store_takes_no_more() {
    let mut store = Store::memory(2, 3);
    assert!(store.is_empty());
    for i in 0..3 {
        assert!(store.shorten(&format!("https://example.com/{i}")).is_ok());
    }
    assert!(matches!(
        store.shorten("https://example.com/3"),
        Err(ShortenError::StorageFull)
    ));
    assert!(matches!(
        store.shorten("ftp://example.com"),
        Err(ShortenError::InvalidInput("url must start with http:// or https://"))
    ));
    assert_eq!(store.len(), 3);
    assert_eq!(store.capacity(), 3);
    assert_eq!(store.shard_count(), 2);
    assert_eq!(store.resolve("2").as_deref(), Some("https://example.com/2"));
    assert!(store.resolve("3").is_none());
    assert!(store.resolve("02").is_none());
    assert!(store.resolve("").is_none());
}

#[test]
fn equal_urls_get_codes_of_their_own() {
    let mut store = Store::new();
    let first = store.shorten("https://example.com/same").unwrap();
    let second = store.shorten("https://example.com/same").unwrap();
    assert_eq!(first, "0");
    assert_eq!(second, "1");
    assert_eq!(store.resolve(&first), store.resolve(&second));
    assert_eq!(store.shard_count(), 64);
    assert_eq!(store.capacity(), 1_000_000);
}

#[test]
fn rows_load_in_their_order() {
    let row = |id: i64| (id, format!("https://example.com/{id}"));
    let rows = vec![row(0), row(1), row(2), row(3), row(4)];
    let store = Store::open(&rows, 4, 10).unwrap();
    assert_eq!(store.len(), 5);
    assert_eq!(store.resolve("4").as_deref(), Some("https://example.com/4"));
    assert!(Store::open(&rows, 4, 5).is_ok());
    assert!(matches!(
        Store::open(&rows, 4, 4),
        Err(OpenError::OutOfPlace)
    ));
    assert!(matches!(
        Store::open(&vec![row(0), row(2)], 4, 10),
        Err(OpenError::OutOfPlace)
    ));
    assert!(matches!(
        Store::open(&vec![row(-1)], 4, 10),
        Err(OpenError::NegativeId)
    ));
    assert!(matches!(
        Store::open(&vec![(0, "nowhere".to_string())], 4, 10),
        Err(OpenError::InvalidUrl(_))
    ));
}

#[test]
fn shards_are_rounded_up_to_a_power_of_two() {
    assert_eq!(rounded_shards(0), Some(1));
    assert_eq!(rounded_shards(1), Some(1));
    assert_eq!(rounded_shards(3), Some(4));
    assert_eq!(rounded_shards(64), Some(64));
    assert_eq!(rounded_shards(65), Some(128));
    assert_eq!(rounded_shards(4096), Some(4096));
    assert_eq!(rounded_shards(4097), None);
}

#[test]
fn a_preloaded_store_has_the_seeds() {
    let mut store = Store::memory(4, 100);
    store.preload(70);
    assert_eq!(store.len(), 70);
    assert_eq!(store.resolve("0").as_deref(), Some("https://example.com/seed/0"));
    assert_eq!(store.resolve("15").as_deref(), Some("https://example.com/seed/67"));
    let mut full = Store::memory(1, 2);
    full.preload(5);
    assert_eq!(full.len(), 2);
}

#[test]
fn the_rows_of_a_store_load_again() {
    let mut store = Store::memory(8, 30);
    for i in 0..20 {
        store.shorten(&format!("https://example.com/{i}")).unwrap();
    }
    let rows: Vec<(i64, String)> = (0..20u64)
        .map(|i| (i as i64, store.resolve(&base62_encode(i)).unwrap().to_string()))
        .collect();
    assert!(Store::open(&rows, 2, 19).is_err());
    assert!(Store::open(&rows, 2, 20).is_ok());
    let again = Store::open(&rows, 2, 50).unwrap();
    assert_eq!(again.len(), 20);
    for i in 0..25u64 {
        let code = base62_encode(i);
        assert_eq!(again.resolve(&code), store.resolve(&code));
    }
}

#[test]
fn a_write_is_settled_as_the_database_says() {
    let mut store = Store::memory(4, 10);
    let url = "https://example.com/a";
    let id = store.reserve(url).unwrap();
    assert_eq!(store.settle(id, url, false), None);
    assert_eq!(store.len(), 0);
    assert!(store.resolve("0").is_none());
    assert_eq!(store.reserve(url).unwrap(), id);
    assert_eq!(store.settle(id, url, true).as_deref(), Some("0"));
    assert_eq!(store.len(), 1);
    assert_eq!(store.resolve("0").as_deref(), Some(url));
}
