use bandcamp_dl::api::data::ParsedCollectionItems;
use bandcamp_dl::api::paginate::{build_collection_request_body, scan_pages, ScanOutcome};
use bandcamp_dl::cache::{read_download_cache, serialize_download_cache, DownloadCache, DownloadCacheRelease};
use bandcamp_dl::cli::{collect_sync_outcomes, find_new_releases, ItemOutcome};

fn page(
    more: bool,
    token: Option<&str>,
    urls: Option<Vec<(&str, &str)>>,
) -> ParsedCollectionItems {
    ParsedCollectionItems {
        more_available: more,
        last_token: token.map(|t| t.to_owned()),
        redownload_urls: urls.map(|ps| {
            ps.into_iter()
                .map(|(k, v)| (k.to_owned(), v.to_owned()))
                .collect()
        }),
    }
}

#[test]
fn collection_request_body_is_exact() {
    assert_eq!(
        build_collection_request_body(77, "123:9:album::"),
        "{\"fan_id\": 77, \"older_than_token\": \"123:9:album::\", \"count\":100000}"
    );
}

#[test]
fn pagination_consumes_every_page_and_token() {
    let pages = vec![
        page(true, Some("t1"), Some(vec![("p1", "u1")])),
        page(true, Some("t2"), Some(vec![("p2", "u2")])),
        page(false, None, Some(vec![("p3", "u3"), ("p1", "u1b")])),
    ];
    match scan_pages("seed", &pages) {
        ScanOutcome::Complete(urls, tokens) => {
            assert_eq!(tokens, vec!["seed", "t1", "t2"]);
            assert_eq!(
                urls,
                vec![
                    ("p1".to_owned(), "u1b".to_owned()),
                    ("p2".to_owned(), "u2".to_owned()),
                    ("p3".to_owned(), "u3".to_owned()),
                ]
            );
        }
        _ => panic!("expected a complete scan"),
    }
}

#[test]
fn pagination_stops_on_a_page_without_urls() {
    let pages = vec![page(true, Some("t1"), None)];
    match scan_pages("seed", &pages) {
        ScanOutcome::Complete(urls, tokens) => {
            assert!(urls.is_empty());
            assert_eq!(tokens, vec!["seed"]);
        }
        _ => panic!("expected a complete scan"),
    }
}

#[test]
fn pagination_refuses_a_tokenless_continuation() {
    let pages = vec![page(true, None, Some(vec![("p1", "u1")]))];
    match scan_pages("seed", &pages) {
        ScanOutcome::MissingToken(tokens) => assert_eq!(tokens, vec!["seed"]),
        _ => panic!("expected a missing-token outcome"),
    }
}

#[test]
fn pagination_reports_a_starved_script() {
    let pages = vec![page(true, Some("t1"), Some(vec![("p1", "u1")]))];
    match scan_pages("seed", &pages) {
        ScanOutcome::MorePagesNeeded(urls, tokens) => {
            assert_eq!(urls.len(), 1);
            assert_eq!(tokens, vec!["seed"]);
        }
        _ => panic!("expected a starved scan"),
    }
}

#[test]
fn unseen_items_are_partitioned_in_order() {
    let mut cache = DownloadCache::new();
    cache.insert(DownloadCacheRelease::new("p1", "Old", 2001, "A"));

    let releases = vec![
        ("p1".to_owned(), "u1".to_owned()),
        ("p2".to_owned(), "u2".to_owned()),
        ("p3".to_owned(), "u3".to_owned()),
    ];
    let unseen = find_new_releases(&releases, &cache);
    assert_eq!(
        unseen,
        vec![("p2".to_owned(), "u2".to_owned()), ("p3".to_owned(), "u3".to_owned())]
    );
}

#[test]
fn end_to_end_sync_scenario() {
    // collection of three items, one already cached, two new
    let mut cache = DownloadCache::new();
    cache.insert(DownloadCacheRelease::new("p1", "Old", 2001, "A"));

    let releases = vec![
        ("p1".to_owned(), "u1".to_owned()),
        ("p2".to_owned(), "u2".to_owned()),
        ("p3".to_owned(), "u3".to_owned()),
    ];
    let unseen = find_new_releases(&releases, &cache);
    assert_eq!(unseen.len(), 2);

    // both new items resolve successfully in the requested encoding
    let outcomes = vec![
        (
            "p2".to_owned(),
            ItemOutcome::Resolved(
                DownloadCacheRelease::new("p2", "Two", 2002, "B"),
                "https://host/two".to_owned(),
            ),
        ),
        (
            "p3".to_owned(),
            ItemOutcome::Resolved(
                DownloadCacheRelease::new("p3", "Three", 2003, "C"),
                "https://host/three".to_owned(),
            ),
        ),
    ];
    let report = collect_sync_outcomes(&mut cache, &outcomes);

    assert_eq!(report.newly_cached.len(), 2);
    assert!(report.failures.is_empty());
    assert_eq!(
        report.download_urls,
        vec!["https://host/two".to_owned(), "https://host/three".to_owned()]
    );

    let text = serialize_download_cache(cache);
    let reread = read_download_cache(&text).unwrap();
    assert_eq!(reread.len(), 3);
    assert!(reread.contains_key("p1"));
    assert!(reread.contains_key("p2"));
    assert!(reread.contains_key("p3"));
}

#[test]
fn failures_are_collected_without_aborting() {
    let mut cache = DownloadCache::new();
    let outcomes = vec![
        (
            "p2".to_owned(),
            ItemOutcome::Resolved(
                DownloadCacheRelease::new("p2", "Two", 2002, "B"),
                "https://host/two".to_owned(),
            ),
        ),
        ("p4".to_owned(), ItemOutcome::Failed("no download links".to_owned())),
    ];
    let report = collect_sync_outcomes(&mut cache, &outcomes);

    assert_eq!(report.newly_cached.len(), 1);
    assert_eq!(cache.len(), 1);
    assert_eq!(
        report.failures,
        vec![("p4".to_owned(), "no download links".to_owned())]
    );
}
