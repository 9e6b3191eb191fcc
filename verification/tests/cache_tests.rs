use bandcamp_dl::cache::{
    escape_title, read_download_cache, read_download_cache_line, serialize_download_cache,
    serialize_download_cache_release, unescape_title, CacheParsingError, DownloadCache,
    DownloadCacheRelease,
};

#[test]
fn test_read_download_cache_regular() {
    let cache_line = r#"p199396767| "Galerie" (2022) by Anomalie"#;
    let cache_release = read_download_cache_line(cache_line);

    assert!(cache_release.is_ok());
    let cache_release = cache_release.unwrap();

    assert_eq!(cache_release.release_id, "p199396767");
    assert_eq!(cache_release.title, "Galerie");
    assert_eq!(cache_release.year, 2022);
    assert_eq!(cache_release.artist, "Anomalie");
}

#[test]
fn test_read_download_cache_invalid_cases() {
    assert!(matches!(
        read_download_cache("Hi this is a test"),
        Err(CacheParsingError::RegexCaptureFail(_))
    ));
    assert!(matches!(
        read_download_cache(r#"pewpew1234| "ABCD" (1234) by"#),
        Err(CacheParsingError::RegexCaptureFail(_))
    ));
    assert!(matches!(
        read_download_cache(r#"pewpew1234| "ABCD" (hello)"#),
        Err(CacheParsingError::RegexCaptureFail(_))
    ));
}

#[test]
fn test_read_download_cache_with_escaping() {
    let cache_line = r#"p204514015| "Toxic \"Violet\" Cubes [From BSWC2021 Grand Finals]" (2021) by かめりあ(Camellia)"#;
    let cache_release = read_download_cache_line(cache_line);

    assert!(cache_release.is_ok());
    let cache_release = cache_release.unwrap();

    assert_eq!(cache_release.release_id, "p204514015");
    assert_eq!(
        cache_release.title,
        "Toxic \\\"Violet\\\" Cubes [From BSWC2021 Grand Finals]"
    );
    assert_eq!(cache_release.year, 2021);
    assert_eq!(cache_release.artist, "かめりあ(Camellia)");
}

#[test]
fn test_read_download_cache_from_file() {
    let data = "p225359366| \"Transfiguration\" (2020) by Hirakawa Reo\np199396767| \"Galerie\" (2022) by Anomalie\np204514015| \"Toxic \\\"Violet\\\" Cubes [From BSWC2021 Grand Finals]\" (2021) by かめりあ(Camellia)";
    let cache = read_download_cache(data);

    assert!(cache.is_ok());
    let cache = cache.unwrap();

    assert!(cache.contains_key("p225359366"));
}

#[test]
fn test_serialize_normal_release() {
    let cache_release = DownloadCacheRelease::new("p199396767", "Galerie", 2022, "Anomalie");
    let cache_line = r#"p199396767| "Galerie" (2022) by Anomalie"#;

    assert_eq!(serialize_download_cache_release(&cache_release), cache_line);
}

#[test]
fn test_serialize_cache_line_with_escaping() {
    let cache_release = DownloadCacheRelease::new(
        "p204514015",
        "Toxic \\\"Violet\\\" Cubes [From BSWC2021 Grand Finals]",
        2021,
        "かめりあ(Camellia)",
    );
    let cache_line = r#"p204514015| "Toxic \"Violet\" Cubes [From BSWC2021 Grand Finals]" (2021) by かめりあ(Camellia)"#;

    assert_eq!(serialize_download_cache_release(&cache_release), cache_line);
}

#[test]
fn test_round_trip_regular() {
    let cache_release = DownloadCacheRelease::new("p199396767", "Galerie", 2022, "Anomalie");

    let cache_line = serialize_download_cache_release(&cache_release);
    let deserialized_release = read_download_cache_line(&cache_line);

    assert!(deserialized_release.is_ok());
    let deserialized_release = deserialized_release.unwrap();

    assert_eq!(deserialized_release.release_id, cache_release.release_id);
    assert_eq!(deserialized_release.title, cache_release.title);
    assert_eq!(deserialized_release.year, cache_release.year);
    assert_eq!(deserialized_release.artist, cache_release.artist);
}

#[test]
fn test_round_trip_minimal() {
    let cache_release = DownloadCacheRelease::new("p0", "", 0, "");

    let cache_line = serialize_download_cache_release(&cache_release);
    let deserialized_release = read_download_cache_line(&cache_line);

    assert!(deserialized_release.is_ok());
    let deserialized_release = deserialized_release.unwrap();

    assert_eq!(deserialized_release.release_id, cache_release.release_id);
    assert_eq!(deserialized_release.title, cache_release.title);
    assert_eq!(deserialized_release.year, cache_release.year);
    assert_eq!(deserialized_release.artist, cache_release.artist);
}

#[test]
fn test_round_trip_with_escaping() {
    let cache_release = DownloadCacheRelease::new(
        "p204514015",
        "Toxic \\\"Violet\\\" Cubes [From BSWC2021 Grand Finals]",
        2021,
        "かめりあ(Camellia)",
    );

    let cache_line = serialize_download_cache_release(&cache_release);
    let deserialized_release = read_download_cache_line(&cache_line);

    assert!(deserialized_release.is_ok());
    let deserialized_release = deserialized_release.unwrap();

    assert_eq!(deserialized_release.release_id, cache_release.release_id);
    assert_eq!(deserialized_release.title, cache_release.title);
    assert_eq!(deserialized_release.year, cache_release.year);
    assert_eq!(deserialized_release.artist, cache_release.artist);
}

#[test]
fn whole_cache_round_trips_in_order() {
    let mut cache = DownloadCache::new();
    cache.insert(DownloadCacheRelease::new("p1", "First", 1999, "One"));
    cache.insert(DownloadCacheRelease::new("p2", "Second", 2001, "Two"));
    cache.insert(DownloadCacheRelease::new("p3", "", 0, ""));

    let text = serialize_download_cache(cache);
    let reread = read_download_cache(&text).unwrap();

    assert_eq!(reread.len(), 3);
    assert!(reread.contains_key("p1"));
    assert!(reread.contains_key("p2"));
    assert!(reread.contains_key("p3"));
    assert_eq!(reread.entries[0].title, "First");
    assert_eq!(reread.entries[1].year, 2001);
    assert_eq!(reread.entries[2].artist, "");
}

#[test]
fn empty_cache_serializes_to_empty_text() {
    let cache = DownloadCache::new();
    let text = serialize_download_cache(cache);
    assert_eq!(text, "");

    let reread = read_download_cache("").unwrap();
    assert_eq!(reread.len(), 0);
}

#[test]
fn bad_year_reports_parse_int_error() {
    let line = r#"p77| "Title" (12a3) by Someone"#;
    assert!(matches!(
        read_download_cache_line(line),
        Err(CacheParsingError::ParseIntError)
    ));

    let oversized = r#"p77| "Title" (99999999999) by Someone"#;
    assert!(matches!(
        read_download_cache_line(oversized),
        Err(CacheParsingError::ParseIntError)
    ));
}

#[test]
fn malformed_line_is_reported_verbatim() {
    let bad = r#"p1| "unterminated title ("#;
    match read_download_cache_line(bad) {
        Err(CacheParsingError::RegexCaptureFail(line)) => assert_eq!(line, bad),
        _ => panic!("expected a capture failure"),
    }
}

#[test]
fn error_line_admits_no_partial_record() {
    let data = "p1| \"Good\" (2000) by A\nnot a record at all";
    assert!(matches!(
        read_download_cache(data),
        Err(CacheParsingError::RegexCaptureFail(_))
    ));
}

#[test]
fn whitespace_around_pipe_is_tolerated() {
    let line = "  p9|   \t \"Spaced\" (2010) by B";
    let release = read_download_cache_line(line).unwrap();
    assert_eq!(release.release_id, "p9");
    assert_eq!(release.title, "Spaced");
}

#[test]
fn title_escaping_round_trips() {
    let raw = "She said \"hi\" twice";
    let escaped = escape_title(raw);
    assert_eq!(escaped, "She said \\\"hi\\\" twice");
    assert_eq!(unescape_title(&escaped), raw);

    let release = DownloadCacheRelease::new("p5", &escaped, 2015, "C");
    let line = serialize_download_cache_release(&release);
    let reread = read_download_cache_line(&line).unwrap();
    assert_eq!(unescape_title(&reread.title), raw);
}

#[test]
fn later_duplicate_record_replaces_the_earlier() {
    let data = "p1| \"Old\" (2000) by A\np2| \"Other\" (2001) by B\np1| \"New\" (2005) by C";
    let cache = read_download_cache(data).unwrap();

    assert_eq!(cache.len(), 2);
    assert_eq!(cache.entries[0].release_id, "p1");
    assert_eq!(cache.entries[0].title, "New");
    assert_eq!(cache.entries[0].year, 2005);
    assert_eq!(cache.entries[0].artist, "C");
    assert_eq!(cache.entries[1].release_id, "p2");
}
