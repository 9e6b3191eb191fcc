use bandcamp_dl::api::data::{
    DigitalItem, DownloadData, DownloadFormat, ParsedStatDownload,
};
use bandcamp_dl::api::extract::{extract_stat_payload, find_data_blob};
use bandcamp_dl::api::{
    evaluate_stat_response, format_stat_download_url, format_token, generate_token,
    get_unqualified_digital_download_link, resolve_with_stat_responses, ResolutionOutcome,
};
use bandcamp_dl::error::DigitalDownloadError;

fn item_with(downloads: Option<Vec<(DownloadFormat, DownloadData)>>) -> DigitalItem {
    DigitalItem {
        downloads,
        package_release_date: None,
        title: "Galerie".to_owned(),
        artist: "Anomalie".to_owned(),
        download_type: "a".to_owned(),
        download_type_str: "album".to_owned(),
        item_type: "album".to_owned(),
        art_id: 7,
    }
}

fn flac_download(url: &str) -> (DownloadFormat, DownloadData) {
    (
        DownloadFormat::Flac,
        DownloadData {
            size_mb: Some("123MB".to_owned()),
            description: "FLAC".to_owned(),
            encoding_name: "flac".to_owned(),
            url: url.to_owned(),
        },
    )
}

#[test]
fn token_formats_its_parts() {
    assert_eq!(format_token(1700000000, 42, "album"), "1700000000:42:album::");
    assert_eq!(format_token(0, -3, "track"), "0:-3:track::");
}

#[test]
fn generated_token_carries_item_and_type() {
    let token = generate_token(42, "album");
    assert!(token.ends_with(":42:album::"));
    let ts_part = token.split(':').next().unwrap();
    assert!(!ts_part.is_empty());
    assert!(ts_part.chars().all(|c| c.is_ascii_digit()));
}

#[test]
fn stat_url_is_rewritten_and_qualified() {
    let url = format_stat_download_url("http://host/download/x?id=1", 42);
    assert_eq!(url, "https://host/statdownload/x?id=1&.vrs=1&.rand=42");

    let negative = format_stat_download_url("https://h/download/a", -7);
    assert_eq!(negative, "https://h/statdownload/a&.vrs=1&.rand=-7");
}

#[test]
fn missing_download_map_is_refused() {
    let item = item_with(None);
    assert!(matches!(
        get_unqualified_digital_download_link(&item, DownloadFormat::Flac),
        Err(DigitalDownloadError::NoDownloadLinksFound)
    ));

    let empty = item_with(Some(Vec::new()));
    assert!(matches!(
        get_unqualified_digital_download_link(&empty, DownloadFormat::Flac),
        Err(DigitalDownloadError::NoDownloadLinksFound)
    ));
}

#[test]
fn missing_encoding_is_refused_without_network() {
    let item = item_with(Some(vec![flac_download("http://h/download/a")]));
    assert!(matches!(
        get_unqualified_digital_download_link(&item, DownloadFormat::Mp3_320),
        Err(DigitalDownloadError::RequestedFormatLinkNotFound)
    ));
}

#[test]
fn present_encoding_hands_out_its_url() {
    let item = item_with(Some(vec![flac_download("http://h/download/a")]));
    let url = get_unqualified_digital_download_link(&item, DownloadFormat::Flac).unwrap();
    assert_eq!(url, "http://h/download/a");
}

fn stat(result: Option<&str>, download_url: Option<&str>, url: &str) -> ParsedStatDownload {
    ParsedStatDownload {
        result: result.map(|s| s.to_owned()),
        download_url: download_url.map(|s| s.to_owned()),
        url: url.to_owned(),
    }
}

#[test]
fn stat_error_yields_secure_retry_url() {
    let response = stat(Some("err"), None, "host/retry/a");
    match evaluate_stat_response(&response) {
        Err(DigitalDownloadError::JsonResponseErrorCode(u)) => {
            assert_eq!(u, "https://host/retry/a")
        }
        _ => panic!("expected the transient error"),
    }
}

#[test]
fn stat_success_yields_download_url() {
    let response = stat(Some("ok"), Some("https://host/final"), "ignored");
    assert_eq!(evaluate_stat_response(&response).unwrap(), "https://host/final");
}

#[test]
fn stat_without_url_is_a_dead_end() {
    let response = stat(None, None, "ignored");
    assert!(matches!(
        evaluate_stat_response(&response),
        Err(DigitalDownloadError::NoLinkFound)
    ));
}

#[test]
fn resolution_retries_once_then_succeeds_in_two_calls() {
    let script = vec![
        stat(Some("err"), None, "host/retry/a"),
        stat(None, Some("https://host/final"), "unused"),
    ];
    let (outcome, calls) = resolve_with_stat_responses("http://h/download/a", &script);
    assert_eq!(calls, 2);
    match outcome {
        ResolutionOutcome::Resolved(u) => assert_eq!(u, "https://host/final"),
        _ => panic!("expected a resolved link"),
    }
}

#[test]
fn resolution_exhausts_a_script_of_errors() {
    let script = vec![
        stat(Some("err"), None, "host/a"),
        stat(Some("err"), None, "host/b"),
    ];
    let (outcome, calls) = resolve_with_stat_responses("http://h/download/a", &script);
    assert_eq!(calls, 2);
    match outcome {
        ResolutionOutcome::Exhausted(next) => assert_eq!(next, "https://host/b"),
        _ => panic!("expected exhaustion"),
    }
}

#[test]
fn resolution_fails_on_a_linkless_response() {
    let script = vec![stat(None, None, "ignored")];
    let (outcome, calls) = resolve_with_stat_responses("http://h/download/a", &script);
    assert_eq!(calls, 1);
    assert!(matches!(
        outcome,
        ResolutionOutcome::Failed(DigitalDownloadError::NoLinkFound)
    ));
}

#[test]
fn data_blob_is_found_and_unescaped() {
    let page = "<html><div class=\"x\" id=\"pagedata\" data-blob=\"{&quot;digital_items&quot;:[]}\"></div></html>";
    let blob = find_data_blob(page).unwrap();
    assert_eq!(blob, "{\"digital_items\":[]}");
}

#[test]
fn data_blob_missing_marker_is_not_found() {
    let page = "<html><div data-blob=\"{}\"></div></html>";
    assert!(matches!(
        find_data_blob(page),
        Err(bandcamp_dl::error::InformationRetrievalError::DataBlobNotFound)
    ));
}

#[test]
fn data_blob_outside_the_tag_is_not_found() {
    let page = "<div id=\"pagedata\"><span data-blob=\"{}\"></span></div>";
    assert!(matches!(
        find_data_blob(page),
        Err(bandcamp_dl::error::InformationRetrievalError::DataBlobNotFound)
    ));
}

#[test]
fn stat_payload_is_extracted_from_the_wrapper() {
    let body = "if (window.Downloads) { Downloads.statResult( {\"result\":\"ok\"} ) };";
    assert_eq!(extract_stat_payload(body).unwrap(), "{\"result\":\"ok\"}");
}

#[test]
fn stat_payload_tolerates_packed_whitespace() {
    let body = "if(window.Downloads){Downloads.statResult({\"x\":1})};";
    assert_eq!(extract_stat_payload(body).unwrap(), "{\"x\":1}");
}

#[test]
fn stat_payload_without_wrapper_is_refused() {
    assert!(matches!(
        extract_stat_payload("<html>an error page</html>"),
        Err(DigitalDownloadError::JsonBodyNotFound)
    ));
    assert!(matches!(
        extract_stat_payload("Downloads.statResult( {} )"),
        Err(DigitalDownloadError::JsonBodyNotFound)
    ));
}

#[test]
fn format_names_round_trip() {
    let formats = [
        DownloadFormat::Mp3_V0,
        DownloadFormat::Mp3_320,
        DownloadFormat::Flac,
        DownloadFormat::Aac,
        DownloadFormat::Vorbis,
        DownloadFormat::Alac,
        DownloadFormat::Wav,
        DownloadFormat::AiffLossless,
    ];
    for format in formats {
        let name = format.format_name();
        assert_eq!(DownloadFormat::from_name(&name).unwrap(), format);
    }
    assert_eq!(DownloadFormat::Flac.format_name(), "flac");
    assert!(DownloadFormat::from_name("ogg").is_err());
}

#[test]
fn extreme_numbers_format_exactly() {
    assert_eq!(
        format_token(u64::MAX, i64::MIN, "album"),
        "18446744073709551615:-9223372036854775808:album::"
    );
    let url = format_stat_download_url("http://h/download/a", i32::MIN);
    assert_eq!(url, "https://h/statdownload/a&.vrs=1&.rand=-2147483648");
}

#[test]
fn data_blob_on_another_element_is_not_found() {
    let page = "<html><span id=\"pagedata\" data-blob=\"{}\"></span></html>";
    assert!(matches!(
        find_data_blob(page),
        Err(bandcamp_dl::error::InformationRetrievalError::DataBlobNotFound)
    ));
}
