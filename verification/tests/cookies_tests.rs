use bandcamp_dl::cookies::{
    normalize_cookie_domain, parse_bool_option, parse_expiration_seconds, parse_same_site,
    RawCookie, SameSitePolicy,
};

#[test]
fn ourcookie_new_ok() {
    let cookie_data = RawCookie::new("name".into(), "value".into());

    assert_eq!(cookie_data.name, "name");
    assert_eq!(cookie_data.value, "value");
}

#[test]
fn test_parse_same_site() {
    assert_eq!(
        parse_same_site(Some("no_restriction")),
        Some(SameSitePolicy::NoRestriction),
    );
    assert_eq!(parse_same_site(Some("lax")), Some(SameSitePolicy::Lax));
    assert_eq!(parse_same_site(Some("strict")), Some(SameSitePolicy::Strict));
    assert_eq!(parse_same_site(Some("unspecified")), None);

    assert_eq!(parse_same_site(Some("truly_unknown_mode")), None);
    assert_eq!(parse_same_site(Some("happiness")), None);
    assert_eq!(parse_same_site(None), None);
}

#[test]
fn test_parse_expiration() {
    assert_eq!(parse_expiration_seconds(None), None);
    assert_eq!(parse_expiration_seconds(Some("")), None);
    assert_eq!(parse_expiration_seconds(Some("invalid")), None);

    // 2021-01-01 00:00:00 UTC
    assert_eq!(parse_expiration_seconds(Some("1609459200")), Some(1609459200));
    assert_eq!(parse_expiration_seconds(Some("-1")), Some(-1));
    assert_eq!(parse_expiration_seconds(Some("+7")), Some(7));
}

#[test]
fn bool_flags_parse_strictly() {
    let yes = "true".to_owned();
    let no = "false".to_owned();
    let odd = "True".to_owned();
    assert_eq!(parse_bool_option(Some(&yes)), Some(true));
    assert_eq!(parse_bool_option(Some(&no)), Some(false));
    assert_eq!(parse_bool_option(Some(&odd)), None);
    assert_eq!(parse_bool_option(None), None);
}

#[test]
fn cookie_domains_are_normalized() {
    assert_eq!(normalize_cookie_domain("http://.bandcamp.com/"), "bandcamp.com");
    assert_eq!(normalize_cookie_domain("https://.bandcamp.com/"), "bandcamp.com");
    assert_eq!(normalize_cookie_domain("bandcamp.com"), "bandcamp.com");
}
