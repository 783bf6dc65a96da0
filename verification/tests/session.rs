use ytm_core::session::{
    build_default_headers, equal_but_case, extract_single_quoted, extracted_cookies, parse_curl,
    parse_netscape_cookies, refresh_from, refreshed_json, renew_from, Browser, CookieFault, CurlFault,
    REFRESH_AFTER_SECS,
};

const COOKIES: &str = "# Netscape HTTP Cookie File\n\
.youtube.com\tTRUE\t/\tTRUE\t0\tSID\tabc\n\
.example.com\tTRUE\t/\tTRUE\t0\tOTHER\tno\n\
\n\
.youtube.com\tTRUE\t/\tTRUE\t0\tHSID\tdef\n";

#[test]
fn only_cookies_of_the_service_are_taken() {
    assert_eq!(parse_netscape_cookies(COOKIES), "SID=abc; HSID=def");
    assert_eq!(extracted_cookies(Some(COOKIES)), Ok("SID=abc; HSID=def".to_string()));
    assert_eq!(extracted_cookies(None), Err(CookieFault::NotSignedIn));
    assert_eq!(extracted_cookies(Some("# nothing\n")), Err(CookieFault::NoCookies));
}

#[test]
fn browsers_are_read_back_from_their_names() {
    for b in Browser::all() {
        assert_eq!(Browser::parse(b.as_ytdlp_arg()), Some(b));
        assert_eq!(Browser::parse(&b.as_ytdlp_arg().to_uppercase()), Some(b));
        assert!(equal_but_case(b.label(), &b.label().to_uppercase()));
    }
    assert_eq!(Browser::parse("lynx"), None);
}

#[test]
fn old_cookies_are_renewed_from_the_browser_on_record() {
    assert_eq!(refresh_from(Some(" firefox\n"), None), Some(Browser::Firefox));
    assert_eq!(
        refresh_from(Some("firefox"), Some(REFRESH_AFTER_SECS)),
        Some(Browser::Firefox)
    );
    assert_eq!(refresh_from(Some("firefox"), Some(REFRESH_AFTER_SECS - 1)), None);
    assert_eq!(refresh_from(Some("lynx"), None), None);
    assert_eq!(refresh_from(None, None), None);
}

#[test]
fn a_session_is_renewed_unasked_where_the_settings_allow_it() {
    assert_eq!(renew_from(true, "firefox"), Some(Browser::Firefox));
    assert_eq!(renew_from(false, "firefox"), None);
    assert_eq!(renew_from(true, ""), None);
}

#[test]
fn a_new_cookie_is_read_back() {
    let out = refreshed_json(r#"{"cookie":"old","x":1}"#, "new").unwrap().unwrap();
    let v: serde_json::Value = serde_json::from_str(&out).unwrap();
    assert_eq!(v["cookie"].as_str(), Some("new"));
    assert_eq!(v["x"].as_u64(), Some(1));
    assert_eq!(refreshed_json("[1]", "new"), Ok(None));
    assert!(refreshed_json("{", "new").is_err());
    assert!(refreshed_json("null", "new").unwrap().unwrap().contains("new"));
}

#[test]
fn default_headers_carry_the_cookie() {
    let h = build_default_headers("SID=abc".to_string());
    assert_eq!(h.get("cookie").map(|s| s.as_str()), Some("SID=abc"));
    assert_eq!(h.get("x-goog-authuser").map(|s| s.as_str()), Some("0"));
    assert_eq!(h.len(), 7);
}

#[test]
fn a_pasted_command_is_read() {
    let line = "curl 'https://x' -H 'X-Goog-AuthUser: 2' -H 'nocolon' -b 'SID=abc' -H 'Accept: */*'";
    let h = parse_curl(line).unwrap();
    assert_eq!(h.get("x-goog-authuser").map(|s| s.as_str()), Some("2"));
    assert_eq!(h.get("cookie").map(|s| s.as_str()), Some("SID=abc"));
    assert_eq!(h.get("accept").map(|s| s.as_str()), Some("*/*"));
    assert!(matches!(parse_curl("curl x"), Err(CurlFault::Empty)));
    match parse_curl("curl -H 'Accept: */*'") {
        Err(CurlFault::Missing(m)) => assert_eq!(m, ["cookie", "x-goog-authuser"]),
        _ => panic!("accepted"),
    }
}

#[test]
fn quotes_that_are_not_closed_end_the_search() {
    assert_eq!(extract_single_quoted("-H 'a' -H 'b' -H 'c", "-H"), ["a", "b"]);
    assert!(extract_single_quoted("-H a", "-H").is_empty());
}
