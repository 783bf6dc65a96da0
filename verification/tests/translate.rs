use ytm_core::translate::{
    api_error, distinct, echoes, error_text, place, prompt, refusal, reply_text, snippet, spread,
    Entry, MAX_TOKENS, MIN_TOKENS, SYSTEM_HEAD, SYSTEM_MIDDLE, SYSTEM_TAIL,
};

fn strings(lines: &[&str]) -> Vec<String> {
    lines.iter().map(|s| s.to_string()).collect()
}

/// The entries of a reply in JSON.
fn entries(reply: &str) -> Vec<Entry> {
    let v: serde_json::Value = serde_json::from_str(reply).expect("valid json");
    let text = |e: &serde_json::Value, k: &str| e[k].as_str().expect("a string").to_string();
    v["lines"]
        .as_array()
        .expect("a list")
        .iter()
        .map(|e| Entry {
            index: e["index"].as_u64().expect("a number") as usize,
            source: text(e, "source"),
            text: text(e, "text"),
        })
        .collect()
}

#[test]
fn blanks_and_repeats_are_never_sent() {
    let lines = strings(&["one", "", "two", "  one  ", "two"]);
    let (order, seen) = distinct(&lines);
    assert_eq!(order, ["one", "two"]);
    assert_eq!(seen.get("one"), Some(&0));
    assert_eq!(seen.get("two"), Some(&1));
}

#[test]
fn a_complete_reply_lands_on_the_original_positions() {
    let reply = r#"{"lines":[
        {"index":0,"source":"one","text":"一"},
        {"index":1,"source":"two","text":"二"}]}"#;
    let out = place(entries(reply), &strings(&["one", "two"])).expect("placed");
    assert_eq!(out, ["一", "二"]);
}

#[test]
fn a_short_reply_is_rejected_rather_than_shifting_every_later_line() {
    // The failure that makes this check worth having: two lines came back
    // for three sent. Accepting it would put each remaining translation
    // under the wrong lyric, silently, for the rest of the song.
    let reply = r#"{"lines":[
        {"index":0,"source":"one","text":"一"},
        {"index":1,"source":"two","text":"二"}]}"#;
    let err = place(entries(reply), &strings(&["one", "two", "three"])).unwrap_err();
    assert!(err.contains("dropped 1"), "{err}");
}

#[test]
fn a_reply_that_slipped_a_line_is_caught_by_the_echo() {
    // What the index set cannot see: three entries, numbered 0, 1, 2,
    // nothing missing or repeated — but every translation is of the line
    // after the one it is filed under.
    let reply = r#"{"lines":[
        {"index":0,"source":"two","text":"二"},
        {"index":1,"source":"three","text":"三"},
        {"index":2,"source":"three","text":"三"}]}"#;
    let err = place(entries(reply), &strings(&["one", "two", "three"])).unwrap_err();
    assert!(err.contains("under line 0"), "{err}");
}

#[test]
fn an_echo_that_differs_only_in_spacing_is_still_that_line() {
    let reply = r#"{"lines":[{"index":0,"source":"hold on tight","text":"抓紧"}]}"#;
    let out = place(entries(reply), &strings(&["hold  on   tight"])).expect("placed");
    assert_eq!(out, ["抓紧"]);
}

#[test]
fn a_repeated_index_is_rejected() {
    let reply = r#"{"lines":[
        {"index":0,"source":"one","text":"一"},
        {"index":0,"source":"one","text":"壹"}]}"#;
    let err = place(entries(reply), &strings(&["one", "two"])).unwrap_err();
    assert!(err.contains("repeated"), "{err}");
}

#[test]
fn an_out_of_range_index_is_rejected() {
    let reply = r#"{"lines":[{"index":7,"source":"seven","text":"七"}]}"#;
    let err = place(entries(reply), &strings(&["one"])).unwrap_err();
    assert!(err.contains("indexed line 7"), "{err}");
}

#[test]
fn a_marker_line_may_come_back_untranslated() {
    let reply = r#"{"lines":[
        {"index":0,"source":"[Chorus]","text":""},
        {"index":1,"source":"one","text":"一"}]}"#;
    let out = place(entries(reply), &strings(&["[Chorus]", "one"])).expect("placed");
    assert_eq!(out, ["", "一"]);
}

#[test]
fn an_api_error_body_yields_its_message() {
    let body = r#"{"type":"error","error":{"type":"not_found_error","message":"model: bogus"}}"#;
    assert_eq!(api_error(body), "model: bogus");
    // Not the expected shape — fall back to the raw body rather than "".
    assert_eq!(api_error("upstream exploded"), "upstream exploded");
}

#[test]
fn an_error_without_a_message_is_its_body_in_short() {
    assert_eq!(error_text(Some("why".to_string()), "body"), "why");
    let long = "x".repeat(500);
    let short = error_text(None, &long);
    assert!(short.chars().count() < 500);
    assert!(long.starts_with(short.trim_end_matches('…')));
    assert!(refusal("404 Not Found", "gone").contains("gone"));
}

#[test]
fn the_request_numbers_its_rows() {
    assert!(prompt(&[], "Dutch").is_none());
    let p = prompt(&strings(&["one", "two"]), "Dutch").unwrap();
    assert_eq!(
        p.system,
        format!("{SYSTEM_HEAD}Dutch{SYSTEM_MIDDLE}Dutch{SYSTEM_TAIL}")
    );
    assert!(p.user.contains("0\tone\n1\ttwo"), "{}", p.user);
    assert_eq!(p.max_tokens, MIN_TOKENS);
    let p = prompt(&vec!["x".to_string(); 100], "Dutch").unwrap();
    assert_eq!(p.max_tokens, 20000);
    let p = prompt(&vec!["x".to_string(); 1000], "Dutch").unwrap();
    assert_eq!(p.max_tokens, MAX_TOKENS);
}

#[test]
fn the_first_text_block_is_the_reply() {
    let body = r#"{"stop_reason":"end_turn","content":[
        {"type":"thinking","text":"hm"},{"type":"text","text":"yes"},{"type":"text","text":"no"}]}"#;
    assert_eq!(reply_text(body), Ok("yes".to_string()));
    assert_eq!(
        reply_text(r#"{"stop_reason":"refusal","content":[]}"#),
        Err("the model declined this request".to_string())
    );
    assert_eq!(
        reply_text(r#"{"stop_reason":"max_tokens","content":[]}"#),
        Err("reply was truncated".to_string())
    );
    assert_eq!(
        reply_text(r#"{"content":[{"type":"image"}]}"#),
        Err("no text block in the reply".to_string())
    );
    assert!(reply_text("{").is_err());
}

#[test]
fn a_repeat_is_spread_to_every_place_it_has() {
    let lines = strings(&["one", "", "two", " one "]);
    let (order, seen) = distinct(&lines);
    let done = strings(&["une", "deux"]);
    assert_eq!(order.len(), done.len());
    assert_eq!(spread(&lines, &seen, &done), ["une", "", "deux", "une"]);
}

#[test]
fn echoes_are_compared_without_white_space() {
    assert!(echoes("a b\tc", " abc "));
    assert!(!echoes("abd", "abc"));
}

#[test]
fn long_lines_are_shown_in_short() {
    assert!(snippet("short").contains("short"));
    let s = snippet(&"a".repeat(200));
    assert!(s.chars().count() < 60, "{s}");
}
