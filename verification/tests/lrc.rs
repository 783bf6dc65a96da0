use ytm_core::lrc::{active_index, is_timed, next_boundary, parse_lrc, parse_timestamp, LyricLine};

fn ns(secs: f64) -> i64 {
    (secs * 1e9).round() as i64
}

fn secs(t: i64) -> f64 {
    t as f64 / 1e9
}

fn at(lines: &[LyricLine], i: usize) -> (f64, &str) {
    (secs(lines[i].at), lines[i].text.as_str())
}

#[test]
fn parses_two_digit_fraction() {
    let l = parse_lrc("[00:12.34]hello");
    assert_eq!(l.len(), 1);
    assert!((secs(l[0].at) - 12.34).abs() < 1e-9);
    assert_eq!(l[0].text, "hello");
}

#[test]
fn parses_three_digit_fraction() {
    let l = parse_lrc("[01:02.500]x");
    assert!((secs(l[0].at) - 62.5).abs() < 1e-9);
}

#[test]
fn parses_bare_mm_ss() {
    let l = parse_lrc("[02:03]x");
    assert!((secs(l[0].at) - 123.0).abs() < 1e-9);
}

#[test]
fn parses_hh_mm_ss() {
    let l = parse_lrc("[01:00:05.50]x");
    assert!((secs(l[0].at) - 3605.5).abs() < 1e-9);
}

#[test]
fn multiple_timestamps_expand_to_multiple_lines() {
    let l = parse_lrc("[00:12.00][01:40.00]chorus");
    assert_eq!(l.len(), 2);
    assert_eq!(at(&l, 0), (12.0, "chorus"));
    assert_eq!(at(&l, 1), (100.0, "chorus"));
}

#[test]
fn metadata_tags_are_skipped() {
    let src = "[ar:Crusher-P]\n[ti:Echo]\n[al:Album]\n[by:someone]\n[length:03:57]\n[00:10.00]real";
    let l = parse_lrc(src);
    assert_eq!(l.len(), 1);
    assert_eq!(l[0].text, "real");
}

#[test]
fn length_tag_does_not_parse_as_timestamp() {
    assert!(parse_timestamp("length:03:57").is_none());
    assert!(parse_timestamp("ar:Foo").is_none());
}

#[test]
fn offset_shifts_timestamps_earlier() {
    let l = parse_lrc("[offset:+500]\n[00:10.00]x");
    assert!((secs(l[0].at) - 9.5).abs() < 1e-9);
}

#[test]
fn negative_offset_shifts_later() {
    let l = parse_lrc("[offset:-500]\n[00:10.00]x");
    assert!((secs(l[0].at) - 10.5).abs() < 1e-9);
}

#[test]
fn out_of_order_input_is_sorted() {
    let l = parse_lrc("[00:30.00]c\n[00:10.00]a\n[00:20.00]b");
    assert_eq!(
        l.iter().map(|x| x.text.as_str()).collect::<Vec<_>>(),
        ["a", "b", "c"]
    );
}

#[test]
fn blank_interlude_is_preserved() {
    let l = parse_lrc("[00:10.00]a\n[00:20.00]\n[00:30.00]b");
    assert_eq!(l.len(), 3);
    assert_eq!(l[1].text, "");
}

#[test]
fn handles_crlf() {
    let l = parse_lrc("[00:10.00]a\r\n[00:20.00]b\r\n");
    assert_eq!(l.len(), 2);
    assert_eq!(l[0].text, "a");
    assert_eq!(l[1].text, "b");
}

#[test]
fn line_without_brackets_is_ignored() {
    let l = parse_lrc("just some prose\n[00:10.00]a");
    assert_eq!(l.len(), 1);
    assert_eq!(l[0].text, "a");
}

#[test]
fn unclosed_bracket_does_not_panic() {
    assert!(parse_lrc("[00:10.00").is_empty());
    assert!(parse_lrc("[").is_empty());
    let l = parse_lrc("[00:10.00]ok\n[unclosed");
    assert_eq!(l.len(), 1);
}

#[test]
fn empty_input_yields_nothing() {
    assert!(parse_lrc("").is_empty());
    assert!(parse_lrc("\n\n\n").is_empty());
}

#[test]
fn active_index_covers_all_positions() {
    let l = parse_lrc("[00:10.00]a\n[00:20.00]b\n[00:30.00]c");

    assert_eq!(active_index(&l, ns(0.0)), None, "before the first stamp");
    assert_eq!(active_index(&l, ns(9.99)), None);
    assert_eq!(active_index(&l, ns(10.0)), Some(0), "exactly on a boundary");
    assert_eq!(active_index(&l, ns(15.0)), Some(0), "between boundaries");
    assert_eq!(active_index(&l, ns(20.0)), Some(1));
    assert_eq!(
        active_index(&l, ns(999.0)),
        Some(2),
        "past the last stays on it"
    );
}

#[test]
fn active_index_on_empty_is_none() {
    assert_eq!(active_index(&[], ns(5.0)), None);
}

#[test]
fn next_boundary_counts_down_then_ends() {
    let l = parse_lrc("[00:10.00]a\n[00:20.00]b");
    let wait = |t: f64| next_boundary(&l, ns(t)).map(|d| secs(d as i64));
    assert!((wait(0.0).unwrap() - 10.0).abs() < 1e-9);
    assert!((wait(15.0).unwrap() - 5.0).abs() < 1e-9);
    assert_eq!(wait(20.0), None, "on the last line");
    assert_eq!(wait(99.0), None);
    assert_eq!(next_boundary(&[], ns(1.0)), None);
}

#[test]
fn stamps_have_exact_nanoseconds() {
    assert_eq!(parse_timestamp("00:12.34"), Some(12_340_000_000));
    assert_eq!(parse_timestamp("1:00:05.5"), Some(3_605_500_000_000));
    assert_eq!(parse_timestamp("00:01.123456789"), Some(1_123_456_789));
    assert_eq!(parse_timestamp("00:01."), None);
    assert_eq!(parse_timestamp("00"), None);
    assert_eq!(parse_timestamp("0:0:0:0"), None);
}

#[test]
fn an_offset_shifts_every_timestamp() {
    let l = parse_lrc("[00:01.00]a\n[offset:1000]\n[00:05.00]b");
    assert_eq!(l[0].at, 0);
    assert_eq!(l[1].at, 4_000_000_000);
    let l = parse_lrc("[00:10.00]x\n[offset:+500]");
    assert_eq!((l.len(), l[0].at, l[0].text.as_str()), (1, 9_500_000_000, "x"));
    // Of two tags the last decides.
    assert_eq!(parse_lrc("[offset:1]\n[00:01.00]a\n[offset:+250]")[0].at, 750_000_000);
    // A number with a point or an exponent is a number; a word is not.
    assert_eq!(parse_lrc("[offset:2.5]\n[00:01.00]a")[0].at, 997_500_000);
    assert_eq!(parse_lrc("[offset:1e3]\n[00:01.00]a")[0].at, 0);
    assert_eq!(parse_lrc("[offset:soon]\n[00:01.00]a")[0].at, 1_000_000_000);
}

#[test]
fn an_offset_may_run_below_zero() {
    assert_eq!(parse_lrc("[offset:5000]\n[00:01.00]a")[0].at, -4_000_000_000);
}

#[test]
fn lines_out_of_order_are_not_in_time() {
    let line = |at: i64| LyricLine { at, text: String::new() };
    assert!(is_timed(&[]));
    assert!(is_timed(&[line(1), line(1), line(2)]));
    assert!(!is_timed(&[line(1), line(3), line(2)]));
}

#[test]
fn one_line_is_sung_at_every_time() {
    let l = parse_lrc("[00:01.00]a\n[00:02.00]b\n[00:04.00]c");
    for t in 0..60 {
        let t = t * 100_000_000;
        let want = l.iter().rposition(|x| x.at <= t);
        assert_eq!(active_index(&l, t), want);
        let next = l.iter().find(|x| x.at > t).map(|x| (x.at - t) as u64);
        assert_eq!(next_boundary(&l, t), next);
    }
}
