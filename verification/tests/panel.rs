use ytm_core::cells::{
    align_right, clip, fmt_clock, fmt_duration, fmt_hours, fmt_minutes, fmt_secs, repeat,
    text_rows, truncate_line, width_of, wrap_n_lines,
};
use ytm_core::config::{Lyrics, Shift};
use ytm_core::lrc::{active_index, next_boundary, LyricLine};
use ytm_core::lyric_panel::{
    initial_picker_row, lyric_rows, lyrics_status, picker_rows, plain_view, sung_line,
    synced_view, untimed_badge, LyricRow,
};
use ytm_core::lyrics::{LyricsKind, TrackLyrics};
use ytm_core::panel::{
    centered_message, fit_hints, has_scrollbar, hint, hint_pair, list_body, section, select_next,
    select_previous, select_within, styled, width, Line, Rect, Role,
};

const SECOND: i64 = 1_000_000_000;

fn rows(n: usize) -> Vec<LyricRow> {
    (0..n)
        .map(|i| LyricRow {
            lyric: i,
            text: format!("line{i}"),
        })
        .collect()
}

fn words(line: &Line) -> String {
    line.spans.iter().map(|s| s.text.as_str()).collect()
}

/// The plain text of each rendered line, with the highlight padding stripped.
fn texts(lines: &[Line]) -> Vec<String> {
    lines.iter().map(|l| words(l).trim().to_string()).collect()
}

/// The role of each rendered line, plain for one without text.
fn roles(lines: &[Line]) -> Vec<Role> {
    lines
        .iter()
        .map(|l| l.spans.first().map_or(Role::Plain, |s| s.role))
        .collect()
}

fn rect(x: u16, y: u16, width: u16, height: u16) -> Rect {
    Rect { x, y, width, height }
}

fn nanos(seconds: f64) -> i64 {
    (seconds * 1e9).round() as i64
}

/// Lyric lines at the given timestamps.
fn timed_lines(at: &[f64]) -> Vec<LyricLine> {
    at.iter()
        .map(|at| LyricLine {
            at: nanos(*at),
            text: "line".into(),
        })
        .collect()
}

fn shifted(offset: f64) -> Lyrics {
    Lyrics {
        offset: Shift::Nanos(nanos(offset)),
        ..Default::default()
    }
}

#[test]
fn the_offset_moves_which_line_is_active() {
    let lines = timed_lines(&[10.0, 20.0, 30.0]);
    let at = |offset: f64, elapsed: f64| {
        active_index(&lines, shifted(offset).lyric_time(nanos(elapsed)))
    };

    // Unshifted: line b starts exactly at 20s.
    assert_eq!(at(0.0, 19.5), Some(0));
    assert_eq!(at(0.0, 20.0), Some(1));

    // Early (negative): b already shows half a second before it is sung,
    // and a full second before it with -1.0.
    assert_eq!(at(-0.5, 19.5), Some(1));
    assert_eq!(at(-1.0, 19.0), Some(1));
    assert_eq!(at(-1.0, 18.9), Some(0), "but not before its shifted time");

    // Late (positive): b is held back past 20s.
    assert_eq!(at(0.5, 20.0), Some(0));
    assert_eq!(at(0.5, 20.5), Some(1));

    // Shifted into the intro, nothing is active — as before the first line.
    assert_eq!(at(5.0, 12.0), None);
}

#[test]
fn the_offset_moves_the_redraw_boundary_with_it() {
    // The wake-up has to land on the boundary the highlight flips at, not
    // the record's raw one, or every line changes late by the offset.
    let lines = timed_lines(&[10.0, 20.0]);
    let wait = |offset: f64, elapsed: f64| {
        next_boundary(&lines, shifted(offset).lyric_time(nanos(elapsed)))
    };

    assert_eq!(wait(0.0, 15.0), Some(5_000_000_000));
    // Showing lines a second early means waking a second sooner.
    assert_eq!(wait(-1.0, 15.0), Some(4_000_000_000));
    assert_eq!(wait(1.0, 15.0), Some(6_000_000_000));
}

fn candidate(id: u64, track: &str, album: &str) -> TrackLyrics {
    TrackLyrics {
        id,
        track_name: track.into(),
        artist_name: "Lia".into(),
        album_name: album.into(),
        duration: Some(245 * SECOND),
        timing_mismatch: false,
        kind: LyricsKind::Plain(vec!["x".into()]),
    }
}

/// The picker's rows as they stand in their columns: six for the badge, eight for the
/// length, the rest for the name.
fn draw_picker(w: usize, items: &[TrackLyrics], current: Option<u64>, over: bool) -> Vec<String> {
    picker_rows(items, current, over, Some(245 * SECOND), 30)
        .iter()
        .map(|r| {
            let badge: String = r.badge.text.chars().take(6).collect();
            let name: String = words(&r.name).chars().take(w - 16).collect();
            format!("{badge:<6} {name:<fill$} {:<8}", r.length.text, fill = w - 16)
        })
        .collect()
}

#[test]
fn the_picker_marks_the_record_in_use() {
    let items = [
        candidate(1, "Song", "Album One"),
        candidate(2, "Song", "Album Two"),
    ];

    // A manual choice: the badge sits on that record, not on "Automatic".
    let out = draw_picker(60, &items, Some(2), true);
    assert!(
        !out[0].contains("IN USE"),
        "automatic is not in use: {out:?}"
    );
    assert!(!out[1].contains("IN USE"));
    assert!(out[2].contains("IN USE"), "row for #2 unmarked: {out:?}");

    // No override: "Automatic" is what's in use, and the record it
    // resolved to is marked so you can see which one that is.
    let out = draw_picker(60, &items, Some(1), false);
    assert!(out[0].contains("IN USE"), "{out:?}");
    assert_eq!(
        out.iter().filter(|r| r.contains("IN USE")).count(),
        1,
        "only one row can be in use: {out:?}"
    );
    assert!(
        out[1].contains("AUTO"),
        "automatic's record unmarked: {out:?}"
    );
    assert!(!out[2].contains("AUTO"));
}

#[test]
fn the_in_use_badge_survives_a_narrow_modal() {
    // The badge led the row precisely so a long name can't push it out of
    // view. 40 columns is the narrowest the modal goes.
    let items = [candidate(
        1,
        "A Very Long Track Name That Runs Past The Edge",
        "And A Long Album Name Too",
    )];
    let out = draw_picker(40, &items, Some(1), true);
    assert!(out[1].starts_with("IN USE"), "{out:?}");
}

#[test]
fn the_picker_opens_on_whatever_is_in_use() {
    let items = [candidate(1, "Song", "One"), candidate(2, "Song", "Two")];

    // Row 0 is "Automatic", so candidates are offset by one.
    assert_eq!(initial_picker_row(&items, Some(2), true), 2);
    assert_eq!(initial_picker_row(&items, Some(1), true), 1);
    // No override means automatic is in use, whatever is on screen.
    assert_eq!(initial_picker_row(&items, Some(2), false), 0);
    // An override the list doesn't contain falls back to the pinned row.
    assert_eq!(initial_picker_row(&items, Some(99), true), 0);
    assert_eq!(initial_picker_row(&[], Some(1), true), 0);
}

#[test]
fn section_draws_an_uppercase_label_over_a_rule() {
    let s = section(rect(0, 0, 24, 4), "Playlists", None, true);
    // The rect handed back must start below the rule.
    assert_eq!(s.body.y, 2);
    assert_eq!(s.body.height, 2);
    assert_eq!(words(&s.header.unwrap()), "PLAYLISTS");
    assert_eq!(s.rule.unwrap(), "─".repeat(24));
}

#[test]
fn section_shows_a_status_when_it_fits() {
    let status = || Some(Line::of("12 songs", Role::Dim));
    let wide = section(rect(0, 0, 30, 2), "Songs", status(), true);
    assert_eq!(words(&wide.header.unwrap()), "SONGS  ·  12 songs");

    // Too narrow for both: the status is dropped rather than wrapped or
    // clipped mid-word.
    let narrow = section(rect(0, 0, 10, 2), "Songs", status(), true);
    assert_eq!(words(&narrow.header.unwrap()).trim_end(), "SONGS");
}

#[test]
fn section_survives_a_degenerate_rect() {
    // One row: header only, no rule, and a zero-height body.
    let s = section(rect(0, 0, 12, 1), "Songs", None, false);
    assert_eq!(s.body.height, 0);
    assert!(s.rule.is_none());
    assert_eq!(words(&s.header.unwrap()), "SONGS");
    let _ = section(rect(0, 0, 1, 1), "Songs", None, false);
    assert!(section(rect(0, 0, 0, 3), "Songs", None, false).header.is_none());
}

#[test]
fn fit_hints_drops_whole_hints_rather_than_clipping() {
    let items = [("j/k", "nav"), ("↵", "play"), ("q", "quit")];
    let width = |l: &Line| -> usize { l.spans.iter().map(|s| width_of(&s.text)).sum() };

    // Everything fits.
    assert_eq!(width(&fit_hints(&items, 80)), 7 + 5 + 6 + 5 + 6);

    // Tight: keeps a prefix, never exceeds the budget, never half a hint.
    for w in 0..40usize {
        let l = fit_hints(&items, w);
        assert!(width(&l) <= w, "overflowed at width {w}");
        // n complete hints == 2n spans + (n-1) separators == 3n-1.
        // Anything else would mean a half-rendered hint.
        assert!(
            l.spans.is_empty() || (l.spans.len() + 1) % 3 == 0,
            "partial hint at width {w}: {} spans",
            l.spans.len()
        );
    }

    assert!(fit_hints(&items, 0).spans.is_empty());
}

#[test]
fn hints_that_just_fit_are_kept() {
    // A separator takes five columns, and a hint its key, a space and its words.
    let items = [("a", "bb"), ("c", "dd")];
    assert_eq!(words(&fit_hints(&items, 13)), "a bb  ·  c dd");
    assert_eq!(words(&fit_hints(&items, 12)), "a bb");
    let s = section(rect(0, 0, 13, 2), "Songs", Some(Line::of("abc", Role::Dim)), true);
    assert_eq!(words(&s.header.unwrap()), "SONGS  ·  abc");
}

#[test]
fn truncate_line_measures_display_cells_not_chars() {
    assert_eq!(truncate_line("hello", 10), "hello");
    assert_eq!(truncate_line("hello world", 8), "hello w…");
    assert_eq!(truncate_line("", 5), "");
    assert_eq!(truncate_line("abc", 0), "");

    // Wide (CJK) characters are two cells each: 5 chars = 10 cells, so a
    // char-based truncation would have over-run the column by 5.
    let wide = "日本語の歌";
    assert_eq!(width_of(wide), 10);
    let cut = truncate_line(wide, 6);
    assert!(width_of(&cut) <= 6, "{cut:?} was {} cells", width_of(&cut));
}

#[test]
fn fmt_secs_switches_to_hours() {
    assert_eq!(fmt_secs(0), "0:00");
    assert_eq!(fmt_secs(61 * SECOND), "1:01");
    assert_eq!(fmt_secs(221 * SECOND), "3:41");
    // Used to print "70:11" and clip a 5-wide column.
    assert_eq!(fmt_secs(4211 * SECOND), "1:10:11");
    assert_eq!(fmt_secs(-5 * SECOND), "0:00", "negatives must not wrap");
}

#[test]
fn scrollbar_only_reserves_space_when_the_list_overflows() {
    let area = rect(0, 0, 20, 10);
    // Fits: full width, no bar.
    assert_eq!(list_body(area, 10).width, 20);
    // Overflows: a column is reserved so the bar can't paint over content.
    assert_eq!(list_body(area, 11).width, 18);
}

#[test]
fn scrollbar_is_not_drawn_for_a_list_that_fits() {
    let area = rect(0, 0, 20, 6);
    assert!(!has_scrollbar(area, 6), "a fitting list must draw no scrollbar");
    assert!(has_scrollbar(area, 60));
}

#[test]
fn active_line_sits_on_the_centre_row() {
    let out = synced_view(&rows(20), Some(10), 7, 0);
    assert_eq!(out.len(), 7);
    // Centre of a 7-row view is index 3.
    assert_eq!(texts(&out)[3], "line10");
    assert_eq!(roles(&out)[3], Role::ActiveLyric);
}

#[test]
fn active_line_stays_centred_at_the_very_start() {
    // The view pads with blanks above rather than clamping to row 0.
    let out = synced_view(&rows(20), Some(0), 7, 0);
    let t = texts(&out);
    assert_eq!(t[3], "line0", "first lyric must still be centred");
    assert!(
        t[..3].iter().all(String::is_empty),
        "expected blank padding above"
    );
    assert_eq!(roles(&out)[3], Role::ActiveLyric);
}

#[test]
fn active_line_stays_centred_at_the_very_end() {
    let out = synced_view(&rows(20), Some(19), 7, 0);
    let t = texts(&out);
    assert_eq!(t[3], "line19");
    assert!(
        t[4..].iter().all(String::is_empty),
        "expected blank padding below"
    );
}

#[test]
fn only_the_active_line_is_coloured() {
    // Exactly one row is highlighted, and no other row carries a hue.
    let out = synced_view(&rows(20), Some(10), 7, 0);
    let s = roles(&out);
    assert_eq!(s.iter().filter(|r| **r == Role::ActiveLyric).count(), 1);
    assert!(
        s.iter()
            .enumerate()
            .filter(|(i, _)| *i != 3)
            .all(|(_, r)| matches!(r, Role::Plain | Role::Meta | Role::Dim)),
        "context rows must stay achromatic"
    );
}

#[test]
fn neighbours_are_brighter_than_distant_lines() {
    let out = synced_view(&rows(20), Some(10), 7, 0);
    let s = roles(&out);
    assert_eq!(s[2], Role::Meta, "line above");
    assert_eq!(s[4], Role::Meta, "line below");
    assert_eq!(s[1], Role::Dim, "two above");
    assert_eq!(s[5], Role::Dim, "two below");
}

#[test]
fn a_wrapped_lyric_highlights_as_one_unit() {
    // Two display rows belonging to lyric 1 must both be highlighted.
    let wrapped = vec![
        LyricRow {
            lyric: 0,
            text: "a".into(),
        },
        LyricRow {
            lyric: 1,
            text: "long part one".into(),
        },
        LyricRow {
            lyric: 1,
            text: "long part two".into(),
        },
        LyricRow {
            lyric: 2,
            text: "b".into(),
        },
    ];
    let out = synced_view(&wrapped, Some(1), 4, 0);
    let highlighted = roles(&out).iter().filter(|r| **r == Role::ActiveLyric).count();
    assert_eq!(highlighted, 2);
}

#[test]
fn interlude_shows_a_marker_instead_of_empty_text() {
    let gap = vec![
        LyricRow {
            lyric: 0,
            text: "a".into(),
        },
        LyricRow {
            lyric: 1,
            text: String::new(),
        },
        LyricRow {
            lyric: 2,
            text: "b".into(),
        },
    ];
    let out = synced_view(&gap, Some(1), 3, 0);
    assert_eq!(texts(&out)[1], "♪ ♪ ♪");
    assert_eq!(roles(&out)[1], Role::ActiveLyric);
}

#[test]
fn intro_dims_everything() {
    let out = synced_view(&rows(20), None, 5, 0);
    assert!(roles(&out).iter().all(|r| *r != Role::ActiveLyric));
}

#[test]
fn scroll_offsets_the_view_without_panicking() {
    // Far out of range in both directions must yield blanks, not a panic.
    assert_eq!(synced_view(&rows(20), Some(10), 5, -9999).len(), 5);
    assert_eq!(synced_view(&rows(20), Some(10), 5, 9999).len(), 5);
    assert!(texts(&synced_view(&rows(20), Some(10), 5, 9999))
        .iter()
        .all(String::is_empty));
}

#[test]
fn degenerate_inputs_are_safe() {
    assert!(synced_view(&[], Some(0), 5, 0)
        .iter()
        .all(|l| l.spans.is_empty() || l.spans.iter().all(|s| s.text.is_empty())));
    assert_eq!(synced_view(&rows(5), Some(0), 0, 0).len(), 0);
}

#[test]
fn a_cut_line_is_no_wider_than_its_room() {
    for room in 0..12 {
        let cut = truncate_line("日本語 abc", room);
        assert!(width_of(&cut) <= room, "{cut:?} in {room}");
    }
}

#[test]
fn long_lines_are_wrapped_and_counted() {
    assert_eq!(wrap_n_lines("aa bb cc\n\nd", 5, 9), ["aa bb", " cc", "", "d"]);
    assert_eq!(wrap_n_lines("aaaabbbbcccc", 4, 2), ["aaaa", "bbb…"]);
    assert_eq!(wrap_n_lines("aaaabbbb", 4, 2), ["aaaa", "bbbb"]);
    assert_eq!(wrap_n_lines("", 4, 2), [""]);
    assert_eq!(wrap_n_lines("a\nb", 0, 2), ["a\nb"]);
    let line = "the rows of a line hold it whole";
    assert_eq!(wrap_n_lines(line, 7, usize::MAX).concat(), line);
    assert_eq!(text_rows("aaaabbbb\n\nc", 4), 4);
    assert_eq!(text_rows("", 4), 1);
    assert_eq!(text_rows("aaaa", 0), 1);
}

#[test]
fn a_clipped_text_counts_characters() {
    assert_eq!(clip("hello", 5), "hello");
    assert_eq!(clip("hello", 3), "he…");
    assert_eq!(clip("hello", 0), "");
    assert_eq!(align_right("7", 3), "  7");
    assert_eq!(align_right("1234", 3), "1234");
    assert_eq!(repeat('─', 3), "───");
}

#[test]
fn lengths_read_the_same_under_an_hour() {
    for secs in [0, 59, 60, 3599] {
        assert_eq!(fmt_duration(secs), fmt_minutes(secs));
    }
    assert_eq!(fmt_duration(3661), "1:01:01");
    assert_eq!(fmt_minutes(3661), "61:01");
    assert_eq!(fmt_clock(3661 * SECOND + 999_999_999), "61:01");
    assert_eq!(fmt_hours(3661), "1h 1min");
    assert_eq!(fmt_hours(119), "1min");
}

#[test]
fn hints_are_a_key_and_what_it_does() {
    assert_eq!(words(&hint("q", "quit")), "q quit");
    assert_eq!(words(&hint_pair("q", "quit", "?", "keys")), "q quit  ·  ? keys");
    assert_eq!(width(&hint("↵", "歌")), 4);
    assert_eq!(styled("a", Role::Key).role, Role::Key);
}

#[test]
fn a_message_stands_in_the_middle() {
    let lines = centered_message(rect(0, 0, 9, 5), vec![Line::of("hm", Role::Dim)]);
    assert_eq!(texts(&lines), ["", "", "hm"]);
    assert!(centered_message(rect(0, 0, 0, 5), vec![Line::of("hm", Role::Dim)]).is_empty());
}

#[test]
fn a_selection_stays_within_its_list() {
    assert_eq!(select_next(None), Some(0));
    assert_eq!(select_previous(select_next(Some(3))), Some(3));
    assert_eq!(select_previous(Some(0)), Some(0));
    assert_eq!(select_within(Some(9), 4), Some(3));
    assert_eq!(select_within(Some(9), 0), None);
    assert!(rect(2, 2, 3, 3).contains(4, 4));
    assert!(!rect(2, 2, 3, 3).contains(5, 4));
}

#[test]
fn prose_is_scrolled_within_its_length() {
    let (lines, top) = plain_view(&rows(10), 4, 99);
    assert_eq!(top, 6);
    assert_eq!(texts(&lines), ["line6", "line7", "line8", "line9"]);
    let (lines, top) = plain_view(&rows(3), 4, 1);
    assert_eq!((lines.len(), top), (3, 0));
}

#[test]
fn a_record_is_laid_out_in_rows() {
    let mut found = candidate(7, "Song", "Album");
    found.kind = LyricsKind::Plain(vec!["aaa bbb".into(), "".into()]);
    let rows: Vec<(usize, String)> =
        lyric_rows(&found, 4).into_iter().map(|r| (r.lyric, r.text)).collect();
    assert_eq!(rows[0], (0, "aaa ".to_string()));
    assert_eq!(rows.last().unwrap(), &(1, String::new()));
    assert_eq!(untimed_badge(&found).text, "¶ unsynced");
    found.timing_mismatch = true;
    assert_eq!(untimed_badge(&found).text, "¶ timing differs");
    let status = lyrics_status(&found, None, Some("-0.3s".to_string()));
    assert!(words(&status).contains("-0.3s"), "{}", words(&status));
}

#[test]
fn no_line_is_sung_in_the_intro() {
    let lines = timed_lines(&[10.0, 20.0]);
    assert_eq!(sung_line(&lines, nanos(9.9)), None);
    assert_eq!(sung_line(&lines, nanos(10.0)), Some(0));
}
