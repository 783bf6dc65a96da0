use ytm_core::library::{Album, Artist, Track};
use ytm_core::lrc::LyricLine;
use ytm_core::lyrics::{rank, use_all, Attempt, Lyrics, LyricsKind, LyricsQuery, TrackLyrics};

fn ns(secs: f64) -> i64 {
    (secs * 1e9).round() as i64
}

fn q(duration: Option<f64>) -> LyricsQuery {
    LyricsQuery {
        title: "Echo".into(),
        artist: "Crusher-P".into(),
        album: String::new(),
        duration: duration.map(ns),
    }
}

fn rec(id: u64, duration: f64, synced: bool) -> TrackLyrics {
    TrackLyrics {
        id,
        track_name: "Echo".into(),
        artist_name: "Crusher-P".into(),
        album_name: String::new(),
        duration: Some(ns(duration)),
        timing_mismatch: false,
        kind: if synced {
            LyricsKind::Synced(vec![LyricLine {
                at: 0,
                text: "x".into(),
            }])
        } else {
            LyricsKind::Plain(vec!["x".into()])
        },
    }
}

fn ids(v: &[TrackLyrics]) -> Vec<u64> {
    v.iter().map(|c| c.id).collect()
}

#[test]
fn ladder_broadens_and_collapses_duplicates() {
    // Clean metadata with no album: the first two steps are identical, so
    // a well-tagged track must not pay for a duplicate request.
    let clean = LyricsQuery {
        title: "Ribs".into(),
        artist: "Lorde".into(),
        album: String::new(),
        duration: Some(ns(221.0)),
    };
    let ladder = clean.search_ladder();
    let mut uniq: Vec<String> = ladder.iter().map(|a| format!("{a:?}")).collect();
    let before = uniq.len();
    uniq.sort();
    uniq.dedup();
    assert_eq!(
        before,
        uniq.len(),
        "duplicate rungs cost extra requests: {ladder:?}"
    );
    assert_eq!(
        ladder[0],
        Attempt::Meta {
            track: "Ribs".into(),
            artist: "Lorde".into(),
            album: String::new()
        }
    );

    // Messy metadata: the album is dropped, then the title cleaned, then
    // free text — every step actually differs.
    let messy = LyricsQuery {
        title: "法螺話 (Official Video)".into(),
        artist: "理芽 - Topic".into(),
        album: "幻朧".into(),
        duration: Some(ns(198.0)),
    };
    let ladder = messy.search_ladder();
    assert!(matches!(&ladder[1], Attempt::Meta { album, .. } if album.is_empty()));
    assert!(
        ladder
            .iter()
            .any(|a| matches!(a, Attempt::Meta { track, artist, .. }
                if track == "法螺話" && artist == "理芽")),
        "ladder never tries the normalised form: {ladder:?}"
    );
    assert!(ladder
        .iter()
        .any(|a| matches!(a, Attempt::FreeText(q) if q == "法螺話 理芽")));
}

#[test]
fn synced_outranks_plain() {
    let out = rank(
        vec![rec(1, 245.0, false), rec(2, 245.0, true)],
        &q(Some(245.0)),
    );
    assert_eq!(ids(&out), [2, 1]);
}

#[test]
fn closer_duration_wins_among_equals() {
    let out = rank(
        vec![
            rec(1, 250.0, true),
            rec(2, 245.0, true),
            rec(3, 248.0, true),
        ],
        &q(Some(245.0)),
    );
    assert_eq!(ids(&out), [2, 3, 1]);
}

#[test]
fn synced_still_beats_a_closer_plain_match() {
    // Duration is only a tiebreak — a perfectly-matching plain record must
    // not displace a synced one, since synced is the whole point.
    let out = rank(
        vec![rec(1, 245.0, false), rec(2, 249.0, true)],
        &q(Some(245.0)),
    );
    assert_eq!(ids(&out), [2, 1]);
}

#[test]
fn closest_duration_wins_even_by_one_second() {
    // A 4:05 (245s) record must beat a looser one for a 4:04 (244s) track —
    // and the exact 244s beats them both.
    let out = rank(
        vec![
            rec(1, 248.0, true),
            rec(2, 245.0, true),
            rec(3, 244.0, true),
        ],
        &q(Some(244.0)),
    );
    assert_eq!(ids(&out), [3, 2, 1]);
}

#[test]
fn records_without_a_duration_lose_to_timed_ones() {
    let mut unknown = rec(9, 0.0, true);
    unknown.duration = None;
    let out = rank(vec![unknown, rec(1, 246.0, true)], &q(Some(244.0)));
    assert_eq!(ids(&out), [1]);

    // With no known duration to compare against, it is kept and ordered
    // behind nothing in particular.
    let mut unknown = rec(9, 0.0, true);
    unknown.duration = None;
    assert_eq!(rank(vec![unknown, rec(1, 250.0, true)], &q(None)).len(), 2);
}

#[test]
fn a_record_without_duration_is_hidden_when_the_track_length_is_known() {
    // We can't tell whether it fits, so it can't be vouched for.
    let mut unknown = rec(9, 0.0, true);
    unknown.duration = None;
    assert!(rank(vec![unknown], &q(Some(244.0))).is_empty());

    // With no track duration to compare against, it is kept.
    let mut unknown = rec(9, 0.0, true);
    unknown.duration = None;
    assert_eq!(ids(&rank(vec![unknown], &q(None))), [9]);
}

#[test]
fn far_off_durations_are_filtered() {
    let out = rank(
        vec![rec(1, 245.0, true), rec(2, 400.0, true)],
        &q(Some(245.0)),
    );
    assert_eq!(ids(&out), [1]);
}

#[test]
fn far_off_records_are_hidden_even_when_nothing_else_matches() {
    // A lyric sheet for a different edit is worse than none: it scrolls
    // visibly out of time.
    let out = rank(
        vec![rec(1, 400.0, true), rec(2, 500.0, true)],
        &q(Some(245.0)),
    );
    assert!(out.is_empty());
}

#[test]
fn the_window_is_a_few_seconds_not_a_dozen() {
    let out = rank(
        vec![rec(1, 259.0, true), rec(2, 248.0, true)],
        &q(Some(244.0)),
    );
    assert_eq!(ids(&out), [2], "a 15s difference must not be offered");
}

#[test]
fn unknown_duration_skips_the_filter() {
    let out = rank(vec![rec(1, 400.0, true), rec(2, 10.0, true)], &q(None));
    assert_eq!(out.len(), 2);
}

#[test]
fn ties_preserve_source_order() {
    let out = rank(
        vec![
            rec(7, 245.0, true),
            rec(8, 245.0, true),
            rec(9, 245.0, true),
        ],
        &q(Some(245.0)),
    );
    assert_eq!(ids(&out), [7, 8, 9]);
}

fn base() -> Lyrics {
    Lyrics {
        id: 1,
        track_name: "t".into(),
        artist_name: "a".into(),
        album_name: String::new(),
        duration: Some(ns(100.0)),
        instrumental: true,
        plain_lyrics: None,
        synced_lyrics: None,
    }
}

#[test]
fn instrumental_and_empty_records_convert_correctly() {
    let inst = TrackLyrics::from_record(base()).expect("instrumental is usable");
    assert!(matches!(inst.kind, LyricsKind::Instrumental));

    // Not instrumental and no content at all → unusable, dropped.
    let empty = Lyrics {
        instrumental: false,
        ..base()
    };
    assert!(TrackLyrics::from_record(empty).is_none());

    // Empty-string synced falls through to plain.
    let blank_synced = Lyrics {
        instrumental: false,
        synced_lyrics: Some("   ".into()),
        plain_lyrics: Some("just text".into()),
        ..base()
    };
    let got = TrackLyrics::from_record(blank_synced).expect("plain is usable");
    assert!(matches!(&got.kind, LyricsKind::Plain(lines) if *lines == vec!["just text".to_string()]));

    // Unparseable synced (no timestamps) also falls through to plain.
    let bad_synced = Lyrics {
        instrumental: false,
        synced_lyrics: Some("no timestamps here".into()),
        plain_lyrics: Some("just text".into()),
        ..base()
    };
    let got = TrackLyrics::from_record(bad_synced).expect("plain is usable");
    assert!(matches!(got.kind, LyricsKind::Plain(_)));
}

#[test]
fn records_without_words_are_left_out() {
    let wordless = Lyrics {
        instrumental: false,
        ..base()
    };
    let timed = Lyrics {
        id: 2,
        instrumental: false,
        synced_lyrics: Some("[00:02.00]b\n[00:01.00]a".into()),
        ..base()
    };
    let out = use_all(vec![wordless, timed, base()]);
    assert_eq!(ids(&out), [2, 1]);
    assert!(out[0].is_synced() && out[0].in_time());
    assert_eq!(out[0].synced_lines().unwrap()[0].text, "a");
    assert!(out[1].synced_lines().is_none());
}

#[test]
fn a_length_is_compared_both_ways() {
    let r = rec(1, 245.0, true);
    assert_eq!(r.duration_delta(Some(ns(244.0))), Some(1_000_000_000));
    assert_eq!(r.duration_delta(Some(ns(246.5))), Some(1_500_000_000));
    assert_eq!(r.duration_delta(None), None);
}

#[test]
fn a_query_is_made_from_a_track() {
    let track = Track {
        video_id: Some("v".into()),
        title: Some("Echo".into()),
        artists: vec![
            Artist { name: "A".into(), id: None },
            Artist { name: "B".into(), id: None },
        ],
        album: Some(Album { name: "Al".into(), id: None }),
        duration: None,
        duration_seconds: Some(244),
    };
    let q = LyricsQuery::from_track(&track).unwrap();
    assert_eq!((q.title.as_str(), q.artist.as_str(), q.album.as_str()), ("Echo", "A, B", "Al"));
    assert_eq!(q.duration, Some(ns(244.0)));
    assert!(LyricsQuery::from_track(&Track { title: None, ..track }).is_none());
}

#[test]
fn a_record_out_of_time_is_told() {
    let mut r = rec(1, 1.0, true);
    r.kind = LyricsKind::Synced(vec![
        LyricLine { at: 2, text: String::new() },
        LyricLine { at: 1, text: String::new() },
    ]);
    assert!(!r.in_time());
}
