use ytm_core::library::{Library, Playlist, Track};
use ytm_core::persistence::{
    build_queue_state, default_volume, try_restore, CachedTranslation, LyricsOverrides, QueueEntry,
    QueueState, RestoreOutcome, Settings, Translations, MAX_SAVED_TRANSLATIONS,
};

fn library() -> Library {
    Library::new(vec![Playlist {
        playlist_id: "PL1".to_string(),
        title: "Mine".to_string(),
        count: Some(1),
    }])
}

fn track(video_id: &str) -> Track {
    Track {
        video_id: Some(video_id.to_string()),
        title: Some("Song".to_string()),
        artists: Vec::new(),
        album: None,
        duration: None,
        duration_seconds: Some(100),
    }
}

fn saved() -> QueueState {
    QueueState {
        entries: vec![QueueEntry {
            playlist_id: Some("PL1".to_string()),
            video_id: "aaa".to_string(),
        }],
        position: Some(0),
    }
}

#[test]
fn a_queue_waits_for_the_playlist_it_names() {
    let lib = library();
    assert!(matches!(
        try_restore(&lib, &saved()),
        RestoreOutcome::Pending
    ));
}

#[test]
fn a_playlist_that_failed_to_load_does_not_discard_the_queue() {
    // Were a failed fetch "loaded", the saved video would look permanently
    // absent, and a queue built over weeks would be dropped because one
    // request timed out. Pending keeps it, and a retry finally resolves it.
    let mut lib = library();
    lib.apply_song_batch(0, None);
    assert!(matches!(
        try_restore(&lib, &saved()),
        RestoreOutcome::Pending
    ));

    lib.apply_song_batch(0, Some(vec![track("aaa")]));
    let RestoreOutcome::Ready { queue, position } = try_restore(&lib, &saved()) else {
        panic!("the retry should have restored it");
    };
    assert_eq!(queue, [(0, 0)]);
    assert_eq!(position, Some(0));
}

#[test]
fn a_playlist_that_is_loaded_and_really_empty_abandons_the_queue() {
    // No amount of waiting brings the track back — the user deleted it.
    let mut lib = library();
    lib.apply_song_batch(0, Some(Vec::new()));
    assert!(matches!(
        try_restore(&lib, &saved()),
        RestoreOutcome::Abandoned
    ));
}

#[test]
fn a_queue_naming_a_playlist_that_is_gone_is_abandoned() {
    let lib = Library::new(Vec::new());
    assert!(matches!(
        try_restore(&lib, &saved()),
        RestoreOutcome::Abandoned
    ));
}

fn lines() -> Vec<String> {
    vec!["\u{4e00}".to_string(), "\u{4e8c}".to_string()]
}

#[test]
fn what_was_bought_comes_back() {
    let mut saved = Translations::default();
    saved.set(7, "zh", "haiku-4-5", lines());
    assert_eq!(saved.get(7, "zh").unwrap(), lines());
    assert!(saved.get(8, "zh").is_none());
}

#[test]
fn a_translation_comes_back_in_the_language_it_was_stored_under() {
    let mut saved = Translations::default();
    saved.set(7, "zh", "haiku-4-5", lines());
    // `lyrics.translate-to` changed between sessions.
    assert!(saved.get(7, "fr").is_none());
}

#[test]
fn r_forgets_one_and_leaves_the_rest() {
    let mut saved = Translations::default();
    saved.set(7, "zh", "haiku-4-5", lines());
    saved.set(8, "zh", "haiku-4-5", lines());
    assert!(saved.remove(7));
    assert!(!saved.remove(7));
    assert!(saved.get(7, "zh").is_none());
    assert!(saved.get(8, "zh").is_some());
}

#[test]
fn the_file_stops_growing_at_the_cap() {
    let mut saved = Translations::default();
    for id in 0..MAX_SAVED_TRANSLATIONS as u64 + 10 {
        // Set directly rather than through `set`, which stamps the clock.
        saved.entries.insert(
            id.to_string(),
            CachedTranslation {
                language: "zh".to_string(),
                model: "haiku-4-5".to_string(),
                saved_at: id,
                lines: lines(),
            },
        );
        saved.evict();
    }
    assert_eq!(saved.len(), MAX_SAVED_TRANSLATIONS);
    assert!(saved.get(0, "zh").is_none());
    assert!(saved.get(MAX_SAVED_TRANSLATIONS as u64 + 9, "zh").is_some());
}

#[test]
fn a_kept_translation_is_stamped_with_the_time() {
    let mut saved = Translations::default();
    assert!(saved.is_empty());
    saved.set(7, "zh", "m", lines());
    let (key, entry) = saved.entries.at(0);
    assert_eq!(key, "7");
    assert!(entry.saved_at > 1_600_000_000);
    saved.set_at(7, "fr", "n", lines(), 12);
    assert_eq!(saved.len(), 1);
    assert_eq!(saved.entries.get("7").unwrap().saved_at, 12);
}

#[test]
fn of_two_of_one_second_the_first_key_goes() {
    let mut saved = Translations::default();
    for id in 0..MAX_SAVED_TRANSLATIONS as u64 + 1 {
        saved.entries.insert(
            id.to_string(),
            CachedTranslation {
                language: String::new(),
                model: String::new(),
                saved_at: 5,
                lines: Vec::new(),
            },
        );
    }
    saved.evict();
    assert_eq!(saved.len(), MAX_SAVED_TRANSLATIONS);
    assert!(saved.get(0, "").is_none());
    assert!(saved.get(1, "").is_some());
}

#[test]
fn a_saved_queue_comes_back_as_it_was() {
    let mut lib = library();
    lib.apply_song_batch(0, Some(vec![track("aaa"), track("bbb"), track("ccc")]));
    let state = build_queue_state(&lib, &[(0, 2), (0, 0)], Some(1)).unwrap();
    assert_eq!(state.entries[0].video_id, "ccc");
    assert_eq!(state.entries[0].playlist_id.as_deref(), Some("PL1"));
    match try_restore(&lib, &state) {
        RestoreOutcome::Ready { queue, position } => {
            assert_eq!(queue, [(0, 2), (0, 0)]);
            assert_eq!(position, Some(1));
        }
        other => panic!("{other:?}"),
    }
    assert!(build_queue_state(&lib, &[], None).is_none());
    assert!(build_queue_state(&lib, &[(7, 7)], None).is_none());
}

#[test]
fn a_position_counts_the_entries_that_are_saved() {
    let mut lib = library();
    let mut unplayable = track("aaa");
    unplayable.video_id = None;
    lib.apply_song_batch(0, Some(vec![unplayable, track("bbb"), track("ccc")]));
    let state = build_queue_state(&lib, &[(0, 0), (0, 1)], Some(1)).unwrap();
    assert_eq!(state.entries.len(), 1);
    assert_eq!(state.entries[0].video_id, "bbb");
    assert_eq!(state.entries[0].playlist_id.as_deref(), Some("PL1"));
    assert_eq!(state.position, Some(0));
    let state = build_queue_state(&lib, &[(0, 1), (0, 0), (0, 2)], Some(2)).unwrap();
    assert!(matches!(
        try_restore(&lib, &state),
        RestoreOutcome::Ready { ref queue, position: Some(1) } if queue[1] == (0, 2)
    ));
    let state = build_queue_state(&lib, &[(0, 1), (0, 0), (0, 2)], Some(1)).unwrap();
    assert_eq!((state.entries.len(), state.position), (2, None));
}

#[test]
fn a_position_that_no_longer_fits_starts_over() {
    let mut lib = library();
    lib.apply_song_batch(0, Some(vec![track("aaa")]));
    let state = QueueState { position: Some(4), ..saved() };
    assert!(matches!(
        try_restore(&lib, &state),
        RestoreOutcome::Ready { position: Some(0), .. }
    ));
}

#[test]
fn a_chosen_record_is_kept_and_cleared() {
    let mut o = LyricsOverrides::default();
    assert_eq!(o.get("v"), None);
    o.set("v", 3);
    o.set("w", 4);
    o.set("v", 5);
    assert_eq!((o.get("v"), o.get("w")), (Some(5), Some(4)));
    o.clear("v");
    assert_eq!((o.get("v"), o.get("w")), (None, Some(4)));
}

#[test]
fn the_usual_volume_is_eighty() {
    assert_eq!(default_volume(), 80);
    assert_eq!(Settings::default().volume, 80);
}

#[test]
fn the_number_of_translations_stops_at_the_limit() {
    let mut saved = Translations::default();
    assert!(saved.is_empty());
    saved.set_at(1, "en", "m", Vec::new(), 5);
    saved.set_at(1, "de", "m", Vec::new(), 6);
    assert_eq!((saved.len(), saved.is_empty()), (1, false));
    assert!(saved.remove(1));
    assert!(!saved.remove(1));
    assert!(saved.is_empty());
    for id in 0..MAX_SAVED_TRANSLATIONS as u64 {
        saved.set_at(id, "en", "m", Vec::new(), id);
        assert_eq!(saved.len() as u64, id + 1);
    }
    saved.set_at(5000, "en", "m", Vec::new(), 5000);
    assert_eq!(saved.len(), MAX_SAVED_TRANSLATIONS);
    assert!(saved.get(0, "en").is_none());
    assert!(saved.get(5000, "en").is_some());
}
