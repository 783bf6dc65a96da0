use ytm_core::library::{retry_delay_ms, Artist, Library, Playlist, Track};

fn library() -> Library {
    Library::new(vec![Playlist {
        playlist_id: "PL1".to_string(),
        title: "Mine".to_string(),
        count: Some(1),
    }])
}

fn track(video_id: &str) -> Track {
    Track {
        video_id: Some(video_id.to_string()),
        title: Some("Song".to_string()),
        artists: Vec::new(),
        album: None,
        duration: None,
        duration_seconds: Some(100),
    }
}

#[test]
fn a_playlist_that_arrives_is_loaded() {
    let mut lib = library();
    lib.apply_song_batch(0, Some(vec![track("aaa")]));
    assert!(lib.is_loaded(0));
    assert!(!lib.has_failed(0));
    assert_eq!(lib.total_duration_secs(0), 100);
}

#[test]
fn a_playlist_that_failed_is_not_an_empty_one() {
    // "Loaded, and it has no songs" reads to the user as an empty playlist and
    // to a saved queue as grounds for being thrown away.
    let mut lib = library();
    lib.apply_song_batch(0, None);
    assert!(!lib.is_loaded(0));
    assert!(lib.has_failed(0));
    assert!(lib.songs(0).is_empty());
}

#[test]
fn an_empty_playlist_is_still_loaded() {
    let mut lib = library();
    lib.apply_song_batch(0, Some(Vec::new()));
    assert!(lib.is_loaded(0));
    assert!(!lib.has_failed(0));
}

#[test]
fn a_retry_reads_as_loading_and_then_clears_the_failure() {
    let mut lib = library();
    lib.apply_song_batch(0, None);
    lib.mark_retrying(0);
    assert!(!lib.has_failed(0), "shows the throbber, not the error");
    assert!(!lib.is_loaded(0));

    lib.apply_song_batch(0, Some(vec![track("aaa")]));
    assert!(lib.is_loaded(0));
    assert!(!lib.has_failed(0));
}

#[test]
fn a_batch_for_a_playlist_that_does_not_exist_is_dropped() {
    let mut lib = library();
    lib.apply_song_batch(9, Some(vec![track("aaa")]));
    lib.apply_song_batch(9, None);
    assert_eq!(lib.len(), 1);
}

#[test]
fn tracks_are_found_by_what_names_them() {
    let mut lib = library();
    lib.apply_song_batch(0, Some(vec![track("aaa"), track("bbb"), track("bbb")]));
    assert_eq!(lib.find_playlist_index("PL1"), Some(0));
    assert_eq!(lib.find_playlist_index("PL2"), None);
    assert_eq!(lib.find_song_index(0, "bbb"), Some(1), "the first of two");
    assert_eq!(lib.find_song_index(0, "ccc"), None);
    assert_eq!(lib.find_song_index(1, "aaa"), None);
    assert!(lib.track(0, 2).is_some());
    assert!(lib.track(0, 3).is_none());
    assert_eq!(lib.playlist(0).unwrap().title, "Mine");
    assert!(lib.playlist(1).is_none() && lib.entry(1).is_none());
    assert_eq!(lib.entries().len(), 1);
    assert!(!lib.is_empty());
}

#[test]
fn artists_are_listed_with_commas() {
    let mut t = track("a");
    assert_eq!(t.artist_names(), "");
    t.artists.push(Artist { name: "理芽".into(), id: None });
    assert_eq!(t.artist_names(), "理芽");
    t.artists.push(Artist { name: "Guiano".into(), id: Some("x".into()) });
    assert_eq!(t.artist_names(), "理芽, Guiano");
}

#[test]
fn a_track_without_a_length_adds_nothing() {
    let mut lib = library();
    let unknown = Track { duration_seconds: None, ..track("b") };
    lib.apply_song_batch(0, Some(vec![track("a"), unknown, track("c")]));
    assert_eq!(lib.total_duration_secs(0), 200);
    assert_eq!(lib.total_duration_secs(5), 0);
}

#[test]
fn fetches_are_retried_a_few_times() {
    assert_eq!(retry_delay_ms(1), Some(500));
    assert_eq!(retry_delay_ms(2), Some(1000));
    assert_eq!(retry_delay_ms(3), None);
}
