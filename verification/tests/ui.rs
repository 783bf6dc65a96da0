use ytm_core::config::Config;
use ytm_core::library::{Artist, Library, Playlist, Track};
use ytm_core::lrc::LyricLine;
use ytm_core::lyrics::{LyricsKind, LyricsMsg, TrackLyrics};
use ytm_core::panel::{Line, Rect};
use ytm_core::persistence::{LyricsOverrides, QueueEntry, QueueState};
use ytm_core::playback::{AudioState, Cmd};
use ytm_core::player::PlayMode;
use ytm_core::screen::{
    help_line, hints, keymap_lines, keymap_size, list_status, lyrics_panel, lyrics_room,
    now_playing, picker_hints, picker_panel, picker_size, player_status, player_times,
    playlists_panel, progress, queue_panel, songs_panel, time_width, track_duration, Body,
    LyricsBody, PickerBody,
};
use ytm_core::ui::{
    App, Key, LyricsEntry, Panel, Request, Scroll, DURATION_WAIT, IDLE, NOTIFICATION_TTL,
    SHORTEST_WAIT,
};

const SECOND: i64 = 1_000_000_000;

fn track(i: usize) -> Track {
    Track {
        video_id: Some(format!("v{i}")),
        title: Some(format!("Song {i}")),
        artists: vec![Artist { name: "Ann".to_string(), id: None }],
        album: None,
        duration: Some("1:40".to_string()),
        duration_seconds: Some(100),
    }
}

fn audio() -> AudioState {
    AudioState {
        elapsed: 0,
        total: 0,
        paused: false,
        loading: false,
        error: None,
        song_ended: false,
    }
}

fn empty_app(saved: Option<QueueState>) -> App {
    let lists = vec![Playlist {
        playlist_id: "PL1".to_string(),
        title: "Mine".to_string(),
        count: Some(4),
    }];
    App::new(Library::new(lists), saved, 80, LyricsOverrides::default(), Config::default())
}

/// An app with one playlist of four songs.
fn app() -> App {
    let mut a = empty_app(None);
    a.apply_song_batch(0, Some((0..4).map(track).collect()));
    a
}

fn press(a: &mut App, key: Key) -> bool {
    a.handle_key(key, false, &audio(), 1000)
}

fn presses(a: &mut App, keys: &str) {
    for c in keys.chars() {
        assert!(!press(a, Key::Char(c)), "{c} quits");
    }
}

/// An app that plays its second song, with the commands for it taken.
fn playing() -> App {
    let mut a = app();
    presses(&mut a, "lj");
    press(&mut a, Key::Enter);
    a.take_commands();
    a
}

fn played(a: &mut App) -> Vec<String> {
    a.take_commands()
        .into_iter()
        .filter_map(|c| match c {
            Cmd::Play(id) => Some(id),
            _ => None,
        })
        .collect()
}

fn record(id: u64) -> TrackLyrics {
    TrackLyrics {
        id,
        track_name: "Song".to_string(),
        artist_name: "Ann".to_string(),
        album_name: String::new(),
        duration: Some(100 * SECOND),
        timing_mismatch: false,
        kind: LyricsKind::Synced(vec![
            LyricLine { at: 10 * SECOND, text: "one".to_string() },
            LyricLine { at: 20 * SECOND, text: "two".to_string() },
        ]),
    }
}

fn best(video_id: &str, found: Option<TrackLyrics>) -> LyricsMsg {
    LyricsMsg::Best { video_id: video_id.to_string(), result: Ok(found) }
}

fn words(line: &Line) -> String {
    line.spans.iter().map(|s| s.text.as_str()).collect()
}

fn rect(width: u16, height: u16) -> Rect {
    Rect { x: 0, y: 0, width, height }
}

#[test]
fn a_song_is_chosen_and_played() {
    let mut a = app();
    assert_eq!(a.active_panel(), Panel::Playlists);
    presses(&mut a, "l");
    assert_eq!(a.active_panel(), Panel::Songs);
    presses(&mut a, "j");
    a.take_commands();
    press(&mut a, Key::Enter);
    assert_eq!(played(&mut a), ["v1"]);
    assert_eq!(a.current_video_id().as_deref(), Some("v1"));
    assert_eq!(a.current_track().unwrap().title.as_deref(), Some("Song 1"));
    presses(&mut a, "n");
    assert_eq!(played(&mut a), ["v2"]);
    presses(&mut a, "o");
    presses(&mut a, "pp");
    assert_eq!(a.queue_row(), Some(0), "the cursor in the queue follows");
    assert_eq!(a.current_video_id().as_deref(), Some("v0"));
    a.handle_song_end(true);
    assert_eq!(a.current_video_id().as_deref(), Some("v1"));
}

#[test]
fn control_c_quits_from_anywhere() {
    for keys in ["", "?", "l/", "ly"] {
        let mut a = app();
        presses(&mut a, keys);
        assert!(a.handle_key(Key::Char('c'), true, &audio(), 0), "{keys}");
    }
    assert!(press(&mut app(), Key::Char('q')));
}

#[test]
fn the_overview_takes_one_key() {
    let mut a = app();
    presses(&mut a, "?");
    assert!(a.show_keymap());
    presses(&mut a, "l");
    assert!(!a.show_keymap());
    assert_eq!(a.active_panel(), Panel::Playlists);
}

#[test]
fn a_query_narrows_the_list_and_goes() {
    let mut a = app();
    presses(&mut a, "l/");
    assert!(a.filter_mode());
    presses(&mut a, "g 3");
    assert_eq!(a.filtered_songs(0), [3]);
    press(&mut a, Key::Backspace);
    assert_eq!(a.filtered_songs(0), [0, 1, 2, 3]);
    press(&mut a, Key::Enter);
    assert!(!a.filter_mode());
    assert_eq!(a.filter(), ['g', ' ']);
    press(&mut a, Key::Esc);
    assert!(a.filter().is_empty());
}

#[test]
fn the_queue_is_edited_in_place() {
    let mut a = playing();
    presses(&mut a, "o");
    assert!(a.show_queue());
    assert_eq!(a.filtered_queue_positions(), [0, 1, 2, 3]);
    presses(&mut a, "d");
    assert_eq!(a.player().queue().len(), 3);
    assert!(a.notification().is_some());
    presses(&mut a, "o");
    presses(&mut a, "a");
    assert_eq!(a.player().queue().len(), 4);
    presses(&mut a, "ttt");
    assert_eq!(a.player().mode(), PlayMode::Cycle);
    assert_eq!(a.player().queue().len(), 4);
}

#[test]
fn notifications_expire() {
    let mut a = playing();
    presses(&mut a, "a");
    a.tick(&audio(), 1000 + NOTIFICATION_TTL - 1);
    assert!(a.notification().is_some());
    a.tick(&audio(), 1000 + NOTIFICATION_TTL);
    assert!(a.notification().is_none());
}

#[test]
fn keys_control_playback() {
    let mut a = playing();
    press(&mut a, Key::Left);
    press(&mut a, Key::Right);
    press(&mut a, Key::Up);
    presses(&mut a, " m");
    let sent: Vec<String> = a
        .take_commands()
        .into_iter()
        .map(|c| match c {
            Cmd::Seek(d) => format!("seek {}", d / SECOND),
            Cmd::Volume(v) => format!("volume {v}"),
            Cmd::Pause => "pause".to_string(),
            _ => "other".to_string(),
        })
        .collect();
    assert_eq!(sent, ["seek -5", "seek 5", "volume 85", "pause", "volume 0"]);
    assert!(a.player().is_muted());
}

#[test]
fn one_search_per_track_with_its_length() {
    let mut a = playing();
    presses(&mut a, "y");
    assert!(a.lyrics_mode());
    let mut known = audio();
    known.total = 100 * SECOND;
    a.tick(&known, 1000);
    let asked = a.take_requests();
    assert_eq!(asked.len(), 1);
    match &asked[0] {
        Request::Best { video_id, query, chosen } => {
            assert_eq!(video_id, "v1");
            assert_eq!(query.title, "Song 1");
            assert_eq!(*chosen, None);
        }
        _ => panic!("another request"),
    }
    a.tick(&known, 2000);
    assert!(a.take_requests().is_empty());
    assert!(matches!(a.lyrics_entry("v1"), Some(LyricsEntry::Loading)));
    a.take_lyrics(best("v1", Some(record(7))));
    assert_eq!(a.current_lyrics().unwrap().id, 7);
    a.tick(&known, 3000);
    assert!(a.take_requests().is_empty());
    presses(&mut a, "r");
    a.tick(&known, 4000);
    assert_eq!(a.take_requests().len(), 1, "a retry searches again");
}

#[test]
fn lyrics_wait_for_the_length_but_not_for_ever() {
    let mut a = playing();
    presses(&mut a, "y");
    a.tick(&audio(), 1000);
    assert!(a.take_requests().is_empty());
    a.tick(&audio(), 1000 + DURATION_WAIT - 1);
    assert!(a.take_requests().is_empty());
    a.tick(&audio(), 1000 + DURATION_WAIT);
    assert_eq!(a.take_requests().len(), 1);
}

#[test]
fn a_record_is_chosen_by_hand() {
    let mut a = playing();
    presses(&mut a, "y");
    a.take_lyrics(best("v1", Some(record(7))));
    presses(&mut a, "c");
    assert!(a.lyrics_picker().is_some());
    assert!(matches!(&a.take_requests()[..], [Request::Choices { on_screen: Some(7), .. }]));
    // Results for another video disturb nothing.
    a.take_lyrics(LyricsMsg::Choices {
        video_id: "other".to_string(),
        result: Ok(vec![record(1)]),
    });
    assert!(a.lyrics_picker().unwrap().items.is_empty());
    a.take_lyrics(LyricsMsg::Choices {
        video_id: "v1".to_string(),
        result: Ok(vec![record(7), record(9)]),
    });
    assert_eq!(a.lyrics_picker().unwrap().items.len(), 2);
    a.set_picker_selection(Some(0));
    presses(&mut a, "jj");
    match picker_panel(&a, 60, 10) {
        Some(PickerBody::Rows { .. }) => {}
        _ => panic!("no rows"),
    }
    press(&mut a, Key::Enter);
    assert!(a.lyrics_picker().is_none());
    assert_eq!(a.current_lyrics().unwrap().id, 9);
    assert_eq!(a.lyrics_overrides().choices.get("v1"), Some(&9));
    assert!(a.lyrics_dirty());
}

#[test]
fn escape_centres_the_lyrics_before_it_leaves() {
    let mut a = playing();
    presses(&mut a, "y");
    press(&mut a, Key::PageDown);
    assert_eq!(a.lyrics_scroll(), 5);
    press(&mut a, Key::Esc);
    assert_eq!((a.lyrics_scroll(), a.lyrics_mode()), (0, true));
    press(&mut a, Key::Esc);
    assert!(!a.lyrics_mode());
}

#[test]
fn the_screen_wakes_for_the_next_line() {
    let mut a = playing();
    let mut state = audio();
    state.total = 100 * SECOND;
    state.elapsed = 15 * SECOND;
    assert_eq!(a.poll_timeout(&state), IDLE);
    presses(&mut a, "y");
    a.take_lyrics(best("v1", Some(record(7))));
    assert_eq!(a.poll_timeout(&state), IDLE);
    state.elapsed = 20 * SECOND - 80_000_000;
    assert_eq!(a.poll_timeout(&state), 100_000_000);
    state.elapsed = 20 * SECOND - 1_000_000;
    assert_eq!(a.poll_timeout(&state), SHORTEST_WAIT);
    match lyrics_panel(&a, &state, rect(40, 9), None).body {
        LyricsBody::Timed(lines) => assert!(lines.iter().any(|l| words(l) == " one ")),
        _ => panic!("not timed"),
    }
}

#[test]
fn a_saved_queue_comes_back() {
    let entry = |v: &str| QueueEntry {
        playlist_id: Some("PL1".to_string()),
        video_id: v.to_string(),
    };
    let saved = QueueState { entries: vec![entry("v2"), entry("v0")], position: Some(1) };
    let mut a = empty_app(Some(saved));
    assert!(a.restore_is_pending());
    a.apply_song_batch(0, Some((0..4).map(track).collect()));
    a.try_restore_queue();
    assert!(!a.restore_is_pending());
    assert_eq!(a.player().queue(), [(0, 2), (0, 0)]);
    assert_eq!(a.player().queue_position(), Some(1));
    assert!(played(&mut a).is_empty());
    presses(&mut a, " ");
    assert_eq!(played(&mut a), ["v0"]);
}

#[test]
fn the_wheel_moves_the_panel_under_it() {
    let mut a = app();
    presses(&mut a, "l");
    a.set_areas(rect(10, 10), Rect { x: 10, y: 0, width: 10, height: 10 });
    a.set_selections(Some(0), Some(0), None);
    a.handle_mouse(Scroll::Down, 15, 5);
    assert_eq!(a.songs(), Some(1));
    a.handle_mouse(Scroll::Up, 15, 5);
    assert_eq!((a.list(), a.songs(), a.queue_row()), (Some(0), Some(0), None));
}

#[test]
fn panels_show_the_state() {
    let mut a = empty_app(None);
    assert!(matches!(songs_panel(&a).body, Body::Loading));
    a.apply_song_batch(0, Some(Vec::new()));
    assert!(matches!(songs_panel(&a).body, Body::Message { .. }));
    let a = playing();
    match playlists_panel(&a).body {
        Body::Rows(rows) => assert!(words(&rows[0].left).contains("Mine")),
        _ => panic!("no rows"),
    }
    match songs_panel(&a).body {
        Body::Rows(rows) => {
            assert_eq!(rows.len(), 4);
            assert!(words(&rows[1].left).starts_with('♫'), "{}", words(&rows[1].left));
            assert_eq!(rows[1].right.text, "1:40");
        }
        _ => panic!("no rows"),
    }
    match queue_panel(&a).body {
        Body::Rows(rows) => assert_eq!(rows.len(), 4),
        _ => panic!("no rows"),
    }
    assert_eq!(words(&list_status(&a, 4, 4).unwrap()), "4");
    assert!(list_status(&a, 0, 0).is_none());
    assert_eq!(track_duration(&track(0)).as_deref(), Some("1:40"));
}

#[test]
fn the_player_shows_what_plays() {
    let a = playing();
    let mut state = audio();
    state.total = 100 * SECOND;
    state.elapsed = 25 * SECOND;
    assert!(words(&now_playing(&a, &state, 60)).contains("Song 1"));
    let (at, of) = player_times(&a, &state);
    assert_eq!((at.as_str(), of.as_str()), ("0:25", "1:40"));
    assert_eq!(time_width(&at, &of), 4);
    let (n, d) = progress(&state);
    assert_eq!(n * 4, d);
    assert!(words(&player_status(&a)).contains("80%"));
    state.error = Some("gone".to_string());
    assert!(words(&now_playing(&a, &state, 60)).contains("gone"));
}

#[test]
fn help_fits_its_line() {
    let mut a = app();
    assert!(!hints(&a).is_empty());
    for w in 0..80 {
        let line = help_line(&a, w);
        let n: usize = line.spans.iter().map(|s| ytm_core::cells::width_of(&s.text)).sum();
        assert!(n <= w as usize, "{n} columns in {w}");
    }
    presses(&mut a, "l/ab");
    assert!(words(&help_line(&a, 80)).contains("ab"));
    assert!(keymap_lines().iter().any(|l| words(l).contains("Quit")));
    let (w, h) = keymap_size(200, 100);
    assert!(w <= 200 && h <= 100 && w > 0);
    assert_eq!(picker_size(rect(200, 100)), (78, 20));
    assert_eq!(picker_size(rect(10, 3)), (40, 7));
    assert!(words(&picker_hints(60)).contains("cancel"));
    assert_eq!(lyrics_room(rect(40, 9)).height, 9);
}

#[test]
fn an_empty_library_asks_to_sign_in_again() {
    let mut a = App::new(
        Library::new(Vec::new()),
        None,
        80,
        LyricsOverrides::default(),
        Config::default(),
    );
    assert!(press(&mut a, Key::Char('r')));
    assert!(a.reauth_requested());
}
