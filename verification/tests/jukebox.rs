use ytm_core::jukebox::{Jukebox, Listing, SavedQueue, Song};
use ytm_core::jukebox_screen::{
    extra_line, filter_title, help_line, info_height, now_playing, player_times, player_title,
    playlist_info, playlists_panel, queue_panel, song_info, songs_panel, state_icon,
};
use ytm_core::panel::{Line, Rect};
use ytm_core::playback::{AudioState, Cmd};
use ytm_core::player::PlayMode;
use ytm_core::screen::Body;
use ytm_core::ui::{Key, Panel, Scroll, NOTIFICATION_TTL};

const SECOND: i64 = 1_000_000_000;

fn song(list: usize, i: usize) -> Song {
    Song {
        video_id: Some(format!("v{list}{i}")),
        title: Some(format!("Song {i}")),
        artists: vec!["Ann".to_string()],
        duration: Some("1:40".to_string()),
        duration_seconds: Some(100),
    }
}

fn listing(i: usize) -> Listing {
    Listing {
        playlist_id: Some(format!("PL{i}")),
        title: Some(format!("List {i}")),
        authors: vec!["Me".to_string()],
        songs: Vec::new(),
        loaded: false,
        total_secs: 0,
    }
}

fn jukebox(saved: Option<SavedQueue>) -> Jukebox {
    Jukebox::new(vec![listing(0), listing(1)], saved)
}

/// Two playlists, of four songs and of two.
fn filled() -> Jukebox {
    let mut j = jukebox(None);
    j.apply_song_batch(0, (0..4).map(|i| song(0, i)).collect());
    j.apply_song_batch(1, (0..2).map(|i| song(1, i)).collect());
    j
}

fn audio() -> AudioState {
    AudioState {
        elapsed: 0,
        total: 0,
        paused: false,
        loading: false,
        error: None,
        song_ended: false,
    }
}

fn press(j: &mut Jukebox, key: Key) -> bool {
    j.handle_key(key, &audio(), 1000)
}

fn presses(j: &mut Jukebox, keys: &str) {
    for c in keys.chars() {
        assert!(!press(j, Key::Char(c)), "{c} quits");
    }
}

fn played(j: &mut Jukebox) -> Vec<String> {
    j.take_commands()
        .into_iter()
        .filter_map(|c| match c {
            Cmd::Play(id) => Some(id),
            _ => None,
        })
        .collect()
}

fn words(line: &Line) -> String {
    line.spans.iter().map(|s| s.text.as_str()).collect()
}

#[test]
fn a_song_queues_its_playlist() {
    let mut j = filled();
    presses(&mut j, "lj");
    assert_eq!(j.active_panel(), Panel::Songs);
    press(&mut j, Key::Enter);
    assert_eq!(played(&mut j), ["v01"]);
    assert_eq!(j.queue(), [0, 1, 2, 3]);
    assert_eq!(j.queue_position(), Some(1));
    assert_eq!(j.playing_place(), (Some(0), Some(1)));
    assert_eq!(j.playing().unwrap().title.as_deref(), Some("Song 1"));
    presses(&mut j, "np");
    assert_eq!(played(&mut j), ["v02", "v01"]);
    j.handle_song_end(true);
    assert_eq!(played(&mut j), ["v02"]);
    assert_eq!(j.queued(3).unwrap().title.as_deref(), Some("Song 3"));
}

#[test]
fn another_playlist_starts_the_queue_over() {
    let mut j = filled();
    j.play_song(0, 0);
    j.append_to_queue(1, 1, 5);
    assert_eq!((j.queue(), j.queue_position()), (&[1][..], None));
    assert_eq!(j.playing_place(), (Some(0), Some(0)), "what plays goes on");
    j.append_to_queue(1, 0, 5);
    assert_eq!(j.queue(), [1, 0]);
    assert!(j.notification().is_some());
    j.expire(5 + NOTIFICATION_TTL);
    assert!(j.notification().is_none());
}

#[test]
fn shuffling_keeps_the_songs() {
    let mut j = jukebox(None);
    j.apply_song_batch(0, (0..50).map(|i| song(0, i)).collect());
    j.play_song(0, 7);
    presses(&mut j, "tt");
    assert_eq!(j.mode(), PlayMode::Shuffle);
    let mut q = j.queue().to_vec();
    assert_ne!(q, (0..50).collect::<Vec<_>>());
    assert_eq!(j.queue()[j.queue_position().unwrap()], 7);
    q.sort();
    assert_eq!(q, (0..50).collect::<Vec<_>>());
    presses(&mut j, "t");
    assert_eq!(j.queue(), (0..50).collect::<Vec<_>>());
}

#[test]
fn given_orders_are_taken() {
    let mut j = filled();
    j.play_in_order(0, 2, vec![3, 2, 1, 0]);
    assert_eq!(j.queue_position(), Some(1));
    presses(&mut j, "t");
    j.sync_queue_to_mode(vec![0, 2, 3, 1]);
    assert_eq!(j.mode(), PlayMode::Shuffle);
    assert_eq!((j.queue(), j.queue_position()), (&[0, 2, 3, 1][..], Some(1)));
}

#[test]
fn a_removed_song_makes_way() {
    let mut j = filled();
    j.play_song(1, 0);
    played(&mut j);
    j.remove_from_queue(0, 9);
    assert_eq!(played(&mut j), ["v11"]);
    j.remove_from_queue(0, 9);
    assert!(j.queue().is_empty());
    assert!(j.playing().is_none());
}

#[test]
fn a_saved_queue_waits_to_be_started() {
    let saved = SavedQueue {
        playlist_id: Some("PL1".to_string()),
        video_ids: vec!["v11".to_string(), "v10".to_string()],
        position: Some(0),
    };
    let mut j = jukebox(Some(saved));
    j.apply_song_batch(0, vec![song(0, 0)]);
    j.try_restore_queue(0);
    assert!(j.queue().is_empty());
    j.apply_song_batch(1, (0..2).map(|i| song(1, i)).collect());
    j.try_restore_queue(1);
    assert_eq!((j.queue(), j.queue_position()), (&[1, 0][..], Some(0)));
    assert!(played(&mut j).is_empty());
    let state = j.queue_state().unwrap();
    assert_eq!(state.playlist_id.as_deref(), Some("PL1"));
    assert_eq!(state.video_ids, ["v11", "v10"]);
    assert_eq!(state.position, Some(0));
    presses(&mut j, " ");
    assert_eq!(played(&mut j), ["v11"]);
}

#[test]
fn a_query_narrows_both_lists() {
    let mut j = filled();
    j.play_song(0, 0);
    presses(&mut j, "l/g 2");
    assert!(j.filter_mode());
    assert_eq!(j.filtered_songs(0), [2]);
    assert_eq!(j.filtered_queue_positions(), [2]);
    assert!(filter_title(&j, "Songs").contains("g 2"));
    assert!(words(&help_line(&j)).contains("g 2"));
    press(&mut j, Key::Enter);
    assert_eq!(j.selected_song().unwrap().title.as_deref(), Some("Song 2"));
    press(&mut j, Key::Esc);
    assert!(j.filter().is_empty());
}

#[test]
fn muting_twice_changes_nothing() {
    let mut j = filled();
    let v = j.volume();
    presses(&mut j, "m");
    assert_eq!((j.is_muted(), j.volume()), (true, 0));
    presses(&mut j, "m");
    assert_eq!((j.is_muted(), j.volume()), (false, v));
    press(&mut j, Key::Down);
    assert_eq!(j.volume(), v - 5);
}

#[test]
fn the_wheel_moves_the_list_under_it() {
    let mut j = filled();
    let left = Rect { x: 0, y: 0, width: 10, height: 10 };
    let right = Rect { x: 10, y: 0, width: 10, height: 10 };
    j.set_drawn(left, right, Some(0), Some(0), None);
    j.handle_mouse(Scroll::Down, 5, 5);
    assert_eq!(j.list(), Some(1));
    assert_eq!(j.lists().len(), 2);
}

#[test]
fn an_empty_jukebox_asks_to_sign_in_again() {
    let mut j = Jukebox::new(Vec::new(), None);
    assert!(press(&mut j, Key::Char('r')));
    assert!(j.reauth_requested());
    assert!(press(&mut filled(), Key::Char('q')));
}

#[test]
fn its_panels_show_the_state() {
    let mut j = filled();
    presses(&mut j, "lj");
    press(&mut j, Key::Enter);
    match playlists_panel(&j).body {
        Body::Rows(rows) => assert!(words(&rows[1].left).contains("List 1")),
        _ => panic!("no rows"),
    }
    match songs_panel(&j).body {
        Body::Rows(rows) => assert!(words(&rows[3].left).contains("Song 3")),
        _ => panic!("no rows"),
    }
    presses(&mut j, "o");
    assert!(j.show_queue());
    assert_eq!(j.queue_row(), Some(1));
    let (title, lines) = queue_panel(&j);
    assert!(title.contains("Queue"), "{title}");
    assert_eq!(lines.len(), 4);
    assert!(playlist_info(&j).unwrap().iter().any(|l| words(l).contains("List 0")));
    assert!(song_info(&j, 40).is_some());
    assert!(info_height(&j, 40) > 0);
}

#[test]
fn its_player_fills_the_row() {
    let mut j = filled();
    j.play_song(0, 1);
    let mut state = audio();
    assert_eq!(player_title(&state), "Player");
    state.total = 100 * SECOND;
    state.elapsed = 61 * SECOND;
    assert_eq!(state_icon(&state), "▶");
    assert!(now_playing(&j, &state, 60).text.contains("Song 1"));
    let (at, of) = player_times(&j, &state);
    assert_eq!((at.as_str(), of.as_str()), ("1:01", "1:40"));
    state.paused = true;
    assert_eq!(state_icon(&state), "⏸");
    state.error = Some("x".to_string());
    assert_eq!(player_title(&state), "Error");
    let line = extra_line(&j, 80);
    assert_eq!(words(&line).chars().count(), 80);
}

#[test]
fn a_saved_position_counts_the_songs_with_a_video() {
    let mut j = jukebox(None);
    let mut songs: Vec<Song> = (0..3).map(|i| song(0, i)).collect();
    songs[0].video_id = None;
    j.apply_song_batch(0, songs);
    j.play_song(0, 2);
    assert_eq!(j.queue(), [0, 1, 2]);
    let state = j.queue_state().unwrap();
    assert_eq!(state.video_ids, ["v01", "v02"]);
    assert_eq!(state.position, Some(1));
}
