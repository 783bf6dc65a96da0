use ytm_core::filter::{filtered_queue_positions, filtered_songs};
use ytm_core::library::{Artist, Library, Playlist, Track};
use ytm_core::playback::{AudioState, Cmd};
use ytm_core::player::{AppendOutcome, PlayMode, Player, RemoveOutcome};

fn track(video_id: &str, title: &str, artist: &str) -> Track {
    Track {
        video_id: Some(video_id.to_string()),
        title: Some(title.to_string()),
        artists: vec![Artist { name: artist.to_string(), id: None }],
        album: None,
        duration: None,
        duration_seconds: Some(100),
    }
}

/// One playlist of `n` songs: `v0`, `v1` and so on.
fn library(n: usize) -> Library {
    let mut lib = Library::new(vec![Playlist {
        playlist_id: "PL1".to_string(),
        title: "Mine".to_string(),
        count: None,
    }]);
    let songs = (0..n)
        .map(|i| track(&format!("v{i}"), &format!("Song {i}"), if i % 2 == 0 { "Ann" } else { "Bob" }))
        .collect();
    lib.apply_song_batch(0, Some(songs));
    lib
}

fn audio() -> AudioState {
    AudioState {
        elapsed: 0,
        total: 0,
        paused: false,
        loading: false,
        error: None,
        song_ended: false,
    }
}

/// The commands sent, in short.
fn sent(p: &mut Player) -> Vec<String> {
    p.take_commands()
        .into_iter()
        .map(|c| match c {
            Cmd::Play(id) => format!("play {id}"),
            Cmd::Prefetch(id) => format!("prefetch {id}"),
            Cmd::Pause => "pause".to_string(),
            Cmd::Resume => "resume".to_string(),
            Cmd::Seek(d) => format!("seek {d}"),
            Cmd::SeekAbs(t) => format!("to {t}"),
            Cmd::Volume(v) => format!("volume {v}"),
            Cmd::Stop => "stop".to_string(),
        })
        .collect()
}

#[test]
fn playing_a_song_queues_its_playlist() {
    let lib = library(3);
    let mut p = Player::new();
    let full = p.volume();
    assert_eq!(sent(&mut p), [format!("volume {full}")]);
    p.play(&lib, 0, 1);
    assert_eq!(p.queue(), [(0, 0), (0, 1), (0, 2)]);
    assert_eq!(p.queue_position(), Some(1));
    assert_eq!(p.playing(), Some((0, 1)));
    assert!(p.playback_started());
    assert_eq!(
        sent(&mut p),
        ["play v1".to_string(), format!("volume {full}"), "prefetch v2".to_string()]
    );
}

#[test]
fn the_queue_is_a_ring() {
    let lib = library(3);
    let mut p = Player::new();
    p.play(&lib, 0, 2);
    p.next(&lib);
    assert_eq!(p.queue_position(), Some(0));
    p.prev(&lib);
    assert_eq!(p.queue_position(), Some(2));
    p.advance(&lib, -7);
    assert_eq!(p.queue_position(), Some(1));
    p.jump_to(&lib, 0);
    assert_eq!(p.playing(), Some((0, 0)));
    p.jump_to(&lib, 9);
    assert_eq!(p.playing(), Some((0, 0)));
}

#[test]
fn shuffling_keeps_every_song_and_goes_back() {
    let lib = library(50);
    let mut p = Player::new();
    p.play(&lib, 0, 7);
    let order: Vec<(usize, usize)> = p.queue().to_vec();
    p.cycle_mode();
    assert_eq!(p.mode(), PlayMode::Single);
    p.cycle_mode();
    assert_eq!(p.mode(), PlayMode::Shuffle);
    let mut shuffled = p.queue().to_vec();
    assert_ne!(shuffled, order);
    assert_eq!(p.queue()[p.queue_position().unwrap()], (0, 7));
    shuffled.sort();
    assert_eq!(shuffled, order);
    p.cycle_mode();
    assert_eq!(p.queue(), order);
    assert_eq!(p.queue_position(), Some(7));
}

#[test]
fn a_given_order_is_taken() {
    let lib = library(3);
    let mut p = Player::new();
    p.play_in_order(&lib, vec![(0, 2), (0, 0), (0, 1)], 0, 0);
    assert_eq!(p.queue_position(), Some(1));
    p.sync_queue_to_mode(PlayMode::Shuffle, vec![(0, 1), (0, 2), (0, 0)]);
    assert_eq!(p.queue(), [(0, 1), (0, 2), (0, 0)]);
    assert_eq!(p.queue_position(), Some(2));
}

#[test]
fn the_end_of_a_song_starts_the_next() {
    let lib = library(2);
    let mut p = Player::new();
    p.play(&lib, 0, 0);
    assert!(!p.handle_song_end(&lib, false));
    assert_eq!(p.playing(), Some((0, 0)));
    assert!(p.handle_song_end(&lib, true));
    assert_eq!(p.playing(), Some((0, 1)));
    p.cycle_mode();
    assert!(p.handle_song_end(&lib, true));
    assert_eq!(p.playing(), Some((0, 1)), "single repeats");
}

#[test]
fn a_removed_song_makes_room() {
    let lib = library(3);
    let mut p = Player::new();
    assert!(matches!(
        p.append_to_queue(&lib, 0, 2),
        AppendOutcome::StartedPlaying { track: (0, 2), queue_len: 1 }
    ));
    assert!(matches!(p.append_to_queue(&lib, 0, 0), AppendOutcome::Queued { queue_len: 2 }));
    assert!(matches!(
        p.remove_from_queue(&lib, 0),
        RemoveOutcome::Switched { track: (0, 0) }
    ));
    assert!(matches!(p.remove_from_queue(&lib, 5), RemoveOutcome::Unaffected));
    sent(&mut p);
    assert!(matches!(p.remove_from_queue(&lib, 0), RemoveOutcome::Stopped));
    assert_eq!(sent(&mut p), ["stop"]);
    assert_eq!(p.playing(), None);
}

#[test]
fn a_restored_queue_is_looked_up_not_played() {
    let lib = library(3);
    let mut p = Player::new();
    sent(&mut p);
    p.restore(&lib, vec![(0, 1), (0, 2)], Some(1));
    assert!(!p.playback_started());
    assert_eq!(sent(&mut p), ["prefetch v2"]);
    p.start_current(&lib);
    assert!(p.playback_started());
    assert_eq!(sent(&mut p)[0], "play v2");
}

#[test]
fn volume_stays_a_percentage() {
    let mut p = Player::new();
    p.set_volume(250);
    assert_eq!(p.volume(), 100);
    p.adjust_volume(-30);
    assert_eq!(p.volume(), 70);
    p.toggle_mute();
    assert!(p.is_muted());
    assert_eq!((p.volume(), p.effective_volume()), (0, 70));
    p.toggle_mute();
    assert_eq!((p.volume(), p.is_muted()), (70, false));
    p.adjust_volume(-100);
    assert_eq!(p.volume(), 0);
}

#[test]
fn pausing_waits_for_the_song_to_load() {
    let mut p = Player::new();
    sent(&mut p);
    let mut a = audio();
    a.loading = true;
    assert!(!p.toggle_pause(&a));
    a.loading = false;
    assert!(p.toggle_pause(&a));
    a.paused = true;
    assert!(p.toggle_pause(&a));
    p.seek(-5);
    p.prefetch("v");
    p.prefetch("");
    assert_eq!(sent(&mut p), ["pause", "resume", "seek -5", "prefetch v"]);
}

#[test]
fn modes_come_round() {
    let mut m = PlayMode::Cycle;
    let mut labels = Vec::new();
    for _ in 0..3 {
        labels.push(m.label());
        m = m.next();
    }
    assert_eq!(m, PlayMode::Cycle);
    assert_eq!(labels, ["↺ Cycle", "⊙ Single", "⇌ Shuffle"]);
}

fn query(s: &str) -> Vec<char> {
    s.chars().collect()
}

#[test]
fn a_query_finds_titles_and_artists_in_any_case() {
    let lib = library(4);
    assert_eq!(filtered_songs(lib.songs(0), &[]), [0, 1, 2, 3]);
    assert_eq!(filtered_songs(lib.songs(0), &query("BOB")), [1, 3]);
    assert_eq!(filtered_songs(lib.songs(0), &query("song 2")), [2]);
    assert!(filtered_songs(lib.songs(0), &query("zzz")).is_empty());
    let queue = [(0, 3), (0, 0), (0, 1)];
    assert_eq!(filtered_queue_positions(&lib, &queue, &query("bob")), [0, 2]);
    assert_eq!(filtered_queue_positions(&lib, &queue, &[]), [0, 1, 2]);
}

#[test]
fn muting_twice_changes_nothing_whatever_it_was() {
    let mut p = Player::new();
    p.adjust_volume(-10);
    p.toggle_mute();
    sent(&mut p);
    assert_eq!((p.volume(), p.is_muted(), p.effective_volume()), (0, true, 70));
    p.toggle_mute();
    assert_eq!(sent(&mut p), ["volume 70"]);
    p.toggle_mute();
    assert_eq!(sent(&mut p), ["volume 0"]);
    assert_eq!((p.volume(), p.is_muted(), p.effective_volume()), (0, true, 70));
}
