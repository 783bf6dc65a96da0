//! The state of the interface, and what every key, scroll and message does to it.
//!
//! The terminal front end draws from this state, hands it what happened, carries out
//! the player's commands and starts the searches that were asked for. Times are
//! milliseconds of a clock that only runs forward.

use crate::assoc::TextMap;
use crate::config::Config;
use crate::config;
use crate::filter;
use crate::library;
use crate::library::{Library, Track};
use crate::lrc;
use crate::lyric_panel;
use crate::lyrics;
use crate::lyrics::{LyricsMsg, LyricsQuery, TrackLyrics};
use crate::panel;
use crate::panel::Rect;
use crate::persistence;
use crate::persistence::{LyricsOverrides, QueueState, RestoreOutcome};
use crate::playback;
use crate::playback::AudioState;
use crate::player;
use crate::player::{AppendOutcome, PlayMode, Player, RemoveOutcome, TrackRef};
use crate::text;
use vstd::prelude::*;

verus! {

/// How long a notification stays: two seconds.
pub const NOTIFICATION_TTL: u64 = 2_000;

/// How long lyrics wait for the player to tell the track's length: four seconds.
pub const DURATION_WAIT: u64 = 4_000;

/// How long to wait for input when nothing is due, in nanoseconds.
pub const IDLE: u64 = 200_000_000;

/// The shortest wait for input, in nanoseconds.
pub const SHORTEST_WAIT: u64 = 33_000_000;

/// How far past a line's start to wake up, in nanoseconds.
pub const LATENESS: u64 = 20_000_000;

/// What a seek key moves by: five seconds.
pub const SEEK_STEP: i64 = 5_000_000_000;

/// The two panels that take keys.
#[derive(Clone, Copy, Debug, PartialEq, Eq, Structural)]
pub enum Panel {
    Playlists,
    Songs,
}

/// A key.
#[derive(Clone, Copy, Debug, PartialEq, Eq, Structural)]
pub enum Key {
    Char(char),
    Enter,
    Esc,
    Backspace,
    Left,
    Right,
    Up,
    Down,
    PageUp,
    PageDown,
    Other,
}

/// The wheel of the mouse.
#[derive(Clone, Copy, Debug, PartialEq, Eq, Structural)]
pub enum Scroll {
    Down,
    Up,
}

/// What is known of a track's lyrics. Nothing but `Loading` changes by itself.
pub enum LyricsEntry {
    Loading,
    Ready(TrackLyrics),
    /// There is no record.
    Missing,
    Failed(String),
}

/// The list of records to choose from.
pub struct LyricsPicker {
    /// The video the list is for.
    pub video_id: String,
    pub items: Vec<TrackLyrics>,
    /// The record that was shown when the list opened.
    pub on_screen: Option<u64>,
    /// Whether that record was chosen by hand.
    pub overridden: bool,
    pub selected: Option<usize>,
    pub loading: bool,
    pub error: Option<String>,
}

/// A search to start.
pub enum Request {
    /// The best record for a video.
    Best { video_id: String, query: LyricsQuery, chosen: Option<u64> },
    /// Every record for a video; `on_screen` is the one shown when it was asked for.
    Choices { video_id: String, query: LyricsQuery, on_screen: Option<u64> },
}

/// The mathematical content of a [`LyricsPicker`].
pub struct PickerView {
    pub video: Seq<char>,
    pub items: Seq<TrackLyrics>,
    pub on_screen: Option<u64>,
    pub overridden: bool,
    pub selected: Option<usize>,
    pub loading: bool,
    pub error: Option<Seq<char>>,
}

/// The mathematical content of a [`Request`].
pub enum RequestView {
    Best { video: Seq<char>, query: lyrics::QueryView, chosen: Option<u64> },
    Choices { video: Seq<char>, query: lyrics::QueryView, on_screen: Option<u64> },
}

impl View for LyricsPicker {
    type V = PickerView;

    open spec fn view(&self) -> PickerView {
        PickerView {
            video: self.video_id@,
            items: self.items@,
            on_screen: self.on_screen,
            overridden: self.overridden,
            selected: self.selected,
            loading: self.loading,
            error: text::opt(self.error),
        }
    }
}

impl View for Request {
    type V = RequestView;

    open spec fn view(&self) -> RequestView {
        match self {
            Request::Best { video_id, query, chosen } => RequestView::Best {
                video: video_id@,
                query: query@,
                chosen: *chosen,
            },
            Request::Choices { video_id, query, on_screen } => RequestView::Choices {
                video: video_id@,
                query: query@,
                on_screen: *on_screen,
            },
        }
    }
}

/// The mathematical content of an [`App`].
pub struct AppView {
    pub library: Seq<library::PlaylistEntry>,
    pub player: player::PlayerView,
    /// The selected playlist.
    pub list: Option<usize>,
    /// The selected row of the songs shown.
    pub songs: Option<usize>,
    /// The selected row of the queue entries shown.
    pub queue_row: Option<usize>,
    pub panel: Panel,
    pub show_queue: bool,
    pub show_keymap: bool,
    /// What is said, and since when.
    pub notification: Option<(Seq<char>, u64)>,
    pub reauth: bool,
    /// A saved queue that waits for its playlists.
    pub pending: Option<QueueState>,
    pub filter: Seq<char>,
    pub filter_mode: bool,
    pub playlists_area: Rect,
    pub songs_area: Rect,
    pub lyrics_mode: bool,
    pub cache: Map<Seq<char>, LyricsEntry>,
    pub scroll: i32,
    pub following: bool,
    pub picker: Option<PickerView>,
    pub overrides: Map<Seq<char>, u64>,
    /// Whether a choice was made that is not saved.
    pub dirty: bool,
    /// The video whose length is waited for, and since when.
    pub wait: Option<(Seq<char>, u64)>,
    /// Searches to start.
    pub asked: Seq<RequestView>,
    pub config: Config,
}

/// Whether what is kept of a track's lyrics is in the order of its times.
pub open spec fn entry_in_time(e: LyricsEntry) -> bool {
    e matches LyricsEntry::Ready(found) ==> lyrics::well_timed(found)
}

/// Whether every record that is kept is in time.
pub open spec fn cache_in_time(cache: Map<Seq<char>, LyricsEntry>) -> bool {
    forall|k: Seq<char>| cache.contains_key(k) ==> #[trigger] entry_in_time(cache[k])
}

/// Whether every record of the open list is in time.
pub open spec fn picker_in_time(picker: Option<PickerView>) -> bool {
    picker matches Some(p) ==> items_in_time(p.items)
}

/// Whether every record of a list is in time.
pub open spec fn items_in_time(items: Seq<TrackLyrics>) -> bool {
    forall|i: int| 0 <= i < items.len() ==> #[trigger] lyrics::well_timed(items[i])
}

impl AppView {
    /// The player is well formed, and every record that is kept is in time.
    pub open spec fn wf(self) -> bool {
        &&& self.player.wf()
        &&& cache_in_time(self.cache)
        &&& picker_in_time(self.picker)
    }
}

// ── small steps ──────────────────────────────────────────────────────────────

/// The track that plays, where the library has it.
pub open spec fn current_track(v: AppView) -> Option<Track> {
    match v.player.playing {
        Some(t) => library::track_at(v.library, t.0 as int, t.1 as int),
        None => None,
    }
}

/// The video that plays.
pub open spec fn current_video(v: AppView) -> Option<Seq<char>> {
    match current_track(v) {
        Some(t) => text::opt(t.video_id),
        None => None,
    }
}

/// The lyrics of the track that plays, once they are there.
pub open spec fn current_lyrics(v: AppView) -> Option<TrackLyrics> {
    match current_video(v) {
        Some(id) if v.cache.contains_key(id) => match v.cache[id] {
            LyricsEntry::Ready(found) => Some(found),
            _ => None,
        },
        _ => None,
    }
}

/// Something is said.
pub open spec fn saying(v: AppView, message: Seq<char>, now: u64) -> AppView {
    AppView { notification: Some((message, now)), ..v }
}

/// No query, and the first row of each list.
pub open spec fn unfiltered(v: AppView) -> AppView {
    AppView {
        filter: Seq::empty(),
        filter_mode: false,
        songs: Some(0),
        queue_row: Some(0),
        ..v
    }
}

/// The lyrics follow the song again.
pub open spec fn recentred(v: AppView) -> AppView {
    AppView { scroll: 0, following: true, ..v }
}

/// The lyrics are scrolled away from the song.
pub open spec fn scrolled(v: AppView, delta: int) -> AppView {
    let to = v.scroll + delta;
    AppView {
        scroll: if to > i32::MAX {
            i32::MAX
        } else if to < i32::MIN {
            i32::MIN
        } else {
            to as i32
        },
        following: false,
        ..v
    }
}

/// The queue's cursor stands on what plays, where the queue is shown.
pub open spec fn synced(v: AppView) -> AppView {
    if v.show_queue {
        AppView { queue_row: v.player.pos, ..v }
    } else {
        v
    }
}

/// The songs shown of a playlist.
pub open spec fn songs_shown(v: AppView, pl: usize) -> Seq<usize> {
    filter::songs_shown(library::songs_at(v.library, pl as int), v.filter)
}

/// The queue entries shown.
pub open spec fn entries_shown(v: AppView) -> Seq<usize> {
    filter::entries_shown(v.library, v.player.queue, v.filter)
}

/// Row `i` of the songs shown is looked up ahead of time.
pub open spec fn row_warmed(
    p: player::PlayerView,
    es: Seq<library::PlaylistEntry>,
    pl: usize,
    shown: Seq<usize>,
    i: int,
) -> player::PlayerView {
    if 0 <= i < shown.len() {
        player::prefetching(p, player::video_at(es, (pl, shown[i])))
    } else {
        p
    }
}

/// The selected song and the one below it are looked up ahead of time.
pub open spec fn warmed(v: AppView) -> AppView {
    match v.list {
        None => v,
        Some(pl) => {
            let shown = songs_shown(v, pl);
            let base = match v.songs {
                Some(i) => i as int,
                None => 0,
            };
            let first = row_warmed(v.player, v.library, pl, shown, base);
            AppView { player: row_warmed(first, v.library, pl, shown, base + 1), ..v }
        },
    }
}

/// The song under the cursor.
pub open spec fn chosen_song(v: AppView) -> Option<TrackRef> {
    match (v.list, v.songs) {
        (Some(pl), Some(row)) => if row < songs_shown(v, pl).len() {
            Some((pl, songs_shown(v, pl)[row as int]))
        } else {
            None
        },
        _ => None,
    }
}

/// The queue entry under the cursor.
pub open spec fn chosen_entry(v: AppView) -> Option<usize> {
    match v.queue_row {
        Some(row) => if row < entries_shown(v).len() {
            Some(entries_shown(v)[row as int])
        } else {
            None
        },
        None => None,
    }
}

/// The title at a place, or another word for it.
pub open spec fn title_or(v: AppView, t: TrackRef, otherwise: Seq<char>) -> Seq<char> {
    match library::track_at(v.library, t.0 as int, t.1 as int) {
        Some(track) => match track.title {
            Some(s) => s@,
            None => otherwise,
        },
        None => otherwise,
    }
}

/// A song joins the queue, and the user is told.
pub open spec fn appended(v: AppView, t: TrackRef, now: u64) -> AppView {
    let title = title_or(v, t, "song"@);
    let (p, outcome) = player::appending(v.player, v.library, t);
    saying(
        AppView { player: p, ..v },
        match outcome {
            AppendOutcome::StartedPlaying { .. } => "Playing: "@ + title,
            AppendOutcome::Queued { queue_len } => "+ queue #"@ + text::decimal(queue_len as nat)
                + ": "@ + title,
        },
        now,
    )
}

/// A queue entry leaves; the cursor stays near it.
pub open spec fn entry_removed(v: AppView, q: usize, now: u64) -> AppView {
    let (p, outcome) = player::removing(v.player, v.library, q);
    let n = p.queue.len();
    let left = AppView {
        player: p,
        queue_row: if n == 0 {
            None
        } else if q < n {
            Some(q)
        } else {
            Some((n - 1) as usize)
        },
        ..v
    };
    match outcome {
        RemoveOutcome::Switched { track } => saying(
            left,
            "▶  "@ + title_or(v, track, "next song"@),
            now,
        ),
        _ => left,
    }
}

/// How long ago something was.
pub open spec fn since(now: u64, then: u64) -> nat {
    if now >= then {
        (now - then) as nat
    } else {
        0
    }
}

// ── lyrics ───────────────────────────────────────────────────────────────────

/// The record chosen by hand for a video.
pub open spec fn chosen_record(v: AppView, video: Seq<char>) -> Option<u64> {
    if v.overrides.contains_key(video) {
        Some(v.overrides[video])
    } else {
        None
    }
}

/// A search for the best record starts.
pub open spec fn fetching(v: AppView, video: Seq<char>, query: lyrics::QueryView) -> AppView {
    AppView {
        cache: v.cache.insert(video, LyricsEntry::Loading),
        asked: v.asked.push(
            RequestView::Best { video, query, chosen: chosen_record(v, video) },
        ),
        ..v
    }
}

/// Lyrics of the track that plays are searched for, unless they were already. The
/// length the player tells is better than the listed one, so it is waited for, but
/// not for ever.
pub open spec fn looking_up(v: AppView, video: Seq<char>, total: int, now: u64) -> AppView {
    match current_track(v) {
        Some(t) if !v.cache.contains_key(video) => match lyrics::query_of(t) {
            None => v,
            Some(query) => if total > 0 {
                fetching(v, video, lyrics::QueryView { duration: Some(total), ..query })
            } else {
                match v.wait {
                    Some((id, start)) if id == video => if since(now, start) < DURATION_WAIT {
                        v
                    } else {
                        fetching(v, video, query)
                    },
                    _ => AppView { wait: Some((video, now)), ..v },
                }
            },
        },
        _ => v,
    }
}

/// What the passing of time does: in lyrics mode the track that plays gets its
/// lyrics, and a notification goes when it has been read.
pub open spec fn ticked(v: AppView, total: int, now: u64) -> AppView {
    let looked = match current_video(v) {
        Some(id) if v.lyrics_mode => looking_up(v, id, total, now),
        _ => v,
    };
    match looked.notification {
        Some((_, then)) if since(now, then) >= NOTIFICATION_TTL => AppView {
            notification: None,
            ..looked
        },
        _ => looked,
    }
}

/// What is kept of a search's outcome.
pub open spec fn kept(result: Result<Option<TrackLyrics>, String>) -> LyricsEntry {
    match result {
        Ok(Some(found)) => LyricsEntry::Ready(found),
        Ok(None) => LyricsEntry::Missing,
        Err(e) => LyricsEntry::Failed(e),
    }
}

/// What a search brought is taken in. A list that was opened for another video has
/// moved on.
pub open spec fn told(v: AppView, msg: LyricsMsg) -> AppView {
    match msg {
        LyricsMsg::Best { video_id, result } => {
            let with = AppView { cache: v.cache.insert(video_id@, kept(result)), ..v };
            if current_video(v) == Some(video_id@) {
                recentred(with)
            } else {
                with
            }
        },
        LyricsMsg::Choices { video_id, result } => match v.picker {
            Some(p) if p.video == video_id@ => AppView {
                picker: Some(
                    match result {
                        Ok(items) => PickerView {
                            loading: false,
                            selected: Some(
                                lyric_panel::opening_row(
                                    lyrics::track_views(items@),
                                    p.on_screen,
                                    p.overridden,
                                ) as usize,
                            ),
                            items: items@,
                            ..p
                        },
                        Err(e) => PickerView { loading: false, error: Some(e@), ..p },
                    },
                ),
                ..v
            },
            _ => v,
        },
    }
}

/// Whether the records of a message are in time.
pub open spec fn message_in_time(msg: LyricsMsg) -> bool {
    match msg {
        LyricsMsg::Best { video_id, result } => entry_in_time(kept(result)),
        LyricsMsg::Choices { video_id, result } => result matches Ok(items)
            ==> items_in_time(items@),
    }
}

/// The list of records opens for the track that plays.
pub open spec fn picker_opened(v: AppView, now: u64) -> AppView {
    match (current_video(v), current_track(v)) {
        (Some(video), Some(t)) => match lyrics::query_of(t) {
            None => saying(v, "Track has no title to search on"@, now),
            Some(query) => {
                let on_screen = match current_lyrics(v) {
                    Some(found) => Some(found.id),
                    None => None,
                };
                AppView {
                    picker: Some(
                        PickerView {
                            video,
                            items: Seq::empty(),
                            on_screen,
                            overridden: chosen_record(v, video) is Some,
                            selected: None,
                            loading: true,
                            error: None,
                        },
                    ),
                    asked: v.asked.push(RequestView::Choices { video, query, on_screen }),
                    ..v
                }
            },
        },
        _ => saying(v, "No track playing"@, now),
    }
}

/// The row under the list's cursor is taken: the first goes back to the best match,
/// every other is a record.
pub open spec fn picker_committed(v: AppView, now: u64) -> AppView {
    match v.picker {
        None => v,
        Some(p) => match p.selected {
            None => v,
            Some(row) => if row == 0 {
                recentred(
                    saying(
                        AppView {
                            overrides: v.overrides.remove(p.video),
                            dirty: true,
                            cache: v.cache.remove(p.video),
                            picker: None,
                            ..v
                        },
                        "Lyrics: automatic match"@,
                        now,
                    ),
                )
            } else if row - 1 < p.items.len() {
                let chosen = p.items[row - 1];
                recentred(
                    saying(
                        AppView {
                            overrides: v.overrides.insert(p.video, chosen.id),
                            dirty: true,
                            cache: v.cache.insert(p.video, LyricsEntry::Ready(chosen)),
                            picker: None,
                            ..v
                        },
                        "Lyrics source updated"@,
                        now,
                    ),
                )
            } else {
                v
            },
        },
    }
}

/// Lyrics are shown, or no more.
pub open spec fn lyrics_toggled(v: AppView) -> AppView {
    recentred(AppView { lyrics_mode: !v.lyrics_mode, picker: None, ..v })
}

/// What is kept of the playing track's lyrics is forgotten, so that they are
/// searched for again.
pub open spec fn lyrics_retried(v: AppView, now: u64) -> AppView {
    match current_video(v) {
        Some(id) => saying(
            recentred(AppView { cache: v.cache.remove(id), ..v }),
            "Retrying lyrics…"@,
            now,
        ),
        None => v,
    }
}

// ── keys ─────────────────────────────────────────────────────────────────────

/// The player with a pause or resume sent, unless audio still loads.
pub open spec fn pause_toggled(p: player::PlayerView, audio: playback::AudioView) -> player::PlayerView {
    player::pausing(p, audio.loading, audio.paused)
}

/// A key while the list of records is open; whether it quits.
pub open spec fn picker_key(
    v: AppView,
    key: Key,
    audio: playback::AudioView,
    now: u64,
) -> (AppView, bool) {
    match key {
        Key::Char('q') => (v, true),
        Key::Esc | Key::Char('c') => (AppView { picker: None, ..v }, false),
        Key::Char('j') | Key::Down => (
            match v.picker {
                Some(p) => AppView {
                    picker: Some(PickerView { selected: panel::row_below(p.selected), ..p }),
                    ..v
                },
                None => v,
            },
            false,
        ),
        Key::Char('k') | Key::Up => (
            match v.picker {
                Some(p) => AppView {
                    picker: Some(PickerView { selected: panel::row_above(p.selected), ..p }),
                    ..v
                },
                None => v,
            },
            false,
        ),
        Key::Enter => (picker_committed(v, now), false),
        Key::Char(' ') => (
            if v.player.playing is Some && v.player.started {
                AppView { player: pause_toggled(v.player, audio), ..v }
            } else {
                v
            },
            false,
        ),
        Key::Left => (seeked(v, -SEEK_STEP), false),
        Key::Right => (seeked(v, SEEK_STEP as int), false),
        _ => (v, false),
    }
}

/// Playback moves by so many nanoseconds.
pub open spec fn seeked(v: AppView, delta: int) -> AppView {
    AppView { player: player::sending(v.player, playback::CmdView::Seek(delta)), ..v }
}

/// The volume changes by `delta`, and the sound is on.
pub open spec fn louder(v: AppView, delta: int) -> AppView {
    AppView {
        player: player::at_volume(v.player, player::percent(v.player.volume + delta)),
        ..v
    }
}

/// A key while a query is typed.
pub open spec fn filter_key(v: AppView, key: Key) -> AppView {
    match key {
        Key::Esc => unfiltered(v),
        Key::Enter => AppView { filter_mode: false, ..v },
        Key::Backspace => AppView {
            filter: if v.filter.len() > 0 {
                v.filter.drop_last()
            } else {
                v.filter
            },
            songs: Some(0),
            queue_row: Some(0),
            ..v
        },
        Key::Char(c) => AppView {
            filter: v.filter.push(c),
            songs: Some(0),
            queue_row: Some(0),
            ..v
        },
        _ => v,
    }
}

/// The cursor of the focused panel moves, down or up.
pub open spec fn moved(v: AppView, down: bool) -> AppView {
    let step = |row: Option<usize>|
        if down {
            panel::row_below(row)
        } else {
            panel::row_above(row)
        };
    if v.panel == Panel::Playlists {
        unfiltered(AppView { list: step(v.list), ..v })
    } else if v.lyrics_mode {
        scrolled(
            v,
            if down {
                1
            } else {
                -1
            },
        )
    } else if v.show_queue {
        AppView { queue_row: step(v.queue_row), ..v }
    } else {
        warmed(AppView { songs: step(v.songs), ..v })
    }
}

/// The songs panel takes keys, with some row selected.
pub open spec fn songs_entered(v: AppView) -> AppView {
    AppView {
        panel: Panel::Songs,
        songs: if v.songs is None {
            Some(0)
        } else {
            v.songs
        },
        ..v
    }
}

/// The enter key. `order` is the queue that a song starts.
pub open spec fn entered(v: AppView, order: Seq<TrackRef>) -> AppView {
    if v.panel == Panel::Playlists {
        warmed(unfiltered(songs_entered(v)))
    } else if v.show_queue {
        match chosen_entry(v) {
            Some(q) => AppView {
                player: player::playing(
                    player::PlayerView { pos: Some(q), ..v.player },
                    v.library,
                    v.player.queue[q as int],
                ),
                ..v
            },
            None => v,
        }
    } else {
        match chosen_song(v) {
            Some(t) => synced(
                AppView { player: player::opening(v.player, v.library, order, t), ..v },
            ),
            None => v,
        }
    }
}

/// The space key: pause or resume, or start what came back.
pub open spec fn spaced(v: AppView, audio: playback::AudioView) -> AppView {
    match v.player.playing {
        None => v,
        Some(t) => AppView {
            player: if v.player.started {
                pause_toggled(v.player, audio)
            } else {
                player::playing(v.player, v.library, t)
            },
            ..v
        },
    }
}

/// The queue is shown, or the songs again.
pub open spec fn queue_toggled(v: AppView) -> AppView {
    synced(
        AppView {
            show_queue: !v.show_queue,
            filter: Seq::empty(),
            filter_mode: false,
            ..v
        },
    )
}

/// The escape key; whether it quits. Lyrics first follow the song again, then close.
pub open spec fn escaped(v: AppView) -> (AppView, bool) {
    if v.lyrics_mode && !v.following {
        (recentred(v), false)
    } else if v.lyrics_mode {
        (AppView { lyrics_mode: false, ..v }, false)
    } else if v.panel == Panel::Playlists {
        (v, true)
    } else if v.filter.len() > 0 {
        (unfiltered(v), false)
    } else {
        (AppView { panel: Panel::Playlists, ..v }, false)
    }
}

/// The mode becomes the next one; into shuffle, the queue takes `order`.
pub open spec fn mode_switched(v: AppView, order: Seq<TrackRef>) -> AppView {
    synced(
        AppView {
            player: player::switching(v.player, player::next_mode(v.player.mode), order),
            ..v
        },
    )
}

/// The song under the cursor joins the queue, where songs are shown.
pub open spec fn selection_appended(v: AppView, now: u64) -> AppView {
    match chosen_song(v) {
        Some(t) if v.panel == Panel::Songs && !v.show_queue => appended(v, t, now),
        _ => v,
    }
}

/// The queue entry under the cursor leaves, where the queue is shown.
pub open spec fn selection_removed(v: AppView, now: u64) -> AppView {
    match chosen_entry(v) {
        Some(q) if v.panel == Panel::Songs && v.show_queue => entry_removed(v, q, now),
        _ => v,
    }
}

/// Whether a key moves about or edits the queue.
pub open spec fn moves_about(key: Key) -> bool {
    match key {
        Key::Enter => true,
        Key::Char(c) => c == 'j' || c == 'k' || c == 'h' || c == 'l' || c == '/' || c == 'a' || c
            == 'd' || c == 'o' || c == '?',
        _ => false,
    }
}

pub(crate) fn is_list_key(key: Key) -> (r: bool)
    ensures
        r == moves_about(key),
{
    match key {
        Key::Enter => true,
        Key::Char(c) => c == 'j' || c == 'k' || c == 'h' || c == 'l' || c == '/' || c == 'a' || c
            == 'd' || c == 'o' || c == '?',
        _ => false,
    }
}

/// Whether a key controls playback.
pub open spec fn controls_playback(key: Key) -> bool {
    match key {
        Key::Left | Key::Right | Key::Up | Key::Down => true,
        Key::Char(c) => c == ' ' || c == 'p' || c == 'n' || c == 't' || c == 'm',
        _ => false,
    }
}

pub(crate) fn is_playback_key(key: Key) -> (r: bool)
    ensures
        r == controls_playback(key),
{
    match key {
        Key::Left | Key::Right | Key::Up | Key::Down => true,
        Key::Char(c) => c == ' ' || c == 'p' || c == 'n' || c == 't' || c == 'm',
        _ => false,
    }
}

/// A key that moves about or edits the queue. `order` is the queue that a song
/// starts.
pub open spec fn list_key(v: AppView, key: Key, now: u64, order: Seq<TrackRef>) -> (AppView, bool) {
    match key {
        Key::Char('j') => (moved(v, true), false),
        Key::Char('k') => (moved(v, false), false),
        Key::Char('h') => (unfiltered(AppView { panel: Panel::Playlists, ..v }), false),
        Key::Char('l') => (warmed(songs_entered(v)), false),
        Key::Enter => (entered(v, order), false),
        Key::Char('/') => (
            if v.panel == Panel::Songs {
                AppView { filter_mode: true, ..v }
            } else {
                v
            },
            false,
        ),
        Key::Char('a') => (selection_appended(v, now), false),
        Key::Char('d') => (selection_removed(v, now), false),
        Key::Char('o') => (queue_toggled(v), false),
        Key::Char('?') => (AppView { show_keymap: true, ..v }, false),
        _ => (v, false),
    }
}

/// A key that controls playback. `order` is the order that a shuffled queue takes.
pub open spec fn playback_key(
    v: AppView,
    key: Key,
    audio: playback::AudioView,
    order: Seq<TrackRef>,
) -> (AppView, bool) {
    match key {
        Key::Char(' ') => (spaced(v, audio), false),
        Key::Char('p') => (
            synced(AppView { player: player::stepping(v.player, v.library, -1), ..v }),
            false,
        ),
        Key::Char('n') => (
            synced(AppView { player: player::stepping(v.player, v.library, 1), ..v }),
            false,
        ),
        Key::Char('t') => (mode_switched(v, order), false),
        Key::Char('m') => (AppView { player: player::muting(v.player), ..v }, false),
        Key::Left => (seeked(v, -SEEK_STEP), false),
        Key::Right => (seeked(v, SEEK_STEP as int), false),
        Key::Up => (louder(v, 5), false),
        Key::Down => (louder(v, -5), false),
        _ => (v, false),
    }
}

/// A key for lyrics, or one that quits; whether it does.
pub open spec fn lyrics_key(v: AppView, key: Key, now: u64) -> (AppView, bool) {
    match key {
        Key::Char('y') => (lyrics_toggled(v), false),
        Key::Char('c') => (
            if v.lyrics_mode {
                picker_opened(v, now)
            } else {
                v
            },
            false,
        ),
        Key::Char('r') => if v.lyrics_mode {
            (lyrics_retried(v, now), false)
        } else if v.library.len() == 0 {
            (AppView { reauth: true, ..v }, true)
        } else {
            (v, false)
        },
        Key::PageDown => (
            if v.lyrics_mode {
                scrolled(v, 5)
            } else {
                v
            },
            false,
        ),
        Key::PageUp => (
            if v.lyrics_mode {
                scrolled(v, -5)
            } else {
                v
            },
            false,
        ),
        Key::Esc => escaped(v),
        Key::Char('q') => (v, true),
        _ => (v, false),
    }
}

/// A key with nothing in its way; whether it quits. `order` is the order that a new
/// or a shuffled queue takes.
pub open spec fn plain_key(
    v: AppView,
    key: Key,
    audio: playback::AudioView,
    now: u64,
    order: Seq<TrackRef>,
) -> (AppView, bool) {
    if moves_about(key) {
        list_key(v, key, now, order)
    } else if controls_playback(key) {
        playback_key(v, key, audio, order)
    } else {
        lyrics_key(v, key, now)
    }
}

/// A key; whether it quits. With control held, `c` always does. The overview of
/// keys takes the next key, then the list of records, then a query.
pub open spec fn pressed(
    v: AppView,
    key: Key,
    control: bool,
    audio: playback::AudioView,
    now: u64,
    order: Seq<TrackRef>,
) -> (AppView, bool) {
    if key == Key::Char('c') && control {
        (v, true)
    } else if v.show_keymap {
        (AppView { show_keymap: false, ..v }, false)
    } else if v.picker is Some {
        picker_key(v, key, audio, now)
    } else if v.filter_mode {
        (filter_key(v, key), false)
    } else {
        plain_key(v, key, audio, now, order)
    }
}

/// Whether a queue may take this order: all the songs of the playlist that a song is
/// started from, in the playlist's order unless the mode is shuffle; and the queue's
/// own tracks where the mode changes.
pub open spec fn order_fits(v: AppView, key: Key, order: Seq<TrackRef>) -> bool {
    &&& key == Key::Char('t') ==> order.to_multiset() == v.player.queue.to_multiset()
    &&& key == Key::Enter && v.list is Some ==> {
        let all = player::album_order(
            v.list->0,
            library::songs_at(v.library, v.list->0 as int).len(),
        );
        &&& order.to_multiset() == all.to_multiset()
        &&& v.player.mode != PlayMode::Shuffle ==> order == all
    }
}

// ── the mouse ────────────────────────────────────────────────────────────────

/// A turn of the wheel over a cell.
pub open spec fn wheeled(v: AppView, scroll: Scroll, x: u16, y: u16) -> AppView {
    let down = scroll == Scroll::Down;
    let step = |row: Option<usize>|
        if down {
            panel::row_below(row)
        } else {
            panel::row_above(row)
        };
    if panel::inside(v.playlists_area, x, y) {
        AppView {
            list: step(v.list),
            songs: None,
            filter: Seq::empty(),
            filter_mode: false,
            ..v
        }
    } else if panel::inside(v.songs_area, x, y) {
        if v.lyrics_mode {
            scrolled(
                v,
                if down {
                    1
                } else {
                    -1
                },
            )
        } else if v.show_queue {
            AppView { queue_row: step(v.queue_row), ..v }
        } else {
            warmed(AppView { songs: step(v.songs), ..v })
        }
    } else {
        v
    }
}

// ── a queue that comes back ──────────────────────────────────────────────────

/// A saved queue is taken up once every playlist it names is there.
pub open spec fn queue_restored(v: AppView) -> AppView {
    match v.pending {
        None => v,
        Some(saved) => match persistence::restored(
            v.library,
            persistence::entry_views(saved.entries@),
            saved.position,
        ) {
            persistence::RestoreView::Pending => v,
            persistence::RestoreView::Abandoned => AppView { pending: None, ..v },
            persistence::RestoreView::Ready { queue, position } => {
                let p = player::restoring(v.player, v.library, queue, position);
                AppView {
                    pending: None,
                    player: p,
                    queue_row: position,
                    list: match p.playing {
                        Some(t) => Some(t.0),
                        None => None,
                    },
                    ..v
                }
            },
        },
    }
}

// ── waiting ──────────────────────────────────────────────────────────────────

/// When the next line of the playing track begins, strictly after `t`.
pub open spec fn is_boundary(lines: Seq<lrc::LyricLine>, t: int, d: int) -> bool {
    exists|i: int|
        #![trigger lines[i]]
        0 <= i < lines.len() && lines[i].at == t + d && d > 0 && forall|j: int|
            0 <= j < i ==> (#[trigger] lines[j]).at <= t
}

/// Whether the highlight moves with the song: timed lyrics are followed and it
/// plays.
pub open spec fn highlight_moves(v: AppView, audio: playback::AudioView) -> bool {
    &&& v.lyrics_mode
    &&& v.following
    &&& !audio.paused
    &&& !audio.loading
    &&& current_lyrics(v) matches Some(found) && found.kind is Synced
}

// ── the state ────────────────────────────────────────────────────────────────

/// The state of the interface.
pub struct App {
    library: Library,
    player: Player,
    list: Option<usize>,
    songs: Option<usize>,
    queue_row: Option<usize>,
    active_panel: Panel,
    show_queue: bool,
    show_keymap: bool,
    notification: Option<(String, u64)>,
    reauth_requested: bool,
    pending_queue_restore: Option<QueueState>,
    filter: Vec<char>,
    filter_mode: bool,
    playlists_area: Rect,
    songs_area: Rect,
    lyrics_mode: bool,
    lyrics_cache: TextMap<LyricsEntry>,
    lyrics_scroll: i32,
    lyrics_following: bool,
    lyrics_picker: Option<LyricsPicker>,
    lyrics_overrides: LyricsOverrides,
    lyrics_dirty: bool,
    lyrics_duration_wait: Option<(String, u64)>,
    requests: Vec<Request>,
    config: Config,
}

/// The contents of a list of requests.
pub open spec fn request_views(s: Seq<Request>) -> Seq<RequestView> {
    s.map_values(|r: Request| r@)
}

/// A text and the time it belongs to.
pub open spec fn opt_timed(p: Option<(String, u64)>) -> Option<(Seq<char>, u64)> {
    match p {
        Some(x) => Some((x.0@, x.1)),
        None => None,
    }
}

/// The content of a list that may be open.
pub open spec fn opt_picker(p: Option<LyricsPicker>) -> Option<PickerView> {
    match p {
        Some(x) => Some(x@),
        None => None,
    }
}

impl View for App {
    type V = AppView;

    closed spec fn view(&self) -> AppView {
        AppView {
            library: self.library@,
            player: self.player@,
            list: self.list,
            songs: self.songs,
            queue_row: self.queue_row,
            panel: self.active_panel,
            show_queue: self.show_queue,
            show_keymap: self.show_keymap,
            notification: opt_timed(self.notification),
            reauth: self.reauth_requested,
            pending: self.pending_queue_restore,
            filter: self.filter@,
            filter_mode: self.filter_mode,
            playlists_area: self.playlists_area,
            songs_area: self.songs_area,
            lyrics_mode: self.lyrics_mode,
            cache: self.lyrics_cache@,
            scroll: self.lyrics_scroll,
            following: self.lyrics_following,
            picker: opt_picker(self.lyrics_picker),
            overrides: self.lyrics_overrides.choices@,
            dirty: self.lyrics_dirty,
            wait: opt_timed(self.lyrics_duration_wait),
            asked: request_views(self.requests@),
            config: self.config,
        }
    }
}

/// No cells at all.
pub open spec fn nowhere() -> Rect {
    Rect { x: 0, y: 0, width: 0, height: 0 }
}

/// The state at the start: the first playlist selected, the volume of the last run,
/// and a queue of the last run that waits for its playlists.
pub open spec fn started(
    es: Seq<library::PlaylistEntry>,
    saved: Option<QueueState>,
    volume: u8,
    overrides: Map<Seq<char>, u64>,
    config: Config,
) -> AppView {
    AppView {
        library: es,
        player: player::at_volume(
            player::PlayerView {
                queue: Seq::empty(),
                pos: None,
                mode: PlayMode::Cycle,
                playing: None,
                started: false,
                volume: 80,
                muted: false,
                pre_mute: 80,
                sent: seq![playback::CmdView::Volume(80)],
            },
            player::percent(volume as int),
        ),
        list: if es.len() > 0 {
            Some(0)
        } else {
            None
        },
        songs: None,
        queue_row: None,
        panel: Panel::Playlists,
        show_queue: false,
        show_keymap: false,
        notification: None,
        reauth: false,
        pending: saved,
        filter: Seq::empty(),
        filter_mode: false,
        playlists_area: nowhere(),
        songs_area: nowhere(),
        lyrics_mode: false,
        cache: Map::empty(),
        scroll: 0,
        following: true,
        picker: None,
        overrides,
        dirty: false,
        wait: None,
        asked: Seq::empty(),
        config,
    }
}

impl App {
    /// The state at the start.
    pub fn new(
        library: Library,
        saved_queue: Option<QueueState>,
        volume: u8,
        overrides: LyricsOverrides,
        config: Config,
    ) -> (r: Self)
        ensures
            r@ == started(library@, saved_queue, volume, overrides.choices@, config),
            r@.wf(),
    {
        let mut player = Player::new();
        player.set_volume(volume);
        let list = if library.len() > 0 {
            Some(0)
        } else {
            None
        };
        let area = Rect { x: 0, y: 0, width: 0, height: 0 };
        let r = App {
            library,
            player,
            list,
            songs: None,
            queue_row: None,
            active_panel: Panel::Playlists,
            show_queue: false,
            show_keymap: false,
            notification: None,
            reauth_requested: false,
            pending_queue_restore: saved_queue,
            filter: Vec::new(),
            filter_mode: false,
            playlists_area: area,
            songs_area: area,
            lyrics_mode: false,
            lyrics_cache: TextMap::new(),
            lyrics_scroll: 0,
            lyrics_following: true,
            lyrics_picker: None,
            lyrics_overrides: overrides,
            lyrics_dirty: false,
            lyrics_duration_wait: None,
            requests: Vec::new(),
            config,
        };
        assert(r@.asked =~= Seq::empty());
        r
    }

    // ── what is asked of the outside ─────────────────────────────────────────

    /// The player's commands, which the audio thread carries out.
    pub fn take_commands(&mut self) -> (r: Vec<playback::Cmd>)
        ensures
            player::mail(r@) == old(self)@.player.sent,
            final(self)@ == (AppView {
                player: player::PlayerView { sent: Seq::empty(), ..old(self)@.player },
                ..old(self)@
            }),
    {
        self.player.take_commands()
    }

    /// The searches to start.
    pub fn take_requests(&mut self) -> (r: Vec<Request>)
        ensures
            request_views(r@) == old(self)@.asked,
            final(self)@ == (AppView { asked: Seq::empty(), ..old(self)@ }),
    {
        let mut out: Vec<Request> = Vec::new();
        std::mem::swap(&mut out, &mut self.requests);
        assert(self@.asked =~= Seq::empty());
        out
    }

    // ── small steps ──────────────────────────────────────────────────────────

    fn notify(&mut self, message: &str, now: u64)
        ensures
            final(self)@ == saying(old(self)@, message@, now),
    {
        self.notification = Some((message.to_owned(), now));
    }

    fn clear_filter(&mut self)
        ensures
            final(self)@ == unfiltered(old(self)@),
    {
        self.filter = Vec::new();
        self.filter_mode = false;
        self.songs = Some(0);
        self.queue_row = Some(0);
        assert(self@.filter =~= Seq::empty());
    }

    fn reset_lyrics_view(&mut self)
        ensures
            final(self)@ == recentred(old(self)@),
    {
        self.lyrics_scroll = 0;
        self.lyrics_following = true;
    }

    fn scroll_lyrics(&mut self, delta: i32)
        ensures
            final(self)@ == scrolled(old(self)@, delta as int),
    {
        let to: i64 = self.lyrics_scroll as i64 + delta as i64;
        self.lyrics_scroll = if to > 0x7fff_ffff {
            0x7fff_ffff
        } else if to < -0x8000_0000 {
            -0x8000_0000
        } else {
            to as i32
        };
        self.lyrics_following = false;
    }

    fn sync_queue_view(&mut self)
        ensures
            final(self)@ == synced(old(self)@),
    {
        if self.show_queue {
            self.queue_row = self.player.queue_position();
        }
    }

    /// The songs shown of a playlist, by their places in it.
    pub fn filtered_songs(&self, pl: usize) -> (r: Vec<usize>)
        ensures
            r@ == songs_shown(self@, pl),
            forall|i: int|
                0 <= i < r@.len() ==> #[trigger] r@[i] < library::songs_at(
                    self@.library,
                    pl as int,
                ).len(),
    {
        filter::filtered_songs(self.library.songs(pl), self.filter.as_slice())
    }

    /// The queue entries shown, by their places.
    pub fn filtered_queue_positions(&self) -> (r: Vec<usize>)
        ensures
            r@ == entries_shown(self@),
            forall|i: int| 0 <= i < r@.len() ==> #[trigger] r@[i] < self@.player.queue.len(),
    {
        filter::filtered_queue_positions(
            &self.library,
            self.player.queue(),
            self.filter.as_slice(),
        )
    }

    fn warm_row(&mut self, pl: usize, shown: &Vec<usize>, row: usize)
        requires
            forall|i: int|
                0 <= i < shown@.len() ==> #[trigger] shown@[i] < library::songs_at(
                    old(self)@.library,
                    pl as int,
                ).len(),
        ensures
            final(self)@ == (AppView {
                player: row_warmed(
                    old(self)@.player,
                    old(self)@.library,
                    pl,
                    shown@,
                    row as int,
                ),
                ..old(self)@
            }),
            old(self)@.wf() ==> final(self)@.wf(),
    {
        if row >= shown.len() {
            return;
        }
        match self.library.track(pl, shown[row]) {
            Some(t) => match &t.video_id {
                Some(id) => {
                    self.player.prefetch(id.as_str());
                },
                None => {},
            },
            None => {},
        }
    }

    #[verifier::rlimit(30)]
    fn prefetch_selected(&mut self)
        ensures
            final(self)@ == warmed(old(self)@),
            old(self)@.wf() ==> final(self)@.wf(),
    {
        let pl: usize = match self.list {
            Some(pl) => pl,
            None => return,
        };
        let shown = self.filtered_songs(pl);
        let base: usize = match self.songs {
            Some(i) => i,
            None => 0,
        };
        self.warm_row(pl, &shown, base);
        if base < usize::MAX {
            self.warm_row(pl, &shown, base + 1);
        }
    }

    /// The video that plays.
    pub fn current_video_id(&self) -> (r: Option<String>)
        ensures
            text::opt(r) == current_video(self@),
    {
        match self.player.playing() {
            Some(t) => match self.library.track(t.0, t.1) {
                Some(track) => match &track.video_id {
                    Some(id) => Some(id.as_str().to_owned()),
                    None => None,
                },
                None => None,
            },
            None => None,
        }
    }

    /// The track that plays, where the library has it.
    pub fn current_track(&self) -> (r: Option<&Track>)
        ensures
            match r {
                Some(t) => current_track(self@) == Some(*t),
                None => current_track(self@) is None,
            },
    {
        match self.player.playing() {
            Some(t) => self.library.track(t.0, t.1),
            None => None,
        }
    }

    /// The lyrics of the track that plays, once they are there.
    pub fn current_lyrics(&self) -> (r: Option<&TrackLyrics>)
        ensures
            match r {
                Some(found) => current_lyrics(self@) == Some(*found) && (self@.wf()
                    ==> lyrics::well_timed(*found)),
                None => current_lyrics(self@) is None,
            },
    {
        match self.current_video_id() {
            Some(id) => match self.lyrics_cache.get(id.as_str()) {
                Some(LyricsEntry::Ready(found)) => {
                    assert(self@.wf() ==> entry_in_time(self@.cache[id@]));
                    Some(found)
                },
                _ => None,
            },
            None => None,
        }
    }

    fn selected_song(&self) -> (r: Option<TrackRef>)
        ensures
            r == chosen_song(self@),
    {
        match (self.list, self.songs) {
            (Some(pl), Some(row)) => {
                let shown = self.filtered_songs(pl);
                if row < shown.len() {
                    Some((pl, shown[row]))
                } else {
                    None
                }
            },
            _ => None,
        }
    }

    fn selected_entry(&self) -> (r: Option<usize>)
        ensures
            r == chosen_entry(self@),
            r matches Some(q) ==> q < self@.player.queue.len(),
    {
        match self.queue_row {
            Some(row) => {
                let shown = self.filtered_queue_positions();
                if row < shown.len() {
                    Some(shown[row])
                } else {
                    None
                }
            },
            None => None,
        }
    }

    fn title_at(&self, t: TrackRef, otherwise: &str) -> (r: String)
        ensures
            r@ == title_or(self@, t, otherwise@),
    {
        match self.library.track(t.0, t.1) {
            Some(track) => match &track.title {
                Some(s) => s.as_str().to_owned(),
                None => otherwise.to_owned(),
            },
            None => otherwise.to_owned(),
        }
    }

    fn do_append_to_queue(&mut self, t: TrackRef, now: u64)
        ensures
            final(self)@ == appended(old(self)@, t, now),
            old(self)@.wf() ==> final(self)@.wf(),
    {
        let title = self.title_at(t, "song");
        let outcome = self.player.append_to_queue(&self.library, t.0, t.1);
        let mut message = String::new();
        match outcome {
            AppendOutcome::StartedPlaying { .. } => {
                message.append("Playing: ");
                message.append(title.as_str());
                assert(message@ =~= "Playing: "@ + title@);
            },
            AppendOutcome::Queued { queue_len } => {
                message.append("+ queue #");
                message.append(text::show(queue_len as u64).as_str());
                message.append(": ");
                message.append(title.as_str());
                assert(message@ =~= "+ queue #"@ + text::decimal(queue_len as nat) + ": "@ + title@);
            },
        }
        self.notify(message.as_str(), now);
    }

    #[verifier::rlimit(30)]
    fn do_remove_from_queue(&mut self, q_pos: usize, now: u64)
        requires
            old(self)@.player.wf(),
        ensures
            final(self)@ == entry_removed(old(self)@, q_pos, now),
            old(self)@.wf() ==> final(self)@.wf(),
    {
        let outcome = self.player.remove_from_queue(&self.library, q_pos);
        let n: usize = self.player.queue().len();
        self.queue_row = if n == 0 {
            None
        } else if q_pos < n {
            Some(q_pos)
        } else {
            Some(n - 1)
        };
        match outcome {
            RemoveOutcome::Switched { track } => {
                let title = self.title_at(track, "next song");
                let message = text::concat("▶  ", title.as_str());
                self.notify(message.as_str(), now);
            },
            _ => {},
        }
    }

    // ── lyrics ───────────────────────────────────────────────────────────────

    fn fetch(&mut self, video_id: &str, query: LyricsQuery)
        ensures
            final(self)@ == fetching(old(self)@, video_id@, query@),
            old(self)@.wf() ==> final(self)@.wf(),
    {
        let chosen = self.lyrics_overrides.get(video_id);
        self.lyrics_cache.insert(video_id.to_owned(), LyricsEntry::Loading);
        let request = Request::Best { video_id: video_id.to_owned(), query, chosen };
        let ghost before = self@.asked;
        self.requests.push(request);
        assert(self@.asked =~= before.push(request@));
    }

    fn ensure_lyrics(&mut self, video_id: &str, total: i64, now: u64)
        ensures
            final(self)@ == looking_up(old(self)@, video_id@, total as int, now),
            old(self)@.wf() ==> final(self)@.wf(),
    {
        if self.lyrics_cache.contains_key(video_id) {
            return;
        }
        let query = match self.current_track() {
            Some(t) => LyricsQuery::from_track(t),
            None => return,
        };
        let mut query = match query {
            Some(q) => q,
            None => return,
        };
        if total > 0 {
            query.duration = Some(total);
        } else {
            let begun: Option<u64> = match &self.lyrics_duration_wait {
                Some((id, start)) => if text::same_str(id.as_str(), video_id) {
                    Some(*start)
                } else {
                    None
                },
                None => None,
            };
            match begun {
                Some(start) => {
                    if now < start || now - start < DURATION_WAIT {
                        return;
                    }
                },
                None => {
                    self.lyrics_duration_wait = Some((video_id.to_owned(), now));
                    return;
                },
            }
        }
        self.fetch(video_id, query);
    }

    /// What the passing of time does. `audio` is what the player reports.
    #[verifier::rlimit(30)]
    pub fn tick(&mut self, audio: &AudioState, now: u64)
        ensures
            final(self)@ == ticked(old(self)@, audio@.total, now),
            old(self)@.wf() ==> final(self)@.wf(),
    {
        if self.lyrics_mode {
            match self.current_video_id() {
                Some(id) => self.ensure_lyrics(id.as_str(), audio.total, now),
                None => {},
            }
        }
        let expired = match &self.notification {
            Some((_, then)) => now >= *then && now - *then >= NOTIFICATION_TTL,
            None => false,
        };
        if expired {
            self.notification = None;
        }
    }

    /// Takes in what a search brought.
    pub fn take_lyrics(&mut self, msg: LyricsMsg)
        requires
            old(self)@.wf(),
            message_in_time(msg),
        ensures
            final(self)@ == told(old(self)@, msg),
            final(self)@.wf(),
    {
        match msg {
            LyricsMsg::Best { video_id, result } => {
                let current = match self.current_video_id() {
                    Some(id) => text::same_str(id.as_str(), video_id.as_str()),
                    None => false,
                };
                let entry = match result {
                    Ok(Some(found)) => LyricsEntry::Ready(found),
                    Ok(None) => LyricsEntry::Missing,
                    Err(e) => LyricsEntry::Failed(e),
                };
                self.lyrics_cache.insert(video_id, entry);
                if current {
                    self.reset_lyrics_view();
                }
            },
            LyricsMsg::Choices { video_id, result } => {
                let mut open: Option<LyricsPicker> = None;
                std::mem::swap(&mut open, &mut self.lyrics_picker);
                match open {
                    Some(picker) => {
                        let mut picker = picker;
                        if text::same_str(picker.video_id.as_str(), video_id.as_str()) {
                            picker.loading = false;
                            match result {
                                Ok(items) => {
                                    let start: usize = lyric_panel::initial_picker_row(
                                        items.as_slice(),
                                        picker.on_screen,
                                        picker.overridden,
                                    );
                                    picker.selected = Some(start);
                                    picker.items = items;
                                },
                                Err(e) => {
                                    picker.error = Some(e);
                                },
                            }
                        }
                        self.lyrics_picker = Some(picker);
                    },
                    None => {},
                }
            },
        }
    }

    fn open_lyrics_picker(&mut self, now: u64)
        requires
            old(self)@.wf(),
        ensures
            final(self)@ == picker_opened(old(self)@, now),
            final(self)@.wf(),
    {
        let video_id = match self.current_video_id() {
            Some(id) => id,
            None => {
                self.notify("No track playing", now);
                return;
            },
        };
        let query = match self.current_track() {
            Some(t) => LyricsQuery::from_track(t),
            None => return,
        };
        let query = match query {
            Some(q) => q,
            None => {
                self.notify("Track has no title to search on", now);
                return;
            },
        };
        let on_screen = match self.current_lyrics() {
            Some(found) => Some(found.id),
            None => None,
        };
        let overridden = self.lyrics_overrides.get(video_id.as_str()).is_some();
        let picker = LyricsPicker {
            video_id: video_id.as_str().to_owned(),
            items: Vec::new(),
            on_screen,
            overridden,
            selected: None,
            loading: true,
            error: None,
        };
        assert(picker@.items =~= Seq::empty());
        self.lyrics_picker = Some(picker);
        let request = Request::Choices { video_id, query, on_screen };
        let ghost before = self@.asked;
        self.requests.push(request);
        assert(self@.asked =~= before.push(request@));
    }

    #[verifier::rlimit(30)]
    fn commit_lyrics_choice(&mut self, now: u64)
        requires
            old(self)@.wf(),
        ensures
            final(self)@ == picker_committed(old(self)@, now),
            final(self)@.wf(),
    {
        let mut open: Option<LyricsPicker> = None;
        std::mem::swap(&mut open, &mut self.lyrics_picker);
        let mut picker = match open {
            Some(p) => p,
            None => return,
        };
        let row: usize = match picker.selected {
            Some(row) => row,
            None => {
                self.lyrics_picker = Some(picker);
                return;
            },
        };
        if row == 0 {
            self.use_best_match(picker.video_id.as_str(), now);
        } else {
            if row - 1 >= picker.items.len() {
                self.lyrics_picker = Some(picker);
                return;
            }
            assert(lyrics::well_timed(picker@.items[row - 1]));
            let chosen = picker.items.remove(row - 1);
            self.use_record(picker.video_id, chosen, now);
        }
    }

    fn use_best_match(&mut self, video_id: &str, now: u64)
        ensures
            final(self)@ == recentred(
                saying(
                    AppView {
                        overrides: old(self)@.overrides.remove(video_id@),
                        dirty: true,
                        cache: old(self)@.cache.remove(video_id@),
                        ..old(self)@
                    },
                    "Lyrics: automatic match"@,
                    now,
                ),
            ),
            old(self)@.wf() ==> final(self)@.wf(),
    {
        self.lyrics_overrides.clear(video_id);
        self.lyrics_dirty = true;
        self.lyrics_cache.remove(video_id);
        self.notify("Lyrics: automatic match", now);
        self.reset_lyrics_view();
    }

    fn use_record(&mut self, video_id: String, chosen: TrackLyrics, now: u64)
        ensures
            final(self)@ == recentred(
                saying(
                    AppView {
                        overrides: old(self)@.overrides.insert(video_id@, chosen.id),
                        dirty: true,
                        cache: old(self)@.cache.insert(video_id@, LyricsEntry::Ready(chosen)),
                        ..old(self)@
                    },
                    "Lyrics source updated"@,
                    now,
                ),
            ),
            old(self)@.wf() && lyrics::well_timed(chosen) ==> final(self)@.wf(),
    {
        self.lyrics_overrides.set(video_id.as_str(), chosen.id);
        self.lyrics_dirty = true;
        self.lyrics_cache.insert(video_id, LyricsEntry::Ready(chosen));
        self.notify("Lyrics source updated", now);
        self.reset_lyrics_view();
    }

    fn retry_lyrics(&mut self, now: u64)
        requires
            old(self)@.wf(),
        ensures
            final(self)@ == lyrics_retried(old(self)@, now),
            final(self)@.wf(),
    {
        match self.current_video_id() {
            Some(id) => {
                self.lyrics_cache.remove(id.as_str());
                self.reset_lyrics_view();
                self.notify("Retrying lyrics…", now);
            },
            None => {},
        }
    }

    fn toggle_lyrics_mode(&mut self)
        ensures
            final(self)@ == lyrics_toggled(old(self)@),
            old(self)@.wf() ==> final(self)@.wf(),
    {
        self.lyrics_mode = !self.lyrics_mode;
        self.lyrics_picker = None;
        self.reset_lyrics_view();
    }

    // ── keys ─────────────────────────────────────────────────────────────────

    fn move_picker(&mut self, down: bool)
        ensures
            final(self)@ == (match old(self)@.picker {
                Some(p) => AppView {
                    picker: Some(
                        PickerView {
                            selected: if down {
                                panel::row_below(p.selected)
                            } else {
                                panel::row_above(p.selected)
                            },
                            ..p
                        },
                    ),
                    ..old(self)@
                },
                None => old(self)@,
            }),
            old(self)@.wf() ==> final(self)@.wf(),
    {
        let mut open: Option<LyricsPicker> = None;
        std::mem::swap(&mut open, &mut self.lyrics_picker);
        match open {
            Some(picker) => {
                let mut picker = picker;
                picker.selected = if down {
                    panel::select_next(picker.selected)
                } else {
                    panel::select_previous(picker.selected)
                };
                self.lyrics_picker = Some(picker);
            },
            None => {},
        }
    }

    fn handle_picker_key(&mut self, key: Key, audio: &AudioState, now: u64) -> (r: bool)
        requires
            old(self)@.wf(),
        ensures
            (final(self)@, r) == picker_key(old(self)@, key, audio@, now),
            final(self)@.wf(),
    {
        match key {
            Key::Char('q') => return true,
            Key::Esc | Key::Char('c') => {
                self.lyrics_picker = None;
            },
            Key::Char('j') | Key::Down => self.move_picker(true),
            Key::Char('k') | Key::Up => self.move_picker(false),
            Key::Enter => self.commit_lyrics_choice(now),
            Key::Char(' ') => {
                if self.player.playing().is_some() && self.player.playback_started() {
                    self.player.toggle_pause(audio);
                }
            },
            Key::Left => self.seek(-SEEK_STEP),
            Key::Right => self.seek(SEEK_STEP),
            _ => {},
        }
        false
    }

    fn handle_filter_key(&mut self, key: Key)
        ensures
            final(self)@ == filter_key(old(self)@, key),
            old(self)@.wf() ==> final(self)@.wf(),
    {
        match key {
            Key::Esc => self.clear_filter(),
            Key::Enter => {
                self.filter_mode = false;
            },
            Key::Backspace => {
                self.filter.pop();
                self.songs = Some(0);
                self.queue_row = Some(0);
            },
            Key::Char(c) => {
                self.filter.push(c);
                self.songs = Some(0);
                self.queue_row = Some(0);
            },
            _ => {},
        }
    }

    fn move_cursor(&mut self, down: bool)
        ensures
            final(self)@ == moved(old(self)@, down),
            old(self)@.wf() ==> final(self)@.wf(),
    {
        match self.active_panel {
            Panel::Playlists => {
                self.list = if down {
                    panel::select_next(self.list)
                } else {
                    panel::select_previous(self.list)
                };
                self.clear_filter();
            },
            Panel::Songs => self.move_songs(down),
        }
    }

    fn move_songs(&mut self, down: bool)
        ensures
            final(self)@ == moved(AppView { panel: Panel::Songs, ..old(self)@ }, down).with_panel(
                old(self)@.panel,
            ),
            old(self)@.wf() ==> final(self)@.wf(),
    {
        if self.lyrics_mode {
            self.scroll_lyrics(
                if down {
                    1
                } else {
                    -1
                },
            );
        } else if self.show_queue {
            self.queue_row = if down {
                panel::select_next(self.queue_row)
            } else {
                panel::select_previous(self.queue_row)
            };
        } else {
            self.songs = if down {
                panel::select_next(self.songs)
            } else {
                panel::select_previous(self.songs)
            };
            self.prefetch_selected();
        }
    }

    fn enter_songs(&mut self)
        ensures
            final(self)@ == songs_entered(old(self)@),
            old(self)@.wf() ==> final(self)@.wf(),
    {
        self.active_panel = Panel::Songs;
        if self.songs.is_none() {
            self.songs = Some(0);
        }
    }

    fn enter(&mut self)
        requires
            old(self)@.wf(),
        ensures
            exists|order: Seq<TrackRef>|
                order_fits(old(self)@, Key::Enter, order) && final(self)@ == #[trigger] entered(
                    old(self)@,
                    order,
                ),
            final(self)@.wf(),
    {
        let ghost v = self@;
        let ghost all = match v.list {
            Some(pl) => player::album_order(pl, library::songs_at(v.library, pl as int).len()),
            None => Seq::empty(),
        };
        match self.active_panel {
            Panel::Playlists => {
                self.enter_songs();
                self.clear_filter();
                self.prefetch_selected();
                assert(self@ == entered(v, all));
            },
            Panel::Songs => {
                if self.show_queue {
                    match self.selected_entry() {
                        Some(q) => self.player.jump_to(&self.library, q),
                        None => {},
                    }
                    assert(self@ == entered(v, all));
                } else {
                    match self.selected_song() {
                        Some(t) => {
                            self.player.play(&self.library, t.0, t.1);
                            let ghost order = choose|order: Seq<TrackRef>|
                                {
                                    let n = library::songs_at(v.library, t.0 as int).len();
                                    &&& order.to_multiset() == player::album_order(
                                        t.0,
                                        n,
                                    ).to_multiset()
                                    &&& v.player.mode != PlayMode::Shuffle ==> order
                                        == player::album_order(t.0, n)
                                    &&& self@.player == #[trigger] player::opening(
                                        v.player,
                                        v.library,
                                        order,
                                        (t.0, t.1),
                                    )
                                };
                            self.sync_queue_view();
                            assert(order_fits(v, Key::Enter, order));
                            assert(self@ == entered(v, order));
                        },
                        None => {
                            assert(self@ == entered(v, all));
                        },
                    }
                }
            },
        }
    }

    fn space(&mut self, audio: &AudioState)
        ensures
            final(self)@ == spaced(old(self)@, audio@),
            old(self)@.wf() ==> final(self)@.wf(),
    {
        if self.player.playing().is_some() {
            if self.player.playback_started() {
                self.player.toggle_pause(audio);
            } else {
                self.player.start_current(&self.library);
            }
        }
    }

    fn escape(&mut self) -> (r: bool)
        ensures
            (final(self)@, r) == escaped(old(self)@),
            old(self)@.wf() ==> final(self)@.wf(),
    {
        if self.lyrics_mode {
            if !self.lyrics_following {
                self.reset_lyrics_view();
            } else {
                self.lyrics_mode = false;
            }
            return false;
        }
        match self.active_panel {
            Panel::Playlists => true,
            Panel::Songs => {
                if self.filter.len() > 0 {
                    self.clear_filter();
                } else {
                    self.active_panel = Panel::Playlists;
                }
                false
            },
        }
    }

    fn leave_songs(&mut self)
        ensures
            final(self)@ == unfiltered(AppView { panel: Panel::Playlists, ..old(self)@ }),
            old(self)@.wf() ==> final(self)@.wf(),
    {
        self.active_panel = Panel::Playlists;
        self.clear_filter();
    }

    fn step(&mut self, delta: i64)
        ensures
            final(self)@ == synced(
                AppView {
                    player: player::stepping(old(self)@.player, old(self)@.library, delta as int),
                    ..old(self)@
                },
            ),
            old(self)@.wf() ==> final(self)@.wf(),
    {
        self.player.advance(&self.library, delta);
        self.sync_queue_view();
    }

    fn switch_mode(&mut self)
        requires
            old(self)@.wf(),
        ensures
            exists|order: Seq<TrackRef>|
                order.to_multiset() == old(self)@.player.queue.to_multiset() && final(self)@
                    == #[trigger] mode_switched(old(self)@, order),
            final(self)@.wf(),
    {
        let ghost v = self@;
        self.player.cycle_mode();
        let ghost order = choose|order: Seq<TrackRef>|
            order.to_multiset() == v.player.queue.to_multiset() && self@.player
                == #[trigger] player::switching(
                v.player,
                player::next_mode(v.player.mode),
                order,
            );
        self.sync_queue_view();
        assert(self@ == mode_switched(v, order));
    }

    fn append_selected(&mut self, now: u64)
        ensures
            final(self)@ == selection_appended(old(self)@, now),
            old(self)@.wf() ==> final(self)@.wf(),
    {
        if self.active_panel == Panel::Songs && !self.show_queue {
            match self.selected_song() {
                Some(t) => self.do_append_to_queue(t, now),
                None => {},
            }
        }
    }

    fn remove_selected(&mut self, now: u64)
        requires
            old(self)@.wf(),
        ensures
            final(self)@ == selection_removed(old(self)@, now),
            final(self)@.wf(),
    {
        if self.active_panel == Panel::Songs && self.show_queue {
            match self.selected_entry() {
                Some(q) => self.do_remove_from_queue(q, now),
                None => {},
            }
        }
    }

    fn toggle_queue(&mut self)
        ensures
            final(self)@ == queue_toggled(old(self)@),
            old(self)@.wf() ==> final(self)@.wf(),
    {
        self.show_queue = !self.show_queue;
        self.filter = Vec::new();
        assert(self@.filter =~= Seq::empty());
        self.filter_mode = false;
        self.sync_queue_view();
    }

    /// The keys that move about and edit the queue.
    #[verifier::rlimit(30)]
    fn handle_list_key(&mut self, key: Key, now: u64) -> (r: bool)
        requires
            old(self)@.wf(),
        ensures
            exists|order: Seq<TrackRef>|
                order_fits(old(self)@, key, order) && (final(self)@, r) == #[trigger] list_key(
                    old(self)@,
                    key,
                    now,
                    order,
                ),
            final(self)@.wf(),
    {
        let ghost v = self@;
        let ghost mut order = v.player.queue;
        match key {
            Key::Char('j') => self.move_cursor(true),
            Key::Char('k') => self.move_cursor(false),
            Key::Char('h') => self.leave_songs(),
            Key::Char('l') => {
                self.enter_songs();
                self.prefetch_selected();
            },
            Key::Enter => {
                self.enter();
                proof {
                    order = choose|order: Seq<TrackRef>|
                        order_fits(v, Key::Enter, order) && self@ == #[trigger] entered(v, order);
                }
            },
            Key::Char('/') => {
                if self.active_panel == Panel::Songs {
                    self.filter_mode = true;
                }
            },
            Key::Char('a') => self.append_selected(now),
            Key::Char('d') => self.remove_selected(now),
            Key::Char('o') => self.toggle_queue(),
            Key::Char('?') => {
                self.show_keymap = true;
            },
            _ => {},
        }
        assert((self@, false) == list_key(v, key, now, order));
        false
    }

    fn seek(&mut self, delta: i64)
        ensures
            final(self)@ == seeked(old(self)@, delta as int),
            old(self)@.wf() ==> final(self)@.wf(),
    {
        self.player.seek(delta);
    }

    fn toggle_mute(&mut self)
        ensures
            final(self)@ == (AppView { player: player::muting(old(self)@.player), ..old(self)@ }),
            old(self)@.wf() ==> final(self)@.wf(),
    {
        self.player.toggle_mute();
    }

    fn adjust_volume(&mut self, delta: i8)
        ensures
            final(self)@ == louder(old(self)@, delta as int),
            old(self)@.wf() ==> final(self)@.wf(),
    {
        self.player.adjust_volume(delta);
    }

    /// The keys that control playback.
    fn handle_playback_key(&mut self, key: Key, audio: &AudioState)
        requires
            old(self)@.wf(),
            key != Key::Char('t'),
        ensures
            final(self)@ == playback_key(old(self)@, key, audio@, Seq::empty()).0,
            final(self)@.wf(),
    {
        match key {
            Key::Char(' ') => self.space(audio),
            Key::Char('p') => self.step(-1),
            Key::Char('n') => self.step(1),
            Key::Char('m') => self.toggle_mute(),
            Key::Left => self.seek(-SEEK_STEP),
            Key::Right => self.seek(SEEK_STEP),
            Key::Up => self.adjust_volume(5),
            Key::Down => self.adjust_volume(-5),
            _ => {},
        }
    }

    /// The keys for lyrics, and those that quit.
    fn handle_lyrics_key(&mut self, key: Key, now: u64) -> (r: bool)
        requires
            old(self)@.wf(),
        ensures
            (final(self)@, r) == lyrics_key(old(self)@, key, now),
            final(self)@.wf(),
    {
        match key {
            Key::Char('y') => self.toggle_lyrics_mode(),
            Key::Char('c') => {
                if self.lyrics_mode {
                    self.open_lyrics_picker(now);
                }
            },
            Key::Char('r') => {
                if self.lyrics_mode {
                    self.retry_lyrics(now);
                } else if self.library.is_empty() {
                    self.reauth_requested = true;
                    return true;
                }
            },
            Key::PageDown => {
                if self.lyrics_mode {
                    self.scroll_lyrics(5);
                }
            },
            Key::PageUp => {
                if self.lyrics_mode {
                    self.scroll_lyrics(-5);
                }
            },
            Key::Esc => return self.escape(),
            Key::Char('q') => return true,
            _ => {},
        }
        false
    }

    fn handle_plain_key(&mut self, key: Key, audio: &AudioState, now: u64) -> (r: bool)
        requires
            old(self)@.wf(),
        ensures
            exists|order: Seq<TrackRef>|
                order_fits(old(self)@, key, order) && (final(self)@, r) == #[trigger] plain_key(
                    old(self)@,
                    key,
                    audio@,
                    now,
                    order,
                ),
            final(self)@.wf(),
    {
        let ghost v = self@;
        if is_list_key(key) {
            let r = self.handle_list_key(key, now);
            proof {
                let order = choose|order: Seq<TrackRef>|
                    order_fits(v, key, order) && (self@, r) == #[trigger] list_key(
                        v,
                        key,
                        now,
                        order,
                    );
                assert((self@, r) == plain_key(v, key, audio@, now, order));
            }
            r
        } else if is_playback_key(key) {
            if key == Key::Char('t') {
                self.switch_mode();
                proof {
                    let order = choose|order: Seq<TrackRef>|
                        order.to_multiset() == v.player.queue.to_multiset() && self@
                            == #[trigger] mode_switched(v, order);
                    assert(order_fits(v, key, order));
                    assert((self@, false) == plain_key(v, key, audio@, now, order));
                }
            } else {
                self.handle_playback_key(key, audio);
                assert(order_fits(v, key, Seq::empty()));
                assert((self@, false) == plain_key(v, key, audio@, now, Seq::empty()));
            }
            false
        } else {
            let r = self.handle_lyrics_key(key, now);
            assert(order_fits(v, key, Seq::empty()));
            assert((self@, r) == plain_key(v, key, audio@, now, Seq::empty()));
            r
        }
    }

    /// Takes a key; says whether it quits.
    pub fn handle_key(&mut self, key: Key, control: bool, audio: &AudioState, now: u64) -> (r: bool)
        requires
            old(self)@.wf(),
        ensures
            exists|order: Seq<TrackRef>|
                order_fits(old(self)@, key, order) && (final(self)@, r) == #[trigger] pressed(
                    old(self)@,
                    key,
                    control,
                    audio@,
                    now,
                    order,
                ),
            final(self)@.wf(),
    {
        let ghost v = self@;
        let ghost mut order = match v.list {
            Some(pl) if key == Key::Enter => player::album_order(
                pl,
                library::songs_at(v.library, pl as int).len(),
            ),
            _ => v.player.queue,
        };
        assert(order_fits(v, key, order));
        let mut quits = false;
        if key == Key::Char('c') && control {
            quits = true;
        } else if self.show_keymap {
            self.show_keymap = false;
        } else if self.lyrics_picker.is_some() {
            quits = self.handle_picker_key(key, audio, now);
        } else if self.filter_mode {
            self.handle_filter_key(key);
        } else {
            quits = self.handle_plain_key(key, audio, now);
            proof {
                order = choose|order: Seq<TrackRef>|
                    order_fits(v, key, order) && (self@, quits) == #[trigger] plain_key(
                        v,
                        key,
                        audio@,
                        now,
                        order,
                    );
            }
        }
        assert((self@, quits) == pressed(v, key, control, audio@, now, order));
        quits
    }

    // ── the mouse ────────────────────────────────────────────────────────────

    /// Where the panels were drawn.
    pub fn set_areas(&mut self, playlists: Rect, songs: Rect)
        ensures
            final(self)@ == (AppView {
                playlists_area: playlists,
                songs_area: songs,
                ..old(self)@
            }),
    {
        self.playlists_area = playlists;
        self.songs_area = songs;
    }

    /// What the tables made of the selections when they were drawn.
    pub fn set_selections(
        &mut self,
        list: Option<usize>,
        songs: Option<usize>,
        queue_row: Option<usize>,
    )
        ensures
            final(self)@ == (AppView { list, songs, queue_row, ..old(self)@ }),
    {
        self.list = list;
        self.songs = songs;
        self.queue_row = queue_row;
    }

    /// What the list of records made of its selection when it was drawn.
    pub fn set_picker_selection(&mut self, selected: Option<usize>)
        ensures
            final(self)@ == (match old(self)@.picker {
                Some(p) => AppView { picker: Some(PickerView { selected, ..p }), ..old(self)@ },
                None => old(self)@,
            }),
    {
        let mut open: Option<LyricsPicker> = None;
        std::mem::swap(&mut open, &mut self.lyrics_picker);
        match open {
            Some(picker) => {
                let mut picker = picker;
                picker.selected = selected;
                self.lyrics_picker = Some(picker);
            },
            None => {},
        }
    }

    /// Takes a turn of the wheel over the cell at `(x, y)`.
    pub fn handle_mouse(&mut self, scroll: Scroll, x: u16, y: u16)
        ensures
            final(self)@ == wheeled(old(self)@, scroll, x, y),
            old(self)@.wf() ==> final(self)@.wf(),
    {
        let down = scroll == Scroll::Down;
        if self.playlists_area.contains(x, y) {
            self.list = if down {
                panel::select_next(self.list)
            } else {
                panel::select_previous(self.list)
            };
            self.songs = None;
            self.filter = Vec::new();
            self.filter_mode = false;
            assert(self@.filter =~= Seq::empty());
        } else if self.songs_area.contains(x, y) {
            self.move_songs(down);
        }
    }

    // ── what arrives ─────────────────────────────────────────────────────────

    /// Takes in a playlist's songs, or that they could not be fetched.
    pub fn apply_song_batch(&mut self, idx: usize, songs: Option<Vec<Track>>)
        requires
            idx < old(self)@.library.len() ==> (songs matches Some(s) ==> library::seconds_sum(s@)
                <= u64::MAX),
        ensures
            final(self)@ == (AppView { library: final(self)@.library, ..old(self)@ }),
            final(self)@.library.len() == old(self)@.library.len(),
            forall|i: int|
                0 <= i < old(self)@.library.len() && i != idx ==> #[trigger] final(self)@.library[i]
                    == old(self)@.library[i],
            idx < old(self)@.library.len() ==> match songs {
                Some(s) => library::arrived(
                    final(self)@.library[idx as int],
                    old(self)@.library[idx as int].playlist,
                    s@,
                ),
                None => final(self)@.library[idx as int] == (library::PlaylistEntry {
                    failed: true,
                    ..old(self)@.library[idx as int]
                }),
            },
    {
        self.library.apply_song_batch(idx, songs);
    }

    /// Takes up the saved queue, once every playlist it names is there.
    pub fn try_restore_queue(&mut self)
        ensures
            final(self)@ == queue_restored(old(self)@),
            old(self)@.wf() ==> final(self)@.wf(),
    {
        let outcome = match &self.pending_queue_restore {
            Some(saved) => persistence::try_restore(&self.library, saved),
            None => return,
        };
        match outcome {
            RestoreOutcome::Pending => {},
            RestoreOutcome::Abandoned => {
                self.pending_queue_restore = None;
            },
            RestoreOutcome::Ready { queue, position } => {
                self.pending_queue_restore = None;
                self.player.restore(&self.library, queue, position);
                self.queue_row = position;
                self.list = match self.player.playing() {
                    Some(t) => Some(t.0),
                    None => None,
                };
            },
        }
    }

    /// Goes on when a song ended by itself.
    pub fn handle_song_end(&mut self, ended: bool)
        ensures
            final(self)@ == if !ended {
                old(self)@
            } else {
                synced(
                    AppView {
                        player: player::ending(old(self)@.player, old(self)@.library),
                        ..old(self)@
                    },
                )
            },
            old(self)@.wf() ==> final(self)@.wf(),
    {
        if self.player.handle_song_end(&self.library, ended) {
            self.sync_queue_view();
        }
    }

    // ── waiting ──────────────────────────────────────────────────────────────

    /// How long to wait for input, in nanoseconds: until just after the next line
    /// begins where the highlight moves, and a while otherwise.
    pub fn poll_timeout(&self, audio: &AudioState) -> (r: u64)
        requires
            self@.wf(),
        ensures
            SHORTEST_WAIT <= r <= IDLE,
            !highlight_moves(self@, audio@) ==> r == IDLE,
            highlight_moves(self@, audio@) ==> ({
                let lines = current_lyrics(self@)->0.kind->Synced_0@;
                let t = config::moment(self@.config.lyrics.offset, audio@.elapsed);
                &&& (forall|d: int| #[trigger]
                    is_boundary(lines, t, d) ==> r == until(d))
                &&& ((forall|j: int| 0 <= j < lines.len() ==> (#[trigger] lines[j]).at <= t)
                    ==> r == IDLE)
            }),
    {
        if !self.lyrics_mode || !self.lyrics_following || audio.paused || audio.loading {
            return IDLE;
        }
        let lines = match self.current_lyrics() {
            Some(found) => match found.synced_lines() {
                Some(lines) => lines,
                None => return IDLE,
            },
            None => return IDLE,
        };
        let t: i64 = self.config.lyrics.lyric_time(audio.elapsed);
        match lrc::next_boundary(lines, t) {
            Some(d) => {
                proof {
                    assert(is_boundary(lines@, t as int, d as int));
                    assert forall|e: int| #[trigger]
                        is_boundary(lines@, t as int, e) implies e == d by {
                        one_next_boundary(lines@, t as int, d as int, e);
                    }
                }
                if d >= IDLE - LATENESS {
                    IDLE
                } else if d + LATENESS < SHORTEST_WAIT {
                    SHORTEST_WAIT
                } else {
                    d + LATENESS
                }
            },
            None => {
                proof {
                    assert forall|e: int| !#[trigger] is_boundary(lines@, t as int, e) by {
                        if is_boundary(lines@, t as int, e) {
                            let i = choose|i: int|
                                #![trigger lines@[i]]
                                0 <= i < lines@.len() && lines@[i].at == t + e && e > 0;
                            assert(lines@[i].at <= t);
                        }
                    }
                }
                IDLE
            },
        }
    }
}

impl AppView {
    /// The same state with another panel focused.
    pub open spec fn with_panel(self, panel: Panel) -> AppView {
        AppView { panel, ..self }
    }
}

/// How long to wait for a line that begins in `d` nanoseconds.
pub open spec fn until(d: int) -> u64 {
    if d + LATENESS < SHORTEST_WAIT {
        SHORTEST_WAIT
    } else if d + LATENESS > IDLE {
        IDLE
    } else {
        (d + LATENESS) as u64
    }
}

/// The next line begins at one time only.
pub proof fn one_next_boundary(lines: Seq<lrc::LyricLine>, t: int, d: int, e: int)
    requires
        is_boundary(lines, t, d),
        is_boundary(lines, t, e),
    ensures
        d == e,
{
    let i = choose|i: int|
        #![trigger lines[i]]
        0 <= i < lines.len() && lines[i].at == t + d && d > 0 && forall|j: int|
            0 <= j < i ==> (#[trigger] lines[j]).at <= t;
    let k = choose|k: int|
        #![trigger lines[k]]
        0 <= k < lines.len() && lines[k].at == t + e && e > 0 && forall|j: int|
            0 <= j < k ==> (#[trigger] lines[j]).at <= t;
    if i < k {
        assert(lines[i].at <= t);
    } else if k < i {
        assert(lines[k].at <= t);
    }
}

// ── what the interface keeps to ──────────────────────────────────────────────

/// With control held, `c` quits whatever is open, and changes nothing.
pub proof fn control_c_always_quits(
    v: AppView,
    audio: playback::AudioView,
    now: u64,
    order: Seq<TrackRef>,
)
    ensures
        pressed(v, Key::Char('c'), true, audio, now, order) == (v, true),
{
}

/// The overview of keys swallows the next key and closes.
pub proof fn the_overview_takes_one_key(
    v: AppView,
    key: Key,
    control: bool,
    audio: playback::AudioView,
    now: u64,
    order: Seq<TrackRef>,
)
    requires
        v.show_keymap,
        !(key == Key::Char('c') && control),
    ensures
        pressed(v, key, control, audio, now, order) == (
            AppView { show_keymap: false, ..v },
            false,
        ),
{
}

/// While the list of records is open no key reaches the panels behind it: cursors,
/// panels, the query and the queue stay.
pub proof fn the_list_of_records_owns_the_keys(
    v: AppView,
    key: Key,
    control: bool,
    audio: playback::AudioView,
    now: u64,
    order: Seq<TrackRef>,
)
    requires
        v.picker is Some,
        !v.show_keymap,
    ensures
        ({
            let after = pressed(v, key, control, audio, now, order).0;
            &&& after.list == v.list
            &&& after.songs == v.songs
            &&& after.queue_row == v.queue_row
            &&& after.panel == v.panel
            &&& after.show_queue == v.show_queue
            &&& after.filter == v.filter
            &&& after.filter_mode == v.filter_mode
            &&& after.player.queue == v.player.queue
            &&& after.player.pos == v.player.pos
            &&& after.lyrics_mode == v.lyrics_mode
        }),
{
}

/// While a query is typed every character goes into it, and taking it back leaves
/// the query as it was.
pub proof fn typing_can_be_taken_back(v: AppView, c: char)
    ensures
        filter_key(v, Key::Char(c)).filter == v.filter.push(c),
        filter_key(filter_key(v, Key::Char(c)), Key::Backspace).filter == v.filter,
{
    assert(v.filter.push(c).drop_last() =~= v.filter);
}

/// Lyrics that were searched for once are not searched for again, whatever came of
/// it.
pub proof fn what_is_kept_is_not_fetched_again(
    v: AppView,
    video: Seq<char>,
    total: int,
    now: u64,
)
    requires
        v.cache.contains_key(video),
    ensures
        looking_up(v, video, total, now) == v,
{
}

/// One search runs per track, however often the clock ticks.
pub proof fn one_search_per_track(
    v: AppView,
    video: Seq<char>,
    total: int,
    now: u64,
    later_total: int,
    later: u64,
)
    ensures
        looking_up(v, video, total, now).asked.len() <= v.asked.len() + 1,
        looking_up(v, video, total, now).asked.len() > v.asked.len() ==> looking_up(
            looking_up(v, video, total, now),
            video,
            later_total,
            later,
        ) == looking_up(v, video, total, now),
{
}

/// A track whose length the player never tells is searched for all the same, after
/// a wait.
pub proof fn lyrics_do_not_wait_for_ever(v: AppView, video: Seq<char>, now: u64, later: u64)
    requires
        !v.cache.contains_key(video),
        current_track(v) matches Some(t) && lyrics::query_of(t) is Some,
        now + DURATION_WAIT <= later,
        !(v.wait matches Some(w) && w.0 == video),
    ensures
        looking_up(v, video, 0, now).asked == v.asked,
        looking_up(looking_up(v, video, 0, now), video, 0, later).asked.len() == v.asked.len() + 1,
        looking_up(looking_up(v, video, 0, now), video, 0, later).cache.contains_key(video),
{
}

/// Forgetting what is kept of the playing track's lyrics has them searched for
/// again.
pub proof fn retrying_searches_again(v: AppView, video: Seq<char>, total: int, now: u64)
    requires
        current_video(v) == Some(video),
        current_track(v) matches Some(t) && lyrics::query_of(t) is Some,
        total > 0,
    ensures
        looking_up(lyrics_retried(v, now), video, total, now).asked.len() == v.asked.len() + 1,
{
}

/// A result for another track is kept, but does not touch what is on screen.
pub proof fn late_results_disturb_nothing(v: AppView, msg: LyricsMsg)
    requires
        match msg {
            LyricsMsg::Best { video_id, result } => current_video(v) != Some(video_id@),
            LyricsMsg::Choices { video_id, result } => !(v.picker matches Some(p) && p.video
                == video_id@),
        },
    ensures
        told(v, msg) == (AppView { cache: told(v, msg).cache, ..v }),
        msg is Choices ==> told(v, msg) == v,
{
}

/// A record chosen by hand is remembered for its video, shown at once and without a
/// search; going back to the best match forgets it and searches again.
pub proof fn a_choice_takes_effect(v: AppView, row: usize, now: u64)
    requires
        v.picker matches Some(p) && p.selected == Some(row) && row <= p.items.len(),
    ensures
        ({
            let p = v.picker->0;
            let after = picker_committed(v, now);
            &&& after.picker is None
            &&& after.dirty
            &&& after.asked == v.asked
            &&& row == 0 ==> chosen_record(after, p.video) is None && !after.cache.contains_key(
                p.video,
            )
            &&& row > 0 ==> chosen_record(after, p.video) == Some(p.items[row - 1].id)
                && after.cache[p.video] == LyricsEntry::Ready(p.items[row - 1])
        }),
{
}

/// Escape brings scrolled lyrics back to the song, and only then closes them.
pub proof fn escape_recentres_first(v: AppView)
    requires
        v.lyrics_mode,
        !v.following,
    ensures
        escaped(v).0.lyrics_mode && escaped(v).0.following && !escaped(v).1,
        !escaped(escaped(v).0).0.lyrics_mode,
{
}

/// A notification is gone two seconds after it was said, and there until then.
pub proof fn notifications_expire(v: AppView, message: Seq<char>, then: u64, total: int, now: u64)
    requires
        then <= now,
        !v.lyrics_mode,
    ensures
        ticked(saying(v, message, then), total, now).notification == if now - then
            < NOTIFICATION_TTL {
            Some((message, then))
        } else {
            None
        },
{
}

/// While the queue is shown its cursor stands on the entry that plays after every
/// skip.
pub proof fn the_cursor_follows_playback(v: AppView, audio: playback::AudioView, order: Seq<TrackRef>)
    requires
        v.show_queue,
    ensures
        ({
            let next = playback_key(v, Key::Char('n'), audio, order).0;
            next.queue_row == next.player.pos
        }),
        ({
            let prev = playback_key(v, Key::Char('p'), audio, order).0;
            prev.queue_row == prev.player.pos
        }),
{
}

impl App {
    // ── what the screen is drawn from ────────────────────────────────────────

    /// The playlists and their songs.
    pub fn library(&self) -> (r: &Library)
        ensures
            r@ == self@.library,
    {
        &self.library
    }

    /// The queue and what plays.
    pub fn player(&self) -> (r: &Player)
        ensures
            r@ == self@.player,
    {
        &self.player
    }

    /// The selected playlist.
    pub fn list(&self) -> (r: Option<usize>)
        ensures
            r == self@.list,
    {
        self.list
    }

    /// The selected row of the songs shown.
    pub fn songs(&self) -> (r: Option<usize>)
        ensures
            r == self@.songs,
    {
        self.songs
    }

    /// The selected row of the queue entries shown.
    pub fn queue_row(&self) -> (r: Option<usize>)
        ensures
            r == self@.queue_row,
    {
        self.queue_row
    }

    /// The panel that takes keys.
    pub fn active_panel(&self) -> (r: Panel)
        ensures
            r == self@.panel,
    {
        self.active_panel
    }

    /// Whether the queue is shown in place of the songs.
    pub fn show_queue(&self) -> (r: bool)
        ensures
            r == self@.show_queue,
    {
        self.show_queue
    }

    /// Whether the overview of keys is open.
    pub fn show_keymap(&self) -> (r: bool)
        ensures
            r == self@.show_keymap,
    {
        self.show_keymap
    }

    /// What is said.
    pub fn notification(&self) -> (r: Option<&str>)
        ensures
            match r {
                Some(s) => self@.notification matches Some(n) && n.0 == s@,
                None => self@.notification is None,
            },
    {
        match &self.notification {
            Some((message, _)) => Some(message.as_str()),
            None => None,
        }
    }

    /// Whether the user asked to sign in again.
    pub fn reauth_requested(&self) -> (r: bool)
        ensures
            r == self@.reauth,
    {
        self.reauth_requested
    }

    /// Whether a saved queue still waits.
    pub fn restore_is_pending(&self) -> (r: bool)
        ensures
            r == self@.pending is Some,
    {
        self.pending_queue_restore.is_some()
    }

    /// The query.
    pub fn filter(&self) -> (r: &[char])
        ensures
            r@ == self@.filter,
    {
        self.filter.as_slice()
    }

    /// Whether a query is typed.
    pub fn filter_mode(&self) -> (r: bool)
        ensures
            r == self@.filter_mode,
    {
        self.filter_mode
    }

    /// Whether lyrics are shown.
    pub fn lyrics_mode(&self) -> (r: bool)
        ensures
            r == self@.lyrics_mode,
    {
        self.lyrics_mode
    }

    /// How far the lyrics are scrolled.
    pub fn lyrics_scroll(&self) -> (r: i32)
        ensures
            r == self@.scroll,
    {
        self.lyrics_scroll
    }

    /// What is kept of a video's lyrics.
    pub fn lyrics_entry(&self, video_id: &str) -> (r: Option<&LyricsEntry>)
        ensures
            match r {
                Some(e) => self@.cache.contains_key(video_id@) && *e == self@.cache[video_id@] && (
                self@.wf() ==> entry_in_time(*e)),
                None => !self@.cache.contains_key(video_id@),
            },
    {
        let r = self.lyrics_cache.get(video_id);
        assert(self@.wf() && r is Some ==> entry_in_time(self@.cache[video_id@]));
        r
    }

    /// The list of records, where it is open.
    pub fn lyrics_picker(&self) -> (r: Option<&LyricsPicker>)
        ensures
            match r {
                Some(p) => self@.picker == Some(p@),
                None => self@.picker is None,
            },
    {
        match &self.lyrics_picker {
            Some(p) => Some(p),
            None => None,
        }
    }

    /// The records chosen by hand.
    pub fn lyrics_overrides(&self) -> (r: &LyricsOverrides)
        ensures
            r.choices@ == self@.overrides,
    {
        &self.lyrics_overrides
    }

    /// Whether a choice was made that is not saved.
    pub fn lyrics_dirty(&self) -> (r: bool)
        ensures
            r == self@.dirty,
    {
        self.lyrics_dirty
    }

    /// The settings.
    pub fn config(&self) -> (r: &Config)
        ensures
            *r == self@.config,
    {
        &self.config
    }
}

} // verus!
