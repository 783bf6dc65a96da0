//! An interface whose queue holds the songs of one playlist at a time.
//!
//! It has the lists, the query and the queue of the main interface, without lyrics.
//! A queue belongs to one playlist: its entries are places in that playlist, and
//! queueing a song of another one starts over.

use crate::filter;
use crate::panel;
use crate::panel::Rect;
use crate::playback::{AudioState, AudioView, Cmd, CmdView};
use crate::player;
use crate::player::PlayMode;
use crate::seqs;
use crate::seqs::Ranked;
use crate::text;
use crate::title;
use crate::ui;
use crate::ui::{Key, Panel, Scroll};
use vstd::prelude::*;

verus! {

/// A song, as far as it is known.
pub struct Song {
    pub video_id: Option<String>,
    pub title: Option<String>,
    /// The names of its artists.
    pub artists: Vec<String>,
    pub duration: Option<String>,
    pub duration_seconds: Option<u64>,
}

/// A playlist with what has been fetched of it.
pub struct Listing {
    pub playlist_id: Option<String>,
    pub title: Option<String>,
    /// The names of its authors.
    pub authors: Vec<String>,
    pub songs: Vec<Song>,
    /// Whether the songs have arrived.
    pub loaded: bool,
    /// The sum of the songs' seconds.
    pub total_secs: u64,
}

/// A saved queue.
pub struct SavedQueue {
    pub playlist_id: Option<String>,
    pub video_ids: Vec<String>,
    pub position: Option<usize>,
}

/// The mathematical content of a [`Jukebox`].
pub struct JukeView {
    pub lists: Seq<Listing>,
    pub list: Option<usize>,
    pub songs: Option<usize>,
    pub queue_row: Option<usize>,
    pub panel: Panel,
    pub playing_list: Option<usize>,
    pub playing_song: Option<usize>,
    pub volume: u8,
    pub muted: bool,
    pub pre_mute: u8,
    pub mode: PlayMode,
    pub queue: Seq<usize>,
    pub pos: Option<usize>,
    /// The playlist that the queue belongs to.
    pub queue_list: Option<usize>,
    pub show_queue: bool,
    pub notification: Option<(Seq<char>, u64)>,
    pub reauth: bool,
    pub started: bool,
    pub pending: Option<SavedQueue>,
    pub filter: Seq<char>,
    pub filter_mode: bool,
    pub playlists_area: Rect,
    pub songs_area: Rect,
    pub sent: Seq<CmdView>,
}

impl JukeView {
    /// The position is a place in the queue, volumes are percentages, and what is
    /// muted makes no sound.
    pub open spec fn wf(self) -> bool {
        &&& self.pos matches Some(p) ==> p < self.queue.len()
        &&& self.volume <= 100
        &&& self.pre_mute <= 100
        &&& self.muted ==> self.volume == 0
    }
}

// ── small steps ──────────────────────────────────────────────────────────────

/// One more command for the audio thread.
pub open spec fn sending(v: JukeView, c: CmdView) -> JukeView {
    JukeView { sent: v.sent.push(c), ..v }
}

/// Something is said.
pub open spec fn saying(v: JukeView, message: Seq<char>, now: u64) -> JukeView {
    JukeView { notification: Some((message, now)), ..v }
}

/// The songs of a playlist, none where there is no such playlist.
pub open spec fn songs_at(v: JukeView, list: int) -> Seq<Song> {
    if 0 <= list < v.lists.len() {
        v.lists[list].songs@
    } else {
        Seq::empty()
    }
}

/// The song at a place.
pub open spec fn song_at(v: JukeView, list: int, song: int) -> Option<Song> {
    if 0 <= song < songs_at(v, list).len() {
        Some(songs_at(v, list)[song])
    } else {
        None
    }
}

/// The video of the song at a place, empty where there is none.
pub open spec fn video_at(v: JukeView, list: int, song: int) -> Seq<char> {
    match song_at(v, list, song) {
        Some(s) => match s.video_id {
            Some(id) => id@,
            None => Seq::empty(),
        },
        None => Seq::empty(),
    }
}

/// A lookup ahead of time, where there is a video to look up.
pub open spec fn prefetched(v: JukeView, video: Seq<char>) -> JukeView {
    if video.len() > 0 {
        sending(v, CmdView::Prefetch(video))
    } else {
        v
    }
}

/// The song behind the current one is looked up ahead of time; the queue is a ring.
pub open spec fn looking_ahead(v: JukeView) -> JukeView {
    match (v.pos, v.queue_list) {
        (Some(p), Some(list)) if v.queue.len() > 0 => prefetched(
            v,
            video_at(v, list as int, v.queue[(p + 1) % (v.queue.len() as int)] as int),
        ),
        _ => v,
    }
}

/// The song at a place plays, where there is one. Without a video it counts as
/// playing, but nothing is asked of the audio thread.
pub open spec fn playing(v: JukeView, list: usize, song: usize) -> JukeView {
    let video = video_at(v, list as int, song as int);
    if song_at(v, list as int, song as int) is None {
        v
    } else {
        let asked = if video.len() > 0 {
            sending(sending(v, CmdView::Play(video)), CmdView::Volume(v.volume))
        } else {
            v
        };
        looking_ahead(
            JukeView {
                playing_list: Some(list),
                playing_song: Some(song),
                started: true,
                ..asked
            },
        )
    }
}

/// Being song `i`.
pub open spec fn is_song(i: usize) -> spec_fn(usize) -> bool {
    |x: usize| x == i
}

/// Where a song first stands in a queue.
pub open spec fn place_of(queue: Seq<usize>, song: usize) -> Option<usize> {
    match seqs::first_where(queue, is_song(song), 0) {
        Some(i) => Some(i as usize),
        None => None,
    }
}

/// The queue's cursor stands on what plays, where the queue is shown.
pub open spec fn synced(v: JukeView) -> JukeView {
    if v.show_queue {
        JukeView { queue_row: v.pos, ..v }
    } else {
        v
    }
}

/// Every place of a list of `n`.
pub open spec fn in_order(n: nat) -> Seq<usize> {
    Seq::new(n, |i: int| i as usize)
}

/// A queue of a playlist in some order, from one of its songs on.
pub open spec fn opened(v: JukeView, list: usize, song: usize, order: Seq<usize>) -> JukeView {
    playing(
        synced(
            JukeView {
                queue_list: Some(list),
                queue: order,
                pos: place_of(order, song),
                ..v
            },
        ),
        list,
        song,
    )
}

/// Playback moves through the queue.
pub open spec fn stepped(v: JukeView, delta: int) -> JukeView {
    match v.queue_list {
        Some(list) if v.queue.len() > 0 => {
            let at = match v.pos {
                Some(p) => player::around(p as int, delta, v.queue.len() as int),
                None => 0,
            };
            playing(
                synced(JukeView { pos: Some(at as usize), ..v }),
                list,
                v.queue[at],
            )
        },
        _ => v,
    }
}

/// The mode becomes the next one; the position follows the song that plays.
pub open spec fn switched(v: JukeView, order: Seq<usize>) -> JukeView {
    let mode = player::next_mode(v.mode);
    let queue = if mode == PlayMode::Shuffle {
        order
    } else if v.mode == PlayMode::Shuffle {
        seqs::sorted(v.queue, seqs::order::<usize>())
    } else {
        v.queue
    };
    let turned = JukeView { mode, queue, ..v };
    match v.playing_song {
        Some(song) => synced(JukeView { pos: place_of(queue, song), ..turned }),
        None => turned,
    }
}

/// A song ended by itself: the same one again in single mode, else the next.
pub open spec fn ended(v: JukeView) -> JukeView {
    if v.mode == PlayMode::Single {
        match (v.playing_list, v.playing_song) {
            (Some(list), Some(song)) => playing(v, list, song),
            _ => v,
        }
    } else {
        stepped(v, 1)
    }
}

/// The title at a place, or another word for it.
pub open spec fn title_or(v: JukeView, list: int, song: int, otherwise: Seq<char>) -> Seq<char> {
    match song_at(v, list, song) {
        Some(s) => match s.title {
            Some(t) => t@,
            None => otherwise,
        },
        None => otherwise,
    }
}

/// A song joins the queue of its playlist, and plays where nothing does.
pub open spec fn appended(v: JukeView, list: usize, song: usize, now: u64) -> JukeView {
    let own = if v.queue_list == Some(list) {
        v
    } else {
        JukeView { queue_list: Some(list), queue: Seq::empty(), pos: None, ..v }
    };
    let longer = JukeView { queue: own.queue.push(song), ..own };
    let title = title_or(v, list as int, song as int, "song"@);
    if v.playing_song is None {
        saying(
            playing(
                JukeView { pos: Some((longer.queue.len() - 1) as usize), ..longer },
                list,
                song,
            ),
            "Playing: "@ + title,
            now,
        )
    } else {
        saying(
            longer,
            "+ queue #"@ + text::decimal(longer.queue.len()) + ": "@ + title,
            now,
        )
    }
}

/// A queue entry leaves; if it was playing, what now stands there plays.
pub open spec fn entry_removed(v: JukeView, q: usize, now: u64) -> JukeView {
    if q >= v.queue.len() {
        v
    } else {
        let queue = v.queue.remove(q as int);
        let n = queue.len();
        let left = JukeView {
            queue,
            pos: player::shifted(v.pos, q, n),
            queue_row: if n == 0 {
                None
            } else if q < n {
                Some(q)
            } else {
                Some((n - 1) as usize)
            },
            ..v
        };
        if v.pos != Some(q) {
            left
        } else {
            match (left.pos, left.queue_list) {
                (Some(at), Some(list)) => saying(
                    playing(left, list, queue[at as int]),
                    "▶  "@ + title_or(v, list as int, queue[at as int] as int, "next song"@),
                    now,
                ),
                _ => JukeView {
                    playing_list: None,
                    playing_song: None,
                    ..sending(left, CmdView::Stop)
                },
            }
        }
    }
}

// ── the query ────────────────────────────────────────────────────────────────

/// Whether a song matches a query in lower case.
pub open spec fn song_matches(s: Song, query: Seq<char>) -> bool {
    filter::found_in(
        match s.title {
            Some(t) => t@,
            None => ""@,
        },
        text::joined(text::texts(s.artists@), " "@),
        query,
    )
}

/// Matching at a place of a list of songs.
pub open spec fn matches_at(songs: Seq<Song>, query: Seq<char>) -> spec_fn(int) -> bool {
    |i: int| song_matches(songs[i], query)
}

/// Matching at a place of a queue.
pub open spec fn entry_matches(v: JukeView, list: usize, query: Seq<char>) -> spec_fn(int) -> bool {
    |i: int|
        match song_at(v, list as int, v.queue[i] as int) {
            Some(s) => song_matches(s, query),
            None => filter::holds(title::lowercase(""@), query) || filter::holds(""@, query),
        }
}

/// The songs shown of a playlist.
pub open spec fn songs_shown(v: JukeView, list: usize) -> Seq<usize> {
    let songs = songs_at(v, list as int);
    if v.filter.len() == 0 {
        filter::picked(songs.len(), filter::everything())
    } else {
        filter::picked(songs.len(), matches_at(songs, title::lowercase(v.filter)))
    }
}

/// The queue entries shown.
pub open spec fn entries_shown(v: JukeView) -> Seq<usize> {
    if v.filter.len() == 0 {
        filter::picked(v.queue.len(), filter::everything())
    } else {
        match v.queue_list {
            Some(list) => filter::picked(
                v.queue.len(),
                entry_matches(v, list, title::lowercase(v.filter)),
            ),
            None => Seq::empty(),
        }
    }
}

/// The song under the cursor, as its playlist and its place there.
pub open spec fn chosen_song(v: JukeView) -> Option<(usize, usize)> {
    match (v.list, v.songs) {
        (Some(list), Some(row)) => if row < songs_shown(v, list).len() {
            Some((list, songs_shown(v, list)[row as int]))
        } else {
            None
        },
        _ => None,
    }
}

/// The queue entry under the cursor.
pub open spec fn chosen_entry(v: JukeView) -> Option<usize> {
    match v.queue_row {
        Some(row) => if row < entries_shown(v).len() {
            Some(entries_shown(v)[row as int])
        } else {
            None
        },
        None => None,
    }
}

/// Row `i` of the songs shown is looked up ahead of time.
pub open spec fn row_warmed(v: JukeView, list: usize, shown: Seq<usize>, i: int) -> JukeView {
    if 0 <= i < shown.len() {
        prefetched(v, video_at(v, list as int, shown[i] as int))
    } else {
        v
    }
}

/// The selected song and the one below it are looked up ahead of time.
pub open spec fn warmed(v: JukeView) -> JukeView {
    match v.list {
        None => v,
        Some(list) => {
            let shown = songs_shown(v, list);
            let base = match v.songs {
                Some(i) => i as int,
                None => 0,
            };
            row_warmed(row_warmed(v, list, shown, base), list, shown, base + 1)
        },
    }
}

/// No query, and the first row of each list.
pub open spec fn unfiltered(v: JukeView) -> JukeView {
    JukeView {
        filter: Seq::empty(),
        filter_mode: false,
        songs: Some(0),
        queue_row: Some(0),
        ..v
    }
}

// ── keys ─────────────────────────────────────────────────────────────────────

/// A key while a query is typed.
pub open spec fn filter_key(v: JukeView, key: Key) -> JukeView {
    match key {
        Key::Esc => unfiltered(v),
        Key::Enter => JukeView { filter_mode: false, ..v },
        Key::Backspace => JukeView {
            filter: if v.filter.len() > 0 {
                v.filter.drop_last()
            } else {
                v.filter
            },
            songs: Some(0),
            queue_row: Some(0),
            ..v
        },
        Key::Char(c) => JukeView {
            filter: v.filter.push(c),
            songs: Some(0),
            queue_row: Some(0),
            ..v
        },
        _ => v,
    }
}

/// The row that a cursor moves to.
pub open spec fn next_row(row: Option<usize>, down: bool) -> Option<usize> {
    if down {
        panel::row_below(row)
    } else {
        panel::row_above(row)
    }
}

/// The cursor of the right panel moves.
pub open spec fn songs_moved(v: JukeView, down: bool) -> JukeView {
    if v.show_queue {
        JukeView { queue_row: next_row(v.queue_row, down), ..v }
    } else {
        warmed(JukeView { songs: next_row(v.songs, down), ..v })
    }
}

/// The cursor of the focused panel moves.
pub open spec fn moved(v: JukeView, down: bool) -> JukeView {
    if v.panel == Panel::Playlists {
        unfiltered(JukeView { list: next_row(v.list, down), ..v })
    } else {
        songs_moved(v, down)
    }
}

/// The songs panel takes keys, with some row selected.
pub open spec fn songs_entered(v: JukeView) -> JukeView {
    JukeView {
        panel: Panel::Songs,
        songs: if v.songs is None {
            Some(0)
        } else {
            v.songs
        },
        ..v
    }
}

/// The enter key. `order` is the queue that a song starts.
pub open spec fn entered(v: JukeView, order: Seq<usize>) -> JukeView {
    if v.panel == Panel::Playlists {
        warmed(unfiltered(songs_entered(v)))
    } else if v.show_queue {
        match chosen_entry(v) {
            Some(q) => {
                let there = JukeView { pos: Some(q), ..v };
                match v.queue_list {
                    Some(list) => playing(there, list, v.queue[q as int]),
                    None => there,
                }
            },
            None => v,
        }
    } else {
        match chosen_song(v) {
            Some((list, song)) => opened(v, list, song, order),
            None => v,
        }
    }
}

/// The space key: pause or resume, or start what came back.
pub open spec fn spaced(v: JukeView, audio: AudioView) -> JukeView {
    match (v.playing_list, v.playing_song) {
        (Some(list), Some(song)) => if !v.started {
            playing(v, list, song)
        } else if audio.loading {
            v
        } else if audio.paused {
            sending(v, CmdView::Resume)
        } else {
            sending(v, CmdView::Pause)
        },
        _ => v,
    }
}

/// The mute key.
pub open spec fn muted(v: JukeView) -> JukeView {
    let q = if v.muted {
        JukeView { muted: false, volume: v.pre_mute, ..v }
    } else {
        JukeView { muted: true, pre_mute: v.volume, volume: 0, ..v }
    };
    sending(q, CmdView::Volume(q.volume))
}

/// The volume changes, and the sound is on.
pub open spec fn louder(v: JukeView, delta: int) -> JukeView {
    let volume = player::percent(v.volume + delta);
    sending(JukeView { muted: false, volume, ..v }, CmdView::Volume(volume))
}

/// The queue is shown, or the songs again.
pub open spec fn queue_toggled(v: JukeView) -> JukeView {
    synced(
        JukeView {
            show_queue: !v.show_queue,
            filter: Seq::empty(),
            filter_mode: false,
            ..v
        },
    )
}

/// The escape key; whether it quits.
pub open spec fn escaped(v: JukeView) -> (JukeView, bool) {
    if v.panel == Panel::Playlists {
        (v, true)
    } else if v.filter.len() > 0 {
        (unfiltered(v), false)
    } else {
        (JukeView { panel: Panel::Playlists, ..v }, false)
    }
}

/// The song under the cursor joins the queue, where songs are shown.
pub open spec fn selection_appended(v: JukeView, now: u64) -> JukeView {
    match chosen_song(v) {
        Some((list, song)) if v.panel == Panel::Songs && !v.show_queue => appended(
            v,
            list,
            song,
            now,
        ),
        _ => v,
    }
}

/// The queue entry under the cursor leaves, where the queue is shown.
pub open spec fn selection_removed(v: JukeView, now: u64) -> JukeView {
    match chosen_entry(v) {
        Some(q) if v.panel == Panel::Songs && v.show_queue => entry_removed(v, q, now),
        _ => v,
    }
}

/// A key that moves about or edits the queue.
pub open spec fn list_key(v: JukeView, key: Key, now: u64, order: Seq<usize>) -> JukeView {
    match key {
        Key::Char('j') => moved(v, true),
        Key::Char('k') => moved(v, false),
        Key::Char('h') => unfiltered(JukeView { panel: Panel::Playlists, ..v }),
        Key::Char('l') => warmed(songs_entered(v)),
        Key::Enter => entered(v, order),
        Key::Char('/') => if v.panel == Panel::Songs {
            JukeView { filter_mode: true, ..v }
        } else {
            v
        },
        Key::Char('a') => selection_appended(v, now),
        Key::Char('d') => selection_removed(v, now),
        Key::Char('o') => queue_toggled(v),
        _ => v,
    }
}

/// A key that controls playback.
pub open spec fn playback_key(v: JukeView, key: Key, audio: AudioView, order: Seq<usize>) -> JukeView {
    match key {
        Key::Char(' ') => spaced(v, audio),
        Key::Char('p') => stepped(v, -1),
        Key::Char('n') => stepped(v, 1),
        Key::Char('t') => switched(v, order),
        Key::Char('m') => muted(v),
        Key::Left => sending(v, CmdView::Seek(-ui::SEEK_STEP)),
        Key::Right => sending(v, CmdView::Seek(ui::SEEK_STEP as int)),
        Key::Up => louder(v, 5),
        Key::Down => louder(v, -5),
        _ => v,
    }
}

/// A key that quits, and whether it does.
pub open spec fn quit_key(v: JukeView, key: Key) -> (JukeView, bool) {
    match key {
        Key::Esc => escaped(v),
        Key::Char('r') => if v.lists.len() == 0 {
            (JukeView { reauth: true, ..v }, true)
        } else {
            (v, false)
        },
        Key::Char('q') => (v, true),
        _ => (v, false),
    }
}

/// A key; whether it quits. A query takes every key while it is typed. `order` is the
/// order that a new or a shuffled queue takes.
pub open spec fn pressed(
    v: JukeView,
    key: Key,
    audio: AudioView,
    now: u64,
    order: Seq<usize>,
) -> (JukeView, bool) {
    if v.filter_mode {
        (filter_key(v, key), false)
    } else if ui::moves_about(key) {
        (list_key(v, key, now, order), false)
    } else if ui::controls_playback(key) {
        (playback_key(v, key, audio, order), false)
    } else {
        quit_key(v, key)
    }
}

/// Whether a queue may take this order: every song of the playlist that one is
/// started from, in order unless the mode is shuffle; and the queue's own entries
/// where the mode changes.
pub open spec fn order_fits(v: JukeView, key: Key, order: Seq<usize>) -> bool {
    &&& key == Key::Char('t') ==> order.to_multiset() == v.queue.to_multiset()
    &&& key == Key::Enter && v.list is Some ==> {
        let all = in_order(songs_at(v, v.list->0 as int).len());
        &&& order.to_multiset() == all.to_multiset()
        &&& v.mode != PlayMode::Shuffle ==> order == all
    }
}

/// A turn of the wheel over a cell.
pub open spec fn wheeled(v: JukeView, scroll: Scroll, x: u16, y: u16) -> JukeView {
    let down = scroll == Scroll::Down;
    if panel::inside(v.playlists_area, x, y) {
        JukeView {
            list: next_row(v.list, down),
            songs: None,
            filter: Seq::empty(),
            filter_mode: false,
            ..v
        }
    } else if panel::inside(v.songs_area, x, y) {
        songs_moved(v, down)
    } else {
        v
    }
}

// ── a queue that comes back ──────────────────────────────────────────────────

/// Being the playlist `id`.
pub open spec fn has_list_id(id: Seq<char>) -> spec_fn(Listing) -> bool {
    |l: Listing| text::opt(l.playlist_id) == Some(id)
}

/// Being the song of `video`.
pub open spec fn has_video(video: Seq<char>) -> spec_fn(Song) -> bool {
    |s: Song| text::opt(s.video_id) == Some(video)
}

/// The places of saved videos among a playlist's songs; those that are gone are
/// left out.
pub open spec fn found_places(songs: Seq<Song>, videos: Seq<Seq<char>>) -> Seq<usize>
    decreases videos.len(),
{
    if videos.len() == 0 {
        Seq::empty()
    } else {
        let front = found_places(songs, videos.drop_last());
        match seqs::first_where(songs, has_video(videos.last()), 0) {
            Some(i) => front.push(i as usize),
            None => front,
        }
    }
}

/// What was said goes when it has been read.
pub open spec fn expired(v: JukeView, now: u64) -> JukeView {
    match v.notification {
        Some((_, then)) if ui::since(now, then) >= ui::NOTIFICATION_TTL => JukeView {
            notification: None,
            ..v
        },
        _ => v,
    }
}

/// A saved queue is taken up when its playlist's songs arrive: shown in the player,
/// but not started.
pub open spec fn queue_restored(v: JukeView, arrived: usize) -> JukeView {
    match v.pending {
        None => v,
        Some(saved) => {
            let place = match saved.playlist_id {
                Some(id) => seqs::first_where(v.lists, has_list_id(id@), 0),
                None => None,
            };
            match place {
                None => JukeView { pending: None, ..v },
                Some(list) => if list != arrived {
                    v
                } else {
                    restored_at(v, list as usize, saved)
                },
            }
        },
    }
}

/// A saved queue is taken up from playlist `list`.
pub open spec fn restored_at(v: JukeView, list: usize, saved: SavedQueue) -> JukeView {
    let queue = found_places(songs_at(v, list as int), text::texts(saved.video_ids@));
    if queue.len() == 0 {
        JukeView { pending: None, ..v }
    } else {
        let pos = match saved.position {
            Some(p) if p < queue.len() => Some(p),
            _ => None,
        };
        let back = JukeView {
            pending: None,
            queue,
            pos,
            queue_list: Some(list),
            queue_row: pos,
            ..v
        };
        match pos {
            None => back,
            Some(p) => prefetched(
                JukeView {
                    playing_list: Some(list),
                    playing_song: Some(queue[p as int]),
                    started: false,
                    list: Some(list),
                    ..back
                },
                video_at(v, list as int, queue[p as int] as int),
            ),
        }
    }
}

/// The videos of a queue, those without one left out.
pub open spec fn videos_of(songs: Seq<Song>, queue: Seq<usize>) -> Seq<Seq<char>>
    decreases queue.len(),
{
    if queue.len() == 0 {
        Seq::empty()
    } else {
        let front = videos_of(songs, queue.drop_last());
        let at = queue.last() as int;
        if at < songs.len() && songs[at].video_id is Some {
            front.push(songs[at].video_id->0@)
        } else {
            front
        }
    }
}

/// The place that a queue's position has among its videos: as many of them stand
/// before it. There is none where that song has no video.
pub open spec fn video_position(songs: Seq<Song>, queue: Seq<usize>, pos: Option<usize>) -> Option<
    usize,
> {
    match pos {
        Some(p) if p < queue.len() && queue[p as int] < songs.len()
            && songs[queue[p as int] as int].video_id is Some => Some(
            videos_of(songs, queue.take(p as int)).len() as usize,
        ),
        _ => None,
    }
}

/// Songs whose videos all differ, and are all there.
pub open spec fn told_apart(songs: Seq<Song>) -> bool {
    &&& forall|i: int| 0 <= i < songs.len() ==> (#[trigger] songs[i]).video_id is Some
    &&& forall|i: int, j: int|
        0 <= i < songs.len() && 0 <= j < songs.len() && (#[trigger] songs[i]).video_id->0@ == (
        #[trigger] songs[j]).video_id->0@ ==> i == j
}

proof fn lemma_found_again(songs: Seq<Song>, queue: Seq<usize>)
    requires
        told_apart(songs),
        forall|i: int| 0 <= i < queue.len() ==> #[trigger] queue[i] < songs.len(),
    ensures
        videos_of(songs, queue).len() == queue.len(),
        found_places(songs, videos_of(songs, queue)) == queue,
    decreases queue.len(),
{
    if queue.len() > 0 {
        let front = queue.drop_last();
        assert forall|i: int| 0 <= i < front.len() implies #[trigger] front[i] < songs.len() by {
            assert(front[i] == queue[i]);
        }
        lemma_found_again(songs, front);
        let at = queue.last() as int;
        assert(queue[queue.len() - 1] < songs.len());
        let video = songs[at].video_id->0@;
        assert(songs[at].video_id is Some);
        let videos = videos_of(songs, queue);
        assert(videos.drop_last() =~= videos_of(songs, front));
        seqs::lemma_first_where(songs, has_video(video), 0);
        assert(has_video(video)(songs[at]));
        let i = seqs::first_where(songs, has_video(video), 0)->0;
        assert(has_video(video)(songs[i]));
        assert(songs[i].video_id->0@ == songs[at].video_id->0@);
        assert(front.push(at as usize) =~= queue);
    } else {
        assert(found_places(songs, videos_of(songs, queue)) =~= queue);
    }
}

/// A queue that is saved comes back as it was, at its position, where its songs'
/// videos tell them apart.
pub proof fn a_saved_queue_comes_back(songs: Seq<Song>, queue: Seq<usize>, p: usize)
    requires
        told_apart(songs),
        forall|i: int| 0 <= i < queue.len() ==> #[trigger] queue[i] < songs.len(),
    ensures
        found_places(songs, videos_of(songs, queue)) == queue,
        p < queue.len() ==> video_position(songs, queue, Some(p)) == Some(p),
{
    lemma_found_again(songs, queue);
    if p < queue.len() {
        let front = queue.take(p as int);
        assert forall|i: int| 0 <= i < front.len() implies #[trigger] front[i] < songs.len() by {
            assert(front[i] == queue[i]);
        }
        lemma_found_again(songs, front);
        assert(queue[p as int] < songs.len());
        assert(songs[queue[p as int] as int].video_id is Some);
    }
}

impl Ranked for usize {
    open spec fn le(&self, other: &Self) -> bool {
        *self <= *other
    }

    fn at_most(&self, other: &Self) -> (r: bool) {
        *self <= *other
    }
}

// ── the state ────────────────────────────────────────────────────────────────

/// The state of the interface.
pub struct Jukebox {
    lists: Vec<Listing>,
    list: Option<usize>,
    songs: Option<usize>,
    queue_row: Option<usize>,
    active_panel: Panel,
    playing_list: Option<usize>,
    playing_song: Option<usize>,
    volume: u8,
    muted: bool,
    pre_mute_vol: u8,
    mode: PlayMode,
    queue: Vec<usize>,
    queue_pos: Option<usize>,
    queue_list: Option<usize>,
    show_queue: bool,
    notification: Option<(String, u64)>,
    reauth_requested: bool,
    playback_started: bool,
    pending_queue_restore: Option<SavedQueue>,
    filter: Vec<char>,
    filter_mode: bool,
    playlists_area: Rect,
    songs_area: Rect,
    sent: Vec<Cmd>,
}

impl View for Jukebox {
    type V = JukeView;

    closed spec fn view(&self) -> JukeView {
        JukeView {
            lists: self.lists@,
            list: self.list,
            songs: self.songs,
            queue_row: self.queue_row,
            panel: self.active_panel,
            playing_list: self.playing_list,
            playing_song: self.playing_song,
            volume: self.volume,
            muted: self.muted,
            pre_mute: self.pre_mute_vol,
            mode: self.mode,
            queue: self.queue@,
            pos: self.queue_pos,
            queue_list: self.queue_list,
            show_queue: self.show_queue,
            notification: ui::opt_timed(self.notification),
            reauth: self.reauth_requested,
            started: self.playback_started,
            pending: self.pending_queue_restore,
            filter: self.filter@,
            filter_mode: self.filter_mode,
            playlists_area: self.playlists_area,
            songs_area: self.songs_area,
            sent: player::mail(self.sent@),
        }
    }
}

/// The sum of songs' seconds.
pub open spec fn seconds_sum(songs: Seq<Song>) -> int
    decreases songs.len(),
{
    if songs.len() == 0 {
        0
    } else {
        seconds_sum(songs.drop_last()) + match songs.last().duration_seconds {
            Some(n) => n as int,
            None => 0,
        }
    }
}

proof fn lemma_seconds_sum(songs: Seq<Song>, n: int)
    requires
        0 <= n <= songs.len(),
    ensures
        0 <= seconds_sum(songs.take(n)) <= seconds_sum(songs),
    decreases songs.len(),
{
    if n < songs.len() {
        lemma_seconds_sum(songs.drop_last(), n);
        assert(songs.drop_last().take(n) =~= songs.take(n));
    } else {
        assert(songs.take(n) =~= songs);
        if songs.len() > 0 {
            lemma_seconds_sum(songs.drop_last(), songs.len() - 1);
            assert(songs.drop_last().take(songs.len() - 1) =~= songs.drop_last());
        }
    }
}

fn add_seconds(songs: &Vec<Song>) -> (r: u64)
    requires
        seconds_sum(songs@) <= u64::MAX,
    ensures
        r == seconds_sum(songs@),
{
    let mut total: u64 = 0;
    let mut i: usize = 0;
    assert(seconds_sum(songs@.take(0)) == 0);
    while i < songs.len()
        invariant
            i <= songs@.len(),
            seconds_sum(songs@) <= u64::MAX,
            total == seconds_sum(songs@.take(i as int)),
        decreases songs@.len() - i,
    {
        proof {
            lemma_seconds_sum(songs@, i + 1);
            assert(songs@.take(i + 1).drop_last() =~= songs@.take(i as int));
            assert(songs@.take(i + 1).last() == songs@[i as int]);
        }
        match songs[i].duration_seconds {
            Some(n) => {
                total = total + n;
            },
            None => {},
        }
        i += 1;
    }
    assert(songs@.take(i as int) =~= songs@);
    total
}

fn position_of(queue: &Vec<usize>, song: usize) -> (r: Option<usize>)
    ensures
        r == place_of(queue@, song),
        r matches Some(i) ==> i < queue@.len(),
{
    let mut i: usize = 0;
    while i < queue.len()
        invariant
            i <= queue@.len(),
            seqs::first_where(queue@, is_song(song), 0) == seqs::first_where(
                queue@,
                is_song(song),
                i as int,
            ),
        decreases queue@.len() - i,
    {
        if queue[i] == song {
            return Some(i);
        }
        i += 1;
    }
    None
}

fn copy_of(queue: &Vec<usize>) -> (r: Vec<usize>)
    ensures
        r@ == queue@,
{
    let mut out: Vec<usize> = Vec::new();
    let mut i: usize = 0;
    while i < queue.len()
        invariant
            i <= queue@.len(),
            out@ == queue@.take(i as int),
        decreases queue@.len() - i,
    {
        out.push(queue[i]);
        i += 1;
    }
    assert(queue@.take(queue@.len() as int) =~= queue@);
    out
}

fn places(n: usize) -> (r: Vec<usize>)
    ensures
        r@ == in_order(n as nat),
{
    let mut out: Vec<usize> = Vec::new();
    let mut i: usize = 0;
    while i < n
        invariant
            i <= n,
            out@ == in_order(i as nat),
        decreases n - i,
    {
        out.push(i);
        assert(out@ =~= in_order((i + 1) as nat));
        i += 1;
    }
    out
}

fn matches(s: &Song, query: &[char]) -> (r: bool)
    ensures
        r == song_matches(*s, query@),
{
    let artists = text::join(&s.artists, " ");
    match &s.title {
        Some(t) => filter::is_found(t.as_str(), artists.as_str(), query),
        None => filter::is_found("", artists.as_str(), query),
    }
}

impl Jukebox {
    /// The state at the start.
    pub fn new(lists: Vec<Listing>, saved_queue: Option<SavedQueue>) -> (r: Self)
        ensures
            r@ == (JukeView {
                lists: lists@,
                list: if lists@.len() > 0 {
                    Some(0)
                } else {
                    None
                },
                songs: None,
                queue_row: None,
                panel: Panel::Playlists,
                playing_list: None,
                playing_song: None,
                volume: 80,
                muted: false,
                pre_mute: 80,
                mode: PlayMode::Cycle,
                queue: Seq::empty(),
                pos: None,
                queue_list: None,
                show_queue: false,
                notification: None,
                reauth: false,
                started: false,
                pending: saved_queue,
                filter: Seq::empty(),
                filter_mode: false,
                playlists_area: ui::nowhere(),
                songs_area: ui::nowhere(),
                sent: seq![CmdView::Volume(80)],
            }),
            r@.wf(),
    {
        let list = if lists.len() > 0 {
            Some(0)
        } else {
            None
        };
        let area = Rect { x: 0, y: 0, width: 0, height: 0 };
        let mut sent: Vec<Cmd> = Vec::new();
        sent.push(Cmd::Volume(80));
        assert(player::mail(sent@) =~= seq![CmdView::Volume(80)]);
        Jukebox {
            lists,
            list,
            songs: None,
            queue_row: None,
            active_panel: Panel::Playlists,
            playing_list: None,
            playing_song: None,
            volume: 80,
            muted: false,
            pre_mute_vol: 80,
            mode: PlayMode::Cycle,
            queue: Vec::new(),
            queue_pos: None,
            queue_list: None,
            show_queue: false,
            notification: None,
            reauth_requested: false,
            playback_started: false,
            pending_queue_restore: saved_queue,
            filter: Vec::new(),
            filter_mode: false,
            playlists_area: area,
            songs_area: area,
            sent,
        }
    }

    /// The commands for the audio thread.
    pub fn take_commands(&mut self) -> (r: Vec<Cmd>)
        ensures
            player::mail(r@) == old(self)@.sent,
            final(self)@ == (JukeView { sent: Seq::empty(), ..old(self)@ }),
    {
        let mut out: Vec<Cmd> = Vec::new();
        std::mem::swap(&mut out, &mut self.sent);
        assert(self@.sent =~= Seq::empty());
        out
    }

    fn send(&mut self, c: Cmd)
        ensures
            final(self)@ == sending(old(self)@, c@),
    {
        self.sent.push(c);
        assert(self@.sent =~= old(self)@.sent.push(c@));
    }

    fn notify(&mut self, message: &str, now: u64)
        ensures
            final(self)@ == saying(old(self)@, message@, now),
    {
        self.notification = Some((message.to_owned(), now));
    }

    fn song(&self, list: usize, song: usize) -> (r: Option<&Song>)
        ensures
            match r {
                Some(s) => song_at(self@, list as int, song as int) == Some(*s),
                None => song_at(self@, list as int, song as int) is None,
            },
    {
        if list < self.lists.len() && song < self.lists[list].songs.len() {
            Some(&self.lists[list].songs[song])
        } else {
            None
        }
    }

    fn song_count(&self, list: usize) -> (r: usize)
        ensures
            r == songs_at(self@, list as int).len(),
    {
        if list < self.lists.len() {
            self.lists[list].songs.len()
        } else {
            0
        }
    }

    fn video(&self, list: usize, song: usize) -> (r: String)
        ensures
            r@ == video_at(self@, list as int, song as int),
    {
        match self.song(list, song) {
            Some(s) => match &s.video_id {
                Some(id) => id.as_str().to_owned(),
                None => String::new(),
            },
            None => String::new(),
        }
    }

    fn prefetch(&mut self, video: String)
        ensures
            final(self)@ == prefetched(old(self)@, video@),
    {
        if !video.as_str().is_empty() {
            self.send(Cmd::Prefetch(video));
        }
    }

    fn prefetch_next_in_queue(&mut self)
        ensures
            final(self)@ == looking_ahead(old(self)@),
    {
        let n: usize = self.queue.len();
        if n == 0 {
            return;
        }
        let p: usize = match self.queue_pos {
            Some(p) => p,
            None => return,
        };
        let list: usize = match self.queue_list {
            Some(list) => list,
            None => return,
        };
        let at: usize = (p % n + 1) % n;
        proof {
            vstd::arithmetic::div_mod::lemma_add_mod_noop(p as int, 1, n as int);
            vstd::arithmetic::div_mod::lemma_add_mod_noop((p % n) as int, 1, n as int);
            vstd::arithmetic::div_mod::lemma_mod_twice(p as int, n as int);
        }
        let video = self.video(list, self.queue[at]);
        self.prefetch(video);
    }

    fn do_play(&mut self, list: usize, song: usize)
        ensures
            final(self)@ == playing(old(self)@, list, song),
            final(self)@.queue == old(self)@.queue,
            final(self)@.pos == old(self)@.pos,
            old(self)@.wf() ==> final(self)@.wf(),
    {
        if self.song(list, song).is_none() {
            return;
        }
        let video = self.video(list, song);
        if !video.as_str().is_empty() {
            self.send(Cmd::Play(video));
            self.send(Cmd::Volume(self.volume));
        }
        self.playing_list = Some(list);
        self.playing_song = Some(song);
        self.playback_started = true;
        self.prefetch_next_in_queue();
    }

    fn sync_queue_view(&mut self)
        ensures
            final(self)@ == synced(old(self)@),
    {
        if self.show_queue {
            self.queue_row = self.queue_pos;
        }
    }

    /// Starts the queue `order` of playlist `list` from `song`.
    pub fn play_in_order(&mut self, list: usize, song: usize, order: Vec<usize>)
        ensures
            final(self)@ == opened(old(self)@, list, song, order@),
            old(self)@.wf() ==> final(self)@.wf(),
    {
        self.queue_list = Some(list);
        self.queue_pos = position_of(&order, song);
        self.queue = order;
        self.sync_queue_view();
        self.do_play(list, song);
    }

    /// Starts a queue of playlist `list`, in the order of the mode, from `song`.
    pub fn play_song(&mut self, list: usize, song: usize)
        ensures
            exists|order: Seq<usize>|
                {
                    let all = in_order(songs_at(old(self)@, list as int).len());
                    &&& order.to_multiset() == all.to_multiset()
                    &&& old(self)@.mode != PlayMode::Shuffle ==> order == all
                    &&& final(self)@ == #[trigger] opened(old(self)@, list, song, order)
                },
            old(self)@.wf() ==> final(self)@.wf(),
    {
        let mut order = places(self.song_count(list));
        if self.mode == PlayMode::Shuffle {
            player::shuffle(&mut order);
        }
        self.play_in_order(list, song, order);
    }

    fn advance_queue(&mut self, delta: i64)
        ensures
            final(self)@ == stepped(old(self)@, delta as int),
            old(self)@.wf() ==> final(self)@.wf(),
    {
        let list: usize = match self.queue_list {
            Some(list) => list,
            None => return,
        };
        let n: usize = self.queue.len();
        if n == 0 {
            return;
        }
        let pos: usize = match self.queue_pos {
            Some(p) => {
                let sum: i128 = p as i128 + delta as i128;
                let ring: i128 = n as i128;
                match sum.checked_rem_euclid(ring) {
                    Some(at) => at as usize,
                    None => 0,
                }
            },
            None => 0,
        };
        self.queue_pos = Some(pos);
        self.sync_queue_view();
        let song: usize = self.queue[pos];
        self.do_play(list, song);
    }

    /// Switches to the next mode, with `order` for a shuffled queue.
    pub fn sync_queue_to_mode(&mut self, order: Vec<usize>)
        ensures
            final(self)@ == switched(old(self)@, order@),
            old(self)@.wf() && order@.to_multiset() == old(self)@.queue.to_multiset() ==> final(
                self)@.wf(),
    {
        let ghost v = self@;
        let mode = self.mode.next();
        proof {
            order@.to_multiset_ensures();
            v.queue.to_multiset_ensures();
            seqs::lemma_sorted_permutes(v.queue, seqs::order::<usize>());
            seqs::sorted(v.queue, seqs::order::<usize>()).to_multiset_ensures();
        }
        if mode == PlayMode::Shuffle {
            self.queue = order;
        } else if self.mode == PlayMode::Shuffle {
            seqs::sort(&mut self.queue);
        }
        self.mode = mode;
        match self.playing_song {
            Some(song) => {
                self.queue_pos = position_of(&self.queue, song);
                self.sync_queue_view();
            },
            None => {},
        }
    }

    fn cycle_mode(&mut self)
        requires
            old(self)@.wf(),
        ensures
            exists|order: Seq<usize>|
                order.to_multiset() == old(self)@.queue.to_multiset() && final(self)@
                    == #[trigger] switched(old(self)@, order),
            final(self)@.wf(),
    {
        let mut order = copy_of(&self.queue);
        if self.mode.next() == PlayMode::Shuffle {
            player::shuffle(&mut order);
        }
        self.sync_queue_to_mode(order);
    }

    /// Goes on when a song ended by itself.
    pub fn handle_song_end(&mut self, song_ended: bool)
        ensures
            final(self)@ == if song_ended {
                ended(old(self)@)
            } else {
                old(self)@
            },
            old(self)@.wf() ==> final(self)@.wf(),
    {
        if !song_ended {
            return;
        }
        if self.mode == PlayMode::Single {
            match (self.playing_list, self.playing_song) {
                (Some(list), Some(song)) => self.do_play(list, song),
                _ => {},
            }
        } else {
            self.advance_queue(1);
        }
    }

    fn title_at(&self, list: usize, song: usize, otherwise: &str) -> (r: String)
        ensures
            r@ == title_or(self@, list as int, song as int, otherwise@),
    {
        match self.song(list, song) {
            Some(s) => match &s.title {
                Some(t) => t.as_str().to_owned(),
                None => otherwise.to_owned(),
            },
            None => otherwise.to_owned(),
        }
    }

    /// Puts a song at the end of its playlist's queue.
    #[verifier::rlimit(30)]
    pub fn append_to_queue(&mut self, list: usize, song: usize, now: u64)
        ensures
            final(self)@ == appended(old(self)@, list, song, now),
            old(self)@.wf() ==> final(self)@.wf(),
    {
        let title = self.title_at(list, song, "song");
        let own = match self.queue_list {
            Some(l) => l == list,
            None => false,
        };
        if !own {
            self.queue_list = Some(list);
            self.queue = Vec::new();
            self.queue_pos = None;
            assert(self@.queue =~= Seq::empty());
        }
        self.queue.push(song);
        let n: usize = self.queue.len();
        let mut message = String::new();
        if self.playing_song.is_none() {
            self.queue_pos = Some(n - 1);
            self.do_play(list, song);
            message.append("Playing: ");
            message.append(title.as_str());
            assert(message@ =~= "Playing: "@ + title@);
        } else {
            message.append("+ queue #");
            message.append(text::show(n as u64).as_str());
            message.append(": ");
            message.append(title.as_str());
            assert(message@ =~= "+ queue #"@ + text::decimal(n as nat) + ": "@ + title@);
        }
        self.notify(message.as_str(), now);
    }

    /// Takes the entry at `q_pos` out of the queue.
    #[verifier::rlimit(30)]
    pub fn remove_from_queue(&mut self, q_pos: usize, now: u64)
        requires
            old(self)@.wf(),
        ensures
            final(self)@ == entry_removed(old(self)@, q_pos, now),
            final(self)@.wf(),
    {
        if q_pos >= self.queue.len() {
            return;
        }
        let was_playing = match self.queue_pos {
            Some(p) => p == q_pos,
            None => false,
        };
        self.queue.remove(q_pos);
        let n: usize = self.queue.len();
        self.queue_pos = match self.queue_pos {
            None => None,
            Some(p) => if p == q_pos && n == 0 {
                None
            } else if p >= n {
                Some(n - 1)
            } else if p > q_pos {
                Some(p - 1)
            } else {
                Some(p)
            },
        };
        self.queue_row = if n == 0 {
            None
        } else if q_pos < n {
            Some(q_pos)
        } else {
            Some(n - 1)
        };
        if !was_playing {
            return;
        }
        match (self.queue_pos, self.queue_list) {
            (Some(at), Some(list)) => {
                let song: usize = self.queue[at];
                let title = self.title_at(list, song, "next song");
                let message = text::concat("▶  ", title.as_str());
                self.do_play(list, song);
                self.notify(message.as_str(), now);
            },
            _ => {
                self.send(Cmd::Stop);
                self.playing_list = None;
                self.playing_song = None;
            },
        }
    }

    // ── the query ────────────────────────────────────────────────────────────

    /// The songs shown of a playlist, by their places in it.
    pub fn filtered_songs(&self, list: usize) -> (r: Vec<usize>)
        ensures
            r@ == songs_shown(self@, list),
            forall|i: int|
                0 <= i < r@.len() ==> #[trigger] r@[i] < songs_at(self@, list as int).len(),
    {
        let n: usize = self.song_count(list);
        if self.filter.len() == 0 {
            let r = filter::all_rows(n);
            proof {
                filter::without_a_query_all_is_shown(n as nat);
            }
            return r;
        }
        let query = filter::query_of(self.filter.as_slice());
        let ghost songs = songs_at(self@, list as int);
        let ghost p = matches_at(songs, query@);
        let mut out: Vec<usize> = Vec::new();
        let mut i: usize = 0;
        while i < n
            invariant
                i <= n,
                n == songs.len(),
                songs == songs_at(self@, list as int),
                p == matches_at(songs, query@),
                out@ == filter::picked(i as nat, p),
                forall|k: int| 0 <= k < out@.len() ==> #[trigger] out@[k] < n,
            decreases n - i,
        {
            match self.song(list, i) {
                Some(s) => {
                    if matches(s, query.as_slice()) {
                        out.push(i);
                    }
                },
                None => {},
            }
            i += 1;
        }
        out
    }

    /// The queue entries shown, by their places.
    pub fn filtered_queue_positions(&self) -> (r: Vec<usize>)
        ensures
            r@ == entries_shown(self@),
            forall|i: int| 0 <= i < r@.len() ==> #[trigger] r@[i] < self@.queue.len(),
    {
        let n: usize = self.queue.len();
        if self.filter.len() == 0 {
            let r = filter::all_rows(n);
            proof {
                filter::without_a_query_all_is_shown(n as nat);
            }
            return r;
        }
        let mut out: Vec<usize> = Vec::new();
        let list: usize = match self.queue_list {
            Some(list) => list,
            None => return out,
        };
        let query = filter::query_of(self.filter.as_slice());
        let ghost p = entry_matches(self@, list, query@);
        let mut i: usize = 0;
        while i < n
            invariant
                i <= n,
                n == self@.queue.len(),
                self@.queue == self.queue@,
                p == entry_matches(self@, list, query@),
                out@ == filter::picked(i as nat, p),
                forall|k: int| 0 <= k < out@.len() ==> #[trigger] out@[k] < n,
            decreases n - i,
        {
            let shown = match self.song(list, self.queue[i]) {
                Some(s) => matches(s, query.as_slice()),
                None => filter::within("".to_lowercase().as_str(), query.as_slice())
                    || filter::within("", query.as_slice()),
            };
            if shown {
                out.push(i);
            }
            i += 1;
        }
        out
    }

    fn selected_place(&self) -> (r: Option<(usize, usize)>)
        ensures
            r == chosen_song(self@),
    {
        match (self.list, self.songs) {
            (Some(list), Some(row)) => {
                let shown = self.filtered_songs(list);
                if row < shown.len() {
                    Some((list, shown[row]))
                } else {
                    None
                }
            },
            _ => None,
        }
    }

    fn selected_entry(&self) -> (r: Option<usize>)
        ensures
            r == chosen_entry(self@),
            r matches Some(q) ==> q < self@.queue.len(),
    {
        match self.queue_row {
            Some(row) => {
                let shown = self.filtered_queue_positions();
                if row < shown.len() {
                    Some(shown[row])
                } else {
                    None
                }
            },
            None => None,
        }
    }

    fn warm_row(&mut self, list: usize, shown: &Vec<usize>, row: usize)
        ensures
            final(self)@ == row_warmed(old(self)@, list, shown@, row as int),
            old(self)@.wf() ==> final(self)@.wf(),
    {
        if row < shown.len() {
            let video = self.video(list, shown[row]);
            self.prefetch(video);
        }
    }

    fn prefetch_selected(&mut self)
        ensures
            final(self)@ == warmed(old(self)@),
            old(self)@.wf() ==> final(self)@.wf(),
    {
        let list: usize = match self.list {
            Some(list) => list,
            None => return,
        };
        let shown = self.filtered_songs(list);
        let base: usize = match self.songs {
            Some(i) => i,
            None => 0,
        };
        self.warm_row(list, &shown, base);
        if base < usize::MAX {
            self.warm_row(list, &shown, base + 1);
        }
    }

    fn clear_filter(&mut self)
        ensures
            final(self)@ == unfiltered(old(self)@),
    {
        self.filter = Vec::new();
        self.filter_mode = false;
        self.songs = Some(0);
        self.queue_row = Some(0);
        assert(self@.filter =~= Seq::empty());
    }

    // ── keys ─────────────────────────────────────────────────────────────────

    fn handle_filter_key(&mut self, key: Key)
        ensures
            final(self)@ == filter_key(old(self)@, key),
            old(self)@.wf() ==> final(self)@.wf(),
    {
        match key {
            Key::Esc => self.clear_filter(),
            Key::Enter => {
                self.filter_mode = false;
            },
            Key::Backspace => {
                self.filter.pop();
                self.songs = Some(0);
                self.queue_row = Some(0);
            },
            Key::Char(c) => {
                self.filter.push(c);
                self.songs = Some(0);
                self.queue_row = Some(0);
            },
            _ => {},
        }
    }

    fn move_songs(&mut self, down: bool)
        ensures
            final(self)@ == songs_moved(old(self)@, down),
            old(self)@.wf() ==> final(self)@.wf(),
    {
        if self.show_queue {
            self.queue_row = if down {
                panel::select_next(self.queue_row)
            } else {
                panel::select_previous(self.queue_row)
            };
        } else {
            self.songs = if down {
                panel::select_next(self.songs)
            } else {
                panel::select_previous(self.songs)
            };
            self.prefetch_selected();
        }
    }

    fn move_cursor(&mut self, down: bool)
        ensures
            final(self)@ == moved(old(self)@, down),
            old(self)@.wf() ==> final(self)@.wf(),
    {
        match self.active_panel {
            Panel::Playlists => {
                self.list = if down {
                    panel::select_next(self.list)
                } else {
                    panel::select_previous(self.list)
                };
                self.clear_filter();
            },
            Panel::Songs => self.move_songs(down),
        }
    }

    fn enter_songs(&mut self)
        ensures
            final(self)@ == songs_entered(old(self)@),
            old(self)@.wf() ==> final(self)@.wf(),
    {
        self.active_panel = Panel::Songs;
        if self.songs.is_none() {
            self.songs = Some(0);
        }
    }

    fn enter(&mut self)
        requires
            old(self)@.wf(),
        ensures
            exists|order: Seq<usize>|
                order_fits(old(self)@, Key::Enter, order) && final(self)@ == #[trigger] entered(
                    old(self)@,
                    order,
                ),
            final(self)@.wf(),
    {
        let ghost v = self@;
        let ghost all = match v.list {
            Some(list) => in_order(songs_at(v, list as int).len()),
            None => Seq::empty(),
        };
        if self.active_panel == Panel::Playlists {
            self.enter_songs();
            self.clear_filter();
            self.prefetch_selected();
            assert(self@ == entered(v, all));
        } else if self.show_queue {
            match self.selected_entry() {
                Some(q) => {
                    self.queue_pos = Some(q);
                    match self.queue_list {
                        Some(list) => {
                            let song: usize = self.queue[q];
                            self.do_play(list, song);
                        },
                        None => {},
                    }
                },
                None => {},
            }
            assert(self@ == entered(v, all));
        } else {
            match self.selected_place() {
                Some((list, song)) => {
                    self.play_song(list, song);
                    proof {
                        let order = choose|order: Seq<usize>|
                            {
                                let all = in_order(songs_at(v, list as int).len());
                                &&& order.to_multiset() == all.to_multiset()
                                &&& v.mode != PlayMode::Shuffle ==> order == all
                                &&& self@ == #[trigger] opened(v, list, song, order)
                            };
                        assert(order_fits(v, Key::Enter, order));
                        assert(self@ == entered(v, order));
                    }
                },
                None => {
                    assert(self@ == entered(v, all));
                },
            }
        }
    }

    fn space(&mut self, audio: &AudioState)
        ensures
            final(self)@ == spaced(old(self)@, audio@),
            old(self)@.wf() ==> final(self)@.wf(),
    {
        match (self.playing_list, self.playing_song) {
            (Some(list), Some(song)) => {
                if !self.playback_started {
                    self.do_play(list, song);
                } else if !audio.loading {
                    if audio.paused {
                        self.send(Cmd::Resume);
                    } else {
                        self.send(Cmd::Pause);
                    }
                }
            },
            _ => {},
        }
    }

    fn toggle_mute(&mut self)
        ensures
            final(self)@ == muted(old(self)@),
            old(self)@.wf() ==> final(self)@.wf(),
    {
        if self.muted {
            self.muted = false;
            self.volume = self.pre_mute_vol;
        } else {
            self.pre_mute_vol = self.volume;
            self.muted = true;
            self.volume = 0;
        }
        self.send(Cmd::Volume(self.volume));
    }

    fn adjust_volume(&mut self, delta: i8)
        ensures
            final(self)@ == louder(old(self)@, delta as int),
            old(self)@.wf() ==> final(self)@.wf(),
    {
        let next: i16 = self.volume as i16 + delta as i16;
        self.volume = if next < 0 {
            0
        } else if next > 100 {
            100
        } else {
            next as u8
        };
        self.muted = false;
        self.send(Cmd::Volume(self.volume));
    }

    fn toggle_queue(&mut self)
        ensures
            final(self)@ == queue_toggled(old(self)@),
            old(self)@.wf() ==> final(self)@.wf(),
    {
        self.show_queue = !self.show_queue;
        self.filter = Vec::new();
        assert(self@.filter =~= Seq::empty());
        self.filter_mode = false;
        self.sync_queue_view();
    }

    fn append_selected(&mut self, now: u64)
        ensures
            final(self)@ == selection_appended(old(self)@, now),
            old(self)@.wf() ==> final(self)@.wf(),
    {
        if self.active_panel == Panel::Songs && !self.show_queue {
            match self.selected_place() {
                Some((list, song)) => self.append_to_queue(list, song, now),
                None => {},
            }
        }
    }

    fn remove_selected(&mut self, now: u64)
        requires
            old(self)@.wf(),
        ensures
            final(self)@ == selection_removed(old(self)@, now),
            final(self)@.wf(),
    {
        if self.active_panel == Panel::Songs && self.show_queue {
            match self.selected_entry() {
                Some(q) => self.remove_from_queue(q, now),
                None => {},
            }
        }
    }

    fn handle_list_key(&mut self, key: Key, now: u64)
        requires
            old(self)@.wf(),
            key != Key::Enter,
        ensures
            final(self)@ == list_key(old(self)@, key, now, Seq::empty()),
            final(self)@.wf(),
    {
        match key {
            Key::Char('j') => self.move_cursor(true),
            Key::Char('k') => self.move_cursor(false),
            Key::Char('h') => {
                self.active_panel = Panel::Playlists;
                self.clear_filter();
            },
            Key::Char('l') => {
                self.enter_songs();
                self.prefetch_selected();
            },
            Key::Char('/') => {
                if self.active_panel == Panel::Songs {
                    self.filter_mode = true;
                }
            },
            Key::Char('a') => self.append_selected(now),
            Key::Char('d') => self.remove_selected(now),
            Key::Char('o') => self.toggle_queue(),
            _ => {},
        }
    }

    fn handle_playback_key(&mut self, key: Key, audio: &AudioState)
        requires
            old(self)@.wf(),
            key != Key::Char('t'),
        ensures
            final(self)@ == playback_key(old(self)@, key, audio@, Seq::empty()),
            final(self)@.wf(),
    {
        match key {
            Key::Char(' ') => self.space(audio),
            Key::Char('p') => self.advance_queue(-1),
            Key::Char('n') => self.advance_queue(1),
            Key::Char('m') => self.toggle_mute(),
            Key::Left => self.send(Cmd::Seek(-ui::SEEK_STEP)),
            Key::Right => self.send(Cmd::Seek(ui::SEEK_STEP)),
            Key::Up => self.adjust_volume(5),
            Key::Down => self.adjust_volume(-5),
            _ => {},
        }
    }

    fn handle_quit_key(&mut self, key: Key) -> (r: bool)
        ensures
            (final(self)@, r) == quit_key(old(self)@, key),
            old(self)@.wf() ==> final(self)@.wf(),
    {
        match key {
            Key::Esc => {
                if self.active_panel == Panel::Playlists {
                    return true;
                }
                if self.filter.len() > 0 {
                    self.clear_filter();
                } else {
                    self.active_panel = Panel::Playlists;
                }
                false
            },
            Key::Char('r') => {
                if self.lists.len() == 0 {
                    self.reauth_requested = true;
                    true
                } else {
                    false
                }
            },
            Key::Char('q') => true,
            _ => false,
        }
    }

    /// Takes a key; says whether it quits.
    pub fn handle_key(&mut self, key: Key, audio: &AudioState, now: u64) -> (r: bool)
        requires
            old(self)@.wf(),
        ensures
            exists|order: Seq<usize>|
                order_fits(old(self)@, key, order) && (final(self)@, r) == #[trigger] pressed(
                    old(self)@,
                    key,
                    audio@,
                    now,
                    order,
                ),
            final(self)@.wf(),
    {
        let ghost v = self@;
        if self.filter_mode {
            self.handle_filter_key(key);
            proof {
                let order = match v.list {
                    Some(list) if key == Key::Enter => in_order(songs_at(v, list as int).len()),
                    _ => v.queue,
                };
                assert(order_fits(v, key, order));
                assert((self@, false) == pressed(v, key, audio@, now, order));
            }
            false
        } else if key == Key::Enter {
            self.enter();
            proof {
                let order = choose|order: Seq<usize>|
                    order_fits(v, Key::Enter, order) && self@ == #[trigger] entered(v, order);
                assert((self@, false) == pressed(v, key, audio@, now, order));
            }
            false
        } else if key == Key::Char('t') {
            self.cycle_mode();
            proof {
                let order = choose|order: Seq<usize>|
                    order.to_multiset() == v.queue.to_multiset() && self@ == #[trigger] switched(
                        v,
                        order,
                    );
                assert(order_fits(v, key, order));
                assert((self@, false) == pressed(v, key, audio@, now, order));
            }
            false
        } else {
            let mut quits = false;
            if ui::is_list_key(key) {
                self.handle_list_key(key, now);
            } else if ui::is_playback_key(key) {
                self.handle_playback_key(key, audio);
            } else {
                quits = self.handle_quit_key(key);
            }
            assert(order_fits(v, key, Seq::empty()));
            assert((self@, quits) == pressed(v, key, audio@, now, Seq::empty()));
            quits
        }
    }

    /// Takes a turn of the wheel over the cell at `(x, y)`.
    pub fn handle_mouse(&mut self, scroll: Scroll, x: u16, y: u16)
        ensures
            final(self)@ == wheeled(old(self)@, scroll, x, y),
            old(self)@.wf() ==> final(self)@.wf(),
    {
        let down = scroll == Scroll::Down;
        if self.playlists_area.contains(x, y) {
            self.list = if down {
                panel::select_next(self.list)
            } else {
                panel::select_previous(self.list)
            };
            self.songs = None;
            self.filter = Vec::new();
            self.filter_mode = false;
            assert(self@.filter =~= Seq::empty());
        } else if self.songs_area.contains(x, y) {
            self.move_songs(down);
        }
    }

    /// Where the panels were drawn, and what the tables made of the selections.
    pub fn set_drawn(
        &mut self,
        playlists: Rect,
        right: Rect,
        list: Option<usize>,
        songs: Option<usize>,
        queue_row: Option<usize>,
    )
        ensures
            final(self)@ == (JukeView {
                playlists_area: playlists,
                songs_area: right,
                list,
                songs,
                queue_row,
                ..old(self)@
            }),
    {
        self.playlists_area = playlists;
        self.songs_area = right;
        self.list = list;
        self.songs = songs;
        self.queue_row = queue_row;
    }

    /// A notification goes when it has been read.
    pub fn expire(&mut self, now: u64)
        ensures
            final(self)@ == expired(old(self)@, now),
    {
        let expired = match &self.notification {
            Some((_, then)) => now >= *then && now - *then >= ui::NOTIFICATION_TTL,
            None => false,
        };
        if expired {
            self.notification = None;
        }
    }

    // ── a queue that comes back ──────────────────────────────────────────────

    fn find_list(&self, id: &str) -> (r: Option<usize>)
        ensures
            match r {
                Some(i) => seqs::first_where(self@.lists, has_list_id(id@), 0) == Some(i as int),
                None => seqs::first_where(self@.lists, has_list_id(id@), 0) is None,
            },
            r matches Some(i) ==> i < self@.lists.len(),
    {
        let ghost p = has_list_id(id@);
        let mut i: usize = 0;
        while i < self.lists.len()
            invariant
                i <= self.lists@.len(),
                self@.lists == self.lists@,
                p == has_list_id(id@),
                seqs::first_where(self@.lists, p, 0) == seqs::first_where(
                    self@.lists,
                    p,
                    i as int,
                ),
            decreases self.lists@.len() - i,
        {
            let found = match &self.lists[i].playlist_id {
                Some(x) => text::same_str(x.as_str(), id),
                None => false,
            };
            if found {
                return Some(i);
            }
            i += 1;
        }
        None
    }

    fn find_places(&self, list: usize, videos: &Vec<String>) -> (r: Vec<usize>)
        requires
            list < self@.lists.len(),
        ensures
            r@ == found_places(songs_at(self@, list as int), text::texts(videos@)),
    {
        let ghost songs = songs_at(self@, list as int);
        let ghost all = text::texts(videos@);
        let mut out: Vec<usize> = Vec::new();
        let mut i: usize = 0;
        assert(all.take(0) =~= Seq::empty());
        while i < videos.len()
            invariant
                i <= videos@.len(),
                list < self@.lists.len(),
                self@.lists == self.lists@,
                songs == songs_at(self@, list as int),
                all == text::texts(videos@),
                out@ == found_places(songs, all.take(i as int)),
            decreases videos@.len() - i,
        {
            assert(all.take(i + 1).drop_last() =~= all.take(i as int));
            assert(all.take(i + 1).last() == videos@[i as int]@);
            let ghost p = has_video(videos@[i as int]@);
            let n: usize = self.lists[list].songs.len();
            let mut k: usize = 0;
            let mut found: Option<usize> = None;
            while k < n && found.is_none()
                invariant
                    k <= n,
                    n == songs.len(),
                    i < videos@.len(),
                    list < self@.lists.len(),
                    self@.lists == self.lists@,
                    songs == songs_at(self@, list as int),
                    p == has_video(videos@[i as int]@),
                    match found {
                        Some(at) => seqs::first_where(songs, p, 0) == Some(at as int),
                        None => seqs::first_where(songs, p, 0) == seqs::first_where(
                            songs,
                            p,
                            k as int,
                        ),
                    },
                decreases n - k, (found is None) as int,
            {
                let same = match &self.lists[list].songs[k].video_id {
                    Some(x) => text::same_str(x.as_str(), videos[i].as_str()),
                    None => false,
                };
                if same {
                    found = Some(k);
                }
                k += 1;
            }
            match found {
                Some(at) => out.push(at),
                None => {},
            }
            i += 1;
        }
        assert(all.take(i as int) =~= all);
        out
    }

    /// Takes up the saved queue, once the songs of its playlist arrived.
    #[verifier::rlimit(30)]
    pub fn try_restore_queue(&mut self, arrived: usize)
        ensures
            final(self)@ == queue_restored(old(self)@, arrived),
            old(self)@.wf() ==> final(self)@.wf(),
    {
        let place = match &self.pending_queue_restore {
            None => return,
            Some(saved) => match &saved.playlist_id {
                Some(id) => self.find_list(id.as_str()),
                None => None,
            },
        };
        let list: usize = match place {
            Some(list) => list,
            None => {
                self.pending_queue_restore = None;
                return;
            },
        };
        if list != arrived {
            return;
        }
        let mut pending: Option<SavedQueue> = None;
        std::mem::swap(&mut pending, &mut self.pending_queue_restore);
        match pending {
            Some(saved) => self.restore(list, saved),
            None => {},
        }
    }

    fn restore(&mut self, list: usize, saved: SavedQueue)
        requires
            list < old(self)@.lists.len(),
            old(self)@.pending is None,
        ensures
            final(self)@ == restored_at(old(self)@, list, saved),
            old(self)@.wf() ==> final(self)@.wf(),
    {
        let queue = self.find_places(list, &saved.video_ids);
        if queue.len() == 0 {
            return;
        }
        let pos = match saved.position {
            Some(p) => if p < queue.len() {
                Some(p)
            } else {
                None
            },
            None => None,
        };
        self.queue = queue;
        self.queue_pos = pos;
        self.queue_list = Some(list);
        self.queue_row = pos;
        match pos {
            Some(p) => {
                let song: usize = self.queue[p];
                self.playing_list = Some(list);
                self.playing_song = Some(song);
                self.playback_started = false;
                self.list = Some(list);
                let video = self.video(list, song);
                self.prefetch(video);
            },
            None => {},
        }
    }

    /// Takes in the songs of a playlist.
    pub fn apply_song_batch(&mut self, idx: usize, songs: Vec<Song>)
        requires
            seconds_sum(songs@) <= u64::MAX,
        ensures
            final(self)@ == (JukeView { lists: final(self)@.lists, ..old(self)@ }),
            final(self)@.lists.len() == old(self)@.lists.len(),
            forall|i: int|
                0 <= i < old(self)@.lists.len() && i != idx ==> #[trigger] final(self)@.lists[i]
                    == old(self)@.lists[i],
            idx < old(self)@.lists.len() ==> ({
                let before = old(self)@.lists[idx as int];
                let after = final(self)@.lists[idx as int];
                &&& after.playlist_id == before.playlist_id
                &&& after.title == before.title
                &&& after.authors == before.authors
                &&& after.songs == songs
                &&& after.loaded
                &&& after.total_secs == seconds_sum(songs@)
            }),
    {
        if idx >= self.lists.len() {
            return;
        }
        let total: u64 = add_seconds(&songs);
        let old_list = self.lists.remove(idx);
        let new_list = Listing {
            playlist_id: old_list.playlist_id,
            title: old_list.title,
            authors: old_list.authors,
            songs,
            loaded: true,
            total_secs: total,
        };
        self.lists.insert(idx, new_list);
    }

    /// The queue as it is saved: nothing where no entry has a video.
    pub fn queue_state(&self) -> (r: Option<SavedQueue>)
        ensures
            match r {
                Some(saved) => {
                    &&& self@.queue_list matches Some(list) && list < self@.lists.len() && text::opt(
                        saved.playlist_id,
                    ) == text::opt(self@.lists[list as int].playlist_id) && text::texts(
                        saved.video_ids@,
                    ) == videos_of(self@.lists[list as int].songs@, self@.queue)
                    &&& saved.position == video_position(
                        self@.lists[self@.queue_list->0 as int].songs@,
                        self@.queue,
                        self@.pos,
                    )
                    &&& saved.video_ids@.len() > 0
                },
                None => match self@.queue_list {
                    Some(list) => list >= self@.lists.len() || videos_of(
                        self@.lists[list as int].songs@,
                        self@.queue,
                    ).len() == 0,
                    None => true,
                },
            },
    {
        let list: usize = match self.queue_list {
            Some(list) => list,
            None => return None,
        };
        if list >= self.lists.len() {
            return None;
        }
        let ghost songs = self@.lists[list as int].songs@;
        let mut video_ids: Vec<String> = Vec::new();
        let mut place: Option<usize> = None;
        let mut i: usize = 0;
        assert(self.queue@.take(0) =~= Seq::empty());
        assert(text::texts(video_ids@) =~= videos_of(songs, self.queue@.take(0)));
        while i < self.queue.len()
            invariant
                i <= self.queue@.len(),
                list < self.lists@.len(),
                self@.lists == self.lists@,
                self@.queue == self.queue@,
                songs == self@.lists[list as int].songs@,
                text::texts(video_ids@) == videos_of(songs, self.queue@.take(i as int)),
                place == match self.queue_pos {
                    Some(p) if p < i => video_position(songs, self.queue@, self.queue_pos),
                    _ => None,
                },
            decreases self.queue@.len() - i,
        {
            let at: usize = self.queue[i];
            assert(self.queue@.take(i + 1).drop_last() =~= self.queue@.take(i as int));
            assert(self.queue@.take(i + 1).last() == at);
            let ghost so_far = text::texts(video_ids@);
            if at < self.lists[list].songs.len() {
                match &self.lists[list].songs[at].video_id {
                    Some(id) => {
                        if self.queue_pos == Some(i) {
                            place = Some(video_ids.len());
                        }
                        video_ids.push(id.as_str().to_owned());
                        assert(text::texts(video_ids@) =~= so_far.push(id@));
                    },
                    None => {},
                }
            }
            i += 1;
        }
        assert(self.queue@.take(i as int) =~= self.queue@);
        assert(text::texts(video_ids@).len() == video_ids@.len());
        if video_ids.len() == 0 {
            return None;
        }
        let playlist_id = match &self.lists[list].playlist_id {
            Some(id) => Some(id.as_str().to_owned()),
            None => None,
        };
        Some(SavedQueue { playlist_id, video_ids, position: place })
    }
}

impl Jukebox {
    // ── what the screen is drawn from ────────────────────────────────────────

    /// The playlists.
    pub fn lists(&self) -> (r: &[Listing])
        ensures
            r@ == self@.lists,
    {
        self.lists.as_slice()
    }

    /// The selected playlist.
    pub fn list(&self) -> (r: Option<usize>)
        ensures
            r == self@.list,
    {
        self.list
    }

    /// The selected row of the songs shown.
    pub fn songs(&self) -> (r: Option<usize>)
        ensures
            r == self@.songs,
    {
        self.songs
    }

    /// The selected row of the queue entries shown.
    pub fn queue_row(&self) -> (r: Option<usize>)
        ensures
            r == self@.queue_row,
    {
        self.queue_row
    }

    /// The panel that takes keys.
    pub fn active_panel(&self) -> (r: Panel)
        ensures
            r == self@.panel,
    {
        self.active_panel
    }

    /// The song under the cursor.
    pub fn selected_song(&self) -> (r: Option<&Song>)
        ensures
            match r {
                Some(s) => chosen_song(self@) matches Some(t) && song_at(
                    self@,
                    t.0 as int,
                    t.1 as int,
                ) == Some(*s),
                None => chosen_song(self@) is None,
            },
    {
        match (self.list, self.songs) {
            (Some(list), Some(row)) => {
                let shown = self.filtered_songs(list);
                if row < shown.len() {
                    self.song(list, shown[row])
                } else {
                    None
                }
            },
            _ => None,
        }
    }

    /// The song that plays, where its playlist has it.
    pub fn playing(&self) -> (r: Option<&Song>)
        ensures
            match r {
                Some(s) => now_playing(self@) == Some(*s),
                None => now_playing(self@) is None,
            },
    {
        match (self.playing_list, self.playing_song) {
            (Some(list), Some(song)) => self.song(list, song),
            _ => None,
        }
    }

    /// Where the song that plays stands: its playlist, and its place there.
    pub fn playing_place(&self) -> (r: (Option<usize>, Option<usize>))
        ensures
            r == (self@.playing_list, self@.playing_song),
    {
        (self.playing_list, self.playing_song)
    }

    /// The queue.
    pub fn queue(&self) -> (r: &[usize])
        ensures
            r@ == self@.queue,
    {
        self.queue.as_slice()
    }

    /// The current place in the queue.
    pub fn queue_position(&self) -> (r: Option<usize>)
        ensures
            r == self@.pos,
    {
        self.queue_pos
    }

    /// The song of queue entry `q`.
    pub fn queued(&self, q: usize) -> (r: Option<&Song>)
        requires
            q < self@.queue.len(),
        ensures
            match r {
                Some(s) => self@.queue_list matches Some(list) && song_at(
                    self@,
                    list as int,
                    self@.queue[q as int] as int,
                ) == Some(*s),
                None => match self@.queue_list {
                    Some(list) => song_at(self@, list as int, self@.queue[q as int] as int) is None,
                    None => true,
                },
            },
    {
        match self.queue_list {
            Some(list) => self.song(list, self.queue[q]),
            None => None,
        }
    }

    /// The mode.
    pub fn mode(&self) -> (r: PlayMode)
        ensures
            r == self@.mode,
    {
        self.mode
    }

    /// The volume.
    pub fn volume(&self) -> (r: u8)
        ensures
            r == self@.volume,
    {
        self.volume
    }

    /// Whether the sound is off.
    pub fn is_muted(&self) -> (r: bool)
        ensures
            r == self@.muted,
    {
        self.muted
    }

    /// Whether the queue is shown in place of the songs.
    pub fn show_queue(&self) -> (r: bool)
        ensures
            r == self@.show_queue,
    {
        self.show_queue
    }

    /// What is said.
    pub fn notification(&self) -> (r: Option<&str>)
        ensures
            match r {
                Some(s) => self@.notification matches Some(n) && n.0 == s@,
                None => self@.notification is None,
            },
    {
        match &self.notification {
            Some((message, _)) => Some(message.as_str()),
            None => None,
        }
    }

    /// Whether the user asked to sign in again.
    pub fn reauth_requested(&self) -> (r: bool)
        ensures
            r == self@.reauth,
    {
        self.reauth_requested
    }

    /// The query.
    pub fn filter(&self) -> (r: &[char])
        ensures
            r@ == self@.filter,
    {
        self.filter.as_slice()
    }

    /// Whether a query is typed.
    pub fn filter_mode(&self) -> (r: bool)
        ensures
            r == self@.filter_mode,
    {
        self.filter_mode
    }
}

/// The song that plays, where its playlist has it.
pub open spec fn now_playing(v: JukeView) -> Option<Song> {
    match (v.playing_list, v.playing_song) {
        (Some(list), Some(song)) => song_at(v, list as int, song as int),
        _ => None,
    }
}

// ── what the jukebox keeps to ────────────────────────────────────────────────

/// Queueing a song of another playlist starts the queue over.
pub proof fn another_playlist_starts_over(v: JukeView, list: usize, song: usize, now: u64)
    requires
        v.queue_list != Some(list),
    ensures
        appended(v, list, song, now).queue == seq![song],
        appended(v, list, song, now).queue_list == Some(list),
{
    assert(Seq::<usize>::empty().push(song) =~= seq![song]);
}

/// A skip forward and one back end at the same place.
pub proof fn forward_and_back(v: JukeView)
    requires
        v.wf(),
        v.pos is Some,
        v.queue_list is Some,
        v.queue.len() <= usize::MAX,
    ensures
        stepped(stepped(v, 1), -1).pos == v.pos,
{
    let n = v.queue.len() as int;
    let p = v.pos->0 as int;
    let there = player::around(p, 1, n);
    let next = stepped(v, 1);
    assert(0 <= there < n);
    assert(next.pos == Some(there as usize) && next.queue == v.queue);
    if p + 1 < n {
        vstd::arithmetic::div_mod::lemma_small_mod((p + 1) as nat, n as nat);
        vstd::arithmetic::div_mod::lemma_small_mod(p as nat, n as nat);
    } else {
        assert(p + 1 == n);
        vstd::arithmetic::div_mod::lemma_mod_self_0(n);
        vstd::arithmetic::div_mod::lemma_mod_add_multiples_vanish(-1, n);
        vstd::arithmetic::div_mod::lemma_small_mod((n - 1) as nat, n as nat);
    }
}

/// The mute key pressed twice leaves the player as it was, muted or not. Each press
/// sends the audio thread the new volume and nothing else.
pub proof fn muting_twice(v: JukeView)
    requires
        v.wf(),
    ensures
        muted(v).sent == v.sent.push(CmdView::Volume(muted(v).volume)),
        muted(muted(v)) == (JukeView {
            pre_mute: if v.muted {
                v.pre_mute
            } else {
                v.volume
            },
            sent: v.sent.push(CmdView::Volume(muted(v).volume)).push(CmdView::Volume(v.volume)),
            ..v
        }),
{
}

/// Changing the mode keeps every song in the queue, as often as it was there.
pub proof fn switching_keeps_the_songs(v: JukeView, order: Seq<usize>)
    requires
        order.to_multiset() == v.queue.to_multiset(),
    ensures
        switched(v, order).queue.to_multiset() == v.queue.to_multiset(),
{
    seqs::lemma_sorted_permutes(v.queue, seqs::order::<usize>());
}

/// A queue that came back does not start by itself.
pub proof fn a_restored_queue_waits(v: JukeView, arrived: usize, id: Seq<char>)
    ensures
        !v.sent.contains(CmdView::Play(id)) ==> !queue_restored(v, arrived).sent.contains(
            CmdView::Play(id),
        ),
{
    let after = queue_restored(v, arrived);
    if after.sent.contains(CmdView::Play(id)) && !v.sent.contains(CmdView::Play(id)) {
        let i = choose|i: int| 0 <= i < after.sent.len() && after.sent[i] == CmdView::Play(id);
        if i < v.sent.len() {
            assert(v.sent[i] == after.sent[i]);
        }
    }
}

} // verus!
