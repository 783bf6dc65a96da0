//! The interface: what each key, the wheel, the passing of time and a search's answer do.

use vstd::prelude::*;

use crate::library;
use crate::library::PlaylistEntry;
use crate::lrc;
use crate::lyric_panel;
use crate::lyrics;
use crate::lyrics::{LyricsMsg, TrackLyrics};
use crate::panel;
use crate::persistence;
use crate::persistence::RestoreView;
use crate::playback::{AudioView, CmdView};
use crate::player;
use crate::player::{PlayMode, TrackRef};
use crate::text;
use crate::ui;
use crate::ui::{AppView, Key, LyricsEntry, Panel, PickerView, RequestView, Scroll};

verus! {

/// Whether nothing is open that takes keys first.
pub open spec fn plain(v: AppView) -> bool {
    !v.show_keymap && v.picker is None && !v.filter_mode
}

/// Whether everything but the player stays.
pub open spec fn only_the_player(v: AppView, w: AppView) -> bool {
    w == (AppView { player: w.player, ..v })
}

// ── playback ─────────────────────────────────────────────────────────────────

/// The arrows to the sides seek five seconds back and on, with the list of records open
/// too.
pub proof fn side_arrows_seek_five_seconds(
    v: AppView,
    control: bool,
    a: AudioView,
    now: u64,
    order: Seq<TrackRef>,
)
    requires
        !v.show_keymap,
        !v.filter_mode,
    ensures
        ({
            let (w, quits) = ui::pressed(v, Key::Left, control, a, now, order);
            &&& !quits && only_the_player(v, w)
            &&& w.player.sent == v.player.sent.push(CmdView::Seek(-5_000_000_000))
            &&& w.player == (player::PlayerView { sent: w.player.sent, ..v.player })
        }),
        ({
            let (w, quits) = ui::pressed(v, Key::Right, control, a, now, order);
            &&& !quits && only_the_player(v, w)
            &&& w.player.sent == v.player.sent.push(CmdView::Seek(5_000_000_000))
            &&& w.player == (player::PlayerView { sent: w.player.sent, ..v.player })
        }),
{
}

/// The arrows up and down make it five percent louder and quieter, within bounds, and the
/// sound is on.
pub proof fn up_and_down_change_the_volume(
    v: AppView,
    control: bool,
    a: AudioView,
    now: u64,
    order: Seq<TrackRef>,
)
    requires
        plain(v),
        v.player.volume <= 100,
    ensures
        ({
            let (w, quits) = ui::pressed(v, Key::Up, control, a, now, order);
            &&& !quits && only_the_player(v, w)
            &&& v.player.volume <= 95 ==> w.player.volume == v.player.volume + 5
            &&& v.player.volume > 95 ==> w.player.volume == 100
            &&& !w.player.muted
            &&& w.player.sent == v.player.sent.push(CmdView::Volume(w.player.volume))
        }),
        ({
            let (w, quits) = ui::pressed(v, Key::Down, control, a, now, order);
            &&& !quits && only_the_player(v, w)
            &&& v.player.volume >= 5 ==> w.player.volume == v.player.volume - 5
            &&& v.player.volume < 5 ==> w.player.volume == 0
            &&& !w.player.muted
            &&& w.player.sent == v.player.sent.push(CmdView::Volume(w.player.volume))
        }),
{
}

/// The space key pauses what plays and resumes what is paused; a song that came back with
/// the queue starts, and where nothing plays nothing happens.
pub proof fn space_pauses_and_resumes(
    v: AppView,
    control: bool,
    a: AudioView,
    now: u64,
    order: Seq<TrackRef>,
)
    requires
        plain(v),
    ensures
        ({
            let (w, quits) = ui::pressed(v, Key::Char(' '), control, a, now, order);
            &&& !quits && only_the_player(v, w)
            &&& v.player.playing is None ==> w == v
            &&& v.player.playing is Some && v.player.started && a.loading ==> w == v
            &&& v.player.playing is Some && v.player.started && !a.loading && a.paused
                ==> w.player.sent == v.player.sent.push(CmdView::Resume)
            &&& v.player.playing is Some && v.player.started && !a.loading && !a.paused
                ==> w.player.sent == v.player.sent.push(CmdView::Pause)
            &&& v.player.playing is Some && !v.player.started ==> w.player == player::playing(
                v.player,
                v.library,
                v.player.playing->0,
            )
        }),
{
}

/// The keys `n` and `p` go one entry on and one back, `m` mutes and `t` goes to the next
/// mode. Where the queue is shown, its cursor follows the position.
pub proof fn playback_keys_do_what_they_say(
    v: AppView,
    control: bool,
    a: AudioView,
    now: u64,
    order: Seq<TrackRef>,
)
    requires
        plain(v),
    ensures
        ({
            let (w, quits) = ui::pressed(v, Key::Char('n'), control, a, now, order);
            &&& !quits && w.player == player::stepping(v.player, v.library, 1)
            &&& v.show_queue ==> w == (AppView { player: w.player, queue_row: w.player.pos, ..v })
            &&& !v.show_queue ==> only_the_player(v, w)
        }),
        ({
            let (w, quits) = ui::pressed(v, Key::Char('p'), control, a, now, order);
            &&& !quits && w.player == player::stepping(v.player, v.library, -1)
            &&& v.show_queue ==> w == (AppView { player: w.player, queue_row: w.player.pos, ..v })
            &&& !v.show_queue ==> only_the_player(v, w)
        }),
        ({
            let (w, quits) = ui::pressed(v, Key::Char('m'), control, a, now, order);
            !quits && only_the_player(v, w) && w.player == player::muting(v.player)
        }),
        ({
            let (w, quits) = ui::pressed(v, Key::Char('t'), control, a, now, order);
            &&& !quits && w.player.mode == player::next_mode(v.player.mode)
            &&& w.player == player::switching(v.player, w.player.mode, order)
            &&& v.show_queue ==> w.queue_row == w.player.pos
            &&& !v.show_queue ==> only_the_player(v, w)
        }),
{
}

// ── moving about ─────────────────────────────────────────────────────────────

/// The keys `j` and `k` move the cursor of what is focused: another playlist, without a
/// query and at its first song; a row of the queue; a row of the lyrics; or another song,
/// which is looked up ahead.
pub proof fn j_and_k_move_the_focused_cursor(
    v: AppView,
    control: bool,
    a: AudioView,
    now: u64,
    order: Seq<TrackRef>,
)
    requires
        plain(v),
        i32::MIN < v.scroll < i32::MAX,
    ensures
        ({
            let down = ui::pressed(v, Key::Char('j'), control, a, now, order).0;
            let up = ui::pressed(v, Key::Char('k'), control, a, now, order).0;
            let lists = v.panel == Panel::Playlists;
            &&& lists ==> down.list == panel::row_below(v.list) && up.list == panel::row_above(
                v.list,
            )
            &&& lists ==> down.filter.len() == 0 && down.songs == Some(0usize) && down.player
                == v.player
            &&& !lists ==> down.list == v.list && up.list == v.list && down.filter == v.filter
            &&& !lists && v.lyrics_mode ==> down == (AppView {
                scroll: (v.scroll + 1) as i32,
                following: false,
                ..v
            })
            &&& !lists && v.lyrics_mode ==> up == (AppView {
                scroll: (v.scroll - 1) as i32,
                following: false,
                ..v
            })
            &&& !lists && !v.lyrics_mode && v.show_queue ==> down == (AppView {
                queue_row: panel::row_below(v.queue_row),
                ..v
            })
            &&& !lists && !v.lyrics_mode && v.show_queue ==> up == (AppView {
                queue_row: panel::row_above(v.queue_row),
                ..v
            })
            &&& !lists && !v.lyrics_mode && !v.show_queue ==> down.songs == panel::row_below(
                v.songs,
            ) && down.queue_row == v.queue_row
            &&& !lists && !v.lyrics_mode && !v.show_queue ==> up.songs == panel::row_above(v.songs)
                && up.queue_row == v.queue_row
        }),
{
}

/// The song under the cursor and the one below it are looked up ahead of time, in that
/// order, where they have a video.
pub proof fn two_songs_are_looked_up_ahead(v: AppView, pl: usize, row: usize)
    requires
        v.list == Some(pl),
        v.songs == Some(row),
        row + 1 < ui::songs_shown(v, pl).len(),
    ensures
        ({
            let shown = ui::songs_shown(v, pl);
            let x = player::video_at(v.library, (pl, shown[row as int]));
            let y = player::video_at(v.library, (pl, shown[row + 1]));
            let w = ui::warmed(v);
            &&& only_the_player(v, w)
            &&& x is Some && x->0.len() > 0 && y is Some && y->0.len() > 0 ==> w.player.sent
                == v.player.sent.push(CmdView::Prefetch(x->0)).push(CmdView::Prefetch(y->0))
            &&& x is None && y is None ==> w == v
        }),
{
}

/// The key `h` goes to the playlists, without a query; `l` goes to the songs, `/` starts a
/// query there, `o` shows the queue or the songs again, and `?` shows every key.
pub proof fn letters_lead_about(
    v: AppView,
    control: bool,
    a: AudioView,
    now: u64,
    order: Seq<TrackRef>,
)
    requires
        plain(v),
    ensures
        ({
            let h = ui::pressed(v, Key::Char('h'), control, a, now, order).0;
            let l = ui::pressed(v, Key::Char('l'), control, a, now, order).0;
            let q = ui::pressed(v, Key::Char('/'), control, a, now, order).0;
            let o = ui::pressed(v, Key::Char('o'), control, a, now, order).0;
            let k = ui::pressed(v, Key::Char('?'), control, a, now, order).0;
            &&& h.panel == Panel::Playlists && h.filter.len() == 0 && h.player == v.player && h.list
                == v.list
            &&& l.panel == Panel::Songs && l.songs is Some && l.filter == v.filter && l.list
                == v.list
            &&& v.songs is Some ==> l.songs == v.songs
            &&& v.songs is None ==> l.songs == Some(0usize)
            &&& v.panel == Panel::Songs ==> q == (AppView { filter_mode: true, ..v })
            &&& v.panel == Panel::Playlists ==> q == v
            &&& o.show_queue == !v.show_queue && o.filter.len() == 0 && o.player == v.player
            &&& o.show_queue ==> o.queue_row == v.player.pos
            &&& !o.show_queue ==> o.queue_row == v.queue_row
            &&& k == (AppView { show_keymap: true, ..v })
        }),
{
}

/// Enter opens a playlist at its first song, plays the entry under the cursor of the queue,
/// or starts the song under the cursor with a new queue.
pub proof fn enter_opens_or_plays(
    v: AppView,
    control: bool,
    a: AudioView,
    now: u64,
    order: Seq<TrackRef>,
)
    requires
        plain(v),
    ensures
        ({
            let w = ui::pressed(v, Key::Enter, control, a, now, order).0;
            &&& v.panel == Panel::Playlists ==> w.panel == Panel::Songs && w.songs == Some(0usize)
                && w.filter.len() == 0 && w.list == v.list && w.player.playing == v.player.playing
            &&& v.panel == Panel::Songs && v.show_queue ==> (ui::chosen_entry(v) matches Some(q)
                ==> w.player == player::jumping(v.player, v.library, q) || q
                >= v.player.queue.len())
            &&& v.panel == Panel::Songs && v.show_queue && ui::chosen_entry(v) is None ==> w == v
            &&& v.panel == Panel::Songs && !v.show_queue ==> (ui::chosen_song(v) matches Some(t)
                ==> w.player == player::opening(v.player, v.library, order, t))
            &&& v.panel == Panel::Songs && !v.show_queue && ui::chosen_song(v) is None ==> w == v
        }),
{
}

/// A song that is started brings every song of its playlist into the queue, in the
/// playlist's order unless the mode is shuffle; a change of mode keeps the queue's songs.
pub proof fn a_queue_takes_every_song(v: AppView, order: Seq<TrackRef>, pl: usize, i: int)
    requires
        v.list == Some(pl),
        pl < v.library.len(),
        0 <= i < v.library[pl as int].songs@.len() <= usize::MAX,
    ensures
        ui::order_fits(v, Key::Enter, order) ==> order.contains((pl, i as usize)) && order.len()
            == v.library[pl as int].songs@.len(),
        ui::order_fits(v, Key::Enter, order) && v.player.mode != PlayMode::Shuffle ==> order[i] == (
            pl,
            i as usize,
        ),
        ui::order_fits(v, Key::Char('t'), order) ==> order.to_multiset()
            == v.player.queue.to_multiset(),
{
    broadcast use vstd::seq_lib::group_to_multiset_ensures;

    let all = player::album_order(pl, v.library[pl as int].songs@.len());
    assert(all[i] == (pl, i as usize));
    assert(all.contains((pl, i as usize)));
    if ui::order_fits(v, Key::Enter, order) {
        assert(all.to_multiset().count((pl, i as usize)) > 0);
        assert(order.to_multiset().count((pl, i as usize)) > 0);
        assert(order.len() == order.to_multiset().len());
        assert(all.len() == all.to_multiset().len());
    }
}

/// What is under the cursor is the item that its row shows, and nothing where there is no
/// such row.
pub proof fn a_cursor_points_at_its_row(v: AppView, pl: usize, row: usize)
    ensures
        v.list == Some(pl) && v.songs == Some(row) && row < ui::songs_shown(v, pl).len()
            ==> ui::chosen_song(v) == Some((pl, ui::songs_shown(v, pl)[row as int])),
        v.list == Some(pl) && v.songs == Some(row) && row >= ui::songs_shown(v, pl).len()
            ==> ui::chosen_song(v) is None,
        v.list is None || v.songs is None ==> ui::chosen_song(v) is None,
        v.queue_row == Some(row) && row < ui::entries_shown(v).len() ==> ui::chosen_entry(v)
            == Some(ui::entries_shown(v)[row as int]),
        v.queue_row == Some(row) && row >= ui::entries_shown(v).len() ==> ui::chosen_entry(v) is None,
        v.queue_row is None ==> ui::chosen_entry(v) is None,
{
}

/// The key `a` appends the song under the cursor and says so; `d` removes the entry under
/// the cursor of the queue. Neither does anything where the other list is shown.
pub proof fn a_appends_and_d_removes(
    v: AppView,
    control: bool,
    a: AudioView,
    now: u64,
    order: Seq<TrackRef>,
)
    requires
        plain(v),
    ensures
        ({
            let w = ui::pressed(v, Key::Char('a'), control, a, now, order).0;
            let d = ui::pressed(v, Key::Char('d'), control, a, now, order).0;
            &&& v.panel == Panel::Playlists ==> w == v && d == v
            &&& v.show_queue ==> w == v
            &&& !v.show_queue ==> d == v
            &&& v.panel == Panel::Songs && !v.show_queue ==> (ui::chosen_song(v) matches Some(t)
                ==> w.player == player::appending(v.player, v.library, t).0 && w.notification is Some)
            &&& v.panel == Panel::Songs && v.show_queue ==> (ui::chosen_entry(v) matches Some(q)
                ==> d.player == player::removing(v.player, v.library, q).0)
        }),
{
}

/// The words that go with an appended song are its title, and its number where it waits.
pub proof fn an_appended_song_is_named(v: AppView, t: TrackRef, now: u64)
    requires
        v.player.queue.len() < usize::MAX,
    ensures
        ({
            let w = ui::appended(v, t, now);
            let name = ui::title_or(v, t, "song"@);
            let n = v.player.queue.len() + 1;
            &&& v.player.playing is None ==> w.notification == Some(("Playing: "@ + name, now))
            &&& v.player.playing is Some ==> w.notification == Some(
                ("+ queue #"@ + text::decimal(n) + ": "@ + name, now),
            )
            &&& w == (AppView { player: w.player, notification: w.notification, ..v })
            &&& library::track_at(v.library, t.0 as int, t.1 as int) is None ==> name == "song"@
            &&& (library::track_at(v.library, t.0 as int, t.1 as int) matches Some(track) ==> (
            track.title matches Some(x) ==> name == x@))
        }),
{
}

/// When an entry leaves, the cursor stays on its row, or goes to the last where that is
/// gone; a song that starts in its place is named.
pub proof fn the_cursor_stays_where_an_entry_left(v: AppView, q: usize, now: u64)
    requires
        q < v.player.queue.len() <= usize::MAX,
    ensures
        ({
            let w = ui::entry_removed(v, q, now);
            let n = v.player.queue.len() - 1;
            &&& n == 0 ==> w.queue_row is None
            &&& n > 0 && q < n ==> w.queue_row == Some(q)
            &&& n > 0 && q == n ==> w.queue_row == Some((n - 1) as usize)
            &&& v.player.pos != Some(q) ==> w.notification == v.notification
            &&& v.player.pos == Some(q) && n > 0 ==> w.notification is Some
        }),
{
    let (p, outcome) = player::removing(v.player, v.library, q);
    assert(v.player.queue.remove(q as int).len() == v.player.queue.len() - 1);
}

/// Escape first lets lyrics follow the song again, then closes them; else it clears a
/// query, then goes to the playlists, and from there it quits.
pub proof fn escape_goes_back_step_by_step(
    v: AppView,
    control: bool,
    a: AudioView,
    now: u64,
    order: Seq<TrackRef>,
)
    requires
        plain(v),
    ensures
        ({
            let (w, quits) = ui::pressed(v, Key::Esc, control, a, now, order);
            &&& v.lyrics_mode && !v.following ==> !quits && w == (AppView {
                scroll: 0,
                following: true,
                ..v
            })
            &&& v.lyrics_mode && v.following ==> !quits && w == (AppView { lyrics_mode: false, ..v })
            &&& !v.lyrics_mode && v.panel == Panel::Playlists ==> quits && w == v
            &&& !v.lyrics_mode && v.panel == Panel::Songs && v.filter.len() > 0 ==> !quits
                && w.filter.len() == 0 && w.panel == v.panel && w.player == v.player
            &&& !v.lyrics_mode && v.panel == Panel::Songs && v.filter.len() == 0 ==> !quits && w
                == (AppView { panel: Panel::Playlists, ..v })
        }),
{
}

/// The key `q` quits, but a query takes it as a character; of the other keys none quits but
/// escape, and `r` where there is no playlist.
pub proof fn q_quits(v: AppView, key: Key, a: AudioView, now: u64, order: Seq<TrackRef>)
    ensures
        !v.show_keymap && !v.filter_mode ==> ui::pressed(v, Key::Char('q'), false, a, now, order)
            == (v, true),
        !v.show_keymap && v.picker is None && v.filter_mode ==> ui::pressed(
            v,
            Key::Char('q'),
            false,
            a,
            now,
            order,
        ).0.filter == v.filter.push('q'),
        key != Key::Char('q') && key != Key::Esc && key != Key::Char('r') ==> !ui::pressed(
            v,
            key,
            false,
            a,
            now,
            order,
        ).1,
        plain(v) && !v.lyrics_mode && v.library.len() == 0 ==> ui::pressed(
            v,
            Key::Char('r'),
            false,
            a,
            now,
            order,
        ) == (AppView { reauth: true, ..v }, true),
        plain(v) && !v.lyrics_mode && v.library.len() > 0 ==> ui::pressed(
            v,
            Key::Char('r'),
            false,
            a,
            now,
            order,
        ) == (v, false),
{
}

/// While a query is typed, enter keeps it, escape clears it, and every change goes to the
/// first row.
pub proof fn a_query_is_kept_or_cleared(
    v: AppView,
    c: char,
    a: AudioView,
    now: u64,
    order: Seq<TrackRef>,
)
    requires
        v.filter_mode,
        !v.show_keymap,
        v.picker is None,
    ensures
        ui::pressed(v, Key::Enter, false, a, now, order).0 == (AppView { filter_mode: false, ..v }),
        ({
            let w = ui::pressed(v, Key::Esc, false, a, now, order).0;
            w.filter.len() == 0 && !w.filter_mode && w.songs == Some(0usize) && w.queue_row == Some(
                0usize,
            ) && w.panel == v.panel
        }),
        ({
            let w = ui::pressed(v, Key::Char(c), false, a, now, order).0;
            w == (AppView {
                filter: v.filter.push(c),
                songs: Some(0usize),
                queue_row: Some(0usize),
                ..v
            })
        }),
        v.filter.len() > 0 ==> ui::pressed(v, Key::Backspace, false, a, now, order).0 == (AppView {
            filter: v.filter.drop_last(),
            songs: Some(0usize),
            queue_row: Some(0usize),
            ..v
        }),
{
}

/// The wheel moves the cursor of the list it is over, whichever is focused, and does
/// nothing elsewhere.
pub proof fn the_wheel_moves_what_it_is_over(v: AppView, x: u16, y: u16)
    requires
        i32::MIN < v.scroll < i32::MAX,
    ensures
        ({
            let w = ui::wheeled(v, Scroll::Down, x, y);
            let u = ui::wheeled(v, Scroll::Up, x, y);
            let left = panel::inside(v.playlists_area, x, y);
            let right = panel::inside(v.songs_area, x, y);
            &&& left ==> w.list == panel::row_below(v.list) && u.list == panel::row_above(v.list)
                && w.songs is None && w.filter.len() == 0
            &&& !left && !right ==> w == v && u == v
            &&& !left ==> w.list == v.list && u.list == v.list
            &&& !left && right && v.lyrics_mode ==> w.scroll == v.scroll + 1 && u.scroll == v.scroll
                - 1 && !w.following
            &&& !left && right && !v.lyrics_mode && v.show_queue ==> w.queue_row
                == panel::row_below(v.queue_row) && u.queue_row == panel::row_above(v.queue_row)
            &&& !left && right && !v.lyrics_mode && !v.show_queue ==> w.songs == panel::row_below(
                v.songs,
            ) && u.songs == panel::row_above(v.songs)
            &&& w.panel == v.panel && u.panel == v.panel
        }),
{
}

/// What plays is the track at its place in the library, and its lyrics are those that were
/// found for its video.
pub proof fn lyrics_belong_to_what_plays(v: AppView, t: TrackRef, found: TrackLyrics)
    requires
        v.player.playing == Some(t),
        t.0 < v.library.len(),
        t.1 < v.library[t.0 as int].songs@.len(),
    ensures
        ({
            let track = v.library[t.0 as int].songs@[t.1 as int];
            &&& ui::current_track(v) == Some(track)
            &&& ui::current_video(v) == text::opt(track.video_id)
            &&& (text::opt(track.video_id) matches Some(id) ==> ({
                &&& !v.cache.contains_key(id) ==> ui::current_lyrics(v) is None
                &&& v.cache.contains_key(id) && v.cache[id] == LyricsEntry::Ready(found)
                    ==> ui::current_lyrics(v) == Some(found)
                &&& v.cache.contains_key(id) && !(v.cache[id] is Ready) ==> ui::current_lyrics(v)
                    is None
            }))
        }),
        ui::current_track(AppView { player: player::PlayerView { playing: None, ..v.player }, ..v })
            is None,
{
}

// ── lyrics ───────────────────────────────────────────────────────────────────

/// The key `y` shows lyrics, or no more, and they follow the song; pages scroll them by
/// five rows, and a scroll keeps within its bounds.
pub proof fn lyrics_open_and_scroll(
    v: AppView,
    control: bool,
    a: AudioView,
    now: u64,
    order: Seq<TrackRef>,
)
    requires
        plain(v),
        -1_000_000 < v.scroll < 1_000_000,
    ensures
        ({
            let y = ui::pressed(v, Key::Char('y'), control, a, now, order).0;
            let d = ui::pressed(v, Key::PageDown, control, a, now, order).0;
            let u = ui::pressed(v, Key::PageUp, control, a, now, order).0;
            &&& y == (AppView {
                lyrics_mode: !v.lyrics_mode,
                picker: None,
                scroll: 0,
                following: true,
                ..v
            })
            &&& v.lyrics_mode ==> d.scroll == v.scroll + 5 && u.scroll == v.scroll - 5
                && !d.following && !u.following
            &&& !v.lyrics_mode ==> d == v && u == v
        }),
{
}

/// In lyrics mode `r` forgets what is known of the playing track's lyrics, and nothing of
/// any other's.
pub proof fn r_forgets_the_lyrics(v: AppView, a: AudioView, now: u64, order: Seq<TrackRef>)
    requires
        plain(v),
        v.lyrics_mode,
    ensures
        ({
            let w = ui::pressed(v, Key::Char('r'), false, a, now, order).0;
            &&& ui::current_video(v) is None ==> w == v
            &&& (ui::current_video(v) matches Some(id) ==> w.cache == v.cache.remove(id)
                && w.scroll == 0 && w.following && w.player == v.player)
        }),
{
}

/// In lyrics mode `c` opens the list of records for what plays and asks for them; without a
/// track, or without a title to search by, it only says so.
pub proof fn c_asks_for_records(v: AppView, a: AudioView, now: u64, order: Seq<TrackRef>)
    requires
        plain(v),
    ensures
        ({
            let w = ui::pressed(v, Key::Char('c'), false, a, now, order).0;
            let video = ui::current_video(v);
            &&& !v.lyrics_mode ==> w == v
            &&& v.lyrics_mode && video is None ==> w == (AppView {
                notification: Some(("No track playing"@, now)),
                ..v
            })
            &&& v.lyrics_mode && video is Some ==> (ui::current_track(v) matches Some(t) ==> ({
                &&& lyrics::query_of(t) is None ==> w == (AppView {
                    notification: Some(("Track has no title to search on"@, now)),
                    ..v
                })
                &&& lyrics::query_of(t) is Some ==> w.picker is Some && w.picker->0.video
                    == video->0 && w.picker->0.loading && w.picker->0.items.len() == 0
                    && w.picker->0.overridden == v.overrides.contains_key(video->0) && w.asked
                    == v.asked.push(
                    RequestView::Choices {
                        video: video->0,
                        query: lyrics::query_of(t)->0,
                        on_screen: w.picker->0.on_screen,
                    },
                )
            }))
        }),
{
}

/// In the list of records `j` and `k` move the cursor, escape and `c` close it, and the
/// space key pauses what plays.
pub proof fn the_list_of_records_takes_its_keys(
    v: AppView,
    a: AudioView,
    now: u64,
    order: Seq<TrackRef>,
)
    requires
        v.picker is Some,
        !v.show_keymap,
    ensures
        ({
            let p = v.picker->0;
            let j = ui::pressed(v, Key::Char('j'), false, a, now, order);
            let k = ui::pressed(v, Key::Char('k'), false, a, now, order);
            &&& j.0 == (AppView {
                picker: Some(PickerView { selected: panel::row_below(p.selected), ..p }),
                ..v
            })
            &&& k.0 == (AppView {
                picker: Some(PickerView { selected: panel::row_above(p.selected), ..p }),
                ..v
            })
            &&& ui::pressed(v, Key::Down, false, a, now, order) == j
            &&& ui::pressed(v, Key::Up, false, a, now, order) == k
            &&& ui::pressed(v, Key::Esc, false, a, now, order) == (
                AppView { picker: None, ..v },
                false,
            )
            &&& ui::pressed(v, Key::Char('c'), false, a, now, order) == (
                AppView { picker: None, ..v },
                false,
            )
            &&& v.player.playing is Some && v.player.started && !a.loading && !a.paused
                ==> ui::pressed(v, Key::Char(' '), false, a, now, order).0.player.sent
                == v.player.sent.push(CmdView::Pause)
        }),
{
}

/// Enter in the list of records: the first row forgets the choice, so that the best match is
/// searched for again; any other makes its record the choice and shows it at once. Both
/// close the list and are to be saved.
pub proof fn enter_takes_the_record_of_its_row(
    v: AppView,
    row: usize,
    a: AudioView,
    now: u64,
    order: Seq<TrackRef>,
)
    requires
        v.picker is Some,
        !v.show_keymap,
        v.picker->0.selected == Some(row),
    ensures
        ({
            let p = v.picker->0;
            let w = ui::pressed(v, Key::Enter, false, a, now, order).0;
            &&& row == 0 ==> w.overrides == v.overrides.remove(p.video) && w.cache
                == v.cache.remove(p.video) && w.picker is None && w.dirty
            &&& 0 < row <= p.items.len() ==> w.overrides == v.overrides.insert(
                p.video,
                p.items[row - 1].id,
            ) && w.cache == v.cache.insert(p.video, LyricsEntry::Ready(p.items[row - 1]))
                && w.picker is None && w.dirty
            &&& row > p.items.len() ==> w == v
            &&& w.player == v.player && w.list == v.list
        }),
{
}

/// In lyrics mode the lyrics of what plays are asked for once, with the length that the
/// player tells; without that they are waited for up to four seconds and then asked for
/// with the listed one.
pub proof fn lyrics_wait_four_seconds_for_a_length(
    v: AppView,
    video: Seq<char>,
    total: int,
    now: u64,
    start: u64,
)
    requires
        ui::current_track(v) is Some,
        start <= now,
    ensures
        ({
            let query = lyrics::query_of(ui::current_track(v)->0);
            let w = ui::looking_up(v, video, total, now);
            let chosen = if v.overrides.contains_key(video) {
                Some(v.overrides[video])
            } else {
                None
            };
            let new = !v.cache.contains_key(video);
            &&& !new ==> w == v
            &&& query is None ==> w == v
            &&& new && query is Some && total > 0 ==> w.asked == v.asked.push(
                RequestView::Best {
                    video,
                    query: lyrics::QueryView { duration: Some(total), ..query->0 },
                    chosen,
                },
            ) && w.cache == v.cache.insert(video, LyricsEntry::Loading)
            &&& new && query is Some && total <= 0 && v.wait is None ==> w == (AppView {
                wait: Some((video, now)),
                ..v
            })
            &&& new && query is Some && total <= 0 && v.wait == Some((video, start)) && now - start
                < 4000 ==> w == v
            &&& new && query is Some && total <= 0 && v.wait == Some((video, start)) && now - start
                >= 4000 ==> w.asked == v.asked.push(
                RequestView::Best { video, query: query->0, chosen },
            ) && w.cache == v.cache.insert(video, LyricsEntry::Loading)
        }),
{
}

/// What was said goes after two seconds; while lyrics are not shown, time does nothing
/// else.
pub proof fn what_was_said_goes_after_two_seconds(
    v: AppView,
    total: int,
    now: u64,
    said: Seq<char>,
    then: u64,
)
    requires
        !v.lyrics_mode,
        then <= now,
    ensures
        v.notification == Some((said, then)) && now - then >= 2000 ==> ui::ticked(v, total, now) == (
        AppView { notification: None, ..v }),
        v.notification == Some((said, then)) && now - then < 2000 ==> ui::ticked(v, total, now) == v,
        v.notification is None ==> ui::ticked(v, total, now) == v,
{
}

/// A search's answer is kept for its video: a record, that there is none, or what failed.
/// For what plays the lyrics follow the song again.
pub proof fn an_answer_is_kept_for_its_video(
    v: AppView,
    video: String,
    result: Result<Option<TrackLyrics>, String>,
    other: Seq<char>,
)
    ensures
        ({
            let w = ui::told(v, LyricsMsg::Best { video_id: video, result });
            &&& w.cache.contains_key(video@)
            &&& result matches Ok(Some(found)) ==> w.cache[video@] == LyricsEntry::Ready(found)
            &&& result matches Ok(None) ==> w.cache[video@] == LyricsEntry::Missing
            &&& result matches Err(e) ==> w.cache[video@] == LyricsEntry::Failed(e)
            &&& other != video@ ==> w.cache.contains_key(other) == v.cache.contains_key(other) && (
            v.cache.contains_key(other) ==> w.cache[other] == v.cache[other])
            &&& ui::current_video(v) == Some(video@) ==> w.scroll == 0 && w.following
            &&& ui::current_video(v) != Some(video@) ==> w.scroll == v.scroll && w.following
                == v.following
            &&& w.picker == v.picker && w.player == v.player
        }),
{
}

/// Records that come for the open list fill it, at the row of what is in use; for another
/// video's they come too late.
pub proof fn records_fill_the_open_list(
    v: AppView,
    video: String,
    items: Vec<TrackLyrics>,
    error: String,
)
    ensures
        ({
            let w = ui::told(v, LyricsMsg::Choices { video_id: video, result: Ok(items) });
            let f = ui::told(v, LyricsMsg::Choices { video_id: video, result: Err(error) });
            let ours = v.picker is Some && v.picker->0.video == video@;
            &&& !ours ==> w == v && f == v
            &&& ours ==> w.picker == Some(
                PickerView {
                    loading: false,
                    items: items@,
                    selected: Some(
                        lyric_panel::opening_row(
                            lyrics::track_views(items@),
                            v.picker->0.on_screen,
                            v.picker->0.overridden,
                        ) as usize,
                    ),
                    ..v.picker->0
                },
            )
            &&& ours ==> f.picker == Some(
                PickerView { loading: false, error: Some(error@), ..v.picker->0 },
            )
            &&& w.cache == v.cache && f.cache == v.cache
        }),
{
}

// ── waiting and starting ─────────────────────────────────────────────────────

/// The wait for a line ends twenty milliseconds behind its start, but is never shorter than
/// 33 milliseconds nor longer than 200.
pub proof fn a_wait_ends_just_behind_the_line(d: int)
    requires
        d > 0,
    ensures
        33_000_000 <= ui::until(d) <= 200_000_000,
        13_000_000 <= d <= 180_000_000 ==> ui::until(d) == d + 20_000_000,
        d < 13_000_000 ==> ui::until(d) == 33_000_000,
        d > 180_000_000 ==> ui::until(d) == 200_000_000,
{
}

/// The highlight moves only while timed lyrics are shown and followed, and the song plays.
pub proof fn a_highlight_moves_with_the_song(v: AppView, a: AudioView)
    ensures
        ui::highlight_moves(v, a) == (v.lyrics_mode && v.following && !a.paused && !a.loading
            && ui::current_lyrics(v) is Some && ui::current_lyrics(v)->0.kind is Synced),
{
}

/// A saved queue waits while it must, is dropped where it is lost, and once it is there is
/// the queue, at its position, with its playlist selected; nothing plays by itself.
pub proof fn a_saved_queue_is_taken_up_once(v: AppView)
    requires
        v.pending is Some,
    ensures
        ({
            let saved = v.pending->0;
            let r = persistence::restored(
                v.library,
                persistence::entry_views(saved.entries@),
                saved.position,
            );
            let w = ui::queue_restored(v);
            &&& r is Pending ==> w == v
            &&& r is Abandoned ==> w == (AppView { pending: None, ..v })
            &&& (r matches RestoreView::Ready { queue, position } ==> ({
                &&& w.pending is None
                &&& w.player == player::restoring(v.player, v.library, queue, position)
                &&& w.queue_row == position
                &&& position is Some && position->0 < queue.len() ==> w.list == Some(
                    queue[position->0 as int].0,
                )
            }))
        }),
        ui::queue_restored(AppView { pending: None, ..v }) == (AppView { pending: None, ..v }),
{
}

/// At the start the first playlist is selected, nothing plays, and the volume is the saved
/// one, at most a hundred.
pub proof fn a_start_is_silent(
    es: Seq<PlaylistEntry>,
    saved: Option<persistence::QueueState>,
    volume: u8,
    overrides: Map<Seq<char>, u64>,
    config: crate::config::Config,
)
    ensures
        ({
            let v = ui::started(es, saved, volume, overrides, config);
            &&& es.len() > 0 ==> v.list == Some(0usize)
            &&& es.len() == 0 ==> v.list is None
            &&& v.player.playing is None && v.player.queue.len() == 0 && !v.player.started
            &&& v.player.mode == PlayMode::Cycle
            &&& volume <= 100 ==> v.player.volume == volume
            &&& volume > 100 ==> v.player.volume == 100
            &&& v.player.sent.last() == CmdView::Volume(v.player.volume)
            &&& v.panel == Panel::Playlists && !v.lyrics_mode && !v.show_queue && v.following
            &&& v.overrides == overrides && v.pending == saved && v.library == es
        }),
{
}

/// The next boundary is the time until the first line that has not begun.
pub proof fn a_boundary_is_a_lines_start(lines: Seq<lrc::LyricLine>, t: int, i: int)
    requires
        0 <= i < lines.len(),
        lines[i].at > t,
        forall|j: int| 0 <= j < i ==> (#[trigger] lines[j]).at <= t,
    ensures
        ui::is_boundary(lines, t, lines[i].at - t),
        !ui::is_boundary(lines, t, 0),
{
    assert(lines[i].at == t + (lines[i].at - t));
}

} // verus!
