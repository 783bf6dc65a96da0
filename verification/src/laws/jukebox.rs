//! The jukebox: what plays, what each key does, and what is shown.

use vstd::prelude::*;

use crate::cells;
use crate::filter;
use crate::jukebox;
use crate::jukebox::{JukeView, Listing, SavedQueue, Song};
use crate::jukebox_screen;
use crate::panel;
use crate::panel::{Role, SpanView};
use crate::playback::{AudioView, CmdView};
use crate::player::PlayMode;
use crate::screen::BodyView;
use crate::seqs;
use crate::text;
use crate::title;
use crate::ui::{Key, Panel, Scroll};

verus! {

// ── playing ──────────────────────────────────────────────────────────────────

/// Whether a playlist has a song at this place.
pub open spec fn there(v: JukeView, list: int, song: int) -> bool {
    0 <= list < v.lists.len() && 0 <= song < v.lists[list].songs@.len()
}

/// The video of the song at a place, empty where there is none.
pub open spec fn video(v: JukeView, list: int, song: int) -> Seq<char> {
    if there(v, list, song) && v.lists[list].songs@[song].video_id is Some {
        v.lists[list].songs@[song].video_id->0@
    } else {
        Seq::empty()
    }
}

/// What is asked ahead of time while the queue stands at its position: the entry behind
/// it, and the first behind the last.
pub open spec fn ahead(v: JukeView) -> Seq<CmdView> {
    if v.pos is None || v.queue_list is None || v.queue.len() == 0 {
        Seq::empty()
    } else {
        let next = if v.pos->0 + 1 < v.queue.len() {
            v.queue[v.pos->0 + 1]
        } else {
            v.queue[0]
        };
        let id = video(v, v.queue_list->0 as int, next as int);
        if id.len() > 0 {
            seq![CmdView::Prefetch(id)]
        } else {
            Seq::empty()
        }
    }
}

/// Playing a song asks for its video at the current volume, looks the next entry up ahead
/// of time, and leaves queue, position, mode and volume as they are. A song that is not
/// there changes nothing; one without a video counts as playing, and nothing is asked for
/// it.
pub proof fn playing_asks_for_the_song(v: JukeView, list: usize, song: usize)
    requires
        v.wf(),
    ensures
        !there(v, list as int, song as int) ==> jukebox::playing(v, list, song) == v,
        there(v, list as int, song as int) ==> jukebox::playing(v, list, song) == (JukeView {
            playing_list: Some(list),
            playing_song: Some(song),
            started: true,
            sent: v.sent + (if video(v, list as int, song as int).len() > 0 {
                seq![
                    CmdView::Play(video(v, list as int, song as int)),
                    CmdView::Volume(v.volume),
                ]
            } else {
                Seq::empty()
            }) + ahead(v),
            ..v
        }),
{
    let n = v.queue.len() as int;
    match v.pos {
        Some(q) => {
            if q + 1 < n {
                vstd::arithmetic::div_mod::lemma_small_mod((q + 1) as nat, n as nat);
            } else {
                assert(q + 1 == n);
                vstd::arithmetic::div_mod::lemma_mod_self_0(n);
            }
        },
        None => {},
    }
    if there(v, list as int, song as int) {
        let r = jukebox::playing(v, list, song);
        assert(r.sent =~= v.sent + (if video(v, list as int, song as int).len() > 0 {
            seq![CmdView::Play(video(v, list as int, song as int)), CmdView::Volume(v.volume)]
        } else {
            Seq::empty()
        }) + ahead(v));
    }
}

/// The next entry is the one behind the current one, and the first behind the last; the
/// previous one is the one before it, and the last before the first. Without a position the
/// first entry plays, and without a queue nothing does.
pub proof fn steps_go_one_entry(v: JukeView)
    requires
        v.wf(),
        v.queue.len() <= usize::MAX,
    ensures
        v.queue.len() == 0 || v.queue_list is None ==> jukebox::stepped(v, 1) == v
            && jukebox::stepped(v, -1) == v,
        v.queue.len() > 0 && v.queue_list is Some ==> ({
            let n = v.queue.len();
            let list = v.queue_list->0;
            let next = jukebox::stepped(v, 1);
            let prev = jukebox::stepped(v, -1);
            &&& next.queue == v.queue && prev.queue == v.queue
            &&& next.pos == match v.pos {
                None => Some(0usize),
                Some(q) => if q + 1 < n {
                    Some((q + 1) as usize)
                } else {
                    Some(0usize)
                },
            }
            &&& prev.pos == match v.pos {
                None => Some(0usize),
                Some(q) => if q > 0 {
                    Some((q - 1) as usize)
                } else {
                    Some((n - 1) as usize)
                },
            }
            &&& there(v, list as int, v.queue[next.pos->0 as int] as int) ==> next.playing_list
                == Some(list) && next.playing_song == Some(v.queue[next.pos->0 as int])
                && next.started
            &&& there(v, list as int, v.queue[prev.pos->0 as int] as int) ==> prev.playing_list
                == Some(list) && prev.playing_song == Some(v.queue[prev.pos->0 as int])
                && prev.started
            &&& v.show_queue ==> next.queue_row == next.pos && prev.queue_row == prev.pos
        }),
{
    let n = v.queue.len() as int;
    if n > 0 {
        match v.pos {
            Some(q) => {
                if q + 1 < n {
                    vstd::arithmetic::div_mod::lemma_small_mod((q + 1) as nat, n as nat);
                } else {
                    vstd::arithmetic::div_mod::lemma_mod_self_0(n);
                }
                if q > 0 {
                    vstd::arithmetic::div_mod::lemma_small_mod((q - 1) as nat, n as nat);
                } else {
                    vstd::arithmetic::div_mod::lemma_mod_add_multiples_vanish(-1, n);
                    vstd::arithmetic::div_mod::lemma_small_mod((n - 1) as nat, n as nat);
                }
            },
            None => {},
        }
    }
}

proof fn lemma_place(queue: Seq<usize>, song: usize)
    requires
        queue.len() <= usize::MAX,
    ensures
        queue.contains(song) ==> (jukebox::place_of(queue, song) matches Some(p) && p < queue.len()
            && queue[p as int] == song && forall|j: int| 0 <= j < p ==> queue[j] != song),
        !queue.contains(song) ==> jukebox::place_of(queue, song) is None,
{
    let f = jukebox::is_song(song);
    seqs::lemma_first_where(queue, f, 0);
    if queue.contains(song) {
        let i = choose|i: int| 0 <= i < queue.len() && queue[i] == song;
        assert(f(queue[i]));
        let g = seqs::first_where(queue, f, 0)->0;
        assert(f(queue[g]));
        assert forall|j: int| 0 <= j < g implies queue[j] != song by {
            assert(!f(queue[j]));
        }
    } else {
        match seqs::first_where(queue, f, 0) {
            Some(g) => {
                assert(f(queue[g]));
            },
            None => {},
        }
    }
}

/// A song that is started makes its playlist's songs the queue, in the order given, and the
/// position is its place there.
pub proof fn a_new_queue_starts_at_its_song(
    v: JukeView,
    list: usize,
    song: usize,
    order: Seq<usize>,
)
    requires
        order.contains(song),
        order.len() <= usize::MAX,
        there(v, list as int, song as int),
    ensures
        ({
            let w = jukebox::opened(v, list, song, order);
            &&& w.queue == order && w.queue_list == Some(list)
            &&& (w.pos matches Some(p) && p < order.len() && order[p as int] == song && forall|
                j: int,
            |
                0 <= j < p ==> order[j] != song)
            &&& w.playing_list == Some(list) && w.playing_song == Some(song) && w.started
            &&& w.volume == v.volume && w.mode == v.mode && w.filter == v.filter
        }),
        forall|n: nat, i: int|
            n <= usize::MAX && 0 <= i < n ==> #[trigger] jukebox::in_order(n)[i] == i,
{
    lemma_place(order, song);
}

/// A song that ended is played again in single mode, and else followed by the next entry.
pub proof fn an_ended_song_is_followed(v: JukeView)
    ensures
        v.mode != PlayMode::Single ==> jukebox::ended(v) == jukebox::stepped(v, 1),
        v.mode == PlayMode::Single && v.playing_list is Some && v.playing_song is Some
            ==> jukebox::ended(v) == jukebox::playing(v, v.playing_list->0, v.playing_song->0),
        v.mode == PlayMode::Single && (v.playing_list is None || v.playing_song is None)
            ==> jukebox::ended(v) == v,
{
}

/// The mode goes from cycle to single, to shuffle and back. Shuffle takes the order given,
/// leaving it sorts the queue, and the position stays on the song that plays.
pub proof fn a_new_mode_reorders_the_queue(v: JukeView, order: Seq<usize>)
    requires
        order.len() <= usize::MAX,
        v.queue.len() <= usize::MAX,
    ensures
        ({
            let w = jukebox::switched(v, order);
            &&& v.mode == PlayMode::Cycle ==> w.mode == PlayMode::Single && w.queue == v.queue
            &&& v.mode == PlayMode::Single ==> w.mode == PlayMode::Shuffle && w.queue == order
            &&& v.mode == PlayMode::Shuffle ==> w.mode == PlayMode::Cycle && w.queue.to_multiset()
                == v.queue.to_multiset() && forall|i: int, j: int|
                0 <= i < j < w.queue.len() ==> w.queue[i] <= w.queue[j]
            &&& v.playing_song is None ==> w.pos == v.pos
            &&& (v.playing_song matches Some(s) ==> w.queue.contains(s) ==> (w.pos matches Some(p)
                && p < w.queue.len() && w.queue[p as int] == s))
            &&& w.sent == v.sent && w.playing_song == v.playing_song
        }),
{
    let le = seqs::order::<usize>();
    assert(seqs::total(le));
    seqs::lemma_sorted_in_order(v.queue, le);
    seqs::lemma_sorted_permutes(v.queue, le);
    let sorted = seqs::sorted(v.queue, le);
    assert forall|i: int, j: int| 0 <= i < j < sorted.len() implies sorted[i] <= sorted[j] by {
        assert(le(sorted[i], sorted[j]));
    }
    let w = jukebox::switched(v, order);
    match v.playing_song {
        Some(s) => {
            lemma_place(w.queue, s);
        },
        None => {},
    }
}

/// An appended song goes to the end of its playlist's queue; where nothing plays it plays,
/// else it waits, and either way it is named.
pub proof fn an_appended_song_waits_or_plays(v: JukeView, list: usize, song: usize, now: u64)
    requires
        v.wf(),
        v.queue.len() < usize::MAX,
        there(v, list as int, song as int),
    ensures
        ({
            let w = jukebox::appended(v, list, song, now);
            let name = jukebox::title_or(v, list as int, song as int, "song"@);
            &&& v.queue_list == Some(list) ==> w.queue == v.queue.push(song)
            &&& v.queue_list != Some(list) ==> w.queue == seq![song]
            &&& w.queue_list == Some(list)
            &&& v.playing_song is None ==> w.playing_song == Some(song) && w.playing_list == Some(
                list,
            ) && w.pos == Some((w.queue.len() - 1) as usize) && w.notification == Some(
                ("Playing: "@ + name, now),
            )
            &&& v.playing_song is Some ==> w.playing_song == v.playing_song && w.sent == v.sent
                && w.notification == Some(
                ("+ queue #"@ + text::decimal(w.queue.len()) + ": "@ + name, now),
            )
            &&& v.playing_song is Some && v.queue_list == Some(list) ==> w.pos == v.pos
        }),
{
    assert(Seq::<usize>::empty().push(song) =~= seq![song]);
}

/// When the playing entry leaves, the one behind it plays in its place, or the new last one
/// where it was the last; without any, playback stops. Another entry leaves quietly: the
/// position stays on its song.
pub proof fn the_following_entry_moves_up(v: JukeView, q: usize, now: u64)
    requires
        v.wf(),
        q < v.queue.len() <= usize::MAX,
    ensures
        ({
            let w = jukebox::entry_removed(v, q, now);
            let n = v.queue.len() - 1;
            let list = v.queue_list;
            &&& w.queue == v.queue.take(q as int) + v.queue.skip(q + 1)
            &&& v.pos == Some(q) && n > 0 && q < n ==> w.pos == Some(q)
            &&& v.pos == Some(q) && n > 0 && q == n ==> w.pos == Some((n - 1) as usize)
            &&& v.pos == Some(q) && n > 0 && q < n && list is Some && there(
                v,
                list->0 as int,
                v.queue[q + 1] as int,
            ) ==> w.playing_song == Some(v.queue[q + 1]) && w.playing_list == list
            &&& v.pos == Some(q) && n > 0 && q == n && list is Some && there(
                v,
                list->0 as int,
                v.queue[q - 1] as int,
            ) ==> w.playing_song == Some(v.queue[q - 1]) && w.playing_list == list
            &&& v.pos == Some(q) && n == 0 ==> w.playing_song is None && w.playing_list is None
                && w.pos is None && w.sent == v.sent.push(CmdView::Stop)
            &&& v.pos != Some(q) ==> w.sent == v.sent && w.playing_song == v.playing_song
                && w.notification == v.notification
            &&& (v.pos matches Some(p) ==> p < q ==> w.pos == Some(p))
            &&& (v.pos matches Some(p) ==> p > q ==> w.pos == Some((p - 1) as usize))
            &&& n == 0 ==> w.queue_row is None
            &&& n > 0 && q < n ==> w.queue_row == Some(q)
            &&& n > 0 && q == n ==> w.queue_row == Some((n - 1) as usize)
        }),
{
    let queue = v.queue.remove(q as int);
    assert(queue =~= v.queue.take(q as int) + v.queue.skip(q + 1));
    assert(queue.len() == v.queue.len() - 1);
}

// ── keys ─────────────────────────────────────────────────────────────────────

/// The arrows seek five seconds and change the volume by five percent within bounds, the
/// space key pauses and resumes or starts what came back, and `m` mutes and brings the
/// sound back.
pub proof fn playback_keys_do_what_they_say(
    v: JukeView,
    a: AudioView,
    now: u64,
    order: Seq<usize>,
)
    requires
        !v.filter_mode,
        v.volume <= 100,
    ensures
        jukebox::pressed(v, Key::Left, a, now, order) == (
            JukeView { sent: v.sent.push(CmdView::Seek(-5_000_000_000)), ..v },
            false,
        ),
        jukebox::pressed(v, Key::Right, a, now, order) == (
            JukeView { sent: v.sent.push(CmdView::Seek(5_000_000_000)), ..v },
            false,
        ),
        ({
            let w = jukebox::pressed(v, Key::Up, a, now, order).0;
            &&& v.volume <= 95 ==> w.volume == v.volume + 5
            &&& v.volume > 95 ==> w.volume == 100
            &&& !w.muted && w.sent == v.sent.push(CmdView::Volume(w.volume))
        }),
        ({
            let w = jukebox::pressed(v, Key::Down, a, now, order).0;
            &&& v.volume >= 5 ==> w.volume == v.volume - 5
            &&& v.volume < 5 ==> w.volume == 0
            &&& !w.muted && w.sent == v.sent.push(CmdView::Volume(w.volume))
        }),
        ({
            let w = jukebox::pressed(v, Key::Char(' '), a, now, order).0;
            let on = v.playing_list is Some && v.playing_song is Some;
            &&& !on ==> w == v
            &&& on && !v.started ==> w == jukebox::playing(
                v,
                v.playing_list->0,
                v.playing_song->0,
            )
            &&& on && v.started && a.loading ==> w == v
            &&& on && v.started && !a.loading && a.paused ==> w == (JukeView {
                sent: v.sent.push(CmdView::Resume),
                ..v
            })
            &&& on && v.started && !a.loading && !a.paused ==> w == (JukeView {
                sent: v.sent.push(CmdView::Pause),
                ..v
            })
        }),
        ({
            let w = jukebox::pressed(v, Key::Char('m'), a, now, order).0;
            &&& v.muted ==> !w.muted && w.volume == v.pre_mute
            &&& !v.muted ==> w.muted && w.volume == 0 && w.pre_mute == v.volume
            &&& w.sent == v.sent.push(CmdView::Volume(w.volume))
        }),
        jukebox::pressed(v, Key::Char('n'), a, now, order) == (jukebox::stepped(v, 1), false),
        jukebox::pressed(v, Key::Char('p'), a, now, order) == (jukebox::stepped(v, -1), false),
        jukebox::pressed(v, Key::Char('t'), a, now, order) == (jukebox::switched(v, order), false),
{
}

/// The keys `j` and `k` move the cursor of the focused panel; another playlist is shown
/// without a query, from its first song. The wheel moves what it is over.
pub proof fn cursors_move_row_by_row(
    v: JukeView,
    a: AudioView,
    now: u64,
    order: Seq<usize>,
    x: u16,
    y: u16,
)
    requires
        !v.filter_mode,
    ensures
        ({
            let j = jukebox::pressed(v, Key::Char('j'), a, now, order).0;
            let k = jukebox::pressed(v, Key::Char('k'), a, now, order).0;
            let lists = v.panel == Panel::Playlists;
            &&& lists ==> j.list == panel::row_below(v.list) && k.list == panel::row_above(v.list)
                && j.filter.len() == 0 && j.songs == Some(0usize)
            &&& !lists ==> j.list == v.list && k.list == v.list && j.filter == v.filter
            &&& !lists && v.show_queue ==> j.queue_row == panel::row_below(v.queue_row)
                && k.queue_row == panel::row_above(v.queue_row) && j.songs == v.songs
            &&& !lists && !v.show_queue ==> j.songs == panel::row_below(v.songs) && k.songs
                == panel::row_above(v.songs) && j.queue_row == v.queue_row
        }),
        ({
            let w = jukebox::wheeled(v, Scroll::Down, x, y);
            let u = jukebox::wheeled(v, Scroll::Up, x, y);
            let left = panel::inside(v.playlists_area, x, y);
            let right = panel::inside(v.songs_area, x, y);
            &&& left ==> w.list == panel::row_below(v.list) && u.list == panel::row_above(v.list)
                && w.songs is None && w.filter.len() == 0
            &&& !left ==> w.list == v.list && u.list == v.list
            &&& !left && !right ==> w == v && u == v
            &&& !left && right && v.show_queue ==> w.queue_row == panel::row_below(v.queue_row)
                && u.queue_row == panel::row_above(v.queue_row)
            &&& !left && right && !v.show_queue ==> w.songs == panel::row_below(v.songs) && u.songs
                == panel::row_above(v.songs)
        }),
{
}

/// The song under the cursor and the one below it are looked up ahead of time.
pub proof fn two_songs_are_looked_up_ahead(v: JukeView, list: usize, row: usize)
    requires
        v.list == Some(list),
        v.songs == Some(row),
        row + 1 < jukebox::songs_shown(v, list).len(),
    ensures
        ({
            let shown = jukebox::songs_shown(v, list);
            let x = video(v, list as int, shown[row as int] as int);
            let y = video(v, list as int, shown[row + 1] as int);
            let w = jukebox::warmed(v);
            &&& w == (JukeView { sent: w.sent, ..v })
            &&& x.len() > 0 && y.len() > 0 ==> w.sent == v.sent.push(CmdView::Prefetch(x)).push(
                CmdView::Prefetch(y),
            )
            &&& x.len() == 0 && y.len() > 0 ==> w.sent == v.sent.push(CmdView::Prefetch(y))
            &&& x.len() == 0 && y.len() == 0 ==> w == v
        }),
{
}

/// The letters lead about: `h` to the playlists, `l` to the songs, `/` to a query, `o` to
/// the queue and back; `a` appends, `d` removes, and enter opens or plays.
pub proof fn letters_do_what_they_say(v: JukeView, a: AudioView, now: u64, order: Seq<usize>)
    requires
        !v.filter_mode,
    ensures
        ({
            let h = jukebox::pressed(v, Key::Char('h'), a, now, order).0;
            let l = jukebox::pressed(v, Key::Char('l'), a, now, order).0;
            let q = jukebox::pressed(v, Key::Char('/'), a, now, order).0;
            let o = jukebox::pressed(v, Key::Char('o'), a, now, order).0;
            &&& h.panel == Panel::Playlists && h.filter.len() == 0 && h.sent == v.sent
            &&& l.panel == Panel::Songs && l.songs is Some && l.filter == v.filter
            &&& v.panel == Panel::Songs ==> q == (JukeView { filter_mode: true, ..v })
            &&& v.panel == Panel::Playlists ==> q == v
            &&& o.show_queue == !v.show_queue && o.filter.len() == 0 && o.queue == v.queue
            &&& o.show_queue ==> o.queue_row == v.pos
        }),
        ({
            let w = jukebox::pressed(v, Key::Char('a'), a, now, order).0;
            let d = jukebox::pressed(v, Key::Char('d'), a, now, order).0;
            &&& v.panel == Panel::Playlists ==> w == v && d == v
            &&& v.show_queue ==> w == v
            &&& !v.show_queue ==> d == v
            &&& v.panel == Panel::Songs && !v.show_queue ==> (jukebox::chosen_song(v) matches Some(
                t,
            ) ==> w == jukebox::appended(v, t.0, t.1, now))
            &&& v.panel == Panel::Songs && v.show_queue ==> (jukebox::chosen_entry(v) matches Some(
                q,
            ) ==> d == jukebox::entry_removed(v, q, now))
        }),
        ({
            let w = jukebox::pressed(v, Key::Enter, a, now, order).0;
            &&& v.panel == Panel::Playlists ==> w.panel == Panel::Songs && w.songs == Some(0usize)
                && w.filter.len() == 0 && w.list == v.list && w.playing_song == v.playing_song
            &&& v.panel == Panel::Songs && v.show_queue ==> (jukebox::chosen_entry(v) matches Some(
                q,
            ) ==> w.pos == Some(q) && (v.queue_list matches Some(list) ==> there(
                v,
                list as int,
                v.queue[q as int] as int,
            ) ==> w.playing_song == Some(v.queue[q as int]) && w.playing_list == Some(list)))
            &&& v.panel == Panel::Songs && !v.show_queue ==> (jukebox::chosen_song(v) matches Some(
                t,
            ) ==> w == jukebox::opened(v, t.0, t.1, order))
        }),
{
}

/// A song that is started brings every song of its playlist into the queue, in order unless
/// the mode is shuffle; a change of mode keeps the queue's songs.
pub proof fn a_queue_takes_every_song(v: JukeView, order: Seq<usize>, list: usize, i: int)
    requires
        v.list == Some(list),
        list < v.lists.len(),
        0 <= i < v.lists[list as int].songs@.len() <= usize::MAX,
    ensures
        jukebox::order_fits(v, Key::Enter, order) ==> order.contains(i as usize) && order.len()
            == v.lists[list as int].songs@.len(),
        jukebox::order_fits(v, Key::Enter, order) && v.mode != PlayMode::Shuffle ==> order[i] == i,
        jukebox::order_fits(v, Key::Char('t'), order) ==> order.to_multiset()
            == v.queue.to_multiset(),
{
    broadcast use vstd::seq_lib::group_to_multiset_ensures;

    let all = jukebox::in_order(v.lists[list as int].songs@.len());
    assert(all[i] == i as usize);
    assert(all.contains(i as usize));
    if jukebox::order_fits(v, Key::Enter, order) {
        assert(all.to_multiset().count(i as usize) > 0);
        assert(order.to_multiset().count(i as usize) > 0);
        assert(order.len() == order.to_multiset().len());
        assert(all.len() == all.to_multiset().len());
    }
}

/// What is under the cursor is the item that its row shows, and nothing where there is no
/// such row.
pub proof fn a_cursor_points_at_its_row(v: JukeView, list: usize, row: usize)
    ensures
        v.list == Some(list) && v.songs == Some(row) && row < jukebox::songs_shown(v, list).len()
            ==> jukebox::chosen_song(v) == Some((list, jukebox::songs_shown(v, list)[row as int])),
        v.list == Some(list) && v.songs == Some(row) && row >= jukebox::songs_shown(v, list).len()
            ==> jukebox::chosen_song(v) is None,
        v.queue_row == Some(row) && row < jukebox::entries_shown(v).len() ==> jukebox::chosen_entry(
            v,
        ) == Some(jukebox::entries_shown(v)[row as int]),
        v.queue_row == Some(row) && row >= jukebox::entries_shown(v).len()
            ==> jukebox::chosen_entry(v) is None,
{
}

/// While a query is typed every character goes into it; enter keeps it, escape clears it,
/// and no key quits.
pub proof fn a_query_takes_every_key(
    v: JukeView,
    key: Key,
    c: char,
    a: AudioView,
    now: u64,
    order: Seq<usize>,
)
    requires
        v.filter_mode,
    ensures
        !jukebox::pressed(v, key, a, now, order).1,
        jukebox::pressed(v, Key::Char(c), a, now, order).0 == (JukeView {
            filter: v.filter.push(c),
            songs: Some(0usize),
            queue_row: Some(0usize),
            ..v
        }),
        v.filter.len() > 0 ==> jukebox::pressed(v, Key::Backspace, a, now, order).0.filter
            == v.filter.drop_last(),
        jukebox::pressed(v, Key::Enter, a, now, order).0 == (JukeView { filter_mode: false, ..v }),
        ({
            let w = jukebox::pressed(v, Key::Esc, a, now, order).0;
            w.filter.len() == 0 && !w.filter_mode && w.songs == Some(0usize)
        }),
{
}

/// Escape clears a query, goes to the playlists, and from there quits; `q` always quits,
/// and `r` asks for a new session where there is no playlist.
pub proof fn escape_goes_back_step_by_step(
    v: JukeView,
    a: AudioView,
    now: u64,
    order: Seq<usize>,
)
    requires
        !v.filter_mode,
    ensures
        ({
            let (w, quits) = jukebox::pressed(v, Key::Esc, a, now, order);
            &&& v.panel == Panel::Playlists ==> quits && w == v
            &&& v.panel == Panel::Songs && v.filter.len() > 0 ==> !quits && w.filter.len() == 0
                && w.panel == v.panel
            &&& v.panel == Panel::Songs && v.filter.len() == 0 ==> !quits && w == (JukeView {
                panel: Panel::Playlists,
                ..v
            })
        }),
        jukebox::pressed(v, Key::Char('q'), a, now, order) == (v, true),
        v.lists.len() == 0 ==> jukebox::pressed(v, Key::Char('r'), a, now, order) == (
            JukeView { reauth: true, ..v },
            true,
        ),
        v.lists.len() > 0 ==> jukebox::pressed(v, Key::Char('r'), a, now, order) == (v, false),
{
}

/// What was said goes after two seconds.
pub proof fn what_was_said_goes_after_two_seconds(v: JukeView, said: Seq<char>, then: u64, now: u64)
    requires
        v.notification == Some((said, then)),
        then <= now,
    ensures
        now - then >= 2000 ==> jukebox::expired(v, now) == (JukeView { notification: None, ..v }),
        now - then < 2000 ==> jukebox::expired(v, now) == v,
{
}

// ── a saved queue ────────────────────────────────────────────────────────────

/// A queue's videos are saved in its order, songs without one left out, and the place of a
/// song is how many videos stand before it.
pub proof fn videos_are_saved_in_order(
    songs: Seq<Song>,
    front: Seq<usize>,
    i: usize,
    back: Seq<usize>,
)
    requires
        i < songs.len(),
        front.len() + back.len() < usize::MAX,
    ensures
        ({
            let queue = front.push(i) + back;
            let all = jukebox::videos_of(songs, queue);
            let before = jukebox::videos_of(songs, front);
            let after = jukebox::videos_of(songs, back);
            let place = jukebox::video_position(songs, queue, Some(front.len() as usize));
            &&& songs[i as int].video_id is None ==> all == before + after && place is None
            &&& (songs[i as int].video_id matches Some(x) ==> all == before.push(x@) + after
                && place == Some(before.len() as usize))
        }),
{
    let queue = front.push(i) + back;
    let n = front.len() as int;
    assert(queue.take(n) =~= front);
    assert(queue[n] == i);
    lemma_videos_parts(songs, front.push(i), back);
    assert(front.push(i).drop_last() =~= front);
}

proof fn lemma_videos_parts(songs: Seq<Song>, a: Seq<usize>, b: Seq<usize>)
    ensures
        jukebox::videos_of(songs, a + b) == jukebox::videos_of(songs, a) + jukebox::videos_of(
            songs,
            b,
        ),
    decreases b.len(),
{
    if b.len() > 0 {
        lemma_videos_parts(songs, a, b.drop_last());
        assert((a + b).drop_last() =~= a + b.drop_last());
        assert((a + b).last() == b.last());
        assert(jukebox::videos_of(songs, a + b) =~= jukebox::videos_of(songs, a)
            + jukebox::videos_of(songs, b));
    } else {
        assert(a + b =~= a);
        assert(jukebox::videos_of(songs, a) + jukebox::videos_of(songs, b) =~= jukebox::videos_of(
            songs,
            a,
        ));
    }
}

/// A saved video is found at the first song that has it, in order; one that is gone is left
/// out.
pub proof fn videos_are_found_in_order(songs: Seq<Song>, videos: Seq<Seq<char>>, x: Seq<char>)
    requires
        songs.len() <= usize::MAX,
    ensures
        ({
            let before = jukebox::found_places(songs, videos);
            let after = jukebox::found_places(songs, videos.push(x));
            let present = exists|i: int|
                0 <= i < songs.len() && text::opt((#[trigger] songs[i]).video_id) == Some(x);
            &&& !present ==> after == before
            &&& present ==> after.len() == before.len() + 1 && after.drop_last() == before
                && after.last() < songs.len() && text::opt(songs[after.last() as int].video_id)
                == Some(x)
        }),
{
    assert(videos.push(x).drop_last() =~= videos);
    let p = jukebox::has_video(x);
    seqs::lemma_first_where(songs, p, 0);
    if exists|i: int| 0 <= i < songs.len() && text::opt((#[trigger] songs[i]).video_id) == Some(x) {
        let i = choose|i: int|
            0 <= i < songs.len() && text::opt((#[trigger] songs[i]).video_id) == Some(x);
        assert(p(songs[i]));
    }
    match seqs::first_where(songs, p, 0) {
        Some(i) => {
            assert(p(songs[i]));
            let before = jukebox::found_places(songs, videos);
            assert(before.push(i as usize).drop_last() =~= before);
        },
        None => {},
    }
}

/// A saved queue comes back when its own playlist arrives, and waits for that; it is shown
/// but does not play, and its song is looked up. A queue of which no song is left, or whose
/// playlist is not known, is dropped.
pub proof fn a_saved_queue_waits_for_its_playlist(
    v: JukeView,
    saved: SavedQueue,
    list: int,
    arrived: usize,
)
    requires
        v.pending == Some(saved),
        v.lists.len() <= usize::MAX,
        saved.playlist_id is Some,
        0 <= list < v.lists.len(),
        text::opt(v.lists[list].playlist_id) == Some(saved.playlist_id->0@),
        forall|j: int|
            0 <= j < list ==> text::opt((#[trigger] v.lists[j]).playlist_id) != Some(
                saved.playlist_id->0@,
            ),
    ensures
        ({
            let w = jukebox::queue_restored(v, arrived);
            let queue = jukebox::found_places(
                jukebox::songs_at(v, list),
                text::texts(saved.video_ids@),
            );
            &&& list != arrived ==> w == v
            &&& list == arrived && queue.len() == 0 ==> w == (JukeView { pending: None, ..v })
            &&& list == arrived && queue.len() > 0 ==> w.pending is None && w.queue == queue
                && w.queue_list == Some(arrived)
            &&& list == arrived && queue.len() > 0 ==> (saved.position matches Some(p) ==> p
                < queue.len() ==> w.pos == Some(p) && w.queue_row == Some(p) && w.playing_song
                == Some(queue[p as int]) && w.playing_list == Some(arrived) && !w.started && w.list
                == Some(arrived))
            &&& list == arrived && queue.len() > 0 ==> (saved.position matches Some(p) ==> p
                >= queue.len() ==> w.pos is None && w.playing_song == v.playing_song && w.sent
                == v.sent)
            &&& list == arrived && queue.len() > 0 && saved.position is None ==> w.pos is None
                && w.sent == v.sent
        }),
{
    let p = jukebox::has_list_id(saved.playlist_id->0@);
    seqs::lemma_first_where(v.lists, p, 0);
    assert(p(v.lists[list]));
    let f = seqs::first_where(v.lists, p, 0)->0;
    assert(p(v.lists[f]));
    if f < list {
        assert(text::opt(v.lists[f].playlist_id) != Some(saved.playlist_id->0@));
    }
}

/// The songs of two lists together take as long as both.
pub proof fn seconds_add_up(a: Seq<Song>, b: Seq<Song>, s: Song)
    ensures
        jukebox::seconds_sum(a + b) == jukebox::seconds_sum(a) + jukebox::seconds_sum(b),
        jukebox::seconds_sum(seq![s]) == match s.duration_seconds {
            Some(n) => n as int,
            None => 0,
        },
    decreases b.len(),
{
    assert(seq![s].drop_last() =~= Seq::empty());
    reveal_with_fuel(jukebox::seconds_sum, 2);
    if b.len() > 0 {
        seconds_add_up(a, b.drop_last(), s);
        assert((a + b).drop_last() =~= a + b.drop_last());
        assert((a + b).last() == b.last());
    } else {
        assert(a + b =~= a);
    }
}

/// The songs that match are shown, in their order, and no others; without a query every song
/// is. Of a queue likewise.
pub proof fn a_filter_shows_what_matches(v: JukeView, list: usize, k: int, i: int, j: int)
    requires
        list < v.lists.len(),
        0 <= k < v.lists[list as int].songs@.len() <= usize::MAX,
        v.queue.len() <= usize::MAX,
    ensures
        ({
            let shown = jukebox::songs_shown(v, list);
            let s = v.lists[list as int].songs@[k];
            let q = title::lowercase(v.filter);
            &&& shown.contains(k as usize) == (v.filter.len() == 0 || jukebox::song_matches(s, q))
            &&& 0 <= i < j < shown.len() ==> shown[i] < shown[j]
            &&& v.filter.len() == 0 && 0 <= j < v.queue.len() ==> jukebox::entries_shown(
                v,
            ).contains(j as usize)
            &&& v.filter.len() > 0 && v.queue_list == Some(list) && 0 <= j < v.queue.len()
                && v.queue[j] == k ==> jukebox::entries_shown(v).contains(j as usize)
                == jukebox::song_matches(s, q)
        }),
{
    let n = v.lists[list as int].songs@.len();
    let q = title::lowercase(v.filter);
    let shown = jukebox::songs_shown(v, list);
    let p = jukebox::matches_at(v.lists[list as int].songs@, q);
    let e = filter::everything();
    let r = if v.filter.len() == 0 {
        e
    } else {
        p
    };
    assert(shown == filter::picked(n, r));
    if r(k) {
        filter::nothing_is_passed_over(n, r, k);
    }
    if shown.contains(k as usize) {
        let x = choose|x: int| 0 <= x < shown.len() && shown[x] == k as usize;
        filter::picked_below(n, r, x);
    }
    if 0 <= i < j < shown.len() {
        filter::picked_in_order(n, r, i, j);
    }
    if 0 <= j < v.queue.len() {
        if v.filter.len() == 0 {
            filter::nothing_is_passed_over(v.queue.len(), e, j);
        } else if v.queue_list == Some(list) && v.queue[j] == k {
            let f = jukebox::entry_matches(v, list, q);
            let entries = jukebox::entries_shown(v);
            if f(j) {
                filter::nothing_is_passed_over(v.queue.len(), f, j);
            }
            if entries.contains(j as usize) {
                let x = choose|x: int| 0 <= x < entries.len() && entries[x] == j as usize;
                filter::picked_below(v.queue.len(), f, x);
            }
        }
    }
}

/// A song matches a query that its title holds, or one of its artists does, whatever the
/// case of the letters.
pub proof fn a_song_matches_what_it_holds(s: Song, t: String, query: Seq<char>, at: int)
    requires
        s.title == Some(t),
    ensures
        text::occurs(title::lowercase(t@), query, at) ==> jukebox::song_matches(s, query),
        text::occurs(title::lowercase(text::joined(text::texts(s.artists@), " "@)), query, at)
            ==> jukebox::song_matches(s, query),
        jukebox::song_matches(s, query) ==> (exists|i: int|
            #[trigger] text::occurs(title::lowercase(t@), query, i)) || (exists|i: int|
            #[trigger] text::occurs(
                title::lowercase(text::joined(text::texts(s.artists@), " "@)),
                query,
                i,
            )),
{
    text::lemma_find_from(title::lowercase(t@), query, 0);
    text::lemma_find_from(
        title::lowercase(text::joined(text::texts(s.artists@), " "@)),
        query,
        0,
    );
}

// ── what is shown ────────────────────────────────────────────────────────────

/// A song's row has a note where it plays, its number to the right with a dot, its title
/// and its artists behind a dash.
pub proof fn a_song_shows_its_number_and_artists(s: Song, number: nat, num_w: nat, playing: bool)
    ensures
        ({
            let r = jukebox_screen::song_spans(Some(s), number, num_w, playing);
            let artists = text::joined(text::texts(s.artists@), ", "@);
            &&& r[0].text == (if playing {
                "♫ "@
            } else {
                "  "@
            })
            &&& r[1].text == cells::right_aligned(text::decimal(number), num_w) + ". "@
            &&& s.title matches Some(t) ==> r[2].text == t@
            &&& s.title is None ==> r[2].text == "Unknown"@
            &&& playing ==> r[2].role == Role::Playing
            &&& !playing ==> r[2].role == Role::Primary
            &&& artists.len() > 0 ==> r.len() == 5 && r[3].text == "  —  "@ && r[4].text == artists
            &&& artists.len() == 0 ==> r.len() == 3
        }),
{
}

/// Songs are numbered from one, and the one that plays is marked; queue entries by the
/// position. A length is as the service wrote it, else minutes and seconds.
pub proof fn rows_are_numbered_from_one(v: JukeView, list: usize, i: usize)
    requires
        there(v, list as int, i as int),
    ensures
        ({
            let s = v.lists[list as int].songs@[i as int];
            let r = jukebox_screen::song_row(v, list, i);
            &&& r.left == jukebox_screen::song_spans(
                Some(s),
                i as nat + 1,
                text::decimal(v.lists[list as int].songs@.len()).len(),
                v.playing_list == Some(list) && v.playing_song == Some(i),
            )
            &&& s.duration matches Some(d) ==> r.right.text == d@
            &&& s.duration is None && s.duration_seconds is Some ==> r.right.text == cells::minutes(
                s.duration_seconds->0 as nat,
            )
            &&& s.duration is None && s.duration_seconds is None ==> r.right.text.len() == 0
            &&& i < v.queue.len() && v.queue[i as int] == i && v.queue_list == Some(list)
                ==> jukebox_screen::entry_spans(v, i) == jukebox_screen::song_spans(
                Some(s),
                i as nat + 1,
                3,
                v.pos == Some(i),
            )
        }),
{
}

/// A playlist that is being fetched says so; else the songs that match are shown in order.
pub proof fn a_list_shows_what_matches(v: JukeView, list: usize, k: int)
    requires
        v.list == Some(list),
        list < v.lists.len(),
    ensures
        ({
            let b = jukebox_screen::songs_shown(v).body;
            let shown = jukebox::songs_shown(v, list);
            &&& !v.lists[list as int].loaded ==> b == BodyView::Loading
            &&& v.lists[list as int].loaded ==> (b is Rows) && b->Rows_0.len() == shown.len()
            &&& v.lists[list as int].loaded && 0 <= k < shown.len() ==> b->Rows_0[k]
                == jukebox_screen::song_row(v, list, shown[k])
        }),
{
}

/// The queue's title says how far it is, counted from one, and the mode unless it is
/// cycling.
pub proof fn the_queue_says_how_far_it_is(v: JukeView)
    ensures
        ({
            let n = text::decimal(v.queue.len());
            let at = match v.pos {
                Some(p) => text::decimal(p as nat + 1),
                None => text::decimal(0),
            };
            let base = "Queue  ["@ + at + "/"@ + n;
            &&& v.mode == PlayMode::Cycle ==> jukebox_screen::queue_title(v) == base + "]"@
            &&& v.mode == PlayMode::Single ==> jukebox_screen::queue_title(v) == base
                + "]  ⊙ Single"@
            &&& v.mode == PlayMode::Shuffle ==> jukebox_screen::queue_title(v) == base
                + "]  ⇌ Shuffle"@
        }),
{
}

/// What is said of a playlist are its title, its authors, how many songs it has and how
/// long they take; the room for it has a row for each.
pub proof fn a_playlist_has_a_row_for_each_fact(v: JukeView, l: Listing, i: usize)
    requires
        v.list == Some(i),
        i < v.lists.len(),
        v.lists[i as int] == l,
    ensures
        ({
            let r = jukebox_screen::playlist_info_lines(l);
            &&& l.title matches Some(t) ==> r[0][0].text == t@
            &&& r[1] == seq![
                SpanView { text: text::decimal(l.songs@.len()) + " songs"@, role: Role::Plain },
            ]
            &&& l.total_secs > 0 ==> r.len() == 3 && r[2][0].text == cells::hours(
                l.total_secs as nat,
            )
            &&& l.total_secs == 0 ==> r.len() == 2
            &&& jukebox_screen::playlist_rows_needed(v) == r.len()
        }),
{
}

/// What is said of a song are its title in at most two rows, the first of them prominent,
/// then its artists and its length, each in one; the room for it has a row for each.
pub proof fn a_song_has_a_row_for_each_fact(v: JukeView, s: Song, width: u16, i: int)
    requires
        width > 0,
    ensures
        ({
            let r = jukebox_screen::song_info_lines(s, width as nat);
            let name = match s.title {
                Some(t) => t@,
                None => "Unknown"@,
            };
            let artists = text::joined(text::texts(s.artists@), ", "@);
            let rows = cells::wrapped(name, width as nat, 2);
            let timed = s.duration is Some || s.duration_seconds is Some;
            &&& rows.len() <= 2
            &&& 0 <= i < rows.len() ==> r[i][0].text == rows[i]
            &&& r[0][0].role == Role::Primary
            &&& artists.len() > 0 ==> r[rows.len() as int][0].text == cells::clipped(
                artists,
                width as nat,
            )
            &&& r.len() == rows.len() + (if artists.len() > 0 {
                1int
            } else {
                0
            }) + (if timed {
                1int
            } else {
                0
            })
            &&& s.duration matches Some(d) ==> r.last()[0].text == cells::clipped(
                d@,
                width as nat,
            )
            &&& (jukebox::chosen_song(v) matches Some(t) ==> jukebox::song_at(
                v,
                t.0 as int,
                t.1 as int,
            ) == Some(s) && (artists.len() > 0) == (s.artists@.len() > 0) && cells::row_count(
                name,
                width as nat,
            ) < 0x1_0000 ==> jukebox_screen::song_rows_needed(v, width) == r.len())
        }),
{
    let name = match s.title {
        Some(t) => t@,
        None => "Unknown"@,
    };
    crate::laws::drawing::as_many_rows_as_were_counted(name, width as nat, 2);
}

/// The panels about what is selected have one to three rows between their borders.
pub proof fn the_panels_have_up_to_three_rows(v: JukeView, width: u16)
    ensures
        2 <= jukebox_screen::info_rows(v, width) <= 5,
        v.list is Some ==> jukebox_screen::info_rows(v, width) >= 4,
        v.list is None && v.songs is None ==> jukebox_screen::info_rows(v, width) == 2,
{
}

/// What plays is its title and its artists behind a dash.
pub proof fn what_plays_is_named(v: JukeView, s: Song)
    ensures
        ({
            let artists = text::joined(text::texts(s.artists@), ", "@);
            let l = jukebox_screen::track_line(v);
            &&& jukebox::now_playing(v) is None ==> l == "—  No track playing"@
            &&& jukebox::now_playing(v) == Some(s) ==> (s.title matches Some(t) ==> (artists.len()
                > 0 ==> l == t@ + "  —  "@ + artists) && (artists.len() == 0 ==> l == t@))
        }),
{
}

/// The bar has eight blocks, as many of them full as is nearest to the volume, and says the
/// percentage; a muted one says only that.
pub proof fn the_bar_shows_the_volume(v: JukeView)
    requires
        v.volume <= 100,
    ensures
        v.muted ==> jukebox_screen::volume_bar(v) == "MUTE"@,
        ({
            let full = jukebox_screen::blocks(v.volume);
            &&& full <= 8
            &&& -50 <= full * 100 - v.volume * 8 <= 50
            &&& !v.muted ==> jukebox_screen::volume_bar(v).len() == 8 + 1 + text::decimal(
                v.volume as nat,
            ).len() + 1
            &&& forall|i: int|
                !v.muted && 0 <= i < 8 ==> #[trigger] jukebox_screen::volume_bar(v)[i] == (if i
                    < full {
                    '█'
                } else {
                    '░'
                })
        }),
{
    reveal_strlit(" ");
    reveal_strlit("%");
    let full = jukebox_screen::blocks(v.volume);
    if !v.muted {
        let bar = jukebox_screen::volume_bar(v);
        assert(bar.len() == 8 + 1 + text::decimal(v.volume as nat).len() + 1);
    }
}

/// While a query is typed it stands at the bottom; else what was said does, and else the
/// hints. A title carries the query behind it.
pub proof fn the_bottom_line_shows_the_query_first(v: JukeView, base: Seq<char>)
    ensures
        ({
            let s = jukebox_screen::help_spans(v);
            &&& v.filter_mode ==> s.len() >= 2 && s[0].text == "/"@ && s[1].text == v.filter
            &&& !v.filter_mode ==> (v.notification matches Some(n) ==> s.len() == 2 && s[1].text
                == n.0)
            &&& !v.filter_mode && v.notification is None ==> s == panel::hint_line(
                jukebox_screen::hints_for(v),
                jukebox_screen::hints_for(v).len(),
            )
            &&& v.filter.len() == 0 ==> jukebox_screen::titled(v, base) == base
            &&& v.filter.len() > 0 && !v.filter_mode ==> jukebox_screen::titled(v, base) == base
                + "  /"@ + v.filter
            &&& v.filter.len() > 0 && v.filter_mode ==> jukebox_screen::titled(v, base) == base
                + "  /"@ + v.filter + "█"@
        }),
{
}

} // verus!
