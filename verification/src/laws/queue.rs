//! The play queue: what plays after each step, and what is asked of the audio thread.

use vstd::prelude::*;

use crate::library::PlaylistEntry;
use crate::playback::CmdView;
use crate::player;
use crate::player::{AppendOutcome, PlayMode, PlayerView, RemoveOutcome, TrackRef};
use crate::seqs;

verus! {

/// Whether the library has a track at `t`.
pub open spec fn there(es: Seq<PlaylistEntry>, t: TrackRef) -> bool {
    t.0 < es.len() && t.1 < es[t.0 as int].songs@.len()
}

/// The video of the track at `t`, empty where there is none.
pub open spec fn video(es: Seq<PlaylistEntry>, t: TrackRef) -> Seq<char> {
    if there(es, t) && es[t.0 as int].songs@[t.1 as int].video_id is Some {
        es[t.0 as int].songs@[t.1 as int].video_id->0@
    } else {
        Seq::empty()
    }
}

/// What is asked ahead of time while entry `q` of a queue plays: the one behind it, and
/// the first behind the last.
pub open spec fn ahead(es: Seq<PlaylistEntry>, queue: Seq<TrackRef>, pos: Option<usize>) -> Seq<
    CmdView,
> {
    match pos {
        None => Seq::empty(),
        Some(q) => {
            let next = if q + 1 < queue.len() {
                queue[q + 1]
            } else {
                queue[0]
            };
            if queue.len() > 0 && video(es, next).len() > 0 {
                seq![CmdView::Prefetch(video(es, next))]
            } else {
                Seq::empty()
            }
        },
    }
}

/// Playing a track asks for its video at the current volume, looks the next entry up
/// ahead of time, and leaves queue, position, mode and volume as they are. A track that
/// the library does not have changes nothing; one without a video counts as playing, and
/// nothing is asked for it.
pub proof fn playing_asks_for_the_track(p: PlayerView, es: Seq<PlaylistEntry>, t: TrackRef)
    requires
        p.wf(),
    ensures
        !there(es, t) ==> player::playing(p, es, t) == p,
        there(es, t) ==> player::playing(p, es, t) == (PlayerView {
            playing: Some(t),
            started: true,
            sent: p.sent + (if video(es, t).len() > 0 {
                seq![CmdView::Play(video(es, t)), CmdView::Volume(p.volume)]
            } else {
                Seq::empty()
            }) + ahead(es, p.queue, p.pos),
            ..p
        }),
{
    let n = p.queue.len() as int;
    match p.pos {
        Some(q) => {
            if q + 1 < n {
                vstd::arithmetic::div_mod::lemma_small_mod((q + 1) as nat, n as nat);
            } else {
                assert(q + 1 == n);
                vstd::arithmetic::div_mod::lemma_mod_self_0(n);
            }
        },
        None => {},
    }
    if there(es, t) {
        let r = player::playing(p, es, t);
        assert(r.sent =~= p.sent + (if video(es, t).len() > 0 {
            seq![CmdView::Play(video(es, t)), CmdView::Volume(p.volume)]
        } else {
            Seq::empty()
        }) + ahead(es, p.queue, p.pos));
    }
}

/// The next entry is the one behind the current one, and the first behind the last; the
/// previous one is the one before it, and the last before the first. Without a position
/// the first entry plays, and an empty queue changes nothing.
pub proof fn steps_go_one_entry(p: PlayerView, es: Seq<PlaylistEntry>)
    requires
        p.wf(),
        0 < p.queue.len() <= usize::MAX,
    ensures
        ({
            let n = p.queue.len();
            let next = player::stepping(p, es, 1);
            let prev = player::stepping(p, es, -1);
            &&& next.queue == p.queue && prev.queue == p.queue
            &&& next.pos == match p.pos {
                None => Some(0usize),
                Some(q) => if q + 1 < n {
                    Some((q + 1) as usize)
                } else {
                    Some(0usize)
                },
            }
            &&& prev.pos == match p.pos {
                None => Some(0usize),
                Some(q) => if q > 0 {
                    Some((q - 1) as usize)
                } else {
                    Some((n - 1) as usize)
                },
            }
            &&& there(es, p.queue[next.pos->0 as int]) ==> next.playing == Some(
                p.queue[next.pos->0 as int],
            ) && next.started
            &&& there(es, p.queue[prev.pos->0 as int]) ==> prev.playing == Some(
                p.queue[prev.pos->0 as int],
            ) && prev.started
        }),
{
    let n = p.queue.len() as int;
    match p.pos {
        Some(q) => {
            if q + 1 < n {
                vstd::arithmetic::div_mod::lemma_small_mod((q + 1) as nat, n as nat);
            } else {
                vstd::arithmetic::div_mod::lemma_mod_self_0(n);
            }
            if q > 0 {
                vstd::arithmetic::div_mod::lemma_small_mod((q - 1) as nat, n as nat);
            } else {
                vstd::arithmetic::div_mod::lemma_mod_add_multiples_vanish(-1, n);
                vstd::arithmetic::div_mod::lemma_small_mod((n - 1) as nat, n as nat);
            }
            let a = player::around(q as int, 1, n);
            let b = player::around(q as int, -1, n);
            playing_asks_for_the_track(
                PlayerView { pos: Some(a as usize), ..p },
                es,
                p.queue[a],
            );
            playing_asks_for_the_track(
                PlayerView { pos: Some(b as usize), ..p },
                es,
                p.queue[b],
            );
        },
        None => {
            playing_asks_for_the_track(PlayerView { pos: Some(0usize), ..p }, es, p.queue[0]);
        },
    }
}

/// In an empty queue there is nowhere to go.
pub proof fn an_empty_queue_has_no_next(p: PlayerView, es: Seq<PlaylistEntry>, delta: int)
    requires
        p.queue.len() == 0,
    ensures
        player::stepping(p, es, delta) == p,
{
}

/// Two moves through the queue are one of both together.
pub proof fn moves_add_up(q: int, a: int, b: int, n: int)
    requires
        n > 0,
    ensures
        player::around(player::around(q, a, n), b, n) == player::around(q, a + b, n),
        0 <= player::around(q, a, n) < n,
{
    vstd::arithmetic::div_mod::lemma_add_mod_noop(q + a, b, n);
    vstd::arithmetic::div_mod::lemma_add_mod_noop((q + a) % n, b, n);
    vstd::arithmetic::div_mod::lemma_mod_twice(q + a, n);
    vstd::arithmetic::div_mod::lemma_mod_bound(q + a, n);
}

/// Jumping to an entry makes it the current one and plays it; beyond the queue nothing
/// happens.
pub proof fn a_jump_plays_its_entry(p: PlayerView, es: Seq<PlaylistEntry>, q: usize)
    requires
        p.wf(),
    ensures
        q >= p.queue.len() ==> player::jumping(p, es, q) == p,
        q < p.queue.len() && there(es, p.queue[q as int]) ==> {
            let r = player::jumping(p, es, q);
            let x = video(es, p.queue[q as int]);
            &&& r.pos == Some(q)
            &&& r.queue == p.queue
            &&& r.playing == Some(p.queue[q as int])
            &&& x.len() > 0 ==> r.sent.len() > p.sent.len() && r.sent.take(p.sent.len() as int)
                == p.sent && r.sent[p.sent.len() as int] == CmdView::Play(x)
        },
{
    if q < p.queue.len() {
        playing_asks_for_the_track(
            PlayerView { pos: Some(q), ..p },
            es,
            p.queue[q as int],
        );
        let r = player::jumping(p, es, q);
        if there(es, p.queue[q as int]) {
            assert(r.sent.take(p.sent.len() as int) =~= p.sent);
        }
    }
}

/// A song that ends by itself plays again in single mode; in the others the next one
/// plays.
pub proof fn an_ended_song_is_followed(p: PlayerView, es: Seq<PlaylistEntry>)
    requires
        p.wf(),
        p.playing is Some,
        p.pos is Some,
        p.queue.len() <= usize::MAX,
        there(es, p.playing->0),
    ensures
        ({
            let r = player::ending(p, es);
            let q = p.pos->0;
            &&& p.mode == PlayMode::Single ==> r.playing == p.playing && r.pos == p.pos
            &&& p.mode != PlayMode::Single ==> r.pos == Some(
                if q + 1 < p.queue.len() {
                    (q + 1) as usize
                } else {
                    0usize
                },
            ) && (there(es, p.queue[r.pos->0 as int]) ==> r.playing == Some(p.queue[r.pos->0 as int]))
            &&& r.queue == p.queue
            &&& p.mode == PlayMode::Single && video(es, p.playing->0).len() > 0
                ==> r.sent.len() > p.sent.len() && r.sent[p.sent.len() as int] == CmdView::Play(
                video(es, p.playing->0),
            )
        }),
{
    playing_asks_for_the_track(p, es, p.playing->0);
    steps_go_one_entry(p, es);
}

/// A song from the list starts a queue of its own in the order given, at the first place
/// that holds it.
pub proof fn a_new_queue_starts_at_its_song(
    p: PlayerView,
    es: Seq<PlaylistEntry>,
    order: Seq<TrackRef>,
    t: TrackRef,
)
    requires
        p.wf(),
        order.len() <= usize::MAX,
        there(es, t),
    ensures
        ({
            let r = player::opening(p, es, order, t);
            &&& r.queue == order
            &&& r.playing == Some(t)
            &&& r.started
            &&& r.mode == p.mode && r.volume == p.volume
            &&& order.contains(t) ==> (r.pos matches Some(q) && q < order.len() && order[q as int]
                == t && forall|i: int| 0 <= i < q ==> #[trigger] order[i] != t)
            &&& !order.contains(t) ==> r.pos is None
        }),
{
    let f = player::is_track(t);
    seqs::lemma_first_where(order, f, 0);
    if order.contains(t) {
        let k = choose|k: int| 0 <= k < order.len() && order[k] == t;
        assert(f(order[k]));
    }
    match seqs::first_where(order, f, 0) {
        Some(i) => {
            assert(f(order[i]));
            assert forall|j: int| 0 <= j < i implies #[trigger] order[j] != t by {
                assert(!f(order[j]));
            }
        },
        None => {},
    }
    playing_asks_for_the_track(
        PlayerView { queue: order, pos: player::place_of(order, t), ..p },
        es,
        t,
    );
}

/// A playlist's own order is its songs from the first to the last.
pub proof fn an_album_is_in_order(pl: usize, n: nat)
    ensures
        player::album_order(pl, n).len() == n,
        forall|i: int|
            0 <= i < n ==> (#[trigger] player::album_order(pl, n)[i]).0 == pl,
        forall|i: int|
            0 <= i < n && i <= usize::MAX ==> (#[trigger] player::album_order(pl, n)[i]).1 == i,
{
}

/// Removing the entry that plays makes the one behind it play, at the same place, and
/// where it was the last one, the one before it. The others keep their order.
pub proof fn the_following_entry_moves_up(p: PlayerView, es: Seq<PlaylistEntry>, q: usize)
    requires
        p.wf(),
        p.pos == Some(q),
        1 < p.queue.len() <= usize::MAX,
    ensures
        ({
            let (r, outcome) = player::removing(p, es, q);
            let n = p.queue.len();
            let heir = if q + 1 < n {
                p.queue[q + 1]
            } else {
                p.queue[n - 2]
            };
            &&& outcome == (RemoveOutcome::Switched { track: heir })
            &&& there(es, heir) ==> r.playing == Some(heir)
            &&& r.pos == Some(
                if q + 1 < n {
                    q
                } else {
                    (n - 2) as usize
                },
            )
            &&& r.queue[r.pos->0 as int] == heir
            &&& r.queue == p.queue.take(q as int) + p.queue.skip(q + 1)
            &&& video(es, heir).len() > 0 ==> r.sent.len() > p.sent.len()
                && r.sent[p.sent.len() as int] == CmdView::Play(video(es, heir))
        }),
{
    let n = p.queue.len();
    let queue = p.queue.remove(q as int);
    let pos = player::shifted(p.pos, q, queue.len());
    assert(queue =~= p.queue.take(q as int) + p.queue.skip(q + 1));
    let heir = if q + 1 < n {
        p.queue[q + 1]
    } else {
        p.queue[n - 2]
    };
    playing_asks_for_the_track(PlayerView { queue, pos, ..p }, es, heir);
}

/// Removing an entry that does not play takes only that entry out: the song that plays
/// stays the current one, under its new place, and nothing is asked of the audio thread.
/// Beyond the queue nothing happens.
pub proof fn another_entry_leaves_quietly(p: PlayerView, es: Seq<PlaylistEntry>, q: usize)
    requires
        p.wf(),
        p.pos != Some(q),
        p.queue.len() <= usize::MAX,
    ensures
        player::removing(p, es, q).1 == RemoveOutcome::Unaffected,
        q >= p.queue.len() ==> player::removing(p, es, q).0 == p,
        q < p.queue.len() ==> player::removing(p, es, q).0 == (PlayerView {
            queue: p.queue.take(q as int) + p.queue.skip(q + 1),
            pos: match p.pos {
                Some(at) => if at < q {
                    Some(at)
                } else {
                    Some((at - 1) as usize)
                },
                None => None,
            },
            ..p
        }),
{
    if q < p.queue.len() {
        assert(p.queue.remove(q as int) =~= p.queue.take(q as int) + p.queue.skip(q + 1));
    }
}

/// A song that is appended stands at the end. It plays where nothing did, and else it
/// only waits: its place is told, and nothing else changes.
pub proof fn an_appended_song_waits_or_plays(p: PlayerView, es: Seq<PlaylistEntry>, t: TrackRef)
    requires
        p.wf(),
        p.queue.len() < usize::MAX,
        there(es, t),
    ensures
        ({
            let (r, outcome) = player::appending(p, es, t);
            let n = (p.queue.len() + 1) as usize;
            &&& r.queue == p.queue.push(t)
            &&& p.playing is Some ==> outcome == (AppendOutcome::Queued { queue_len: n })
                && r == (PlayerView { queue: p.queue.push(t), ..p })
            &&& p.playing is None ==> outcome == (AppendOutcome::StartedPlaying {
                track: t,
                queue_len: n,
            }) && r.playing == Some(t) && r.pos == Some((n - 1) as usize) && r.started
            &&& p.playing is None && video(es, t).len() > 0 ==> r.sent.len() > p.sent.len()
                && r.sent[p.sent.len() as int] == CmdView::Play(video(es, t))
        }),
{
    let longer = PlayerView { queue: p.queue.push(t), ..p };
    playing_asks_for_the_track(
        PlayerView { pos: Some(p.queue.len() as usize), ..longer },
        es,
        t,
    );
}

/// A queue that comes back shows its current song without playing it: all that is asked
/// is to look its video up.
pub proof fn a_restored_queue_is_silent(
    p: PlayerView,
    es: Seq<PlaylistEntry>,
    queue: Seq<TrackRef>,
    pos: Option<usize>,
)
    requires
        pos matches Some(q) ==> q < queue.len(),
    ensures
        ({
            let r = player::restoring(p, es, queue, pos);
            &&& r.queue == queue && r.pos == pos && !r.started
            &&& r.mode == p.mode && r.volume == p.volume && r.muted == p.muted
            &&& pos is None ==> r.playing == p.playing && r.sent == p.sent
            &&& pos matches Some(q) ==> r.playing == Some(queue[q as int]) && r.sent == if video(
                es,
                queue[q as int],
            ).len() > 0 {
                p.sent.push(CmdView::Prefetch(video(es, queue[q as int])))
            } else {
                p.sent
            }
        }),
{
}

/// The modes follow each other: the whole queue, one song, a shuffled queue.
pub proof fn modes_follow_each_other(m: PlayMode)
    ensures
        m == PlayMode::Cycle ==> player::next_mode(m) == PlayMode::Single,
        m == PlayMode::Single ==> player::next_mode(m) == PlayMode::Shuffle,
        m == PlayMode::Shuffle ==> player::next_mode(m) == PlayMode::Cycle,
{
}

/// Going to shuffle takes the order that was drawn; coming from it goes back to the order
/// of the library, playlist by playlist and song by song; any other change leaves the
/// queue. The position follows the song that plays, to its first place, and without one
/// stays. Nothing is asked of the audio thread.
pub proof fn a_new_mode_reorders_the_queue(
    p: PlayerView,
    m: PlayMode,
    shuffled: Seq<TrackRef>,
)
    requires
        p.queue.len() <= usize::MAX,
        shuffled.len() <= usize::MAX,
    ensures
        ({
            let r = player::switching(p, m, shuffled);
            &&& r.mode == m
            &&& m == PlayMode::Shuffle ==> r.queue == shuffled
            &&& m != PlayMode::Shuffle && p.mode != PlayMode::Shuffle ==> r.queue == p.queue
            &&& m != PlayMode::Shuffle && p.mode == PlayMode::Shuffle ==> r.queue.to_multiset()
                == p.queue.to_multiset() && forall|i: int, j: int|
                0 <= i < j < r.queue.len() ==> (#[trigger] r.queue[i]).0 < (
                #[trigger] r.queue[j]).0 || (r.queue[i].0 == r.queue[j].0 && r.queue[i].1
                    <= r.queue[j].1)
            &&& p.playing is None ==> r.pos == p.pos
            &&& p.playing matches Some(t) ==> (r.pos matches Some(q) ==> q < r.queue.len()
                && r.queue[q as int] == t && forall|i: int|
                0 <= i < q ==> #[trigger] r.queue[i] != t)
            &&& p.playing matches Some(t) ==> (r.pos is None ==> !r.queue.contains(t))
            &&& r.sent == p.sent && r.playing == p.playing && r.volume == p.volume && r.started
                == p.started
        }),
{
    let r = player::switching(p, m, shuffled);
    seqs::lemma_sorted_permutes(p.queue, seqs::order::<TrackRef>());
    assert(seqs::total(seqs::order::<TrackRef>()));
    seqs::lemma_sorted_in_order(p.queue, seqs::order::<TrackRef>());
    if m != PlayMode::Shuffle && p.mode == PlayMode::Shuffle {
        assert forall|i: int, j: int| 0 <= i < j < r.queue.len() implies (#[trigger] r.queue[i]).0
            < (#[trigger] r.queue[j]).0 || (r.queue[i].0 == r.queue[j].0 && r.queue[i].1
            <= r.queue[j].1) by {
            assert(seqs::order::<TrackRef>()(r.queue[i], r.queue[j]));
        }
    }
    match p.playing {
        Some(t) => {
            let f = player::is_track(t);
            seqs::lemma_first_where(r.queue, f, 0);
            match seqs::first_where(r.queue, f, 0) {
                Some(q) => {
                    assert(f(r.queue[q]));
                    assert forall|i: int| 0 <= i < q implies #[trigger] r.queue[i] != t by {
                        assert(!f(r.queue[i]));
                    }
                },
                None => {
                    if r.queue.contains(t) {
                        let k = choose|k: int| 0 <= k < r.queue.len() && r.queue[k] == t;
                        assert(f(r.queue[k]));
                    }
                },
            }
        },
        None => {},
    }
}

/// A level is kept between 0 and 100, and is otherwise what was asked for. Setting it
/// turns the sound on and tells the audio thread that level and nothing else.
pub proof fn a_volume_is_a_percentage(p: PlayerView, v: int)
    ensures
        v <= 0 ==> player::percent(v) == 0,
        v >= 100 ==> player::percent(v) == 100,
        0 <= v <= 100 ==> player::percent(v) == v,
        ({
            let r = player::at_volume(p, player::percent(v));
            &&& r.volume == player::percent(v)
            &&& !r.muted
            &&& r.sent == p.sent.push(CmdView::Volume(r.volume))
            &&& r.queue == p.queue && r.pos == p.pos && r.playing == p.playing && r.mode == p.mode
        }),
{
}

/// Muting takes the sound away, and unmuting brings back the level there was.
pub proof fn muting_silences(p: PlayerView)
    ensures
        !p.muted ==> player::muting(p).volume == 0 && player::muting(p).muted
            && player::lasting_volume(player::muting(p)) == p.volume,
        p.muted ==> player::muting(p).volume == p.pre_mute && !player::muting(p).muted,
        player::lasting_volume(p) == if p.muted {
            p.pre_mute
        } else {
            p.volume
        },
        player::muting(p).queue == p.queue && player::muting(p).playing == p.playing
            && player::muting(p).pos == p.pos,
{
}

/// The pause key pauses what plays and resumes what is paused, and waits while a song
/// still loads.
pub proof fn a_pause_is_undone_by_a_resume(p: PlayerView, paused: bool)
    ensures
        player::pausing(p, true, paused) == p,
        player::pausing(p, false, false) == (PlayerView { sent: p.sent.push(CmdView::Pause), ..p }),
        player::pausing(p, false, true) == (PlayerView { sent: p.sent.push(CmdView::Resume), ..p }),
{
}

/// The song that came back starts when it is asked for, and without one nothing does.
pub proof fn what_came_back_starts(p: PlayerView, es: Seq<PlaylistEntry>)
    requires
        p.wf(),
    ensures
        p.playing is None ==> player::starting(p, es) == p,
        p.playing matches Some(t) ==> there(es, t) ==> {
            let r = player::starting(p, es);
            &&& r.started && r.playing == p.playing && r.pos == p.pos
            &&& video(es, t).len() > 0 ==> r.sent.len() > p.sent.len() && r.sent[p.sent.len() as int]
                == CmdView::Play(video(es, t))
        },
{
    if p.playing is Some {
        playing_asks_for_the_track(p, es, p.playing->0);
    }
}

} // verus!
