//! The audio thread: what each command, lookup and report leads to.

use vstd::prelude::*;

use crate::deck;
use crate::deck::{DeckView, Order, OrderView};
use crate::playback;
use crate::playback::{
    Action, ActionView, AudioView, Cmd, CmdView, EngineView, PlayerEvent, Purpose,
};
use crate::text;

verus! {

// ── commands ─────────────────────────────────────────────────────────────────

/// A command, an action and an order carry what they were made with.
pub proof fn commands_carry_their_values(id: String, d: i64, x: u8, on: bool)
    ensures
        Cmd::Play(id)@ == CmdView::Play(id@),
        Cmd::Prefetch(id)@ == CmdView::Prefetch(id@),
        Cmd::Seek(d)@ == CmdView::Seek(d as int),
        Cmd::SeekAbs(d)@ == CmdView::SeekAbs(d as int),
        Cmd::Volume(x)@ == CmdView::Volume(x),
        Cmd::Pause@ == CmdView::Pause,
        Cmd::Resume@ == CmdView::Resume,
        Cmd::Stop@ == CmdView::Stop,
        Action::SeekRelative(d)@ == ActionView::SeekRelative(d as int),
        Action::SeekAbsolute(d)@ == ActionView::SeekAbsolute(d as int),
        Action::SetVolume(x)@ == ActionView::SetVolume(x),
        Action::SetPause(on)@ == ActionView::SetPause(on),
        Action::Load(id)@ == ActionView::Load(id@),
        Action::Halt@ == ActionView::Halt,
        Order::Resolve(id)@ == OrderView::Resolve(id@),
        Order::Load(id)@ == OrderView::Load(id@),
        Order::SeekRelative(d)@ == OrderView::SeekRelative(d as int),
        Order::SeekAbsolute(d)@ == OrderView::SeekAbsolute(d as int),
        Order::SetVolume(x)@ == OrderView::SetVolume(x),
        Order::SetPause(on)@ == OrderView::SetPause(on),
        Order::Halt@ == OrderView::Halt,
{
}

/// A seek is handed on as it came, sign and all, and a jump to its very place. The state
/// stays: the player reports where it is.
pub proof fn a_seek_goes_as_far_as_asked(v: EngineView, d: int)
    ensures
        playback::after_command(v, CmdView::Seek(d)) == (v, seq![ActionView::SeekRelative(d)]),
        playback::after_command(v, CmdView::SeekAbs(d)) == (v, seq![ActionView::SeekAbsolute(d)]),
{
}

/// Pausing pauses, resuming resumes, and a volume is set to what was asked for. None of
/// them changes the state: the player reports what came of it.
pub proof fn simple_commands_are_handed_on(v: EngineView, x: u8)
    ensures
        playback::after_command(v, CmdView::Pause) == (v, seq![ActionView::SetPause(true)]),
        playback::after_command(v, CmdView::Resume) == (v, seq![ActionView::SetPause(false)]),
        playback::after_command(v, CmdView::Volume(x)) == (v, seq![ActionView::SetVolume(x)]),
{
}

/// A stop halts the player and forgets which song was wanted, but no address.
pub proof fn a_stop_halts(v: EngineView)
    ensures
        ({
            let (w, actions) = playback::after_command(v, CmdView::Stop);
            &&& actions == seq![ActionView::Halt]
            &&& w.pending is None && w.current is None
            &&& w.urls == v.urls && w.fetching == v.fetching && w.state == v.state
        }),
{
}

/// A song that is asked for becomes the current one at once, from its start, unpaused,
/// loading and without an error. Its address is loaded where it is known; else it is
/// waited for, and looked up unless that lookup runs already.
pub proof fn a_song_starts_afresh(v: EngineView, id: Seq<char>)
    ensures
        ({
            let (w, actions) = playback::after_command(v, CmdView::Play(id));
            &&& w.current == Some(id)
            &&& !w.retried
            &&& w.state.elapsed == 0 && w.state.total == 0
            &&& !w.state.paused && w.state.loading
            &&& w.state.error is None && !w.state.song_ended
            &&& w.urls == v.urls
            &&& v.urls.contains_key(id) ==> actions == seq![ActionView::Load(v.urls[id])]
                && w.pending is None && w.fetching == v.fetching
            &&& !v.urls.contains_key(id) ==> w.pending == Some(id) && w.fetching
                == v.fetching.insert(id)
            &&& !v.urls.contains_key(id) && v.fetching.contains(id) ==> actions.len() == 0
            &&& !v.urls.contains_key(id) && !v.fetching.contains(id) ==> actions == seq![
                ActionView::Resolve { id, purpose: Purpose::Resolve },
            ]
        }),
{
    if !v.urls.contains_key(id) && v.fetching.contains(id) {
        assert(v.fetching.insert(id) =~= v.fetching);
    }
}

/// A lookup ahead of time starts where the address is not known, no lookup for it runs
/// and fewer than three do. It changes nothing else, and never what plays.
pub proof fn a_prefetch_only_looks_up(v: EngineView, id: Seq<char>)
    requires
        v.fetching.finite(),
    ensures
        ({
            let (w, actions) = playback::after_command(v, CmdView::Prefetch(id));
            let starts = !v.urls.contains_key(id) && !v.fetching.contains(id) && v.fetching.len()
                < 3;
            &&& starts ==> actions == seq![
                ActionView::Resolve { id, purpose: Purpose::Prefetch },
            ] && w == (EngineView { fetching: v.fetching.insert(id), ..v })
            &&& !starts ==> actions.len() == 0 && w == v
        }),
{
}

// ── lookups ──────────────────────────────────────────────────────────────────

/// A lookup that comes back is no longer running, and an address that it found is kept.
/// The song that is waited for is loaded, from its page where no address was found; any
/// other is not.
pub proof fn a_lookup_answers_who_waits(v: EngineView, id: Seq<char>, url: Option<Seq<char>>)
    ensures
        ({
            let (w, actions) = playback::after_resolved(v, id, url);
            &&& !w.fetching.contains(id)
            &&& forall|k: Seq<char>| k != id ==> w.fetching.contains(k) == v.fetching.contains(k)
            &&& url matches Some(u) ==> w.urls == v.urls.insert(id, u)
            &&& url is None ==> w.urls == v.urls
            &&& w.current == v.current && w.state == v.state && w.retried == v.retried
            &&& v.pending != Some(id) ==> actions.len() == 0 && w.pending == v.pending
            &&& v.pending == Some(id) ==> w.pending is None && actions.len() == 1
            &&& v.pending == Some(id) && url is Some ==> actions[0] == ActionView::Load(url->0)
            &&& v.pending == Some(id) && url is None ==> actions[0] == ActionView::Load(
                "https://music.youtube.com/watch?v="@ + id,
            )
        }),
{
}

/// The address that the lookup tool printed is the first line of what it printed, without
/// white space around it, where that starts as an address does.
pub proof fn the_first_line_is_the_address(out: Seq<char>)
    ensures
        playback::printed_address(out) matches Some(u) ==> {
            &&& text::trimmed(out).len() > 0
            &&& u == text::lines_of(text::trimmed(out))[0]
            &&& u.len() >= 4 && u[0] == 'h' && u[1] == 't' && u[2] == 't' && u[3] == 'p'
        },
        playback::printed_address(out) is None && text::trimmed(out).len() > 0 ==> {
            let u = text::lines_of(text::trimmed(out))[0];
            u.len() < 4 || u[0] != 'h' || u[1] != 't' || u[2] != 't' || u[3] != 'p'
        },
{
    reveal_strlit("http");
    let t = text::trimmed(out);
    let u = text::lines_of(t)[0];
    if u.len() >= 4 && u[0] == 'h' && u[1] == 't' && u[2] == 't' && u[3] == 'p' {
        assert("http"@ =~= u.take(4));
        assert("http"@.is_prefix_of(u));
    }
    if "http"@.is_prefix_of(u) {
        assert("http"@ =~= u.take(4));
        assert(u[0] == "http"@[0] && u[1] == "http"@[1] && u[2] == "http"@[2] && u[3]
            == "http"@[3]);
    }
}

// ── reports ──────────────────────────────────────────────────────────────────

/// The player's place, pause and length are shown as it reports them. A length means that
/// the song plays: it no longer loads, and is no longer waited for.
pub proof fn reports_are_shown(v: EngineView, t: i64, b: bool)
    ensures
        playback::after_event(v, PlayerEvent::TimePos(t)) == (
            EngineView { state: AudioView { elapsed: t as int, ..v.state }, ..v },
            Seq::<ActionView>::empty(),
        ),
        playback::after_event(v, PlayerEvent::Pause(b)) == (
            EngineView { state: AudioView { paused: b, ..v.state }, ..v },
            Seq::<ActionView>::empty(),
        ),
        playback::after_event(v, PlayerEvent::Duration(t)) == (
            EngineView {
                state: AudioView { total: t as int, loading: false, ..v.state },
                pending: None,
                ..v
            },
            Seq::<ActionView>::empty(),
        ),
{
}

/// The end of a song is marked until it is read, a file that starts loads from its
/// beginning, one that ends no longer loads, and anything else changes nothing.
pub proof fn files_start_and_end(v: EngineView, b: bool)
    ensures
        ({
            let (w, actions) = playback::after_event(v, PlayerEvent::EofReached(b));
            &&& actions.len() == 0
            &&& b ==> w.state.song_ended
            &&& !b ==> w == v
            &&& w.state.loading == v.state.loading && w.state.elapsed == v.state.elapsed
                && w.current == v.current && w.pending == v.pending
        }),
        playback::after_event(v, PlayerEvent::StartFile) == (
            EngineView { state: AudioView { loading: true, elapsed: 0, ..v.state }, ..v },
            Seq::<ActionView>::empty(),
        ),
        playback::after_event(v, PlayerEvent::EndFile) == (
            EngineView { state: AudioView { loading: false, ..v.state }, ..v },
            Seq::<ActionView>::empty(),
        ),
        playback::after_event(v, PlayerEvent::Other) == (v, Seq::<ActionView>::empty()),
{
    if !b {
        assert(playback::after_event(v, PlayerEvent::EofReached(b)).0.state == v.state);
    }
}

/// Three of the player's errors say that an address did not play, and no other.
pub proof fn three_errors_are_load_failures(code: i32)
    ensures
        playback::load_failure(code) <==> (code == -13 || code == -16 || code == -17),
{
}

/// The first failure to load forgets the address and looks it up anew, unless that lookup
/// runs; the song stays the current one and is waited for. Another error, or one without
/// a song, changes nothing.
pub proof fn a_failed_load_is_tried_again(v: EngineView, code: i32)
    ensures
        ({
            let (w, actions) = playback::after_event(v, PlayerEvent::Failed(code));
            let fails = code == -13 || code == -16 || code == -17;
            &&& !fails || v.current is None ==> w == v && actions.len() == 0
            &&& fails && v.current is Some && !v.retried ==> {
                let id = v.current->0;
                &&& w.retried && w.current == Some(id) && w.pending == Some(id)
                &&& w.urls == v.urls.remove(id)
                &&& w.fetching == v.fetching.insert(id)
                &&& w.state == v.state
                &&& v.fetching.contains(id) ==> actions.len() == 0
                &&& !v.fetching.contains(id) ==> actions == seq![
                    ActionView::Resolve { id, purpose: Purpose::ReResolve },
                ]
            }
            &&& fails && v.current is Some && v.retried ==> actions.len() == 0 && w
                == (EngineView {
                state: AudioView { loading: false, error: Some("playback failed"@), ..v.state },
                ..v
            })
        }),
{
    if v.current is Some && v.fetching.contains(v.current->0) {
        assert(v.fetching.insert(v.current->0) =~= v.fetching);
    }
}

// ── the player of one playlist at a time ─────────────────────────────────────

/// There too a seek, a pause, a resume, a volume and a stop are handed on as they came,
/// and leave the state.
pub proof fn a_deck_hands_commands_on(v: DeckView, d: int, x: u8)
    ensures
        deck::after_command(v, CmdView::Seek(d)) == (v, seq![OrderView::SeekRelative(d)]),
        deck::after_command(v, CmdView::SeekAbs(d)) == (v, seq![OrderView::SeekAbsolute(d)]),
        deck::after_command(v, CmdView::Pause) == (v, seq![OrderView::SetPause(true)]),
        deck::after_command(v, CmdView::Resume) == (v, seq![OrderView::SetPause(false)]),
        deck::after_command(v, CmdView::Volume(x)) == (v, seq![OrderView::SetVolume(x)]),
        deck::after_command(v, CmdView::Stop) == (v, seq![OrderView::Halt]),
{
}

/// There a song starts at once: from its address where it is known, else from its page,
/// while its address is looked up unless that lookup runs. Either way it starts afresh and
/// unpaused.
pub proof fn a_deck_plays_at_once(v: DeckView, id: Seq<char>)
    ensures
        ({
            let (w, orders) = deck::after_command(v, CmdView::Play(id));
            let page = "https://music.youtube.com/watch?v="@ + id;
            &&& w.state == (AudioView {
                elapsed: 0,
                total: 0,
                paused: false,
                loading: true,
                error: None,
                song_ended: false,
            })
            &&& w.urls == v.urls
            &&& orders.len() >= 2 && orders.last() == OrderView::SetPause(false)
            &&& v.urls.contains_key(id) ==> orders.len() == 2 && orders[0] == OrderView::Load(
                v.urls[id],
            ) && w.pending is None && w.fetching == v.fetching
            &&& !v.urls.contains_key(id) && v.fetching.contains(id) ==> orders.len() == 2
                && orders[0] == OrderView::Load(page) && w.pending is None && w.fetching
                == v.fetching
            &&& !v.urls.contains_key(id) && !v.fetching.contains(id) ==> orders.len() == 3
                && orders[0] == OrderView::Resolve(id) && orders[1] == OrderView::Load(page)
                && w.pending == Some(id) && w.fetching == v.fetching.insert(id)
        }),
{
}

/// There a lookup ahead of time starts where the address is not known, no lookup for it
/// runs and fewer than two do.
pub proof fn a_deck_prefetches(v: DeckView, id: Seq<char>)
    ensures
        ({
            let (w, orders) = deck::after_command(v, CmdView::Prefetch(id));
            let starts = !v.urls.contains_key(id) && !v.fetching.contains(id) && v.fetching.len()
                < 2;
            &&& starts ==> orders == seq![OrderView::Resolve(id)] && w == (DeckView {
                fetching: v.fetching.insert(id),
                ..v
            })
            &&& !starts ==> orders.len() == 0 && w == v
        }),
{
}

/// There a found address is kept, and takes over only from the page of a song that still
/// loads and waits for it.
pub proof fn a_deck_takes_an_address_over(v: DeckView, id: Seq<char>, url: Option<Seq<char>>)
    ensures
        ({
            let (w, orders) = deck::after_lookup(v, id, url);
            &&& w.fetching == v.fetching.remove(id)
            &&& w.state == v.state
            &&& url matches Some(u) ==> w.urls == v.urls.insert(id, u)
            &&& url is None ==> w.urls == v.urls
            &&& w.pending == if v.pending == Some(id) {
                None
            } else {
                v.pending
            }
            &&& v.pending == Some(id) && v.state.loading && url is Some ==> orders == seq![
                OrderView::Load(url->0),
            ]
            &&& v.pending != Some(id) || !v.state.loading || url is None ==> orders.len() == 0
        }),
{
}

/// There the player's reports are shown as they come.
pub proof fn a_deck_shows_reports(v: DeckView, t: i64, b: bool, code: i32)
    ensures
        deck::after_event(v, PlayerEvent::TimePos(t)) == (DeckView {
            state: AudioView { elapsed: t as int, ..v.state },
            ..v
        }),
        deck::after_event(v, PlayerEvent::Pause(b)) == (DeckView {
            state: AudioView { paused: b, ..v.state },
            ..v
        }),
        deck::after_event(v, PlayerEvent::Duration(t)) == (DeckView {
            state: AudioView { total: t as int, loading: false, ..v.state },
            pending: None,
            ..v
        }),
        deck::after_event(v, PlayerEvent::EofReached(true)).state.song_ended,
        deck::after_event(v, PlayerEvent::EofReached(false)).state.song_ended
            == v.state.song_ended,
        deck::after_event(v, PlayerEvent::StartFile) == (DeckView {
            state: AudioView { loading: true, elapsed: 0, ..v.state },
            ..v
        }),
        deck::after_event(v, PlayerEvent::EndFile) == (DeckView {
            state: AudioView { loading: false, ..v.state },
            ..v
        }),
        deck::after_event(v, PlayerEvent::Failed(code)) == v,
        deck::after_event(v, PlayerEvent::Other) == v,
{
}

} // verus!
