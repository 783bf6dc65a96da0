//! The queue and the playback controls.
//!
//! A [`Player`] decides; what the audio thread has to do is left in its mailbox,
//! in order, for [`Player::take_commands`].

use rand::seq::SliceRandom;
use vstd::prelude::*;

use crate::library;
use crate::library::Library;
use crate::playback::{AudioState, Cmd, CmdView};
use crate::seqs;
use crate::seqs::Ranked;
use crate::text;

verus! {

/// A track's place in a library: playlist index, song index.
pub type TrackRef = (usize, usize);

/// What follows the song that plays.
#[derive(Clone, Copy, Debug, PartialEq, Eq, Structural)]
pub enum PlayMode {
    Cycle,
    Single,
    Shuffle,
}

/// The mode after `m`.
pub open spec fn next_mode(m: PlayMode) -> PlayMode {
    match m {
        PlayMode::Cycle => PlayMode::Single,
        PlayMode::Single => PlayMode::Shuffle,
        PlayMode::Shuffle => PlayMode::Cycle,
    }
}

/// Three steps through the modes lead back.
pub proof fn modes_come_round(m: PlayMode)
    ensures
        next_mode(next_mode(next_mode(m))) == m,
        next_mode(m) != m,
        next_mode(next_mode(m)) != m,
{
}

impl PlayMode {
    /// The mode that the mode key switches to.
    #[must_use]
    pub fn next(self) -> (r: Self)
        ensures
            r == next_mode(self),
    {
        match self {
            PlayMode::Cycle => PlayMode::Single,
            PlayMode::Single => PlayMode::Shuffle,
            PlayMode::Shuffle => PlayMode::Cycle,
        }
    }

    /// How the mode is shown.
    pub fn label(self) -> (r: &'static str)
        ensures
            r@ == match self {
                PlayMode::Cycle => "↺ Cycle"@,
                PlayMode::Single => "⊙ Single"@,
                PlayMode::Shuffle => "⇌ Shuffle"@,
            },
    {
        match self {
            PlayMode::Cycle => "↺ Cycle",
            PlayMode::Single => "⊙ Single",
            PlayMode::Shuffle => "⇌ Shuffle",
        }
    }
}

/// What appending to the queue did.
#[derive(Clone, Copy, Debug)]
pub enum AppendOutcome {
    /// Nothing was playing, so the track started.
    StartedPlaying { track: TrackRef, queue_len: usize },
    /// The track waits as number `queue_len` of the queue.
    Queued { queue_len: usize },
}

/// What removing from the queue did to playback.
#[derive(Clone, Copy, Debug)]
pub enum RemoveOutcome {
    /// Another entry was playing, or none.
    Unaffected,
    /// The last entry went while it played.
    Stopped,
    /// The entry was playing; this track plays now.
    Switched { track: TrackRef },
}

/// The mathematical content of a [`Player`].
pub struct PlayerView {
    pub queue: Seq<TrackRef>,
    pub pos: Option<usize>,
    pub mode: PlayMode,
    pub playing: Option<TrackRef>,
    pub started: bool,
    pub volume: u8,
    pub muted: bool,
    pub pre_mute: u8,
    /// The mailbox.
    pub sent: Seq<CmdView>,
}

impl PlayerView {
    /// The position is a place in the queue, volumes are percentages, and what is
    /// muted makes no sound.
    pub open spec fn wf(self) -> bool {
        &&& self.pos matches Some(p) ==> p < self.queue.len()
        &&& self.volume <= 100
        &&& self.pre_mute <= 100
        &&& self.muted ==> self.volume == 0
    }
}

/// One more command in the mailbox.
pub open spec fn sending(p: PlayerView, c: CmdView) -> PlayerView {
    PlayerView { sent: p.sent.push(c), ..p }
}

/// A lookup ahead of time, where there is a video to look up.
pub open spec fn prefetching(p: PlayerView, id: Option<Seq<char>>) -> PlayerView {
    match id {
        Some(x) if x.len() > 0 => sending(p, CmdView::Prefetch(x)),
        _ => p,
    }
}

/// The video of the track at a place.
pub open spec fn video_at(es: Seq<library::PlaylistEntry>, t: TrackRef) -> Option<Seq<char>> {
    match library::track_at(es, t.0 as int, t.1 as int) {
        Some(track) => text::opt(track.video_id),
        None => None,
    }
}

/// The song behind the current one is looked up ahead of time; the queue is a ring.
pub open spec fn looking_ahead(p: PlayerView, es: Seq<library::PlaylistEntry>) -> PlayerView {
    match p.pos {
        Some(q) if p.queue.len() > 0 => prefetching(
            p,
            video_at(es, p.queue[(q + 1) % (p.queue.len() as int)]),
        ),
        _ => p,
    }
}

/// The track at `t` plays, where the library has one there. Without a video it
/// counts as playing, but nothing is asked of the audio thread.
pub open spec fn playing(p: PlayerView, es: Seq<library::PlaylistEntry>, t: TrackRef) -> PlayerView {
    match library::track_at(es, t.0 as int, t.1 as int) {
        None => p,
        Some(_) => looking_ahead(
            PlayerView {
                playing: Some(t),
                started: true,
                ..match video_at(es, t) {
                    Some(x) if x.len() > 0 => sending(
                        sending(p, CmdView::Play(x)),
                        CmdView::Volume(p.volume),
                    ),
                    _ => p,
                }
            },
            es,
        ),
    }
}

/// The place `delta` steps from `p` in a ring of `n`.
pub open spec fn around(p: int, delta: int, n: int) -> int {
    (p + delta) % n
}

/// Playback moves `delta` steps through the queue, to its start where there was
/// no position.
pub open spec fn stepping(
    p: PlayerView,
    es: Seq<library::PlaylistEntry>,
    delta: int,
) -> PlayerView {
    if p.queue.len() == 0 {
        p
    } else {
        let at = match p.pos {
            Some(q) => around(q as int, delta, p.queue.len() as int),
            None => 0,
        };
        playing(PlayerView { pos: Some(at as usize), ..p }, es, p.queue[at])
    }
}

/// Entry `q` of the queue plays; nothing happens where there is none.
pub open spec fn jumping(p: PlayerView, es: Seq<library::PlaylistEntry>, q: usize) -> PlayerView {
    if q < p.queue.len() {
        playing(PlayerView { pos: Some(q), ..p }, es, p.queue[q as int])
    } else {
        p
    }
}

/// The song that counts as playing starts, where there is one.
pub open spec fn starting(p: PlayerView, es: Seq<library::PlaylistEntry>) -> PlayerView {
    match p.playing {
        Some(t) => playing(p, es, t),
        None => p,
    }
}

/// A song ended by itself: the same one again in single mode, else the next.
pub open spec fn ending(p: PlayerView, es: Seq<library::PlaylistEntry>) -> PlayerView {
    if p.mode == PlayMode::Single {
        starting(p, es)
    } else {
        stepping(p, es, 1)
    }
}

/// A pause or a resume is sent, unless audio still loads.
pub open spec fn pausing(p: PlayerView, loading: bool, paused: bool) -> PlayerView {
    if loading {
        p
    } else if paused {
        sending(p, CmdView::Resume)
    } else {
        sending(p, CmdView::Pause)
    }
}

/// Every song of a playlist, in its order.
pub open spec fn album_order(pl: usize, n: nat) -> Seq<TrackRef> {
    Seq::new(n, |i: int| (pl, i as usize))
}

/// Being the track `t`.
pub open spec fn is_track(t: TrackRef) -> spec_fn(TrackRef) -> bool {
    |x: TrackRef| x == t
}

/// Where a track first stands in a queue.
pub open spec fn place_of(queue: Seq<TrackRef>, t: TrackRef) -> Option<usize> {
    match seqs::first_where(queue, is_track(t), 0) {
        Some(i) => Some(i as usize),
        None => None,
    }
}

/// A new queue, and playback of one of its songs.
pub open spec fn opening(
    p: PlayerView,
    es: Seq<library::PlaylistEntry>,
    order: Seq<TrackRef>,
    t: TrackRef,
) -> PlayerView {
    playing(PlayerView { queue: order, pos: place_of(order, t), ..p }, es, t)
}

/// The mode becomes `m`. Going to shuffle takes the order `shuffled`, coming from
/// it goes back to library order, and the position follows the song that plays.
pub open spec fn switching(p: PlayerView, m: PlayMode, shuffled: Seq<TrackRef>) -> PlayerView {
    let queue = if m == PlayMode::Shuffle {
        shuffled
    } else if p.mode == PlayMode::Shuffle {
        seqs::sorted(p.queue, seqs::order::<TrackRef>())
    } else {
        p.queue
    };
    PlayerView {
        mode: m,
        queue,
        pos: match p.playing {
            Some(t) => place_of(queue, t),
            None => p.pos,
        },
        ..p
    }
}

/// The position after entry `q` left a queue that then has `n` entries.
pub open spec fn shifted(pos: Option<usize>, q: usize, n: nat) -> Option<usize> {
    match pos {
        None => None,
        Some(p) => if p == q && n == 0 {
            None
        } else if p >= n {
            Some((n - 1) as usize)
        } else if p > q {
            Some((p - 1) as usize)
        } else {
            Some(p)
        },
    }
}

/// Entry `q` leaves the queue; if it was playing, what now stands at the position
/// plays, and nothing where the queue is empty.
pub open spec fn removing(p: PlayerView, es: Seq<library::PlaylistEntry>, q: usize) -> (
    PlayerView,
    RemoveOutcome,
) {
    if q >= p.queue.len() {
        (p, RemoveOutcome::Unaffected)
    } else {
        let queue = p.queue.remove(q as int);
        let pos = shifted(p.pos, q, queue.len());
        let left = PlayerView { queue, pos, ..p };
        if p.pos != Some(q) {
            (left, RemoveOutcome::Unaffected)
        } else {
            match pos {
                None => (
                    PlayerView { playing: None, ..sending(left, CmdView::Stop) },
                    RemoveOutcome::Stopped,
                ),
                Some(at) => (
                    playing(left, es, queue[at as int]),
                    RemoveOutcome::Switched { track: queue[at as int] },
                ),
            }
        }
    }
}

/// A track joins the end of the queue, and plays where nothing does.
pub open spec fn appending(p: PlayerView, es: Seq<library::PlaylistEntry>, t: TrackRef) -> (
    PlayerView,
    AppendOutcome,
) {
    let longer = PlayerView { queue: p.queue.push(t), ..p };
    let queue_len = longer.queue.len() as usize;
    if p.playing is None {
        (
            playing(PlayerView { pos: Some((queue_len - 1) as usize), ..longer }, es, t),
            AppendOutcome::StartedPlaying { track: t, queue_len },
        )
    } else {
        (longer, AppendOutcome::Queued { queue_len })
    }
}

/// A saved queue comes back; its current track is looked up, not played.
pub open spec fn restoring(
    p: PlayerView,
    es: Seq<library::PlaylistEntry>,
    queue: Seq<TrackRef>,
    pos: Option<usize>,
) -> PlayerView {
    let back = PlayerView { queue, pos, started: false, ..p };
    match pos {
        Some(q) if q < queue.len() => prefetching(
            PlayerView { playing: Some(queue[q as int]), ..back },
            video_at(es, queue[q as int]),
        ),
        _ => back,
    }
}

/// The volume after the mute key.
pub open spec fn muting(p: PlayerView) -> PlayerView {
    let q = if p.muted {
        PlayerView { muted: false, volume: p.pre_mute, ..p }
    } else {
        PlayerView { muted: true, pre_mute: p.volume, volume: 0, ..p }
    };
    sending(q, CmdView::Volume(q.volume))
}

/// The volume to keep between runs: muted, it is the level before.
pub open spec fn lasting_volume(p: PlayerView) -> u8 {
    if p.muted {
        p.pre_mute
    } else {
        p.volume
    }
}

/// A level between 0 and 100.
pub open spec fn percent(v: int) -> u8 {
    if v < 0 {
        0
    } else if v > 100 {
        100
    } else {
        v as u8
    }
}

/// The volume is `v`, and the sound is not muted.
pub open spec fn at_volume(p: PlayerView, v: u8) -> PlayerView {
    sending(PlayerView { muted: false, volume: v, ..p }, CmdView::Volume(v))
}

/// One step forward and one back end at the same place of the queue.
pub proof fn next_then_prev(p: PlayerView, es: Seq<library::PlaylistEntry>)
    requires
        p.wf(),
        p.pos is Some,
        p.queue.len() <= usize::MAX,
    ensures
        stepping(stepping(p, es, 1), es, -1).pos == p.pos,
        stepping(stepping(p, es, -1), es, 1).pos == p.pos,
{
    let n = p.queue.len() as int;
    let q = p.pos->0 as int;
    lemma_around(q, 1, n);
    lemma_around(q, -1, n);
    lemma_playing_frame(
        PlayerView { pos: Some(around(q, 1, n) as usize), ..p },
        es,
        p.queue[around(q, 1, n)],
    );
    lemma_playing_frame(
        PlayerView { pos: Some(around(q, -1, n) as usize), ..p },
        es,
        p.queue[around(q, -1, n)],
    );
    let f = stepping(p, es, 1);
    let b = stepping(p, es, -1);
    lemma_around(f.pos->0 as int, -1, n);
    lemma_around(b.pos->0 as int, 1, n);
    lemma_playing_frame(PlayerView { pos: Some(q as usize), ..f }, es, p.queue[q]);
    lemma_playing_frame(PlayerView { pos: Some(q as usize), ..b }, es, p.queue[q]);
}

proof fn lemma_around(p: int, d: int, n: int)
    requires
        0 <= p < n,
    ensures
        0 <= around(p, d, n) < n,
        around(around(p, d, n), -d, n) == p,
{
    vstd::arithmetic::div_mod::lemma_mod_bound(p + d, n);
    vstd::arithmetic::div_mod::lemma_add_mod_noop(p + d, -d, n);
    vstd::arithmetic::div_mod::lemma_add_mod_noop((p + d) % n, -d, n);
    vstd::arithmetic::div_mod::lemma_mod_twice(p + d, n);
    vstd::arithmetic::div_mod::lemma_small_mod(p as nat, n as nat);
}

/// A full round through the queue ends where it began.
pub proof fn a_round_comes_back(p: int, n: int)
    requires
        0 <= p < n,
    ensures
        around(p, n, n) == p,
{
    vstd::arithmetic::div_mod::lemma_mod_add_multiples_vanish(p, n);
    vstd::arithmetic::div_mod::lemma_small_mod(p as nat, n as nat);
}

proof fn lemma_playing_frame(p: PlayerView, es: Seq<library::PlaylistEntry>, t: TrackRef)
    ensures
        ({
            let r = playing(p, es, t);
            &&& r.queue == p.queue
            &&& r.pos == p.pos
            &&& r.mode == p.mode
            &&& r.volume == p.volume
            &&& r.muted == p.muted
            &&& r.pre_mute == p.pre_mute
        }),
{
}

/// The mute key pressed twice leaves the player as it was, muted or not. Each press
/// sends the audio thread the new volume and nothing else.
pub proof fn muting_twice(p: PlayerView)
    requires
        p.wf(),
    ensures
        muting(p).sent == p.sent.push(CmdView::Volume(muting(p).volume)),
        muting(muting(p)) == (PlayerView {
            pre_mute: lasting_volume(p),
            sent: p.sent.push(CmdView::Volume(muting(p).volume)).push(CmdView::Volume(p.volume)),
            ..p
        }),
        lasting_volume(muting(muting(p))) == lasting_volume(p),
{
}

/// The mute key never changes the volume that is kept between runs.
pub proof fn muting_keeps_the_lasting_volume(p: PlayerView)
    ensures
        lasting_volume(muting(p)) == lasting_volume(p),
{
}

/// A change of mode loses no track and adds none.
pub proof fn switching_keeps_the_tracks(p: PlayerView, m: PlayMode, shuffled: Seq<TrackRef>)
    requires
        shuffled.to_multiset() == p.queue.to_multiset(),
    ensures
        switching(p, m, shuffled).queue.to_multiset() == p.queue.to_multiset(),
        switching(p, m, shuffled).queue.len() == p.queue.len(),
{
    broadcast use vstd::seq_lib::group_to_multiset_ensures;

    seqs::lemma_sorted_permutes(p.queue, seqs::order::<TrackRef>());
    shuffled.to_multiset_ensures();
    p.queue.to_multiset_ensures();
}

/// After a change of mode the position is on the song that plays, if the queue
/// has it, and nothing is sent to the audio thread.
pub proof fn switching_stays_on_the_song(p: PlayerView, m: PlayMode, shuffled: Seq<TrackRef>)
    requires
        p.playing is Some,
        shuffled.to_multiset() == p.queue.to_multiset(),
        p.queue.contains(p.playing->0),
        p.queue.len() <= usize::MAX,
    ensures
        ({
            let r = switching(p, m, shuffled);
            &&& r.pos matches Some(q) && q < r.queue.len() && r.queue[q as int] == p.playing->0
            &&& r.sent == p.sent
            &&& r.playing == p.playing
        }),
{
    broadcast use vstd::seq_lib::group_to_multiset_ensures;

    switching_keeps_the_tracks(p, m, shuffled);
    let t = p.playing->0;
    let queue = switching(p, m, shuffled).queue;
    assert(p.queue.to_multiset().count(t) > 0);
    assert(queue.to_multiset().count(t) > 0);
    assert(queue.contains(t));
    let f = is_track(t);
    seqs::lemma_first_where(queue, f, 0);
    let k = choose|k: int| 0 <= k < queue.len() && queue[k] == t;
    assert(f(queue[k]));
}

/// Leaving shuffle puts the queue in library order.
pub proof fn leaving_shuffle_sorts(p: PlayerView, m: PlayMode, shuffled: Seq<TrackRef>)
    requires
        p.mode == PlayMode::Shuffle,
        m != PlayMode::Shuffle,
    ensures
        seqs::in_order(switching(p, m, shuffled).queue, seqs::order::<TrackRef>()),
{
    lemma_tracks_total();
    seqs::lemma_sorted_in_order(p.queue, seqs::order::<TrackRef>());
}

proof fn lemma_tracks_total()
    ensures
        seqs::total(seqs::order::<TrackRef>()),
{
}

/// Removing an entry that does not play leaves the position on the entry it was on.
pub proof fn removing_another_entry(p: PlayerView, es: Seq<library::PlaylistEntry>, q: usize)
    requires
        p.wf(),
        p.pos is Some,
        p.pos != Some(q),
        q < p.queue.len(),
        p.queue.len() <= usize::MAX,
    ensures
        ({
            let r = removing(p, es, q).0;
            &&& r.wf()
            &&& r.pos is Some
            &&& r.queue[r.pos->0 as int] == p.queue[p.pos->0 as int]
            &&& r.playing == p.playing
            &&& r.sent == p.sent
        }),
{
}

/// Removing the only entry while it plays stops playback.
pub proof fn removing_the_last_entry_stops(p: PlayerView, es: Seq<library::PlaylistEntry>)
    requires
        p.queue.len() == 1,
        p.pos == Some(0usize),
    ensures
        removing(p, es, 0).1 == RemoveOutcome::Stopped,
        removing(p, es, 0).0.playing is None,
        removing(p, es, 0).0.pos is None,
        removing(p, es, 0).0.sent == p.sent.push(CmdView::Stop),
{
}

impl Ranked for (usize, usize) {
    open spec fn le(&self, other: &Self) -> bool {
        self.0 < other.0 || (self.0 == other.0 && self.1 <= other.1)
    }

    fn at_most(&self, other: &Self) -> (r: bool) {
        self.0 < other.0 || (self.0 == other.0 && self.1 <= other.1)
    }
}

/// `SliceRandom::shuffle` of the crate `rand`, driven by the thread's generator: it
/// only swaps entries, so every one is still there afterwards. Which order comes
/// out is left to chance.
#[verifier::external_body]
pub(crate) fn shuffle<A>(queue: &mut Vec<A>)
    ensures
        final(queue)@.to_multiset() == old(queue)@.to_multiset(),
{
    queue.shuffle(&mut rand::thread_rng());
}

fn position_of(queue: &Vec<TrackRef>, t: TrackRef) -> (r: Option<usize>)
    ensures
        r == place_of(queue@, t),
        r matches Some(i) ==> i < queue@.len() && queue@[i as int] == t,
{
    let mut i: usize = 0;
    while i < queue.len()
        invariant
            seqs::first_where(queue@, is_track(t), 0) == seqs::first_where(
                queue@,
                is_track(t),
                i as int,
            ),
        decreases queue@.len() - i,
    {
        if queue[i].0 == t.0 && queue[i].1 == t.1 {
            return Some(i);
        }
        i += 1;
    }
    None
}

fn copy_of(queue: &Vec<TrackRef>) -> (r: Vec<TrackRef>)
    ensures
        r@ == queue@,
{
    let mut out: Vec<TrackRef> = Vec::new();
    let mut i: usize = 0;
    while i < queue.len()
        invariant
            i <= queue@.len(),
            out@ == queue@.take(i as int),
        decreases queue@.len() - i,
    {
        out.push(queue[i]);
        i += 1;
    }
    assert(queue@.take(queue@.len() as int) == queue@);
    out
}

/// The contents of a mailbox.
pub open spec fn mail(cmds: Seq<Cmd>) -> Seq<CmdView> {
    cmds.map_values(|c: Cmd| c@)
}

/// The queue, the volume and the mailbox.
pub struct Player {
    sent: Vec<Cmd>,
    queue: Vec<TrackRef>,
    queue_pos: Option<usize>,
    mode: PlayMode,
    playing: Option<TrackRef>,
    playback_started: bool,
    volume: u8,
    muted: bool,
    pre_mute_vol: u8,
}

impl View for Player {
    type V = PlayerView;

    closed spec fn view(&self) -> PlayerView {
        PlayerView {
            queue: self.queue@,
            pos: self.queue_pos,
            mode: self.mode,
            playing: self.playing,
            started: self.playback_started,
            volume: self.volume,
            muted: self.muted,
            pre_mute: self.pre_mute_vol,
            sent: mail(self.sent@),
        }
    }
}

impl Player {
    /// An empty queue at the usual volume, which the audio thread is told.
    pub fn new() -> (r: Self)
        ensures
            r@ == (PlayerView {
                queue: Seq::empty(),
                pos: None,
                mode: PlayMode::Cycle,
                playing: None,
                started: false,
                volume: 80,
                muted: false,
                pre_mute: 80,
                sent: seq![CmdView::Volume(80)],
            }),
            r@.wf(),
    {
        let mut sent: Vec<Cmd> = Vec::new();
        sent.push(Cmd::Volume(80));
        assert(mail(sent@) =~= seq![CmdView::Volume(80)]);
        Player {
            sent,
            queue: Vec::new(),
            queue_pos: None,
            mode: PlayMode::Cycle,
            playing: None,
            playback_started: false,
            volume: 80,
            muted: false,
            pre_mute_vol: 80,
        }
    }

    fn send(&mut self, c: Cmd)
        ensures
            final(self)@ == sending(old(self)@, c@),
    {
        self.sent.push(c);
        assert(self@.sent =~= old(self)@.sent.push(c@));
    }

    /// Empties the mailbox.
    pub fn take_commands(&mut self) -> (r: Vec<Cmd>)
        ensures
            mail(r@) == old(self)@.sent,
            final(self)@ == (PlayerView { sent: Seq::empty(), ..old(self)@ }),
    {
        let mut out: Vec<Cmd> = Vec::new();
        std::mem::swap(&mut out, &mut self.sent);
        assert(self@.sent =~= Seq::empty());
        out
    }

    /// The queue.
    pub fn queue(&self) -> (r: &[TrackRef])
        ensures
            r@ == self@.queue,
    {
        self.queue.as_slice()
    }

    /// The current place in the queue.
    pub fn queue_position(&self) -> (r: Option<usize>)
        ensures
            r == self@.pos,
    {
        self.queue_pos
    }

    /// The track that plays, or would.
    pub fn playing(&self) -> (r: Option<TrackRef>)
        ensures
            r == self@.playing,
    {
        self.playing
    }

    /// Whether playback was ever asked for, as opposed to a queue that came back.
    pub fn playback_started(&self) -> (r: bool)
        ensures
            r == self@.started,
    {
        self.playback_started
    }

    /// The mode.
    pub fn mode(&self) -> (r: PlayMode)
        ensures
            r == self@.mode,
    {
        self.mode
    }

    /// The volume.
    pub fn volume(&self) -> (r: u8)
        ensures
            r == self@.volume,
    {
        self.volume
    }

    /// Whether the sound is off.
    pub fn is_muted(&self) -> (r: bool)
        ensures
            r == self@.muted,
    {
        self.muted
    }

    /// The volume to keep between runs.
    pub fn effective_volume(&self) -> (r: u8)
        ensures
            r == lasting_volume(self@),
    {
        if self.muted {
            self.pre_mute_vol
        } else {
            self.volume
        }
    }

    /// Has the stream of `video_id` looked up ahead of time.
    pub fn prefetch(&mut self, video_id: &str)
        ensures
            final(self)@ == prefetching(old(self)@, Some(video_id@)),
    {
        if !video_id.is_empty() {
            self.send(Cmd::Prefetch(video_id.to_owned()));
        }
    }

    /// Starts a queue from a playlist, in the order of the mode, and plays one of
    /// its songs. Shuffled, the order is one of the playlist's songs' orders.
    pub fn play(&mut self, library: &Library, pl_idx: usize, song_idx: usize)
        ensures
            exists|order: Seq<TrackRef>|
                {
                    let n = library::songs_at(library@, pl_idx as int).len();
                    &&& order.to_multiset() == album_order(pl_idx, n).to_multiset()
                    &&& old(self)@.mode != PlayMode::Shuffle ==> order == album_order(pl_idx, n)
                    &&& final(self)@ == #[trigger] opening(
                        old(self)@,
                        library@,
                        order,
                        (pl_idx, song_idx),
                    )
                },
            old(self)@.wf() ==> final(self)@.wf(),
    {
        let n: usize = library.songs(pl_idx).len();
        let mut order: Vec<TrackRef> = Vec::new();
        let mut i: usize = 0;
        while i < n
            invariant
                i <= n,
                order@ == album_order(pl_idx, i as nat),
            decreases n - i,
        {
            order.push((pl_idx, i));
            assert(order@ =~= album_order(pl_idx, (i + 1) as nat));
            i += 1;
        }
        if self.mode == PlayMode::Shuffle {
            shuffle(&mut order);
        }
        self.play_in_order(library, order, pl_idx, song_idx);
    }

    /// Takes `order` as the queue and plays `(pl_idx, song_idx)`, whose first place
    /// in it becomes the position.
    pub fn play_in_order(
        &mut self,
        library: &Library,
        order: Vec<TrackRef>,
        pl_idx: usize,
        song_idx: usize,
    )
        ensures
            final(self)@ == opening(old(self)@, library@, order@, (pl_idx, song_idx)),
            old(self)@.wf() ==> final(self)@.wf(),
    {
        self.queue_pos = position_of(&order, (pl_idx, song_idx));
        self.queue = order;
        self.do_play(library, pl_idx, song_idx);
    }

    /// Pauses or resumes, unless audio still loads. Says whether it did.
    pub fn toggle_pause(&mut self, audio: &AudioState) -> (r: bool)
        ensures
            r == !audio.loading,
            final(self)@ == pausing(old(self)@, audio.loading, audio.paused),
    {
        if audio.loading {
            return false;
        }
        if audio.paused {
            self.send(Cmd::Resume);
        } else {
            self.send(Cmd::Pause);
        }
        true
    }

    /// Moves by `delta` nanoseconds.
    pub fn seek(&mut self, delta: i64)
        ensures
            final(self)@ == sending(old(self)@, CmdView::Seek(delta as int)),
    {
        self.send(Cmd::Seek(delta));
    }

    /// Sets the volume, at most 100, and unmutes.
    pub fn set_volume(&mut self, volume: u8)
        ensures
            final(self)@ == at_volume(old(self)@, percent(volume as int)),
            old(self)@.wf() ==> final(self)@.wf(),
    {
        self.muted = false;
        self.volume = if volume > 100 {
            100
        } else {
            volume
        };
        self.send(Cmd::Volume(self.volume));
    }

    /// Changes the volume by `delta`, within 0 and 100, and unmutes.
    pub fn adjust_volume(&mut self, delta: i8)
        ensures
            final(self)@ == at_volume(old(self)@, percent(old(self)@.volume + delta)),
            old(self)@.wf() ==> final(self)@.wf(),
    {
        let next: i16 = self.volume as i16 + delta as i16;
        let v: u8 = if next < 0 {
            0
        } else if next > 100 {
            100
        } else {
            next as u8
        };
        self.set_volume(v);
    }

    /// Mutes or unmutes.
    pub fn toggle_mute(&mut self)
        ensures
            final(self)@ == muting(old(self)@),
            old(self)@.wf() ==> final(self)@.wf(),
    {
        if self.muted {
            self.muted = false;
            self.volume = self.pre_mute_vol;
        } else {
            self.pre_mute_vol = self.volume;
            self.muted = true;
            self.volume = 0;
        }
        self.send(Cmd::Volume(self.volume));
    }

    /// Switches to the next mode. Into shuffle, the queue takes some order of the
    /// same tracks.
    pub fn cycle_mode(&mut self)
        ensures
            exists|order: Seq<TrackRef>|
                order.to_multiset() == old(self)@.queue.to_multiset() && final(self)@
                    == #[trigger] switching(old(self)@, next_mode(old(self)@.mode), order),
            old(self)@.wf() ==> final(self)@.wf(),
    {
        let to = self.mode.next();
        let mut order = copy_of(&self.queue);
        if to == PlayMode::Shuffle {
            shuffle(&mut order);
        }
        self.sync_queue_to_mode(to, order);
    }

    /// Switches to `mode`, with `shuffled` as the order if that is shuffle.
    pub fn sync_queue_to_mode(&mut self, mode: PlayMode, shuffled: Vec<TrackRef>)
        ensures
            final(self)@ == switching(old(self)@, mode, shuffled@),
            old(self)@.wf() && shuffled@.to_multiset() == old(self)@.queue.to_multiset()
                ==> final(self)@.wf(),
    {
        proof {
            if shuffled@.to_multiset() == self@.queue.to_multiset() {
                switching_keeps_the_tracks(self@, mode, shuffled@);
            }
        }
        if mode == PlayMode::Shuffle {
            self.queue = shuffled;
        } else if self.mode == PlayMode::Shuffle {
            seqs::sort(&mut self.queue);
        }
        self.mode = mode;
        match self.playing {
            Some(t) => {
                self.queue_pos = position_of(&self.queue, t);
            },
            None => {},
        }
    }

    /// Moves `delta` places through the queue and plays.
    pub fn advance(&mut self, library: &Library, delta: i64)
        ensures
            final(self)@ == stepping(old(self)@, library@, delta as int),
            old(self)@.wf() ==> final(self)@.wf(),
    {
        let n: usize = self.queue.len();
        if n == 0 {
            return;
        }
        let pos: usize = match self.queue_pos {
            Some(p) => {
                let sum: i128 = p as i128 + delta as i128;
                let ring: i128 = n as i128;
                match sum.checked_rem_euclid(ring) {
                    Some(at) => at as usize,
                    None => 0,
                }
            },
            None => 0,
        };
        self.queue_pos = Some(pos);
        let (pl, song) = self.queue[pos];
        self.do_play(library, pl, song);
    }

    /// Plays the entry at `q_pos`.
    pub fn jump_to(&mut self, library: &Library, q_pos: usize)
        ensures
            final(self)@ == jumping(old(self)@, library@, q_pos),
            old(self)@.wf() ==> final(self)@.wf(),
    {
        if q_pos >= self.queue.len() {
            return;
        }
        self.queue_pos = Some(q_pos);
        let (pl, song) = self.queue[q_pos];
        self.do_play(library, pl, song);
    }

    /// The next song.
    pub fn next(&mut self, library: &Library)
        ensures
            final(self)@ == stepping(old(self)@, library@, 1),
            old(self)@.wf() ==> final(self)@.wf(),
    {
        self.advance(library, 1);
    }

    /// The song before.
    pub fn prev(&mut self, library: &Library)
        ensures
            final(self)@ == stepping(old(self)@, library@, -1),
            old(self)@.wf() ==> final(self)@.wf(),
    {
        self.advance(library, -1);
    }

    /// Goes on when a song ended by itself: the same one again in single mode, else
    /// the next. Says whether playback changed.
    pub fn handle_song_end(&mut self, library: &Library, ended: bool) -> (r: bool)
        ensures
            r == ended,
            final(self)@ == if ended {
                ending(old(self)@, library@)
            } else {
                old(self)@
            },
            old(self)@.wf() ==> final(self)@.wf(),
    {
        if !ended {
            return false;
        }
        match self.mode {
            PlayMode::Single => {
                match self.playing {
                    Some(t) => self.do_play(library, t.0, t.1),
                    None => {},
                }
            },
            _ => self.advance(library, 1),
        }
        true
    }

    /// Puts a track at the end of the queue.
    pub fn append_to_queue(&mut self, library: &Library, pl_idx: usize, song_idx: usize) -> (r:
        AppendOutcome)
        ensures
            (final(self)@, r) == appending(old(self)@, library@, (pl_idx, song_idx)),
            old(self)@.wf() ==> final(self)@.wf(),
    {
        self.queue.push((pl_idx, song_idx));
        let queue_len: usize = self.queue.len();
        if self.playing.is_none() {
            self.queue_pos = Some(queue_len - 1);
            self.do_play(library, pl_idx, song_idx);
            AppendOutcome::StartedPlaying { track: (pl_idx, song_idx), queue_len }
        } else {
            AppendOutcome::Queued { queue_len }
        }
    }

    /// Takes the entry at `q_pos` out of the queue.
    pub fn remove_from_queue(&mut self, library: &Library, q_pos: usize) -> (r: RemoveOutcome)
        requires
            old(self)@.queue.len() == 1 && q_pos == 0 ==> (old(self)@.pos matches Some(p) ==> p
                == 0),
        ensures
            (final(self)@, r) == removing(old(self)@, library@, q_pos),
            old(self)@.wf() ==> final(self)@.wf(),
    {
        if q_pos >= self.queue.len() {
            return RemoveOutcome::Unaffected;
        }
        let was_playing = match self.queue_pos {
            Some(p) => p == q_pos,
            None => false,
        };
        self.queue.remove(q_pos);
        let n: usize = self.queue.len();
        self.queue_pos = match self.queue_pos {
            None => None,
            Some(p) => if p == q_pos && n == 0 {
                None
            } else if p >= n {
                Some(n - 1)
            } else if p > q_pos {
                Some(p - 1)
            } else {
                Some(p)
            },
        };
        if !was_playing {
            return RemoveOutcome::Unaffected;
        }
        match self.queue_pos {
            None => {
                self.send(Cmd::Stop);
                self.playing = None;
                RemoveOutcome::Stopped
            },
            Some(pos) => {
                let track = self.queue[pos];
                self.do_play(library, track.0, track.1);
                RemoveOutcome::Switched { track }
            },
        }
    }

    /// Takes up a saved queue without playing; the current track is looked up.
    pub fn restore(&mut self, library: &Library, queue: Vec<TrackRef>, position: Option<usize>)
        ensures
            final(self)@ == restoring(old(self)@, library@, queue@, position),
            old(self)@.wf() && (position matches Some(p) ==> p < queue@.len()) ==> final(self)@.wf(),
    {
        self.queue = queue;
        self.queue_pos = position;
        self.playback_started = false;
        let pos: usize = match position {
            Some(p) => p,
            None => return,
        };
        if pos >= self.queue.len() {
            return;
        }
        let track = self.queue[pos];
        self.playing = Some(track);
        match library.track(track.0, track.1) {
            Some(t) => match &t.video_id {
                Some(id) => self.prefetch(id.as_str()),
                None => {},
            },
            None => {},
        }
    }

    /// Plays the current track, after a queue came back.
    pub fn start_current(&mut self, library: &Library)
        ensures
            final(self)@ == starting(old(self)@, library@),
            old(self)@.wf() ==> final(self)@.wf(),
    {
        match self.playing {
            Some(t) => self.do_play(library, t.0, t.1),
            None => {},
        }
    }

    fn do_play(&mut self, library: &Library, pl_idx: usize, song_idx: usize)
        ensures
            final(self)@ == playing(old(self)@, library@, (pl_idx, song_idx)),
            final(self)@.queue == old(self)@.queue,
            final(self)@.pos == old(self)@.pos,
            final(self)@.volume == old(self)@.volume,
            final(self)@.pre_mute == old(self)@.pre_mute,
    {
        let track = match library.track(pl_idx, song_idx) {
            Some(t) => t,
            None => return,
        };
        match &track.video_id {
            Some(id) => {
                if !id.as_str().is_empty() {
                    self.send(Cmd::Play(id.clone()));
                    self.send(Cmd::Volume(self.volume));
                }
            },
            None => {},
        }
        self.playing = Some((pl_idx, song_idx));
        self.playback_started = true;
        self.prefetch_upcoming(library);
    }

    fn prefetch_upcoming(&mut self, library: &Library)
        ensures
            final(self)@ == looking_ahead(old(self)@, library@),
    {
        let n: usize = self.queue.len();
        if n == 0 {
            return;
        }
        let p: usize = match self.queue_pos {
            Some(p) => p,
            None => return,
        };
        let at: usize = (p % n + 1) % n;
        proof {
            vstd::arithmetic::div_mod::lemma_add_mod_noop(p as int, 1, n as int);
            vstd::arithmetic::div_mod::lemma_add_mod_noop((p % n) as int, 1, n as int);
            vstd::arithmetic::div_mod::lemma_mod_twice(p as int, n as int);
        }
        let t = self.queue[at];
        match library.track(t.0, t.1) {
            Some(track) => match &track.video_id {
                Some(id) => self.prefetch(id.as_str()),
                None => {},
            },
            None => {},
        }
    }
}

impl Default for Player {
    fn default() -> (r: Self)
        ensures
            r@ == (PlayerView {
                queue: Seq::empty(),
                pos: None,
                mode: PlayMode::Cycle,
                playing: None,
                started: false,
                volume: 80,
                muted: false,
                pre_mute: 80,
                sent: seq![CmdView::Volume(80)],
            }),
            r@.wf(),
    {
        Player::new()
    }
}

} // verus!
