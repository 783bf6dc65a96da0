//! An audio thread that starts a song from its page at once.
//!
//! While the page plays, the stream's own address is looked up; if it comes before
//! the song does, the song is loaded from there instead.

use crate::assoc::TextMap;
use crate::playback;
use crate::playback::{AudioState, AudioView, Cmd, CmdView, PlayerEvent};
use crate::text;
use vstd::prelude::*;

verus! {

/// How many lookups ahead of time run at once.
pub const MAX_LOOKAHEAD: usize = 2;

/// What the thread has to carry out.
pub enum Order {
    /// Look up the stream address of a video.
    Resolve(String),
    /// Load this address, replacing what plays.
    Load(String),
    SetPause(bool),
    SeekRelative(i64),
    SeekAbsolute(i64),
    SetVolume(u8),
    Halt,
}

/// The content of an [`Order`].
pub enum OrderView {
    Resolve(Seq<char>),
    Load(Seq<char>),
    SetPause(bool),
    SeekRelative(int),
    SeekAbsolute(int),
    SetVolume(u8),
    Halt,
}

impl View for Order {
    type V = OrderView;

    open spec fn view(&self) -> OrderView {
        match self {
            Order::Resolve(id) => OrderView::Resolve(id@),
            Order::Load(url) => OrderView::Load(url@),
            Order::SetPause(b) => OrderView::SetPause(*b),
            Order::SeekRelative(d) => OrderView::SeekRelative(*d as int),
            Order::SeekAbsolute(t) => OrderView::SeekAbsolute(*t as int),
            Order::SetVolume(v) => OrderView::SetVolume(*v),
            Order::Halt => OrderView::Halt,
        }
    }
}

/// The contents of a list of orders.
pub open spec fn order_views(s: Seq<Order>) -> Seq<OrderView> {
    s.map_values(|o: Order| o@)
}

/// The mathematical content of a [`Deck`].
pub struct DeckView {
    pub urls: Map<Seq<char>, Seq<char>>,
    pub fetching: Set<Seq<char>>,
    /// The song whose own address may still take over.
    pub pending: Option<Seq<char>>,
    pub state: AudioView,
}

/// A lookup came back. A found address is kept, and takes over a song that still
/// loads from its page.
pub open spec fn after_lookup(v: DeckView, id: Seq<char>, url: Option<Seq<char>>) -> (
    DeckView,
    Seq<OrderView>,
) {
    let waited = v.pending == Some(id);
    (
        DeckView {
            fetching: v.fetching.remove(id),
            pending: if waited {
                None
            } else {
                v.pending
            },
            urls: match url {
                Some(u) => v.urls.insert(id, u),
                None => v.urls,
            },
            ..v
        },
        match url {
            Some(u) if waited && v.state.loading => seq![OrderView::Load(u)],
            _ => Seq::empty(),
        },
    )
}

/// The state of a song that was just asked for.
pub open spec fn fresh() -> AudioView {
    AudioView {
        elapsed: 0,
        total: 0,
        paused: false,
        loading: true,
        error: None,
        song_ended: false,
    }
}

/// The interface asked for something.
pub open spec fn after_command(v: DeckView, cmd: CmdView) -> (DeckView, Seq<OrderView>) {
    match cmd {
        CmdView::Play(id) => if v.urls.contains_key(id) {
            (
                DeckView { pending: None, state: fresh(), ..v },
                seq![OrderView::Load(v.urls[id]), OrderView::SetPause(false)],
            )
        } else if v.fetching.contains(id) {
            (
                DeckView { pending: None, state: fresh(), ..v },
                seq![OrderView::Load(playback::watch_page(id)), OrderView::SetPause(false)],
            )
        } else {
            (
                DeckView {
                    fetching: v.fetching.insert(id),
                    pending: Some(id),
                    state: fresh(),
                    ..v
                },
                seq![
                    OrderView::Resolve(id),
                    OrderView::Load(playback::watch_page(id)),
                    OrderView::SetPause(false),
                ],
            )
        },
        CmdView::Prefetch(id) => if v.urls.contains_key(id) || v.fetching.contains(id)
            || v.fetching.len() >= MAX_LOOKAHEAD {
            (v, Seq::empty())
        } else {
            (
                DeckView { fetching: v.fetching.insert(id), ..v },
                seq![OrderView::Resolve(id)],
            )
        },
        CmdView::Pause => (v, seq![OrderView::SetPause(true)]),
        CmdView::Resume => (v, seq![OrderView::SetPause(false)]),
        CmdView::Seek(d) => (v, seq![OrderView::SeekRelative(d)]),
        CmdView::SeekAbs(t) => (v, seq![OrderView::SeekAbsolute(t)]),
        CmdView::Volume(x) => (v, seq![OrderView::SetVolume(x)]),
        CmdView::Stop => (v, seq![OrderView::Halt]),
    }
}

/// The player reported something.
pub open spec fn after_event(v: DeckView, ev: PlayerEvent) -> DeckView {
    match ev {
        PlayerEvent::TimePos(t) => DeckView {
            state: AudioView { elapsed: t as int, ..v.state },
            ..v
        },
        PlayerEvent::Pause(b) => DeckView { state: AudioView { paused: b, ..v.state }, ..v },
        PlayerEvent::Duration(t) => DeckView {
            pending: None,
            state: AudioView { total: t as int, loading: false, ..v.state },
            ..v
        },
        PlayerEvent::EofReached(b) => DeckView {
            state: AudioView { song_ended: v.state.song_ended || b, ..v.state },
            ..v
        },
        PlayerEvent::StartFile => DeckView {
            state: AudioView { loading: true, elapsed: 0, ..v.state },
            ..v
        },
        PlayerEvent::EndFile => DeckView { state: AudioView { loading: false, ..v.state }, ..v },
        PlayerEvent::Failed(_) | PlayerEvent::Other => v,
    }
}

/// A song that has begun to play is not loaded again when its address comes.
pub proof fn a_playing_song_is_not_reloaded(v: DeckView, length: i64, id: Seq<char>, url: Seq<char>)
    ensures
        after_lookup(after_event(v, PlayerEvent::Duration(length)), id, Some(url)).1.len() == 0,
{
}

/// A song whose address is known starts from there.
pub proof fn a_kept_address_is_used(v: DeckView, id: Seq<char>, url: Seq<char>)
    ensures
        after_command(after_lookup(v, id, Some(url)).0, CmdView::Play(id)).1 == seq![
            OrderView::Load(url),
            OrderView::SetPause(false),
        ],
{
}

/// The state of the audio thread.
pub struct Deck {
    url_cache: TextMap<String>,
    fetching: TextMap<()>,
    pending_resolve: Option<String>,
    state: AudioState,
}

impl View for Deck {
    type V = DeckView;

    closed spec fn view(&self) -> DeckView {
        DeckView {
            urls: self.url_cache@.map_values(|s: String| s@),
            fetching: self.fetching@.dom(),
            pending: text::opt(self.pending_resolve),
            state: self.state@,
        }
    }
}

fn add_order(out: &mut Vec<Order>, o: Order)
    ensures
        order_views(final(out)@) == order_views(old(out)@).push(o@),
{
    out.push(o);
    assert(order_views(out@) =~= order_views(old(out)@).push(o@));
}

impl Deck {
    /// An idle deck.
    pub fn new() -> (r: Self)
        ensures
            r@ == (DeckView {
                urls: Map::empty(),
                fetching: Set::empty(),
                pending: None,
                state: AudioView { loading: false, ..fresh() },
            }),
    {
        let r = Deck {
            url_cache: TextMap::new(),
            fetching: TextMap::new(),
            pending_resolve: None,
            state: AudioState::default(),
        };
        assert(r@.urls =~= Map::empty());
        assert(r@.fetching =~= Set::empty());
        r
    }

    /// Playback as the interface sees it.
    pub fn state(&self) -> (r: &AudioState)
        ensures
            r@ == self@.state,
    {
        &self.state
    }

    /// Reads and clears the end-of-song mark.
    pub fn take_song_ended(&mut self) -> (r: bool)
        ensures
            r == old(self)@.state.song_ended,
            final(self)@ == (DeckView {
                state: AudioView { song_ended: false, ..old(self)@.state },
                ..old(self)@
            }),
    {
        let ended = self.state.song_ended;
        self.state.song_ended = false;
        ended
    }

    /// Takes in the result of a lookup.
    pub fn on_resolved(&mut self, id: String, url: Option<String>) -> (r: Vec<Order>)
        ensures
            (final(self)@, order_views(r@)) == after_lookup(old(self)@, id@, text::opt(url)),
    {
        let mut out: Vec<Order> = Vec::new();
        assert(order_views(out@) =~= Seq::empty());
        self.fetching.remove(id.as_str());
        assert(self@.fetching =~= old(self)@.fetching.remove(id@));
        let waited = match &self.pending_resolve {
            Some(p) => text::same_str(p.as_str(), id.as_str()),
            None => false,
        };
        if waited {
            self.pending_resolve = None;
        }
        match url {
            Some(u) => {
                if waited && self.state.loading {
                    add_order(&mut out, Order::Load(u.clone()));
                }
                self.url_cache.insert(id, u);
                assert(self@.urls =~= old(self)@.urls.insert(id@, u@));
            },
            None => {
                assert(self@.urls =~= old(self)@.urls);
            },
        }
        out
    }

    fn start_lookup(&mut self, id: &str, out: &mut Vec<Order>)
        ensures
            final(self)@ == (DeckView {
                fetching: old(self)@.fetching.insert(id@),
                ..old(self)@
            }),
            order_views(final(out)@) == order_views(old(out)@).push(OrderView::Resolve(id@)),
    {
        self.fetching.insert(id.to_owned(), ());
        assert(self@.fetching =~= old(self)@.fetching.insert(id@));
        add_order(out, Order::Resolve(id.to_owned()));
    }

    fn play(&mut self, id: String) -> (r: Vec<Order>)
        ensures
            (final(self)@, order_views(r@)) == after_command(old(self)@, CmdView::Play(id@)),
    {
        let ghost v = self@;
        let mut out: Vec<Order> = Vec::new();
        assert(order_views(out@) =~= Seq::empty());
        self.pending_resolve = None;
        let known = match self.url_cache.get(id.as_str()) {
            Some(u) => Some(u.clone()),
            None => None,
        };
        let url = match known {
            Some(u) => u,
            None => {
                if !self.fetching.contains_key(id.as_str()) {
                    self.start_lookup(id.as_str(), &mut out);
                    self.pending_resolve = Some(id.clone());
                }
                playback::watch_url(id.as_str())
            },
        };
        add_order(&mut out, Order::Load(url));
        add_order(&mut out, Order::SetPause(false));
        self.state.loading = true;
        self.state.paused = false;
        self.state.elapsed = 0;
        self.state.total = 0;
        self.state.error = None;
        self.state.song_ended = false;
        assert(order_views(out@) =~= after_command(v, CmdView::Play(id@)).1);
        out
    }

    /// Takes in a command.
    pub fn on_command(&mut self, cmd: Cmd) -> (r: Vec<Order>)
        ensures
            (final(self)@, order_views(r@)) == after_command(old(self)@, cmd@),
    {
        let mut out: Vec<Order> = Vec::new();
        assert(order_views(out@) =~= Seq::empty());
        match cmd {
            Cmd::Play(id) => return self.play(id),
            Cmd::Prefetch(id) => {
                let busy: usize = self.fetching.len();
                if !self.url_cache.contains_key(id.as_str()) && !self.fetching.contains_key(
                    id.as_str(),
                ) && busy < MAX_LOOKAHEAD {
                    self.start_lookup(id.as_str(), &mut out);
                }
            },
            Cmd::Pause => add_order(&mut out, Order::SetPause(true)),
            Cmd::Resume => add_order(&mut out, Order::SetPause(false)),
            Cmd::Seek(d) => add_order(&mut out, Order::SeekRelative(d)),
            Cmd::SeekAbs(t) => add_order(&mut out, Order::SeekAbsolute(t)),
            Cmd::Volume(x) => add_order(&mut out, Order::SetVolume(x)),
            Cmd::Stop => add_order(&mut out, Order::Halt),
        }
        assert(order_views(out@) =~= after_command(old(self)@, cmd@).1);
        out
    }

    /// Takes in an event of the player.
    pub fn on_event(&mut self, ev: PlayerEvent)
        ensures
            final(self)@ == after_event(old(self)@, ev),
    {
        match ev {
            PlayerEvent::TimePos(t) => self.state.elapsed = t,
            PlayerEvent::Pause(b) => self.state.paused = b,
            PlayerEvent::Duration(t) => {
                self.state.total = t;
                self.state.loading = false;
                self.pending_resolve = None;
            },
            PlayerEvent::EofReached(b) => {
                if b {
                    self.state.song_ended = true;
                }
            },
            PlayerEvent::StartFile => {
                self.state.loading = true;
                self.state.elapsed = 0;
            },
            PlayerEvent::EndFile => self.state.loading = false,
            PlayerEvent::Failed(_) => {},
            PlayerEvent::Other => {},
        }
    }
}

} // verus!
