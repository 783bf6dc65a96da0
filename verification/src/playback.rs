//! The audio thread's decisions: what to do about a command from the interface,
//! about a stream address that was looked up, and about an event from the player.
//!
//! An [`Engine`] holds the state. Each step takes one thing that happened and
//! returns the [`Action`]s to carry out, in order. Times are nanoseconds.

use vstd::prelude::*;

use crate::assoc::TextMap;
use crate::text;

verus! {

/// How many lookups may run at once before prefetching holds back.
pub const MAX_PREFETCH: usize = 3;

/// What the interface asks of the audio thread.
pub enum Cmd {
    /// Play this video.
    Play(String),
    /// Look this video's stream up before anyone presses play.
    Prefetch(String),
    Pause,
    Resume,
    /// Move by so many nanoseconds.
    Seek(i64),
    /// Move to this position.
    SeekAbs(i64),
    /// 0 to 100.
    Volume(u8),
    Stop,
}

/// What the interface sees of playback.
pub struct AudioState {
    pub elapsed: i64,
    pub total: i64,
    pub paused: bool,
    pub loading: bool,
    pub error: Option<String>,
    /// Set at the natural end of a song; whoever reads it resets it.
    pub song_ended: bool,
}

/// Why a lookup runs.
#[derive(Clone, Copy, PartialEq, Eq, Structural, Debug)]
pub enum Purpose {
    Resolve,
    Prefetch,
    ReResolve,
}

/// What the audio thread has to carry out.
pub enum Action {
    /// Look up the stream address of `id`.
    Resolve { id: String, purpose: Purpose },
    /// Load this address, replacing what plays, and unpause.
    Load(String),
    SetPause(bool),
    SeekRelative(i64),
    SeekAbsolute(i64),
    SetVolume(u8),
    Halt,
}

/// What the player reports.
pub enum PlayerEvent {
    TimePos(i64),
    Pause(bool),
    Duration(i64),
    EofReached(bool),
    StartFile,
    EndFile,
    /// The player's error of this number.
    Failed(i32),
    Other,
}

/// The mathematical content of an [`AudioState`].
pub struct AudioView {
    pub elapsed: int,
    pub total: int,
    pub paused: bool,
    pub loading: bool,
    pub error: Option<Seq<char>>,
    pub song_ended: bool,
}

/// The mathematical content of an [`Action`].
pub enum ActionView {
    Resolve { id: Seq<char>, purpose: Purpose },
    Load(Seq<char>),
    SetPause(bool),
    SeekRelative(int),
    SeekAbsolute(int),
    SetVolume(u8),
    Halt,
}

/// The mathematical content of a [`Cmd`].
pub enum CmdView {
    Play(Seq<char>),
    Prefetch(Seq<char>),
    Pause,
    Resume,
    Seek(int),
    SeekAbs(int),
    Volume(u8),
    Stop,
}

/// The mathematical content of an [`Engine`].
pub struct EngineView {
    pub urls: Map<Seq<char>, Seq<char>>,
    pub fetching: Set<Seq<char>>,
    pub pending: Option<Seq<char>>,
    pub current: Option<Seq<char>>,
    pub retried: bool,
    pub state: AudioView,
}

impl View for AudioState {
    type V = AudioView;

    open spec fn view(&self) -> AudioView {
        AudioView {
            elapsed: self.elapsed as int,
            total: self.total as int,
            paused: self.paused,
            loading: self.loading,
            error: text::opt(self.error),
            song_ended: self.song_ended,
        }
    }
}

impl View for Action {
    type V = ActionView;

    open spec fn view(&self) -> ActionView {
        match self {
            Action::Resolve { id, purpose } => ActionView::Resolve { id: id@, purpose: *purpose },
            Action::Load(url) => ActionView::Load(url@),
            Action::SetPause(b) => ActionView::SetPause(*b),
            Action::SeekRelative(d) => ActionView::SeekRelative(*d as int),
            Action::SeekAbsolute(t) => ActionView::SeekAbsolute(*t as int),
            Action::SetVolume(v) => ActionView::SetVolume(*v),
            Action::Halt => ActionView::Halt,
        }
    }
}

impl View for Cmd {
    type V = CmdView;

    open spec fn view(&self) -> CmdView {
        match self {
            Cmd::Play(id) => CmdView::Play(id@),
            Cmd::Prefetch(id) => CmdView::Prefetch(id@),
            Cmd::Pause => CmdView::Pause,
            Cmd::Resume => CmdView::Resume,
            Cmd::Seek(d) => CmdView::Seek(*d as int),
            Cmd::SeekAbs(t) => CmdView::SeekAbs(*t as int),
            Cmd::Volume(v) => CmdView::Volume(*v),
            Cmd::Stop => CmdView::Stop,
        }
    }
}

/// The contents of a list of actions.
pub open spec fn views(actions: Seq<Action>) -> Seq<ActionView> {
    actions.map_values(|a: Action| a@)
}

/// The page on which a video plays.
pub open spec fn watch_page(id: Seq<char>) -> Seq<char> {
    "https://music.youtube.com/watch?v="@ + id
}

/// The player errors that mean that an address did not play: loading failed,
/// nothing to play, unknown format.
pub open spec fn load_failure(code: i32) -> bool {
    code == -13 || code == -16 || code == -17
}

/// A lookup starts unless one for the same video runs.
pub open spec fn with_lookup(v: EngineView, id: Seq<char>, purpose: Purpose) -> (
    EngineView,
    Seq<ActionView>,
) {
    if v.fetching.contains(id) {
        (v, Seq::empty())
    } else {
        (
            EngineView { fetching: v.fetching.insert(id), ..v },
            seq![ActionView::Resolve { id, purpose }],
        )
    }
}

/// A lookup came back. A found address is kept; the song that is waited for is
/// loaded, from its page where no address was found.
pub open spec fn after_resolved(v: EngineView, id: Seq<char>, url: Option<Seq<char>>) -> (
    EngineView,
    Seq<ActionView>,
) {
    let waiting = v.pending == Some(id);
    (
        EngineView {
            fetching: v.fetching.remove(id),
            pending: if waiting {
                None
            } else {
                v.pending
            },
            urls: match url {
                Some(u) => v.urls.insert(id, u),
                None => v.urls,
            },
            ..v
        },
        if waiting {
            seq![
                ActionView::Load(
                    match url {
                        Some(u) => u,
                        None => watch_page(id),
                    },
                ),
            ]
        } else {
            Seq::empty()
        },
    )
}

/// The interface asked for something.
pub open spec fn after_command(v: EngineView, cmd: CmdView) -> (EngineView, Seq<ActionView>) {
    match cmd {
        CmdView::Play(id) => {
            let fresh = EngineView {
                pending: None,
                current: Some(id),
                retried: false,
                state: AudioView {
                    elapsed: 0,
                    total: 0,
                    paused: false,
                    loading: true,
                    error: None,
                    song_ended: false,
                },
                ..v
            };
            if v.urls.contains_key(id) {
                (fresh, seq![ActionView::Load(v.urls[id])])
            } else {
                with_lookup(EngineView { pending: Some(id), ..fresh }, id, Purpose::Resolve)
            }
        },
        CmdView::Prefetch(id) => if v.urls.contains_key(id) || v.fetching.len() >= MAX_PREFETCH {
            (v, Seq::empty())
        } else {
            with_lookup(v, id, Purpose::Prefetch)
        },
        CmdView::Pause => (v, seq![ActionView::SetPause(true)]),
        CmdView::Resume => (v, seq![ActionView::SetPause(false)]),
        CmdView::Seek(d) => (v, seq![ActionView::SeekRelative(d)]),
        CmdView::SeekAbs(t) => (v, seq![ActionView::SeekAbsolute(t)]),
        CmdView::Volume(x) => (v, seq![ActionView::SetVolume(x)]),
        CmdView::Stop => (EngineView { pending: None, current: None, ..v }, seq![ActionView::Halt]),
    }
}

/// The player reported something.
pub open spec fn after_event(v: EngineView, ev: PlayerEvent) -> (EngineView, Seq<ActionView>) {
    match ev {
        PlayerEvent::TimePos(t) => (
            EngineView { state: AudioView { elapsed: t as int, ..v.state }, ..v },
            Seq::empty(),
        ),
        PlayerEvent::Pause(b) => (
            EngineView { state: AudioView { paused: b, ..v.state }, ..v },
            Seq::empty(),
        ),
        PlayerEvent::Duration(t) => (
            EngineView {
                pending: None,
                state: AudioView { total: t as int, loading: false, ..v.state },
                ..v
            },
            Seq::empty(),
        ),
        PlayerEvent::EofReached(b) => (
            EngineView {
                state: AudioView { song_ended: v.state.song_ended || b, ..v.state },
                ..v
            },
            Seq::empty(),
        ),
        PlayerEvent::StartFile => (
            EngineView { state: AudioView { loading: true, elapsed: 0, ..v.state }, ..v },
            Seq::empty(),
        ),
        PlayerEvent::EndFile => (
            EngineView { state: AudioView { loading: false, ..v.state }, ..v },
            Seq::empty(),
        ),
        PlayerEvent::Failed(code) => match v.current {
            Some(id) if load_failure(code) => if !v.retried {
                with_lookup(
                    EngineView { retried: true, urls: v.urls.remove(id), pending: Some(id), ..v },
                    id,
                    Purpose::ReResolve,
                )
            } else {
                (
                    EngineView {
                        state: AudioView {
                            loading: false,
                            error: Some("playback failed"@),
                            ..v.state
                        },
                        ..v
                    },
                    Seq::empty(),
                )
            },
            _ => (v, Seq::empty()),
        },
        PlayerEvent::Other => (v, Seq::empty()),
    }
}

/// Holds in every state: a song that is waited for is the current one, and its
/// lookup runs.
pub open spec fn consistent(v: EngineView) -> bool {
    v.pending matches Some(id) ==> v.current == Some(id) && v.fetching.contains(id)
}

/// Every step keeps the state consistent, so a song that is waited for always
/// has a lookup that will answer.
pub proof fn steps_keep_consistent(
    v: EngineView,
    id: Seq<char>,
    url: Option<Seq<char>>,
    cmd: CmdView,
    ev: PlayerEvent,
)
    requires
        consistent(v),
    ensures
        consistent(after_resolved(v, id, url).0),
        consistent(after_command(v, cmd).0),
        consistent(after_event(v, ev).0),
{
}

/// A lookup that comes back loads at most one thing, and only for the current song.
pub proof fn only_the_current_song_loads(v: EngineView, id: Seq<char>, url: Option<Seq<char>>)
    requires
        consistent(v),
    ensures
        after_resolved(v, id, url).1.len() <= 1,
        after_resolved(v, id, url).1.len() == 1 ==> v.current == Some(id),
{
}

/// After a stop, no lookup that comes back late starts anything.
pub proof fn nothing_loads_after_stop(v: EngineView, id: Seq<char>, url: Option<Seq<char>>)
    ensures
        after_resolved(after_command(v, CmdView::Stop).0, id, url).1.len() == 0,
{
}

/// The second failure of one song to load gives up: no lookup starts, the error
/// shows, and the player is not left loading.
pub proof fn a_load_is_retried_once(v: EngineView, first: i32, second: i32)
    requires
        v.current is Some,
        load_failure(first),
        load_failure(second),
    ensures
        ({
            let w = after_event(v, PlayerEvent::Failed(first)).0;
            let (x, actions) = after_event(w, PlayerEvent::Failed(second));
            &&& x.current == v.current
            &&& actions.len() == 0
            &&& x.state.error == Some("playback failed"@)
            &&& !x.state.loading
        }),
{
}

/// A failed load forgets the address that failed.
pub proof fn a_failed_address_is_forgotten(v: EngineView, code: i32)
    requires
        load_failure(code),
        v.current is Some,
        !v.retried,
    ensures
        !after_event(v, PlayerEvent::Failed(code)).0.urls.contains_key(v.current->0),
{
}

/// Prefetching never brings the number of running lookups above the limit.
pub proof fn prefetching_stays_under_the_limit(v: EngineView, id: Seq<char>)
    requires
        v.fetching.finite(),
        v.fetching.len() <= MAX_PREFETCH,
    ensures
        after_command(v, CmdView::Prefetch(id)).0.fetching.len() <= MAX_PREFETCH,
{
}

/// An address that was looked up once is loaded at once the next time.
pub proof fn a_known_address_plays_at_once(v: EngineView, id: Seq<char>, url: Seq<char>)
    ensures
        after_command(after_resolved(v, id, Some(url)).0, CmdView::Play(id)).1 == seq![
            ActionView::Load(url),
        ],
{
}

/// The page on which the video `id` plays.
pub fn watch_url(id: &str) -> (r: String)
    ensures
        r@ == watch_page(id@),
{
    text::concat("https://music.youtube.com/watch?v=", id)
}

/// Whether the player's error `code` means that an address did not play.
pub fn is_load_failure(code: i32) -> (r: bool)
    ensures
        r == load_failure(code),
{
    code == -13 || code == -16 || code == -17
}

/// The address that the lookup tool printed: the first line, where it is one.
pub open spec fn printed_address(out: Seq<char>) -> Option<Seq<char>> {
    let t = text::trimmed(out);
    if t.len() > 0 && "http"@.is_prefix_of(text::lines_of(t)[0]) {
        Some(text::lines_of(t)[0])
    } else {
        None
    }
}

/// Reads the stream address out of what the lookup tool printed.
pub fn resolved_url(stdout: &str) -> (r: Option<String>)
    ensures
        text::opt(r) == printed_address(stdout@),
{
    let cs = text::chars_of(stdout);
    let t = text::trim(cs.as_slice());
    if t.len() == 0 {
        return None;
    }
    let ls = text::lines(t);
    let ghost rows = text::rows(ls@);
    assert(rows.len() > 0);
    assert(rows[0] == ls@[0]@);
    let http = text::chars_of("http");
    if text::starts_with(ls[0].as_slice(), http.as_slice()) {
        Some(text::string_of(ls[0].as_slice()))
    } else {
        None
    }
}

impl Default for AudioState {
    fn default() -> (r: Self)
        ensures
            r@ == (AudioView {
                elapsed: 0,
                total: 0,
                paused: false,
                loading: false,
                error: None,
                song_ended: false,
            }),
    {
        AudioState {
            elapsed: 0,
            total: 0,
            paused: false,
            loading: false,
            error: None,
            song_ended: false,
        }
    }
}

/// The state of the audio thread.
pub struct Engine {
    url_cache: TextMap<String>,
    fetching: TextMap<()>,
    pending_resolve: Option<String>,
    current_id: Option<String>,
    load_retried: bool,
    state: AudioState,
}

impl View for Engine {
    type V = EngineView;

    closed spec fn view(&self) -> EngineView {
        EngineView {
            urls: self.url_cache@.map_values(|s: String| s@),
            fetching: self.fetching@.dom(),
            pending: text::opt(self.pending_resolve),
            current: text::opt(self.current_id),
            retried: self.load_retried,
            state: self.state@,
        }
    }
}

impl Engine {
    /// An idle engine.
    pub fn new() -> (r: Self)
        ensures
            r@ == (EngineView {
                urls: Map::empty(),
                fetching: Set::empty(),
                pending: None,
                current: None,
                retried: false,
                state: AudioView {
                    elapsed: 0,
                    total: 0,
                    paused: false,
                    loading: false,
                    error: None,
                    song_ended: false,
                },
            }),
            consistent(r@),
    {
        let r = Engine {
            url_cache: TextMap::new(),
            fetching: TextMap::new(),
            pending_resolve: None,
            current_id: None,
            load_retried: false,
            state: AudioState::default(),
        };
        assert(r@.urls =~= Map::empty());
        assert(r@.fetching =~= Set::empty());
        r
    }

    /// Playback as the interface sees it.
    pub fn state(&self) -> (r: &AudioState)
        ensures
            r@ == self@.state,
    {
        &self.state
    }

    /// Shows an error to the interface.
    pub fn report_error(&mut self, message: String)
        ensures
            final(self)@ == (EngineView {
                state: AudioView { error: Some(message@), ..old(self)@.state },
                ..old(self)@
            }),
    {
        self.state.error = Some(message);
    }

    /// Reads and clears the end-of-song mark: `true` once for each natural end.
    pub fn take_song_ended(&mut self) -> (r: bool)
        ensures
            r == old(self)@.state.song_ended,
            final(self)@ == (EngineView {
                state: AudioView { song_ended: false, ..old(self)@.state },
                ..old(self)@
            }),
    {
        let ended = self.state.song_ended;
        self.state.song_ended = false;
        ended
    }

    fn spawn_resolve(&mut self, id: &str, purpose: Purpose) -> (r: Vec<Action>)
        ensures
            (final(self)@, views(r@)) == with_lookup(old(self)@, id@, purpose),
    {
        let mut out: Vec<Action> = Vec::new();
        if self.fetching.contains_key(id) {
            assert(views(out@) =~= Seq::empty());
            return out;
        }
        self.fetching.insert(id.to_owned(), ());
        assert(self@.fetching =~= old(self)@.fetching.insert(id@));
        out.push(Action::Resolve { id: id.to_owned(), purpose });
        assert(views(out@) =~= seq![ActionView::Resolve { id: id@, purpose }]);
        out
    }

    /// Takes in the result of a lookup.
    pub fn on_resolved(&mut self, id: String, url: Option<String>) -> (r: Vec<Action>)
        ensures
            (final(self)@, views(r@)) == after_resolved(old(self)@, id@, text::opt(url)),
            consistent(old(self)@) ==> consistent(final(self)@),
    {
        let mut out: Vec<Action> = Vec::new();
        self.fetching.remove(id.as_str());
        assert(self@.fetching =~= old(self)@.fetching.remove(id@));
        let waiting = match &self.pending_resolve {
            Some(p) => text::same_str(p.as_str(), id.as_str()),
            None => false,
        };
        if waiting {
            self.pending_resolve = None;
        }
        match url {
            Some(u) => {
                if waiting {
                    out.push(Action::Load(u.clone()));
                    assert(views(out@) =~= seq![ActionView::Load(u@)]);
                } else {
                    assert(views(out@) =~= Seq::empty());
                }
                self.url_cache.insert(id, u);
                assert(self@.urls =~= old(self)@.urls.insert(id@, u@));
            },
            None => {
                if waiting {
                    out.push(Action::Load(watch_url(id.as_str())));
                    assert(views(out@) =~= seq![ActionView::Load(watch_page(id@))]);
                } else {
                    assert(views(out@) =~= Seq::empty());
                }
                assert(self@.urls =~= old(self)@.urls);
            },
        }
        out
    }

    /// Takes in a command.
    pub fn on_command(&mut self, cmd: Cmd) -> (r: Vec<Action>)
        ensures
            (final(self)@, views(r@)) == after_command(old(self)@, cmd@),
            consistent(old(self)@) ==> consistent(final(self)@),
    {
        let mut out: Vec<Action> = Vec::new();
        match cmd {
            Cmd::Play(id) => {
                self.pending_resolve = None;
                self.current_id = Some(id.clone());
                self.load_retried = false;
                self.state.loading = true;
                self.state.paused = false;
                self.state.elapsed = 0;
                self.state.total = 0;
                self.state.error = None;
                self.state.song_ended = false;
                match self.url_cache.get(id.as_str()) {
                    Some(cached) => {
                        out.push(Action::Load(cached.clone()));
                        assert(views(out@) =~= seq![ActionView::Load(cached@)]);
                    },
                    None => {
                        self.pending_resolve = Some(id.clone());
                        return self.spawn_resolve(id.as_str(), Purpose::Resolve);
                    },
                }
            },
            Cmd::Prefetch(id) => {
                let busy = self.fetching.len();
                if self.url_cache.contains_key(id.as_str()) || busy >= MAX_PREFETCH {
                    assert(views(out@) =~= Seq::empty());
                    return out;
                }
                return self.spawn_resolve(id.as_str(), Purpose::Prefetch);
            },
            Cmd::Pause => {
                out.push(Action::SetPause(true));
                assert(views(out@) =~= seq![ActionView::SetPause(true)]);
            },
            Cmd::Resume => {
                out.push(Action::SetPause(false));
                assert(views(out@) =~= seq![ActionView::SetPause(false)]);
            },
            Cmd::Seek(d) => {
                out.push(Action::SeekRelative(d));
                assert(views(out@) =~= seq![ActionView::SeekRelative(d as int)]);
            },
            Cmd::SeekAbs(t) => {
                out.push(Action::SeekAbsolute(t));
                assert(views(out@) =~= seq![ActionView::SeekAbsolute(t as int)]);
            },
            Cmd::Volume(x) => {
                out.push(Action::SetVolume(x));
                assert(views(out@) =~= seq![ActionView::SetVolume(x)]);
            },
            Cmd::Stop => {
                self.pending_resolve = None;
                self.current_id = None;
                out.push(Action::Halt);
                assert(views(out@) =~= seq![ActionView::Halt]);
            },
        }
        out
    }

    /// Takes in an event of the player.
    pub fn on_event(&mut self, ev: PlayerEvent) -> (r: Vec<Action>)
        ensures
            (final(self)@, views(r@)) == after_event(old(self)@, ev),
            consistent(old(self)@) ==> consistent(final(self)@),
    {
        let out: Vec<Action> = Vec::new();
        assert(views(out@) =~= Seq::empty());
        match ev {
            PlayerEvent::TimePos(t) => self.state.elapsed = t,
            PlayerEvent::Pause(b) => self.state.paused = b,
            PlayerEvent::Duration(t) => {
                self.state.total = t;
                self.state.loading = false;
                self.pending_resolve = None;
            },
            PlayerEvent::EofReached(b) => {
                if b {
                    self.state.song_ended = true;
                }
            },
            PlayerEvent::StartFile => {
                self.state.loading = true;
                self.state.elapsed = 0;
            },
            PlayerEvent::EndFile => self.state.loading = false,
            PlayerEvent::Failed(code) => {
                if !is_load_failure(code) {
                    return out;
                }
                match self.current_id.clone() {
                    Some(id) => {
                        if !self.load_retried {
                            self.load_retried = true;
                            self.url_cache.remove(id.as_str());
                            assert(self@.urls =~= old(self)@.urls.remove(id@));
                            self.pending_resolve = Some(id.clone());
                            return self.spawn_resolve(id.as_str(), Purpose::ReResolve);
                        }
                        self.state.loading = false;
                        self.state.error = Some("playback failed".to_owned());
                    },
                    None => {},
                }
            },
            PlayerEvent::Other => {},
        }
        out
    }
}

} // verus!
