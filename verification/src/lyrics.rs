//! Looking lyrics up: what to ask for, what a record holds, and which one to take.
//!
//! The lyrics service matches names as text, so a track is asked for in ever looser
//! forms. What comes back is ranked: timed before plain, then closest in length, then
//! by agreement of artist and title. Durations are nanoseconds.

use vstd::prelude::*;

use crate::library;
use crate::library::Track;
use crate::lrc;
use crate::lrc::{LineView, LyricLine};
use crate::seqs;
use crate::seqs::Ranked;
use crate::text;
use crate::title;

verus! {

/// Records whose length is further off are not shown: five seconds.
pub const MAX_DURATION_DELTA: u64 = 5_000_000_000;

/// How close an exact hit must be to end the search: two seconds.
pub const EXACT_DURATION_DELTA: u64 = 2_000_000_000;

/// What is known of the track that lyrics are wanted for.
#[derive(Debug)]
pub struct LyricsQuery {
    pub title: String,
    pub artist: String,
    /// Empty when it is not known.
    pub album: String,
    pub duration: Option<i64>,
}

/// One request to the service.
#[derive(Debug, PartialEq, Eq)]
pub enum Attempt {
    Meta { track: String, artist: String, album: String },
    FreeText(String),
}

/// A record as the service gives it.
#[derive(Debug)]
pub struct Lyrics {
    pub id: u64,
    pub track_name: String,
    pub artist_name: String,
    pub album_name: String,
    pub duration: Option<i64>,
    pub instrumental: bool,
    pub plain_lyrics: Option<String>,
    pub synced_lyrics: Option<String>,
}

/// The words of a record.
#[derive(Debug)]
pub enum LyricsKind {
    /// Timed lines.
    Synced(Vec<LyricLine>),
    /// Lines without times.
    Plain(Vec<String>),
    Instrumental,
}

/// A record that can be used.
#[derive(Debug)]
pub struct TrackLyrics {
    pub id: u64,
    pub track_name: String,
    pub artist_name: String,
    pub album_name: String,
    pub duration: Option<i64>,
    /// Whether its times were made for a recording of another length.
    pub timing_mismatch: bool,
    pub kind: LyricsKind,
}

/// What a search that ran in the background brought for a video.
#[allow(inconsistent_fields)]
pub enum LyricsMsg {
    /// The best record, or none.
    Best { video_id: String, result: Result<Option<TrackLyrics>, String> },
    /// Every record there is to choose from.
    Choices { video_id: String, result: Result<Vec<TrackLyrics>, String> },
}

/// Why a request failed.
#[derive(Debug)]
pub struct Failure {
    /// The status with which the service answered, if it did.
    pub status: Option<u16>,
    pub message: String,
}

// ── contents ─────────────────────────────────────────────────────────────────

/// The mathematical content of a [`LyricsQuery`].
pub struct QueryView {
    pub title: Seq<char>,
    pub artist: Seq<char>,
    pub album: Seq<char>,
    pub duration: Option<int>,
}

/// The mathematical content of an [`Attempt`].
pub enum AttemptView {
    Meta { track: Seq<char>, artist: Seq<char>, album: Seq<char> },
    FreeText(Seq<char>),
}

/// The mathematical content of a [`Lyrics`].
pub struct RecordView {
    pub id: u64,
    pub track_name: Seq<char>,
    pub artist_name: Seq<char>,
    pub album_name: Seq<char>,
    pub duration: Option<int>,
    pub instrumental: bool,
    pub plain: Option<Seq<char>>,
    pub synced: Option<Seq<char>>,
}

/// The mathematical content of a [`LyricsKind`].
pub enum KindView {
    Synced(Seq<LineView>),
    Plain(Seq<Seq<char>>),
    Instrumental,
}

/// The mathematical content of a [`TrackLyrics`].
pub struct TrackView {
    pub id: u64,
    pub track_name: Seq<char>,
    pub artist_name: Seq<char>,
    pub album_name: Seq<char>,
    pub duration: Option<int>,
    pub timing_mismatch: bool,
    pub kind: KindView,
}

/// A time, where there is one.
pub open spec fn opt_time(t: Option<i64>) -> Option<int> {
    match t {
        Some(x) => Some(x as int),
        None => None,
    }
}

impl View for LyricsQuery {
    type V = QueryView;

    open spec fn view(&self) -> QueryView {
        QueryView {
            title: self.title@,
            artist: self.artist@,
            album: self.album@,
            duration: opt_time(self.duration),
        }
    }
}

impl View for Attempt {
    type V = AttemptView;

    open spec fn view(&self) -> AttemptView {
        match self {
            Attempt::Meta { track, artist, album } => AttemptView::Meta {
                track: track@,
                artist: artist@,
                album: album@,
            },
            Attempt::FreeText(s) => AttemptView::FreeText(s@),
        }
    }
}

impl View for Lyrics {
    type V = RecordView;

    open spec fn view(&self) -> RecordView {
        RecordView {
            id: self.id,
            track_name: self.track_name@,
            artist_name: self.artist_name@,
            album_name: self.album_name@,
            duration: opt_time(self.duration),
            instrumental: self.instrumental,
            plain: text::opt(self.plain_lyrics),
            synced: text::opt(self.synced_lyrics),
        }
    }
}

impl View for LyricsKind {
    type V = KindView;

    open spec fn view(&self) -> KindView {
        match self {
            LyricsKind::Synced(lines) => KindView::Synced(lrc::line_views(lines@)),
            LyricsKind::Plain(lines) => KindView::Plain(text::texts(lines@)),
            LyricsKind::Instrumental => KindView::Instrumental,
        }
    }
}

impl View for TrackLyrics {
    type V = TrackView;

    open spec fn view(&self) -> TrackView {
        TrackView {
            id: self.id,
            track_name: self.track_name@,
            artist_name: self.artist_name@,
            album_name: self.album_name@,
            duration: opt_time(self.duration),
            timing_mismatch: self.timing_mismatch,
            kind: self.kind@,
        }
    }
}

/// The contents of a list of requests.
pub open spec fn attempt_views(s: Seq<Attempt>) -> Seq<AttemptView> {
    s.map_values(|a: Attempt| a@)
}

/// The contents of a list of records.
pub open spec fn record_views(s: Seq<Lyrics>) -> Seq<RecordView> {
    s.map_values(|l: Lyrics| l@)
}

/// The contents of a list of usable records.
pub open spec fn track_views(s: Seq<TrackLyrics>) -> Seq<TrackView> {
    s.map_values(|t: TrackLyrics| t@)
}

/// The content of a usable record, where there is one.
pub open spec fn opt_track(t: Option<TrackLyrics>) -> Option<TrackView> {
    match t {
        Some(x) => Some(x@),
        None => None,
    }
}

// ── what to ask for ──────────────────────────────────────────────────────────

/// The requests for a track, the most precise first: everything that is known;
/// without the album; with the clean title and one artist; the clean title alone; the
/// bare song name with the artist and without, which is what finds a cover; and free
/// text.
pub open spec fn rungs(q: QueryView) -> Seq<AttemptView> {
    let clean = title::clean_title(q.title);
    let primary = title::first_artist(q.artist);
    let song = title::song_name(q.title);
    let none = Seq::<char>::empty();
    seq![
        AttemptView::Meta { track: q.title, artist: q.artist, album: q.album },
        AttemptView::Meta { track: q.title, artist: q.artist, album: none },
        AttemptView::Meta { track: clean, artist: primary, album: none },
        AttemptView::Meta { track: clean, artist: none, album: none },
        AttemptView::Meta { track: song, artist: primary, album: none },
        AttemptView::Meta { track: song, artist: none, album: none },
        AttemptView::FreeText(text::trimmed(clean + " "@ + primary)),
        AttemptView::FreeText(clean),
        AttemptView::FreeText(song),
    ]
}

/// The first of each kind, in order.
pub open spec fn firsts(s: Seq<AttemptView>) -> Seq<AttemptView>
    decreases s.len(),
{
    if s.len() == 0 {
        s
    } else {
        let front = firsts(s.drop_last());
        if front.contains(s.last()) {
            front
        } else {
            front.push(s.last())
        }
    }
}

/// The requests for a track, none twice.
pub open spec fn ladder(q: QueryView) -> Seq<AttemptView> {
    firsts(rungs(q))
}

/// The first of each kind are all kinds, each once.
pub proof fn lemma_firsts(s: Seq<AttemptView>)
    ensures
        firsts(s).no_duplicates(),
        forall|a: AttemptView| firsts(s).contains(a) <==> s.contains(a),
        s.len() > 0 ==> firsts(s).len() > 0 && firsts(s)[0] == s[0],
    decreases s.len(),
{
    if s.len() > 0 {
        let p = s.drop_last();
        lemma_firsts(p);
        let front = firsts(p);
        assert forall|a: AttemptView| firsts(s).contains(a) <==> s.contains(a) by {
            if s.contains(a) {
                let i = choose|i: int| 0 <= i < s.len() && s[i] == a;
                if i < p.len() {
                    assert(p[i] == a);
                    assert(p.contains(a));
                    assert(front.contains(a));
                    let k = choose|k: int| 0 <= k < front.len() && front[k] == a;
                    assert(firsts(s)[k] == a);
                } else if !front.contains(a) {
                    assert(firsts(s)[front.len() as int] == a);
                }
            }
            if firsts(s).contains(a) {
                let i = choose|i: int| 0 <= i < firsts(s).len() && firsts(s)[i] == a;
                if i < front.len() {
                    assert(front[i] == a);
                    assert(p.contains(a));
                    let k = choose|k: int| 0 <= k < p.len() && p[k] == a;
                    assert(s[k] == a);
                } else {
                    assert(s[s.len() - 1] == a);
                }
            }
        }
        if p.len() == 0 {
            assert(front =~= Seq::empty());
        }
    }
}

/// No request is made twice, the first asks for everything that is known, and every
/// form is asked for.
pub proof fn a_ladder_has_no_duplicates(q: QueryView)
    ensures
        ladder(q).no_duplicates(),
        ladder(q).len() > 0,
        ladder(q)[0] == (AttemptView::Meta { track: q.title, artist: q.artist, album: q.album }),
        forall|a: AttemptView| ladder(q).contains(a) <==> rungs(q).contains(a),
{
    lemma_firsts(rungs(q));
}

fn same_attempt(a: &Attempt, b: &Attempt) -> (r: bool)
    ensures
        r == (a@ == b@),
{
    match (a, b) {
        (
            Attempt::Meta { track, artist, album },
            Attempt::Meta { track: t, artist: u, album: v },
        ) => text::same_str(track.as_str(), t.as_str()) && text::same_str(
            artist.as_str(),
            u.as_str(),
        ) && text::same_str(album.as_str(), v.as_str()),
        (Attempt::FreeText(x), Attempt::FreeText(y)) => text::same_str(x.as_str(), y.as_str()),
        _ => false,
    }
}

fn without_duplicates(all: Vec<Attempt>) -> (r: Vec<Attempt>)
    ensures
        attempt_views(r@) == firsts(attempt_views(all@)),
{
    let ghost vs = attempt_views(all@);
    let mut out: Vec<Attempt> = Vec::new();
    assert(attempt_views(out@) =~= firsts(vs.take(0)));
    for a in it: all
        invariant
            it.seq() == all@,
            vs == attempt_views(all@),
            attempt_views(out@) == firsts(vs.take(it.index() as int)),
    {
        let ghost i = it.index() as int;
        assert(vs.take(i + 1).drop_last() == vs.take(i));
        assert(vs[i] == a@);
        let ghost front = attempt_views(out@);
        let mut seen = false;
        let mut k: usize = 0;
        while k < out.len() && !seen
            invariant
                k <= out@.len(),
                front == attempt_views(out@),
                seen ==> front.contains(a@),
                !seen ==> forall|j: int| 0 <= j < k ==> #[trigger] front[j] != a@,
            decreases out@.len() - k, !seen as int,
        {
            if same_attempt(&out[k], &a) {
                assert(front[k as int] == a@);
                seen = true;
            } else {
                k += 1;
            }
        }
        if !seen {
            out.push(a);
            assert(attempt_views(out@) =~= front.push(a@));
        }
    }
    assert(vs.take(vs.len() as int) == vs);
    out
}

/// What is known of a track; nothing to search on without a title.
pub open spec fn query_of(t: Track) -> Option<QueryView> {
    match t.title {
        Some(title) => Some(
            QueryView {
                title: title@,
                artist: library::listed(t.artists@),
                album: match t.album {
                    Some(a) => a.name@,
                    None => Seq::empty(),
                },
                duration: match t.duration_seconds {
                    Some(n) => Some(n * 1_000_000_000),
                    None => None,
                },
            },
        ),
        None => None,
    }
}

impl LyricsQuery {
    /// What is known of a track, or `None` without a title.
    pub fn from_track(track: &Track) -> (r: Option<Self>)
        ensures
            match r {
                Some(q) => query_of(*track) == Some(q@),
                None => query_of(*track) is None,
            },
    {
        match &track.title {
            Some(title) => {
                let album = match &track.album {
                    Some(a) => a.name.clone(),
                    None => String::new(),
                };
                let duration = match track.duration_seconds {
                    Some(n) => Some(n as i64 * 1_000_000_000),
                    None => None,
                };
                let q = LyricsQuery {
                    title: title.clone(),
                    artist: track.artist_names(),
                    album,
                    duration,
                };
                assert(q@.album =~= query_of(*track)->0.album);
                Some(q)
            },
            None => None,
        }
    }

    /// The requests to make, the most precise first, none twice.
    pub fn search_ladder(&self) -> (r: Vec<Attempt>)
        ensures
            attempt_views(r@) == ladder(self@),
            attempt_views(r@).no_duplicates(),
            r@.len() > 0,
    {
        let clean = title::strip_title_noise(self.title.as_str());
        let primary = title::primary_artist(self.artist.as_str());
        let song = title::song_title_only(self.title.as_str());
        let both = text::concat(text::concat(clean.as_str(), " ").as_str(), primary.as_str());
        let both_cs = text::chars_of(both.as_str());
        let free = text::string_of(text::trim(both_cs.as_slice()));
        let mut all: Vec<Attempt> = Vec::new();
        all.push(
            Attempt::Meta {
                track: self.title.clone(),
                artist: self.artist.clone(),
                album: self.album.clone(),
            },
        );
        all.push(
            Attempt::Meta {
                track: self.title.clone(),
                artist: self.artist.clone(),
                album: String::new(),
            },
        );
        all.push(
            Attempt::Meta { track: clean.clone(), artist: primary.clone(), album: String::new() },
        );
        all.push(
            Attempt::Meta { track: clean.clone(), artist: String::new(), album: String::new() },
        );
        all.push(
            Attempt::Meta { track: song.clone(), artist: primary.clone(), album: String::new() },
        );
        all.push(
            Attempt::Meta { track: song.clone(), artist: String::new(), album: String::new() },
        );
        all.push(Attempt::FreeText(free));
        all.push(Attempt::FreeText(clean));
        all.push(Attempt::FreeText(song));
        proof {
            assert(attempt_views(all@) =~= rungs(self@));
            a_ladder_has_no_duplicates(self@);
        }
        without_duplicates(all)
    }
}

// ── what a record holds ──────────────────────────────────────────────────────

/// Something other than white space.
pub open spec fn says_something(s: Seq<char>) -> bool {
    text::trimmed(s).len() > 0
}

/// The words of a record. Timed text that holds no timed line counts for nothing, and
/// without either kind of text there is nothing to use.
pub open spec fn words(l: RecordView) -> Option<KindView> {
    if l.instrumental {
        Some(KindView::Instrumental)
    } else {
        match l.synced {
            Some(s) if says_something(s) && lrc::parsed(s).len() > 0 => Some(
                KindView::Synced(lrc::parsed(s)),
            ),
            _ => match l.plain {
                Some(p) if says_something(p) => Some(KindView::Plain(text::lines_of(p))),
                _ => None,
            },
        }
    }
}

/// What can be used of a record.
pub open spec fn usable(l: RecordView) -> Option<TrackView> {
    match words(l) {
        Some(kind) => Some(
            TrackView {
                id: l.id,
                track_name: l.track_name,
                artist_name: l.artist_name,
                album_name: l.album_name,
                duration: l.duration,
                timing_mismatch: false,
                kind,
            },
        ),
        None => None,
    }
}

/// What can be used of a list of records.
pub open spec fn usable_all(s: Seq<RecordView>) -> Seq<TrackView>
    decreases s.len(),
{
    if s.len() == 0 {
        Seq::empty()
    } else {
        let front = usable_all(s.drop_last());
        match usable(s.last()) {
            Some(t) => front.push(t),
            None => front,
        }
    }
}

/// Whether a record's timed lines stand in the order of their times.
pub open spec fn well_timed(t: TrackLyrics) -> bool {
    t.kind matches LyricsKind::Synced(lines) ==> lrc::timed(lines@)
}

/// How far apart two lengths are, where both are known.
pub open spec fn length_delta(a: Option<int>, b: Option<int>) -> Option<nat> {
    match (a, b) {
        (Some(x), Some(y)) => Some(
            (if x <= y {
                y - x
            } else {
                x - y
            }) as nat,
        ),
        _ => None,
    }
}

fn blank(s: &str) -> (r: bool)
    ensures
        r == !says_something(s@),
{
    let cs = text::chars_of(s);
    text::trim(cs.as_slice()).len() == 0
}

impl TrackLyrics {
    /// How far this record's length is from `want`; `None` where either is unknown.
    pub fn duration_delta(&self, want: Option<i64>) -> (r: Option<u64>)
        ensures
            match r {
                Some(d) => length_delta(self@.duration, opt_time(want)) == Some(d as nat),
                None => length_delta(self@.duration, opt_time(want)) is None,
            },
    {
        match (self.duration, want) {
            (Some(x), Some(y)) => {
                let d: i128 = if x <= y {
                    y as i128 - x as i128
                } else {
                    x as i128 - y as i128
                };
                Some(d as u64)
            },
            _ => None,
        }
    }

    /// Whether the record is timed.
    pub fn is_synced(&self) -> (r: bool)
        ensures
            r == (self@.kind is Synced),
    {
        match &self.kind {
            LyricsKind::Synced(_) => true,
            _ => false,
        }
    }

    /// The timed lines of a timed record.
    pub fn synced_lines(&self) -> (r: Option<&[LyricLine]>)
        ensures
            match r {
                Some(lines) => self.kind matches LyricsKind::Synced(v) && lines@ == v@,
                None => self.kind !is Synced,
            },
    {
        match &self.kind {
            LyricsKind::Synced(lines) => Some(lines.as_slice()),
            _ => None,
        }
    }

    /// Whether its timed lines, if it has any, stand in the order of their times.
    pub fn in_time(&self) -> (r: bool)
        ensures
            r == well_timed(*self),
    {
        match &self.kind {
            LyricsKind::Synced(lines) => lrc::is_timed(lines.as_slice()),
            _ => true,
        }
    }

    /// What can be used of a record; `None` where it holds no words.
    pub fn from_record(l: Lyrics) -> (r: Option<Self>)
        ensures
            opt_track(r) == usable(l@),
            r matches Some(t) ==> well_timed(t),
    {
        let mut kind: Option<LyricsKind> = None;
        if l.instrumental {
            kind = Some(LyricsKind::Instrumental);
        } else {
            match &l.synced_lyrics {
                Some(s) => {
                    if !blank(s.as_str()) {
                        let lines = lrc::parse_lrc(s.as_str());
                        if lines.len() > 0 {
                            kind = Some(LyricsKind::Synced(lines));
                        }
                    }
                },
                None => {},
            }
            if kind.is_none() {
                match &l.plain_lyrics {
                    Some(p) => {
                        if !blank(p.as_str()) {
                            let cs = text::chars_of(p.as_str());
                            let ls = text::lines(cs.as_slice());
                            kind = Some(LyricsKind::Plain(text::strings_of(&ls)));
                        }
                    },
                    None => {},
                }
            }
        }
        match kind {
            Some(kind) => Some(
                TrackLyrics {
                    id: l.id,
                    track_name: l.track_name,
                    artist_name: l.artist_name,
                    album_name: l.album_name,
                    duration: l.duration,
                    timing_mismatch: false,
                    kind,
                },
            ),
            None => None,
        }
    }
}

/// What can be used of what the service gave.
pub fn use_all(raw: Vec<Lyrics>) -> (r: Vec<TrackLyrics>)
    ensures
        track_views(r@) == usable_all(record_views(raw@)),
{
    let ghost vs = record_views(raw@);
    let mut out: Vec<TrackLyrics> = Vec::new();
    assert(track_views(out@) =~= usable_all(vs.take(0)));
    for l in it: raw
        invariant
            it.seq() == raw@,
            vs == record_views(raw@),
            track_views(out@) == usable_all(vs.take(it.index() as int)),
    {
        let ghost i = it.index() as int;
        assert(vs.take(i + 1).drop_last() == vs.take(i));
        assert(vs[i] == l@);
        let ghost front = track_views(out@);
        match TrackLyrics::from_record(l) {
            Some(t) => {
                out.push(t);
                assert(track_views(out@) =~= front.push(t@));
            },
            None => {},
        }
    }
    assert(vs.take(vs.len() as int) == vs);
    out
}

// ── ranking ──────────────────────────────────────────────────────────────────

/// What a record is ranked by.
#[derive(Debug, Clone, Copy)]
pub struct Score {
    pub unsynced: bool,
    /// The distance of the lengths in whole seconds, so that a fraction does not
    /// outweigh an artist.
    pub delta: Option<u64>,
    pub other_artist: bool,
    pub other_title: bool,
}

/// A distance in whole seconds, halves away from zero.
pub open spec fn whole_seconds(d: nat) -> u64 {
    ((d + 500_000_000) / 1_000_000_000) as u64
}

/// What a record is ranked by for a query: the artist and the title are compared in
/// lower case, with the query's brought into their clean forms.
pub open spec fn score(c: TrackView, q: QueryView) -> Score {
    Score {
        unsynced: !(c.kind is Synced),
        delta: match length_delta(c.duration, q.duration) {
            Some(d) => Some(whole_seconds(d)),
            None => None,
        },
        other_artist: text::find_from(
            title::lowercase(c.artist_name),
            title::lowercase(title::first_artist(q.artist)),
            0,
        ) is None,
        other_title: title::lowercase(c.track_name) != title::lowercase(
            title::clean_title(q.title),
        ),
    }
}

/// Timed before plain; then the closest, unknown lengths last; then the same artist;
/// then the same title.
pub open spec fn score_le(a: Score, b: Score) -> bool {
    if a.unsynced != b.unsynced {
        !a.unsynced
    } else if a.delta != b.delta {
        match (a.delta, b.delta) {
            (Some(x), Some(y)) => x < y,
            (Some(_), None) => true,
            _ => false,
        }
    } else if a.other_artist != b.other_artist {
        !a.other_artist
    } else {
        !a.other_title || b.other_title
    }
}

/// The order of records for a query.
pub open spec fn better(q: QueryView) -> spec_fn(TrackView, TrackView) -> bool {
    |a: TrackView, b: TrackView| score_le(score(a, q), score(b, q))
}

/// Whether a record's length fits: where the query has one, the record has one too,
/// and they are close.
pub open spec fn fits(q: QueryView) -> spec_fn(TrackView) -> bool {
    |c: TrackView|
        q.duration is Some ==> (length_delta(c.duration, q.duration) matches Some(d) && d
            <= MAX_DURATION_DELTA)
}

/// The records that fit, the best first; records of one score keep their order.
pub open spec fn ranked(items: Seq<TrackView>, q: QueryView) -> Seq<TrackView> {
    seqs::sorted(items.filter(fits(q)), better(q))
}

proof fn lemma_better_total(q: QueryView)
    ensures
        seqs::total(better(q)),
{
}

/// What is offered fits: no record that is further off than the limit, and none of
/// unknown length where the track's is known.
pub proof fn only_fitting_records_are_offered(items: Seq<TrackView>, q: QueryView, i: int)
    requires
        0 <= i < ranked(items, q).len(),
    ensures
        fits(q)(ranked(items, q)[i]),
        items.contains(ranked(items, q)[i]),
{
    broadcast use vstd::seq_lib::group_to_multiset_ensures;

    let kept = items.filter(fits(q));
    let all = ranked(items, q);
    seqs::lemma_sorted_permutes(kept, better(q));
    assert(all.to_multiset().count(all[i]) > 0) by {
        assert(all.contains(all[i]));
    }
    assert(kept.contains(all[i]));
    let k = choose|k: int| 0 <= k < kept.len() && kept[k] == all[i];
    items.lemma_filter_pred(fits(q), k);
    items.lemma_filter_contains_rev(fits(q), kept[k]);
}

/// Every record that fits is offered.
pub proof fn every_fitting_record_is_offered(items: Seq<TrackView>, q: QueryView, i: int)
    requires
        0 <= i < items.len(),
        fits(q)(items[i]),
    ensures
        ranked(items, q).contains(items[i]),
{
    broadcast use vstd::seq_lib::group_to_multiset_ensures;

    let kept = items.filter(fits(q));
    seqs::lemma_sorted_permutes(kept, better(q));
    items.lemma_filter_contains(fits(q), i);
    assert(kept.to_multiset().count(items[i]) > 0);
    assert(ranked(items, q).to_multiset().count(items[i]) > 0);
}

/// A timed record is never behind a plain one, and of two timed ones the closer in
/// whole seconds is never behind.
pub proof fn ranking_order(items: Seq<TrackView>, q: QueryView, i: int, j: int)
    requires
        0 <= i < j < ranked(items, q).len(),
    ensures
        ({
            let a = ranked(items, q)[i];
            let b = ranked(items, q)[j];
            &&& b.kind is Synced ==> a.kind is Synced
            &&& (a.kind is Synced) == (b.kind is Synced) ==> match (
                score(a, q).delta,
                score(b, q).delta,
            ) {
                (Some(x), Some(y)) => x <= y,
                (None, Some(_)) => false,
                _ => true,
            }
        }),
{
    let all = ranked(items, q);
    lemma_better_total(q);
    seqs::lemma_sorted_in_order(items.filter(fits(q)), better(q));
    assert(better(q)(all[i], all[j]));
}

/// Records of one score stay in the order in which the service gave them.
pub proof fn ranking_is_stable(items: Seq<TrackView>, q: QueryView, c: TrackView)
    ensures
        seqs::of_rank(ranked(items, q), c, better(q)) == seqs::of_rank(
            items.filter(fits(q)),
            c,
            better(q),
        ),
{
    lemma_better_total(q);
    seqs::lemma_sorted_stable(items.filter(fits(q)), c, better(q));
}

/// A record with what it is ranked by.
pub struct Scored {
    pub score: Score,
    pub item: TrackLyrics,
}

impl Ranked for Scored {
    open spec fn le(&self, other: &Self) -> bool {
        score_le(self.score, other.score)
    }

    fn at_most(&self, other: &Self) -> (r: bool) {
        let a = self.score;
        let b = other.score;
        if a.unsynced != b.unsynced {
            return !a.unsynced;
        }
        match (a.delta, b.delta) {
            (Some(x), Some(y)) => {
                if x != y {
                    return x < y;
                }
            },
            (Some(_), None) => {
                return true;
            },
            (None, Some(_)) => {
                return false;
            },
            (None, None) => {},
        }
        if a.other_artist != b.other_artist {
            return !a.other_artist;
        }
        !a.other_title || b.other_title
    }
}

fn lower_chars(s: &str) -> (r: Vec<char>)
    ensures
        r@ == title::lowercase(s@),
{
    let l = s.to_lowercase();
    text::chars_of(l.as_str())
}

/// The records that fit, the best first.
pub fn rank(items: Vec<TrackLyrics>, q: &LyricsQuery) -> (r: Vec<TrackLyrics>)
    ensures
        track_views(r@) == ranked(track_views(items@), q@),
{
    let clean = title::strip_title_noise(q.title.as_str());
    let artist = title::primary_artist(q.artist.as_str());
    let want_title = lower_chars(clean.as_str());
    let want_artist = lower_chars(artist.as_str());
    let ghost vs = track_views(items@);
    let ghost f = |s: Scored| s.item@;
    let mut scored: Vec<Scored> = Vec::new();
    assert(scored@.map_values(f) =~= vs.take(0).filter(fits(q@))) by {
        reveal(Seq::filter);
    }
    for c in it: items
        invariant
            it.seq() == items@,
            vs == track_views(items@),
            f == (|s: Scored| s.item@),
            want_title@ == title::lowercase(title::clean_title(q@.title)),
            want_artist@ == title::lowercase(title::first_artist(q@.artist)),
            forall|i: int|
                0 <= i < scored@.len() ==> (#[trigger] scored@[i]).score == score(
                    scored@[i].item@,
                    q@,
                ),
            scored@.map_values(f) == vs.take(it.index() as int).filter(fits(q@)),
    {
        let ghost i = it.index() as int;
        let ghost front = scored@.map_values(f);
        proof {
            broadcast use Seq::lemma_filter_push;

            assert(vs.take(i + 1) == vs.take(i).push(c@));
        }
        let delta = c.duration_delta(q.duration);
        let fit = match q.duration {
            Some(_) => match delta {
                Some(d) => d <= MAX_DURATION_DELTA,
                None => false,
            },
            None => true,
        };
        assert(fit == fits(q@)(c@));
        if fit {
            let seconds = match delta {
                Some(d) => Some((d / 1_000_000_000) + (d % 1_000_000_000 + 500_000_000) / 1_000_000_000),
                None => None,
            };
            let has = lower_chars(c.artist_name.as_str());
            let name = lower_chars(c.track_name.as_str());
            let score_c = Score {
                unsynced: !c.is_synced(),
                delta: seconds,
                other_artist: text::find(has.as_slice(), want_artist.as_slice(), 0).is_none(),
                other_title: !text::same(name.as_slice(), want_title.as_slice()),
            };
            assert(score_c == score(c@, q@));
            let s = Scored { score: score_c, item: c };
            scored.push(s);
            assert(scored@.map_values(f) =~= front.push(s.item@));
        }
    }
    assert(vs.take(vs.len() as int) == vs);
    let ghost unsorted = scored@;
    seqs::sort(&mut scored);
    proof {
        let dom = |s: Scored| s.score == score(s.item@, q@);
        assert forall|i: int| 0 <= i < unsorted.len() implies dom(#[trigger] unsorted[i]) by {}
        seqs::lemma_sorted_map(unsorted, seqs::order::<Scored>(), f, better(q@), dom);
    }
    let ghost done = scored@;
    let mut out: Vec<TrackLyrics> = Vec::new();
    assert(track_views(out@) =~= done.map_values(f).take(0));
    for s in it: scored
        invariant
            it.seq() == done,
            f == (|s: Scored| s.item@),
            track_views(out@) == done.map_values(f).take(it.index() as int),
    {
        let ghost before = track_views(out@);
        let ghost i = it.index() as int;
        out.push(s.item);
        assert(track_views(out@) =~= before.push(s.item@));
        assert(done.map_values(f).take(i + 1) =~= done.map_values(f).take(i).push(s.item@));
    }
    assert(done.map_values(f).take(done.len() as int) =~= done.map_values(f));
    out
}

} // verus!
