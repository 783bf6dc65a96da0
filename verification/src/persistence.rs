//! What is kept between runs: the queue, the volume, the lyrics that were chosen
//! by hand and the translations that were paid for.

use vstd::prelude::*;

use crate::assoc;
use crate::assoc::TextMap;
use crate::library;
use crate::library::{Library, PlaylistEntry};
use crate::player::TrackRef;
use crate::seqs;
use crate::text;

verus! {

/// One entry of a saved queue.
#[derive(Debug)]
pub struct QueueEntry {
    pub playlist_id: Option<String>,
    pub video_id: String,
}

/// A saved queue. Each entry names its own playlist, so a queue can span several.
#[derive(Debug)]
pub struct QueueState {
    pub entries: Vec<QueueEntry>,
    pub position: Option<usize>,
}

/// The mathematical content of a [`QueueEntry`].
pub struct EntryView {
    pub playlist: Option<Seq<char>>,
    pub video: Seq<char>,
}

impl View for QueueEntry {
    type V = EntryView;

    open spec fn view(&self) -> EntryView {
        EntryView { playlist: text::opt(self.playlist_id), video: self.video_id@ }
    }
}

/// The contents of saved entries.
pub open spec fn entry_views(s: Seq<QueueEntry>) -> Seq<EntryView> {
    s.map_values(|e: QueueEntry| e@)
}

/// What becomes of a saved queue.
#[derive(Debug)]
pub enum RestoreOutcome {
    /// A playlist that the queue names has not arrived; ask again later.
    Pending,
    /// A playlist is gone, or no entry is left. Stop asking.
    Abandoned,
    /// The queue, and where it was.
    Ready { queue: Vec<TrackRef>, position: Option<usize> },
}

/// The mathematical content of a [`RestoreOutcome`].
pub enum RestoreView {
    Pending,
    Abandoned,
    Ready { queue: Seq<TrackRef>, position: Option<usize> },
}

impl View for RestoreOutcome {
    type V = RestoreView;

    open spec fn view(&self) -> RestoreView {
        match self {
            RestoreOutcome::Pending => RestoreView::Pending,
            RestoreOutcome::Abandoned => RestoreView::Abandoned,
            RestoreOutcome::Ready { queue, position } => RestoreView::Ready {
                queue: queue@,
                position: *position,
            },
        }
    }
}

/// How a queued track is saved: by its playlist's id and its video. A track that
/// is not there, or has no video, is not saved.
pub open spec fn saved_entry(es: Seq<PlaylistEntry>, t: TrackRef) -> Option<EntryView> {
    match library::track_at(es, t.0 as int, t.1 as int) {
        Some(track) => match text::opt(track.video_id) {
            Some(video) if video.len() > 0 => Some(
                EntryView { playlist: Some(es[t.0 as int].playlist.playlist_id@), video },
            ),
            _ => None,
        },
        None => None,
    }
}

/// The saved entries of a queue.
pub open spec fn saved_entries(es: Seq<PlaylistEntry>, queue: Seq<TrackRef>) -> Seq<EntryView>
    decreases queue.len(),
{
    if queue.len() == 0 {
        Seq::empty()
    } else {
        let front = saved_entries(es, queue.drop_last());
        match saved_entry(es, queue.last()) {
            Some(e) => front.push(e),
            None => front,
        }
    }
}

/// The place that a queue's position has among its saved entries: as many of them
/// stand before it. There is none where that track is not saved.
pub open spec fn saved_position(
    es: Seq<PlaylistEntry>,
    queue: Seq<TrackRef>,
    position: Option<usize>,
) -> Option<usize> {
    match position {
        Some(p) if p < queue.len() && saved_entry(es, queue[p as int]) is Some => Some(
            saved_entries(es, queue.take(p as int)).len() as usize,
        ),
        _ => None,
    }
}

/// Whether an entry stands in the way: its playlist is unknown, or not loaded.
pub open spec fn blocks(es: Seq<PlaylistEntry>) -> spec_fn(EntryView) -> bool {
    |e: EntryView|
        match e.playlist {
            Some(id) => match library::playlist_index(es, id) {
                Some(i) => !es[i].loaded,
                None => true,
            },
            None => false,
        }
}

/// Where a saved entry stands in the library.
pub open spec fn found(es: Seq<PlaylistEntry>, e: EntryView) -> Option<TrackRef> {
    match e.playlist {
        Some(id) => match library::playlist_index(es, id) {
            Some(p) => match library::song_index(library::songs_at(es, p), e.video) {
                Some(s) => Some((p as usize, s as usize)),
                None => None,
            },
            None => None,
        },
        None => None,
    }
}

/// The tracks of saved entries, without those that are gone.
pub open spec fn found_tracks(es: Seq<PlaylistEntry>, entries: Seq<EntryView>) -> Seq<TrackRef>
    decreases entries.len(),
{
    if entries.len() == 0 {
        Seq::empty()
    } else {
        let front = found_tracks(es, entries.drop_last());
        match found(es, entries.last()) {
            Some(t) => front.push(t),
            None => front,
        }
    }
}

/// What becomes of saved entries: the first that stands in the way decides; with
/// none, the tracks that are left, at the saved position where it still fits.
pub open spec fn restored(
    es: Seq<PlaylistEntry>,
    entries: Seq<EntryView>,
    position: Option<usize>,
) -> RestoreView {
    match seqs::first_where(entries, blocks(es), 0) {
        Some(i) => if library::playlist_index(es, entries[i].playlist->0) is None {
            RestoreView::Abandoned
        } else {
            RestoreView::Pending
        },
        None => {
            let queue = found_tracks(es, entries);
            if queue.len() == 0 {
                RestoreView::Abandoned
            } else {
                RestoreView::Ready {
                    queue,
                    position: match position {
                        Some(p) if p < queue.len() => Some(p),
                        _ => Some(0),
                    },
                }
            }
        },
    }
}

/// Whether a saved track is found where it was: it has a video, its playlist has
/// arrived, and neither its playlist's id nor its video stands earlier.
pub open spec fn comes_back(es: Seq<PlaylistEntry>, t: TrackRef) -> bool {
    &&& saved_entry(es, t) is Some
    &&& es[t.0 as int].loaded
    &&& library::playlist_index(es, es[t.0 as int].playlist.playlist_id@) == Some(t.0 as int)
    &&& library::song_index(library::songs_at(es, t.0 as int), saved_entry(es, t)->0.video) == Some(
        t.1 as int,
    )
}

proof fn lemma_round_trip(es: Seq<PlaylistEntry>, queue: Seq<TrackRef>)
    requires
        forall|i: int|
            0 <= i < queue.len() && saved_entry(es, #[trigger] queue[i]) is Some ==> comes_back(
                es,
                queue[i],
            ),
    ensures
        saved_entries(es, queue).len() <= queue.len(),
        found_tracks(es, saved_entries(es, queue)).len() == saved_entries(es, queue).len(),
        forall|i: int|
            0 <= i < saved_entries(es, queue).len() ==> !blocks(es)(
                #[trigger] saved_entries(es, queue)[i],
            ),
        (forall|i: int|
            0 <= i < queue.len() ==> saved_entry(es, #[trigger] queue[i]) is Some) ==> found_tracks(
            es,
            saved_entries(es, queue),
        ) == queue,
    decreases queue.len(),
{
    if queue.len() > 0 {
        let front = queue.drop_last();
        assert forall|i: int|
            0 <= i < front.len() && saved_entry(es, #[trigger] front[i]) is Some implies comes_back(
            es,
            front[i],
        ) by {
            assert(front[i] == queue[i]);
        }
        lemma_round_trip(es, front);
        let t = queue[queue.len() - 1];
        let all = saved_entries(es, queue);
        match saved_entry(es, t) {
            Some(e) => {
                assert(comes_back(es, t));
                assert(all == saved_entries(es, front).push(e));
                assert(all.drop_last() =~= saved_entries(es, front));
                assert(found(es, e) == Some(t));
                assert(!blocks(es)(e));
                if forall|i: int|
                    0 <= i < queue.len() ==> saved_entry(es, #[trigger] queue[i]) is Some {
                    assert forall|i: int| 0 <= i < front.len() implies saved_entry(
                        es,
                        #[trigger] front[i],
                    ) is Some by {
                        assert(front[i] == queue[i]);
                    }
                    assert(found_tracks(es, all) =~= queue);
                }
            },
            None => {
                assert(all == saved_entries(es, front));
            },
        }
    }
}

proof fn lemma_place(es: Seq<PlaylistEntry>, queue: Seq<TrackRef>, p: int)
    requires
        0 <= p < queue.len(),
        comes_back(es, queue[p]),
        forall|i: int|
            0 <= i < queue.len() && saved_entry(es, #[trigger] queue[i]) is Some ==> comes_back(
                es,
                queue[i],
            ),
    ensures
        saved_entries(es, queue.take(p)).len() < found_tracks(es, saved_entries(es, queue)).len(),
        found_tracks(es, saved_entries(es, queue))[saved_entries(es, queue.take(p)).len() as int]
            == queue[p],
    decreases queue.len(),
{
    let front = queue.drop_last();
    assert forall|i: int|
        0 <= i < front.len() && saved_entry(es, #[trigger] front[i]) is Some implies comes_back(
        es,
        front[i],
    ) by {
        assert(front[i] == queue[i]);
    }
    lemma_round_trip(es, front);
    let all = saved_entries(es, queue);
    match saved_entry(es, queue.last()) {
        Some(e) => {
            assert(comes_back(es, queue[queue.len() - 1]));
            assert(all.drop_last() =~= saved_entries(es, front));
            assert(found(es, e) == Some(queue.last()));
        },
        None => {},
    }
    if p == queue.len() - 1 {
        assert(queue.take(p) =~= front);
    } else {
        assert(front[p] == queue[p]);
        assert(front.take(p) =~= queue.take(p));
        lemma_place(es, front, p);
    }
}

/// A queue that is saved and restored is the same queue at the same position.
pub proof fn a_saved_queue_comes_back(es: Seq<PlaylistEntry>, queue: Seq<TrackRef>, p: usize)
    requires
        p < queue.len(),
        forall|i: int| 0 <= i < queue.len() ==> comes_back(es, #[trigger] queue[i]),
    ensures
        restored(es, saved_entries(es, queue), saved_position(es, queue, Some(p))) == (
        RestoreView::Ready { queue, position: Some(p) }),
{
    lemma_round_trip(es, queue);
    seqs::lemma_first_where(saved_entries(es, queue), blocks(es), 0);
    let front = queue.take(p as int);
    assert forall|i: int| 0 <= i < front.len() implies comes_back(es, #[trigger] front[i]) by {
        assert(front[i] == queue[i]);
    }
    lemma_round_trip(es, front);
    assert(comes_back(es, queue[p as int]));
}

/// Where tracks that cannot be saved are left out, the track that was playing is
/// still the one at the position that comes back.
pub proof fn the_playing_track_comes_back(es: Seq<PlaylistEntry>, queue: Seq<TrackRef>, p: usize)
    requires
        p < queue.len(),
        comes_back(es, queue[p as int]),
        forall|i: int|
            0 <= i < queue.len() && saved_entry(es, #[trigger] queue[i]) is Some ==> comes_back(
                es,
                queue[i],
            ),
    ensures
        restored(
            es,
            saved_entries(es, queue),
            saved_position(es, queue, Some(p)),
        ) matches RestoreView::Ready { queue: q, position: Some(k) } && k < q.len() && q[k as int]
            == queue[p as int],
{
    lemma_round_trip(es, queue);
    lemma_place(es, queue, p as int);
    seqs::lemma_first_where(saved_entries(es, queue), blocks(es), 0);
    let front = queue.take(p as int);
    assert forall|i: int|
        0 <= i < front.len() && saved_entry(es, #[trigger] front[i]) is Some implies comes_back(
        es,
        front[i],
    ) by {
        assert(front[i] == queue[i]);
    }
    lemma_round_trip(es, front);
}

/// While a playlist that a queue names is not loaded, whether or not its fetch
/// failed, and all are known, the queue is kept.
pub proof fn a_queue_waits_for_its_playlists(
    es: Seq<PlaylistEntry>,
    entries: Seq<EntryView>,
    position: Option<usize>,
    k: int,
)
    requires
        0 <= k < entries.len(),
        forall|i: int|
            0 <= i < entries.len() ==> ((#[trigger] entries[i]).playlist matches Some(id)
                ==> library::playlist_index(es, id) is Some),
        entries[k].playlist is Some,
        !es[library::playlist_index(es, entries[k].playlist->0)->0].loaded,
    ensures
        restored(es, entries, position) == RestoreView::Pending,
{
    seqs::lemma_first_where(entries, blocks(es), 0);
    assert(blocks(es)(entries[k]));
    let i = seqs::first_where(entries, blocks(es), 0)->0;
    assert(blocks(es)(entries[i]));
}

/// A restored queue is not empty, and its position is a place in it.
pub proof fn a_restored_position_fits(
    es: Seq<PlaylistEntry>,
    entries: Seq<EntryView>,
    position: Option<usize>,
)
    ensures
        restored(es, entries, position) matches RestoreView::Ready { queue, position: p }
            ==> p is Some && p->0 < queue.len(),
{
}

/// Turns a live queue into what is saved: nothing where no entry can be saved. The
/// position is counted among the entries that are.
pub fn build_queue_state(library: &Library, queue: &[TrackRef], position: Option<usize>) -> (r:
    Option<QueueState>)
    ensures
        match r {
            Some(s) => entry_views(s.entries@) == saved_entries(library@, queue@)
                && s.entries@.len() > 0 && s.position == saved_position(
                library@,
                queue@,
                position,
            ),
            None => saved_entries(library@, queue@).len() == 0,
        },
{
    let mut entries: Vec<QueueEntry> = Vec::new();
    let mut place: Option<usize> = None;
    let mut i: usize = 0;
    assert(entry_views(entries@) =~= saved_entries(library@, queue@.take(0)));
    while i < queue.len()
        invariant
            i <= queue@.len(),
            entry_views(entries@) == saved_entries(library@, queue@.take(i as int)),
            place == match position {
                Some(p) if p < i => saved_position(library@, queue@, position),
                _ => None,
            },
        decreases queue@.len() - i,
    {
        let (pl, song) = queue[i];
        let ghost front = entry_views(entries@);
        assert(queue@.take(i + 1).drop_last() == queue@.take(i as int));
        match library.track(pl, song) {
            Some(t) => match &t.video_id {
                Some(video) => {
                    if !video.as_str().is_empty() {
                        let playlist_id = match library.playlist(pl) {
                            Some(p) => Some(p.playlist_id.clone()),
                            None => None,
                        };
                        let e = QueueEntry { playlist_id, video_id: video.clone() };
                        assert(saved_entry(library@, queue@[i as int]) == Some(e@));
                        if position == Some(i) {
                            place = Some(entries.len());
                        }
                        entries.push(e);
                        assert(entry_views(entries@) =~= front.push(e@));
                    }
                },
                None => {},
            },
            None => {},
        }
        i += 1;
    }
    assert(queue@.take(queue@.len() as int) == queue@);
    if entries.len() == 0 {
        return None;
    }
    Some(QueueState { entries, position: place })
}

/// Finds the tracks of a saved queue in the library.
pub fn try_restore(library: &Library, saved: &QueueState) -> (r: RestoreOutcome)
    ensures
        r@ == restored(library@, entry_views(saved.entries@), saved.position),
{
    let ghost es = library@;
    let ghost vs = entry_views(saved.entries@);
    let n: usize = saved.entries.len();
    let mut i: usize = 0;
    while i < n
        invariant
            n == saved.entries@.len(),
            vs == entry_views(saved.entries@),
            es == library@,
            seqs::first_where(vs, blocks(es), 0) == seqs::first_where(vs, blocks(es), i as int),
        decreases n - i,
    {
        assert(vs[i as int] == saved.entries@[i as int]@);
        match &saved.entries[i].playlist_id {
            Some(id) => {
                match library.find_playlist_index(id.as_str()) {
                    Some(p) => {
                        if !library.is_loaded(p) {
                            return RestoreOutcome::Pending;
                        }
                    },
                    None => {
                        return RestoreOutcome::Abandoned;
                    },
                }
            },
            None => {},
        }
        i += 1;
    }
    let mut queue: Vec<TrackRef> = Vec::new();
    let mut k: usize = 0;
    assert(queue@ =~= found_tracks(es, vs.take(0)));
    while k < n
        invariant
            k <= n,
            n == saved.entries@.len(),
            vs == entry_views(saved.entries@),
            es == library@,
            queue@ == found_tracks(es, vs.take(k as int)),
        decreases n - k,
    {
        assert(vs[k as int] == saved.entries@[k as int]@);
        assert(vs.take(k + 1).drop_last() == vs.take(k as int));
        match &saved.entries[k].playlist_id {
            Some(id) => match library.find_playlist_index(id.as_str()) {
                Some(p) => match library.find_song_index(p, saved.entries[k].video_id.as_str()) {
                    Some(s) => queue.push((p, s)),
                    None => {},
                },
                None => {},
            },
            None => {},
        }
        k += 1;
    }
    assert(vs.take(n as int) == vs);
    if queue.len() == 0 {
        return RestoreOutcome::Abandoned;
    }
    let position = match saved.position {
        Some(p) => if p < queue.len() {
            Some(p)
        } else {
            Some(0)
        },
        None => Some(0),
    };
    RestoreOutcome::Ready { queue, position }
}

/// The volume of a first run.
pub fn default_volume() -> (r: u8)
    ensures
        r == 80,
{
    80
}

/// What the user set.
#[derive(Debug)]
pub struct Settings {
    /// 0 to 100.
    pub volume: u8,
}

impl Default for Settings {
    fn default() -> (r: Self)
        ensures
            r.volume == 80,
    {
        Settings { volume: default_volume() }
    }
}

/// Lyrics chosen by hand: which record a video has.
pub struct LyricsOverrides {
    pub choices: TextMap<u64>,
}

impl Default for LyricsOverrides {
    fn default() -> (r: Self)
        ensures
            r.choices@ == Map::<Seq<char>, u64>::empty(),
    {
        LyricsOverrides { choices: TextMap::new() }
    }
}

impl LyricsOverrides {
    /// The record chosen for a video.
    pub fn get(&self, video_id: &str) -> (r: Option<u64>)
        ensures
            r == if self.choices@.contains_key(video_id@) {
                Some(self.choices@[video_id@])
            } else {
                None
            },
    {
        match self.choices.get(video_id) {
            Some(id) => Some(*id),
            None => None,
        }
    }

    /// Chooses a record for a video, in place of an earlier choice.
    pub fn set(&mut self, video_id: &str, id: u64)
        ensures
            final(self).choices@ == old(self).choices@.insert(video_id@, id),
    {
        self.choices.insert(video_id.to_owned(), id);
    }

    /// Goes back to automatic matching for a video.
    pub fn clear(&mut self, video_id: &str)
        ensures
            final(self).choices@ == old(self).choices@.remove(video_id@),
    {
        self.choices.remove(video_id);
    }
}

/// A choice is read back, clearing forgets it, and neither touches another video's.
pub proof fn a_choice_is_kept(m: Map<Seq<char>, u64>, video: Seq<char>, other: Seq<char>, id: u64)
    ensures
        m.insert(video, id).contains_key(video),
        m.insert(video, id)[video] == id,
        !m.insert(video, id).remove(video).contains_key(video),
        other != video ==> {
            &&& m.insert(video, id).contains_key(other) == m.contains_key(other)
            &&& m.remove(video).contains_key(other) == m.contains_key(other)
            &&& m.contains_key(other) ==> m.insert(video, id)[other] == m[other]
            &&& m.contains_key(other) ==> m.remove(video)[other] == m[other]
        },
{
}

/// A translation that was paid for.
#[derive(Debug)]
pub struct CachedTranslation {
    /// What it was translated into.
    pub language: String,
    /// What produced it.
    pub model: String,
    /// Unix seconds.
    pub saved_at: u64,
    /// One for each line of the record.
    pub lines: Vec<String>,
}

/// How many records' translations are kept.
pub const MAX_SAVED_TRANSLATIONS: usize = 1000;

/// Translations by the id of the lyric record, written as text.
pub struct Translations {
    pub entries: TextMap<CachedTranslation>,
}

/// Whether one kept translation goes before another: the older first, and of two
/// of one second the one whose key stands first in a dictionary.
pub open spec fn goes_before(
    m: Map<Seq<char>, CachedTranslation>,
    a: Seq<char>,
    b: Seq<char>,
) -> bool {
    m[a].saved_at < m[b].saved_at || (m[a].saved_at == m[b].saved_at && text::before(a, b))
}

/// Whether `k` is the first to go.
pub open spec fn is_oldest(m: Map<Seq<char>, CachedTranslation>, k: Seq<char>) -> bool {
    m.contains_key(k) && forall|j: Seq<char>|
        m.contains_key(j) && j != k ==> #[trigger] goes_before(m, k, j)
}

/// What is left of `m` when the oldest go until `cap` are left.
pub open spec fn evicting(m: Map<Seq<char>, CachedTranslation>, cap: nat) -> Map<
    Seq<char>,
    CachedTranslation,
>
    decreases m.len(),
{
    if m.dom().finite() && m.len() > cap && exists|k: Seq<char>| is_oldest(m, k) {
        evicting(m.remove(choose|k: Seq<char>| is_oldest(m, k)), cap)
    } else {
        m
    }
}

proof fn lemma_oldest_unique(m: Map<Seq<char>, CachedTranslation>, a: Seq<char>, b: Seq<char>)
    requires
        is_oldest(m, a),
        is_oldest(m, b),
    ensures
        a == b,
{
    if a != b {
        assert(goes_before(m, a, b));
        assert(goes_before(m, b, a));
        text::lemma_before_total(a, b);
    }
}

proof fn lemma_oldest_exists(m: Map<Seq<char>, CachedTranslation>, k: Seq<char>)
    requires
        m.dom().finite(),
        m.contains_key(k),
    ensures
        exists|o: Seq<char>| is_oldest(m, o),
    decreases m.len(),
{
    if m.len() == 1 {
        assert forall|j: Seq<char>| m.contains_key(j) && j != k implies goes_before(m, k, j) by {
            assert(m.dom().remove(k).len() == 0);
            assert(m.dom().remove(k).contains(j));
        }
        assert(is_oldest(m, k));
    } else {
        let rest = m.remove(k);
        let o = if exists|j: Seq<char>| rest.contains_key(j) {
            let j = choose|j: Seq<char>| rest.contains_key(j);
            lemma_oldest_exists(rest, j);
            choose|o: Seq<char>| is_oldest(rest, o)
        } else {
            assert(rest.dom() =~= Set::empty());
            k
        };
        assert(is_oldest(rest, o));
        text::lemma_before_total(k, o);
        if goes_before(m, k, o) {
            assert forall|j: Seq<char>| m.contains_key(j) && j != k implies goes_before(m, k, j) by {
                if j != o {
                    assert(rest.contains_key(j));
                    assert(goes_before(rest, o, j));
                    if m[k].saved_at == m[o].saved_at && m[o].saved_at == m[j].saved_at {
                        text::lemma_before_chains(k, o, j);
                    }
                }
            }
            assert(is_oldest(m, k));
        } else {
            assert forall|j: Seq<char>| m.contains_key(j) && j != o implies goes_before(m, o, j) by {
                if j != k {
                    assert(rest.contains_key(j));
                    assert(goes_before(rest, o, j));
                }
            }
            assert(is_oldest(m, o));
        }
    }
}

/// However many there were, at most `cap` are kept, each as it was.
pub proof fn eviction_reaches_the_cap(m: Map<Seq<char>, CachedTranslation>, cap: nat)
    requires
        m.dom().finite(),
    ensures
        evicting(m, cap).len() <= cap,
        evicting(m, cap).dom().finite(),
        forall|k: Seq<char>| #[trigger]
            evicting(m, cap).contains_key(k) ==> m.contains_key(k) && evicting(m, cap)[k] == m[k],
        m.len() >= cap ==> evicting(m, cap).len() == cap,
    decreases m.len(),
{
    if m.len() > cap {
        assert(!(m.dom() =~= Set::empty()));
        let k = choose|k: Seq<char>| m.dom().contains(k);
        lemma_oldest_exists(m, k);
        let o = choose|o: Seq<char>| is_oldest(m, o);
        eviction_reaches_the_cap(m.remove(o), cap);
    }
}

/// Nothing goes while there is room.
pub proof fn nothing_goes_while_there_is_room(m: Map<Seq<char>, CachedTranslation>, cap: nat)
    requires
        m.len() <= cap,
    ensures
        evicting(m, cap) == m,
{
}

/// The newest translation always stays.
pub proof fn the_newest_stays(m: Map<Seq<char>, CachedTranslation>, cap: nat, k: Seq<char>)
    requires
        m.dom().finite(),
        m.contains_key(k),
        cap > 0,
        forall|j: Seq<char>| m.contains_key(j) && j != k ==> #[trigger] goes_before(m, j, k),
    ensures
        evicting(m, cap).contains_key(k),
        evicting(m, cap)[k] == m[k],
    decreases m.len(),
{
    if m.len() > cap {
        lemma_oldest_exists(m, k);
        let o = choose|o: Seq<char>| is_oldest(m, o);
        assert(o != k) by {
            if o == k {
                assert(m.dom().remove(k).len() > 0);
                assert(!(m.dom().remove(k) =~= Set::empty()));
                let j = choose|j: Seq<char>| m.dom().remove(k).contains(j);
                assert(goes_before(m, k, j));
                assert(goes_before(m, j, k));
                text::lemma_before_total(k, j);
            }
        }
        let rest = m.remove(o);
        assert forall|j: Seq<char>| rest.contains_key(j) && j != k implies #[trigger] goes_before(
            rest,
            j,
            k,
        ) by {
            assert(goes_before(m, j, k));
        }
        the_newest_stays(rest, cap, k);
    }
}

/// The clock of the system: `SystemTime::now` of the standard library. Nothing is
/// said of what it reads.
#[verifier::external_body]
fn clock() -> (r: std::time::SystemTime) {
    std::time::SystemTime::now()
}

/// `SystemTime::duration_since`, from the Unix epoch; `None` where the clock stands
/// before it. Nothing is said of the duration.
#[verifier::external_body]
fn since_epoch(t: std::time::SystemTime) -> (r: Option<std::time::Duration>) {
    t.duration_since(std::time::UNIX_EPOCH).ok()
}

/// `Duration::as_secs`. Nothing is said of the number.
#[verifier::external_body]
fn whole_seconds(d: std::time::Duration) -> (r: u64) {
    d.as_secs()
}

/// A reading of the system's clock.
#[verifier::external_type_specification]
#[verifier::external_body]
pub struct ExSystemTime(std::time::SystemTime);

fn now_secs() -> (r: u64) {
    match since_epoch(clock()) {
        Some(d) => whole_seconds(d),
        None => 0,
    }
}

/// Whether an entry holds this translation.
pub open spec fn holds(
    c: CachedTranslation,
    language: Seq<char>,
    model: Seq<char>,
    lines: Seq<String>,
) -> bool {
    c.language@ == language && c.model@ == model && c.lines@ == lines
}

impl Default for Translations {
    fn default() -> (r: Self)
        ensures
            r.entries@ == Map::<Seq<char>, CachedTranslation>::empty(),
    {
        Translations { entries: TextMap::new() }
    }
}

impl Translations {
    /// The kept translation of a record, if it is in this language.
    #[must_use]
    pub fn get(&self, record_id: u64, language: &str) -> (r: Option<&[String]>)
        ensures
            ({
                let k = text::decimal(record_id as nat);
                match r {
                    Some(lines) => self.entries@.contains_key(k) && self.entries@[k].language@
                        == language@ && lines@ == self.entries@[k].lines@,
                    None => !self.entries@.contains_key(k) || self.entries@[k].language@
                        != language@,
                }
            }),
    {
        let key = text::show(record_id);
        match self.entries.get(key.as_str()) {
            Some(e) => if text::same_str(e.language.as_str(), language) {
                Some(e.lines.as_slice())
            } else {
                None
            },
            None => None,
        }
    }

    /// Keeps a translation of a record, stamped with the time.
    pub fn set(&mut self, record_id: u64, language: &str, model: &str, lines: Vec<String>)
        ensures
            exists|c: CachedTranslation|
                holds(c, language@, model@, lines@) && final(self).entries@ == #[trigger] evicting(
                    old(self).entries@.insert(text::decimal(record_id as nat), c),
                    MAX_SAVED_TRANSLATIONS as nat,
                ),
    {
        let now: u64 = now_secs();
        self.set_at(record_id, language, model, lines, now);
    }

    /// Keeps a translation of a record, saved at `now`.
    pub fn set_at(
        &mut self,
        record_id: u64,
        language: &str,
        model: &str,
        lines: Vec<String>,
        now: u64,
    )
        ensures
            exists|c: CachedTranslation|
                holds(c, language@, model@, lines@) && c.saved_at == now
                    && final(self).entries@ == #[trigger] evicting(
                    old(self).entries@.insert(text::decimal(record_id as nat), c),
                    MAX_SAVED_TRANSLATIONS as nat,
                ),
    {
        let c = CachedTranslation {
            language: language.to_owned(),
            model: model.to_owned(),
            saved_at: now,
            lines,
        };
        self.entries.insert(text::show(record_id), c);
        self.evict();
    }

    /// Forgets a record's translation, and says whether there was one.
    pub fn remove(&mut self, record_id: u64) -> (r: bool)
        ensures
            r == old(self).entries@.contains_key(text::decimal(record_id as nat)),
            final(self).entries@ == old(self).entries@.remove(text::decimal(record_id as nat)),
    {
        let key = text::show(record_id);
        self.entries.remove(key.as_str())
    }

    /// Drops the oldest until the number kept is within the limit.
    pub fn evict(&mut self)
        ensures
            final(self).entries@ == evicting(old(self).entries@, MAX_SAVED_TRANSLATIONS as nat),
            final(self).entries@.len() <= MAX_SAVED_TRANSLATIONS,
    {
        let ghost start = self.entries@;
        let mut n: usize = self.entries.len();
        while n > MAX_SAVED_TRANSLATIONS
            invariant
                n == self.entries@.len(),
                self.entries@.dom().finite(),
                evicting(self.entries@, MAX_SAVED_TRANSLATIONS as nat) == evicting(
                    start,
                    MAX_SAVED_TRANSLATIONS as nat,
                ),
            decreases n,
        {
            let key = self.oldest();
            proof {
                let m = self.entries@;
                let o = choose|o: Seq<char>| is_oldest(m, o);
                lemma_oldest_unique(m, o, key@);
            }
            self.entries.remove(key.as_str());
            n = self.entries.len();
        }
    }

    fn oldest(&self) -> (r: String)
        requires
            self.entries@.len() > 0,
        ensures
            is_oldest(self.entries@, r@),
    {
        let n: usize = self.entries.len();
        let ghost m = self.entries@;
        let ghost es = self.entries.entries();
        let mut best: usize = 0;
        let mut i: usize = 1;
        proof {
            assoc::lemma_map_of_at(es, 0);
        }
        while i < n
            invariant
                n == es.len(),
                es == self.entries.entries(),
                m == self.entries@,
                m == assoc::map_of(es),
                assoc::keys_differ(es),
                best < i <= n,
                forall|j: int|
                    0 <= j < i && j != best ==> goes_before(
                        m,
                        es[best as int].0@,
                        #[trigger] es[j].0@,
                    ),
            decreases n - i,
        {
            let (ka, va) = self.entries.at(i);
            let (kb, vb) = self.entries.at(best);
            let x = text::chars_of(ka.as_str());
            let y = text::chars_of(kb.as_str());
            proof {
                assoc::lemma_map_of_at(es, i as int);
                assoc::lemma_map_of_at(es, best as int);
                assert(es[i as int].0@ != es[best as int].0@);
                text::lemma_before_total(es[i as int].0@, es[best as int].0@);
            }
            if va.saved_at < vb.saved_at || (va.saved_at == vb.saved_at && text::is_before(
                x.as_slice(),
                y.as_slice(),
            )) {
                assert(goes_before(m, es[i as int].0@, es[best as int].0@));
                assert forall|j: int| 0 <= j < i + 1 && j != i implies goes_before(
                    m,
                    es[i as int].0@,
                    #[trigger] es[j].0@,
                ) by {
                    if j != best {
                        assert(goes_before(m, es[best as int].0@, es[j].0@));
                        assoc::lemma_map_of_at(es, j);
                        if m[es[i as int].0@].saved_at == m[es[j].0@].saved_at {
                            text::lemma_before_chains(
                                es[i as int].0@,
                                es[best as int].0@,
                                es[j].0@,
                            );
                        }
                    }
                }
                best = i;
            }
            i += 1;
        }
        let (k, _v) = self.entries.at(best);
        proof {
            assoc::lemma_map_of_at(es, best as int);
            assert forall|j: Seq<char>|
                m.contains_key(j) && j != k@ implies #[trigger] goes_before(m, k@, j) by {
                let x = choose|x: int| 0 <= x < es.len() && #[trigger] es[x].0@ == j;
                assert(goes_before(m, es[best as int].0@, es[x].0@));
            }
        }
        k.clone()
    }

    /// How many records' translations are kept.
    #[must_use]
    pub fn len(&self) -> (r: usize)
        ensures
            r == self.entries@.len(),
    {
        self.entries.len()
    }

    /// Whether none is kept.
    #[must_use]
    pub fn is_empty(&self) -> (r: bool)
        ensures
            r == (self.entries@.len() == 0),
    {
        self.entries.len() == 0
    }
}

/// With room for it, a kept translation is read back in its language and in no
/// other, and no other record's is touched.
pub proof fn what_was_kept_comes_back(
    m: Map<Seq<char>, CachedTranslation>,
    k: Seq<char>,
    other: Seq<char>,
    c: CachedTranslation,
)
    requires
        m.insert(k, c).len() <= MAX_SAVED_TRANSLATIONS,
        other != k,
    ensures
        ({
            let after = evicting(m.insert(k, c), MAX_SAVED_TRANSLATIONS as nat);
            &&& after.contains_key(k) && after[k] == c
            &&& after.contains_key(other) == m.contains_key(other)
            &&& m.contains_key(other) ==> after[other] == m[other]
        }),
{
}

/// A change to the kept translations: keeping one under a key, or forgetting what is
/// under it.
pub enum Change {
    Keep { key: Seq<char>, kept: CachedTranslation },
    Forget { key: Seq<char> },
}

/// What is kept after a change, as [`Translations::set_at`] and
/// [`Translations::remove`] make it.
pub open spec fn changed(m: Map<Seq<char>, CachedTranslation>, change: Change) -> Map<
    Seq<char>,
    CachedTranslation,
> {
    match change {
        Change::Keep { key, kept } => evicting(m.insert(key, kept), MAX_SAVED_TRANSLATIONS as nat),
        Change::Forget { key } => m.remove(key),
    }
}

/// What is kept after changes one after another, from nothing.
pub open spec fn kept_after(changes: Seq<Change>) -> Map<Seq<char>, CachedTranslation>
    decreases changes.len(),
{
    if changes.len() == 0 {
        Map::empty()
    } else {
        changed(kept_after(changes.drop_last()), changes.last())
    }
}

/// However often translations are kept and forgotten, from none on, their number
/// stays within the limit.
pub proof fn the_limit_always_holds(changes: Seq<Change>)
    ensures
        kept_after(changes).dom().finite(),
        kept_after(changes).len() <= MAX_SAVED_TRANSLATIONS,
    decreases changes.len(),
{
    if changes.len() > 0 {
        the_limit_always_holds(changes.drop_last());
        let m = kept_after(changes.drop_last());
        match changes.last() {
            Change::Keep { key, kept } => {
                eviction_reaches_the_cap(m.insert(key, kept), MAX_SAVED_TRANSLATIONS as nat);
            },
            Change::Forget { key } => {},
        }
    }
}

/// Keeping another record's translation makes the number one more, up to the limit;
/// keeping a record's anew leaves it. Forgetting one makes it one less.
pub proof fn one_more_counts_up_to_the_limit(
    m: Map<Seq<char>, CachedTranslation>,
    key: Seq<char>,
    kept: CachedTranslation,
)
    requires
        m.dom().finite(),
        m.len() <= MAX_SAVED_TRANSLATIONS,
    ensures
        changed(m, Change::Keep { key, kept }).len() == if m.contains_key(key) {
            m.len()
        } else if m.len() < MAX_SAVED_TRANSLATIONS {
            m.len() + 1
        } else {
            MAX_SAVED_TRANSLATIONS as nat
        },
        changed(m, Change::Forget { key }).len() == if m.contains_key(key) {
            (m.len() - 1) as nat
        } else {
            m.len()
        },
{
    eviction_reaches_the_cap(m.insert(key, kept), MAX_SAVED_TRANSLATIONS as nat);
    if m.contains_key(key) {
        assert(m.insert(key, kept).dom() =~= m.dom());
    } else {
        assert(m.remove(key) =~= m);
    }
}

} // verus!
