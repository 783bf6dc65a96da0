//! Playlists and tracks: the in-memory library that fills as fetches come in.

use vstd::prelude::*;

use crate::seqs;
use crate::text;

verus! {

/// A performer of a track.
#[derive(Debug)]
pub struct Artist {
    pub name: String,
    pub id: Option<String>,
}

/// The record a track is on.
#[derive(Debug)]
pub struct Album {
    pub name: String,
    pub id: Option<String>,
}

/// One song of a playlist.
#[derive(Debug)]
pub struct Track {
    pub video_id: Option<String>,
    pub title: Option<String>,
    pub artists: Vec<Artist>,
    pub album: Option<Album>,
    pub duration: Option<String>,
    pub duration_seconds: Option<u32>,
}

/// A playlist as the service lists it.
#[derive(Debug)]
pub struct Playlist {
    pub playlist_id: String,
    pub title: String,
    pub count: Option<u32>,
}

/// A playlist with what has been fetched of it.
#[derive(Debug)]
pub struct PlaylistEntry {
    pub playlist: Playlist,
    pub songs: Vec<Track>,
    /// Whether the tracks have arrived. Stays false when the fetch failed, so a
    /// failure never reads as an empty playlist.
    pub loaded: bool,
    /// The last fetch failed and there is nothing to show.
    pub failed: bool,
    /// The sum of the songs' seconds.
    pub total_duration_secs: u64,
}

/// One playlist's tracks under its index, `None` where the fetch failed.
pub type SongBatch = (usize, Option<Vec<Track>>);

/// Names separated by a comma and a space.
pub open spec fn listed(artists: Seq<Artist>) -> Seq<char>
    decreases artists.len(),
{
    if artists.len() == 0 {
        Seq::empty()
    } else if artists.len() == 1 {
        artists[0].name@
    } else {
        listed(artists.drop_last()) + ", "@ + artists.last().name@
    }
}

/// The seconds of a track, 0 where they are not known.
pub open spec fn seconds(t: Track) -> int {
    match t.duration_seconds {
        Some(n) => n as int,
        None => 0,
    }
}

/// The seconds of all tracks together.
pub open spec fn seconds_sum(songs: Seq<Track>) -> int
    decreases songs.len(),
{
    if songs.len() == 0 {
        0
    } else {
        seconds_sum(songs.drop_last()) + seconds(songs.last())
    }
}

proof fn lemma_seconds_sum(songs: Seq<Track>, n: int)
    requires
        0 <= n <= songs.len(),
    ensures
        0 <= seconds_sum(songs.take(n)) <= seconds_sum(songs),
    decreases songs.len(),
{
    if n < songs.len() {
        lemma_seconds_sum(songs.drop_last(), n);
        assert(songs.drop_last().take(n) == songs.take(n));
    } else {
        assert(songs.take(n) == songs);
        if songs.len() > 0 {
            lemma_seconds_sum(songs.drop_last(), songs.len() - 1);
            assert(songs.drop_last().take(songs.len() - 1) == songs.drop_last());
        }
    }
}

/// Having this id.
pub open spec fn called(id: Seq<char>) -> spec_fn(PlaylistEntry) -> bool {
    |e: PlaylistEntry| e.playlist.playlist_id@ == id
}

/// Where the playlist with this id stands.
pub open spec fn playlist_index(es: Seq<PlaylistEntry>, id: Seq<char>) -> Option<int> {
    seqs::first_where(es, called(id), 0)
}

/// Where the song with this video stands.
pub open spec fn song_index(songs: Seq<Track>, video_id: Seq<char>) -> Option<int> {
    seqs::first_where(songs, |t: Track| text::opt(t.video_id) == Some(video_id), 0)
}

/// The track at a position.
pub open spec fn track_at(es: Seq<PlaylistEntry>, pl: int, song: int) -> Option<Track> {
    if 0 <= pl < es.len() && 0 <= song < es[pl].songs@.len() {
        Some(es[pl].songs@[song])
    } else {
        None
    }
}

/// The songs of a playlist, none where there is no such playlist.
pub open spec fn songs_at(es: Seq<PlaylistEntry>, pl: int) -> Seq<Track> {
    if 0 <= pl < es.len() {
        es[pl].songs@
    } else {
        Seq::empty()
    }
}

/// A playlist of which nothing has been fetched.
pub open spec fn untouched(e: PlaylistEntry, p: Playlist) -> bool {
    &&& e.playlist == p
    &&& e.songs@.len() == 0
    &&& !e.loaded
    &&& !e.failed
    &&& e.total_duration_secs == 0
}

/// A playlist whose tracks arrived.
pub open spec fn arrived(e: PlaylistEntry, p: Playlist, songs: Seq<Track>) -> bool {
    &&& e.playlist == p
    &&& e.songs@ == songs
    &&& e.loaded
    &&& !e.failed
    &&& e.total_duration_secs == seconds_sum(songs)
}

impl Track {
    /// The artists' names, separated by `", "`.
    pub fn artist_names(&self) -> (r: String)
        ensures
            r@ == listed(self.artists@),
    {
        let mut out = String::new();
        let mut i: usize = 0;
        while i < self.artists.len()
            invariant
                i <= self.artists@.len(),
                out@ == listed(self.artists@.take(i as int)),
            decreases self.artists@.len() - i,
        {
            if i > 0 {
                out.append(", ");
            }
            out.append(self.artists[i].name.as_str());
            proof {
                let t = self.artists@.take(i + 1);
                assert(t.drop_last() == self.artists@.take(i as int));
                if i == 0 {
                    assert(out@ =~= t[0].name@);
                } else {
                    assert(out@ =~= listed(t));
                }
            }
            i += 1;
        }
        assert(self.artists@.take(self.artists@.len() as int) == self.artists@);
        out
    }
}

/// The wait in milliseconds after the failure of an attempt, counted from one: half a
/// second more each time, and after the third none.
pub open spec fn delay(attempt: u32) -> Option<u64> {
    if attempt < 3 {
        Some((500 * attempt) as u64)
    } else {
        None
    }
}

/// How long to wait, in milliseconds, after the failure of attempt number
/// `attempt` (counted from one) to fetch a playlist; `None` gives up.
pub fn retry_delay_ms(attempt: u32) -> (r: Option<u64>)
    ensures
        r == delay(attempt),
{
    if attempt < 3 {
        Some(500 * attempt as u64)
    } else {
        None
    }
}

/// Playlists and their tracks.
#[derive(Debug)]
pub struct Library {
    entries: Vec<PlaylistEntry>,
}

impl View for Library {
    type V = Seq<PlaylistEntry>;

    closed spec fn view(&self) -> Seq<PlaylistEntry> {
        self.entries@
    }
}

impl Library {
    /// A library that knows these playlists and none of their tracks.
    pub fn new(playlists: Vec<Playlist>) -> (r: Self)
        ensures
            r@.len() == playlists@.len(),
            forall|i: int| 0 <= i < r@.len() ==> untouched(#[trigger] r@[i], playlists@[i]),
    {
        let mut entries: Vec<PlaylistEntry> = Vec::new();
        for playlist in it: playlists
            invariant
                it.seq() == playlists@,
                entries@.len() == it.index(),
                forall|i: int| 0 <= i < entries@.len() ==> untouched(#[trigger] entries@[i], playlists@[i]),
        {
            entries.push(
                PlaylistEntry {
                    playlist,
                    songs: Vec::new(),
                    loaded: false,
                    failed: false,
                    total_duration_secs: 0,
                },
            );
        }
        Library { entries }
    }

    /// How many playlists there are.
    pub fn len(&self) -> (r: usize)
        ensures
            r == self@.len(),
    {
        self.entries.len()
    }

    /// Whether there are no playlists.
    pub fn is_empty(&self) -> (r: bool)
        ensures
            r == (self@.len() == 0),
    {
        self.entries.len() == 0
    }

    /// All playlists.
    pub fn entries(&self) -> (r: &[PlaylistEntry])
        ensures
            r@ == self@,
    {
        self.entries.as_slice()
    }

    /// The playlist at `idx` with what was fetched of it.
    pub fn entry(&self, idx: usize) -> (r: Option<&PlaylistEntry>)
        ensures
            r == if idx < self@.len() {
                Some(&self@[idx as int])
            } else {
                None
            },
    {
        if idx < self.entries.len() {
            Some(&self.entries[idx])
        } else {
            None
        }
    }

    /// The playlist at `idx`.
    pub fn playlist(&self, idx: usize) -> (r: Option<&Playlist>)
        ensures
            r == if idx < self@.len() {
                Some(&self@[idx as int].playlist)
            } else {
                None
            },
    {
        match self.entry(idx) {
            Some(e) => Some(&e.playlist),
            None => None,
        }
    }

    /// The songs of the playlist at `idx`.
    pub fn songs(&self, idx: usize) -> (r: &[Track])
        ensures
            r@ == songs_at(self@, idx as int),
    {
        match self.entry(idx) {
            Some(e) => e.songs.as_slice(),
            None => &[],
        }
    }

    /// One song.
    pub fn track(&self, pl_idx: usize, song_idx: usize) -> (r: Option<&Track>)
        ensures
            match r {
                Some(t) => track_at(self@, pl_idx as int, song_idx as int) == Some(*t),
                None => track_at(self@, pl_idx as int, song_idx as int) is None,
            },
    {
        let songs = self.songs(pl_idx);
        if song_idx < songs.len() {
            Some(&songs[song_idx])
        } else {
            None
        }
    }

    /// Whether the playlist's tracks have arrived.
    pub fn is_loaded(&self, idx: usize) -> (r: bool)
        ensures
            r == (idx < self@.len() && self@[idx as int].loaded),
    {
        idx < self.entries.len() && self.entries[idx].loaded
    }

    /// Whether the playlist's last fetch failed.
    pub fn has_failed(&self, idx: usize) -> (r: bool)
        ensures
            r == (idx < self@.len() && self@[idx as int].failed),
    {
        idx < self.entries.len() && self.entries[idx].failed
    }

    /// The seconds of the playlist's songs together.
    pub fn total_duration_secs(&self, idx: usize) -> (r: u64)
        ensures
            r == if idx < self@.len() {
                self@[idx as int].total_duration_secs
            } else {
                0
            },
    {
        match self.entry(idx) {
            Some(e) => e.total_duration_secs,
            None => 0,
        }
    }

    /// Takes in what a fetch brought: the tracks, or `None` for a failure, which
    /// leaves the playlist unloaded and flagged.
    pub fn apply_song_batch(&mut self, idx: usize, songs: Option<Vec<Track>>)
        requires
            idx < old(self)@.len() ==> (songs matches Some(s) ==> seconds_sum(s@) <= u64::MAX),
        ensures
            final(self)@.len() == old(self)@.len(),
            forall|i: int|
                0 <= i < old(self)@.len() && i != idx ==> #[trigger] final(self)@[i] == old(self)@[i],
            idx < old(self)@.len() ==> match songs {
                Some(s) => arrived(
                    final(self)@[idx as int],
                    old(self)@[idx as int].playlist,
                    s@,
                ),
                None => final(self)@[idx as int] == (PlaylistEntry {
                    failed: true,
                    ..old(self)@[idx as int]
                }),
            },
    {
        if idx >= self.entries.len() {
            return;
        }
        match songs {
            None => {
                self.entries[idx].failed = true;
            },
            Some(songs) => {
                let mut total: u64 = 0;
                let mut i: usize = 0;
                while i < songs.len()
                    invariant
                        i <= songs@.len(),
                        total == seconds_sum(songs@.take(i as int)),
                        seconds_sum(songs@) <= u64::MAX,
                    decreases songs@.len() - i,
                {
                    proof {
                        lemma_seconds_sum(songs@, i + 1);
                        assert(songs@.take(i + 1).drop_last() == songs@.take(i as int));
                    }
                    match songs[i].duration_seconds {
                        Some(n) => total += n as u64,
                        None => {},
                    }
                    i += 1;
                }
                assert(songs@.take(songs@.len() as int) == songs@);
                self.entries[idx].total_duration_secs = total;
                self.entries[idx].songs = songs;
                self.entries[idx].loaded = true;
                self.entries[idx].failed = false;
            },
        }
    }

    /// Marks a playlist as being fetched again, so it reads as loading.
    pub fn mark_retrying(&mut self, idx: usize)
        ensures
            final(self)@ == if idx < old(self)@.len() {
                old(self)@.update(
                    idx as int,
                    PlaylistEntry { failed: false, ..old(self)@[idx as int] },
                )
            } else {
                old(self)@
            },
    {
        if idx < self.entries.len() {
            self.entries[idx].failed = false;
        }
    }

    /// Finds a playlist by its id.
    pub fn find_playlist_index(&self, playlist_id: &str) -> (r: Option<usize>)
        ensures
            match r {
                Some(i) => playlist_index(self@, playlist_id@) == Some(i as int) && i < self@.len(),
                None => playlist_index(self@, playlist_id@) is None,
            },
    {
        let ghost p = |e: PlaylistEntry| e.playlist.playlist_id@ == playlist_id@;
        let mut i: usize = 0;
        while i < self.entries.len()
            invariant
                p == (|e: PlaylistEntry| e.playlist.playlist_id@ == playlist_id@),
                seqs::first_where(self@, p, 0) == seqs::first_where(self@, p, i as int),
            decreases self.entries@.len() - i,
        {
            if text::same_str(self.entries[i].playlist.playlist_id.as_str(), playlist_id) {
                return Some(i);
            }
            i += 1;
        }
        None
    }

    /// Finds a song of a playlist by its video.
    pub fn find_song_index(&self, pl_idx: usize, video_id: &str) -> (r: Option<usize>)
        ensures
            match r {
                Some(i) => song_index(songs_at(self@, pl_idx as int), video_id@) == Some(i as int)
                    && i < songs_at(self@, pl_idx as int).len(),
                None => song_index(songs_at(self@, pl_idx as int), video_id@) is None,
            },
    {
        let songs = self.songs(pl_idx);
        let ghost p = |t: Track| text::opt(t.video_id) == Some(video_id@);
        let mut i: usize = 0;
        while i < songs.len()
            invariant
                p == (|t: Track| text::opt(t.video_id) == Some(video_id@)),
                songs@ == songs_at(self@, pl_idx as int),
                seqs::first_where(songs@, p, 0) == seqs::first_where(songs@, p, i as int),
            decreases songs@.len() - i,
        {
            let hit = match &songs[i].video_id {
                Some(v) => text::same_str(v.as_str(), video_id),
                None => false,
            };
            if hit {
                return Some(i);
            }
            i += 1;
        }
        None
    }
}

} // verus!
