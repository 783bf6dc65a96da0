//! Narrowing a list down to what matches a query.

use crate::library;
use crate::library::{Library, Track};
use crate::player::TrackRef;
use crate::text;
use crate::title;
use vstd::prelude::*;

verus! {

/// Whether `needle` stands somewhere in `hay`.
pub open spec fn holds(hay: Seq<char>, needle: Seq<char>) -> bool {
    text::find_from(hay, needle, 0) is Some
}

/// Whether a title or the artists, in lower case, hold the query.
pub open spec fn found_in(title: Seq<char>, artists: Seq<char>, query: Seq<char>) -> bool {
    holds(title::lowercase(title), query) || holds(title::lowercase(artists), query)
}

/// The title of a track, or nothing.
pub open spec fn title_of(t: Track) -> Seq<char> {
    match t.title {
        Some(s) => s@,
        None => ""@,
    }
}

/// Whether a track matches a query in lower case.
pub open spec fn track_matches(t: Track, query: Seq<char>) -> bool {
    found_in(title_of(t), library::listed(t.artists@), query)
}

/// Whether what stands at a place of the library matches a query in lower case;
/// where nothing does, it has an empty title and no artists.
pub open spec fn place_matches(
    es: Seq<library::PlaylistEntry>,
    t: TrackRef,
    query: Seq<char>,
) -> bool {
    match library::track_at(es, t.0 as int, t.1 as int) {
        Some(track) => track_matches(track, query),
        None => holds(title::lowercase(""@), query) || holds(""@, query),
    }
}

/// The numbers below `n` with a property, in order.
pub open spec fn picked(n: nat, p: spec_fn(int) -> bool) -> Seq<usize>
    decreases n,
{
    if n == 0 {
        Seq::empty()
    } else {
        let front = picked((n - 1) as nat, p);
        if p(n - 1) {
            front.push((n - 1) as usize)
        } else {
            front
        }
    }
}

/// What is picked is picked in order, each number once, and has the property.
pub proof fn picked_in_order(n: nat, p: spec_fn(int) -> bool, i: int, j: int)
    requires
        0 <= i < j < picked(n, p).len(),
        n <= usize::MAX,
    ensures
        picked(n, p)[i] < picked(n, p)[j] < n,
        p(picked(n, p)[i] as int),
        p(picked(n, p)[j] as int),
    decreases n,
{
    let front = picked((n - 1) as nat, p);
    if j < front.len() {
        picked_in_order((n - 1) as nat, p, i, j);
    } else {
        picked_below((n - 1) as nat, p, i);
    }
}

/// What is picked is below the bound and has the property.
pub proof fn picked_below(n: nat, p: spec_fn(int) -> bool, i: int)
    requires
        0 <= i < picked(n, p).len(),
        n <= usize::MAX,
    ensures
        picked(n, p)[i] < n,
        p(picked(n, p)[i] as int),
    decreases n,
{
    let front = picked((n - 1) as nat, p);
    if i < front.len() {
        picked_below((n - 1) as nat, p, i);
    }
}

/// Every number with the property is picked.
pub proof fn nothing_is_passed_over(n: nat, p: spec_fn(int) -> bool, k: int)
    requires
        0 <= k < n,
        n <= usize::MAX,
        p(k),
    ensures
        picked(n, p).contains(k as usize),
    decreases n,
{
    let front = picked((n - 1) as nat, p);
    if k == n - 1 {
        assert(picked(n, p)[front.len() as int] == k as usize);
    } else {
        nothing_is_passed_over((n - 1) as nat, p, k);
        let i = choose|i: int| 0 <= i < front.len() && front[i] == k as usize;
        assert(picked(n, p)[i] == k as usize);
    }
}

/// Without a query everything stays.
pub open spec fn everything() -> spec_fn(int) -> bool {
    |i: int| true
}

/// Matching at a place of a list of songs.
pub open spec fn song_matches(songs: Seq<Track>, query: Seq<char>) -> spec_fn(int) -> bool {
    |i: int| track_matches(songs[i], query)
}

/// Matching at a place of a queue.
pub open spec fn entry_matches(
    es: Seq<library::PlaylistEntry>,
    queue: Seq<TrackRef>,
    query: Seq<char>,
) -> spec_fn(int) -> bool {
    |i: int| place_matches(es, queue[i], query)
}

/// The songs that match a query, by their places.
pub open spec fn songs_shown(songs: Seq<Track>, filter: Seq<char>) -> Seq<usize> {
    if filter.len() == 0 {
        picked(songs.len(), everything())
    } else {
        picked(songs.len(), song_matches(songs, title::lowercase(filter)))
    }
}

/// The queue entries that match a query, by their places.
pub open spec fn entries_shown(
    es: Seq<library::PlaylistEntry>,
    queue: Seq<TrackRef>,
    filter: Seq<char>,
) -> Seq<usize> {
    if filter.len() == 0 {
        picked(queue.len(), everything())
    } else {
        picked(queue.len(), entry_matches(es, queue, title::lowercase(filter)))
    }
}

/// Without a query, row `i` of a list is its `i`-th item.
pub proof fn without_a_query_all_is_shown(n: nat)
    requires
        n <= usize::MAX,
    ensures
        picked(n, everything()).len() == n,
        forall|i: int| 0 <= i < n ==> #[trigger] picked(n, everything())[i] == i,
    decreases n,
{
    if n > 0 {
        without_a_query_all_is_shown((n - 1) as nat);
    }
}

pub(crate) fn within(hay: &str, needle: &[char]) -> (r: bool)
    ensures
        r == holds(hay@, needle@),
{
    let cs = text::chars_of(hay);
    text::find(cs.as_slice(), needle, 0).is_some()
}

/// Whether a title or the artists hold a query in lower case.
pub(crate) fn is_found(title: &str, artists: &str, query: &[char]) -> (r: bool)
    ensures
        r == found_in(title@, artists@, query@),
{
    within(title.to_lowercase().as_str(), query) || within(
        artists.to_lowercase().as_str(),
        query,
    )
}

fn matches(t: &Track, query: &[char]) -> (r: bool)
    ensures
        r == track_matches(*t, query@),
{
    let artists = t.artist_names();
    match &t.title {
        Some(s) => is_found(s.as_str(), artists.as_str(), query),
        None => is_found("", artists.as_str(), query),
    }
}

/// The first `n` numbers.
pub(crate) fn all_rows(n: usize) -> (r: Vec<usize>)
    ensures
        r@ == picked(n as nat, everything()),
{
    let mut out: Vec<usize> = Vec::new();
    let mut i: usize = 0;
    while i < n
        invariant
            i <= n,
            out@ == picked(i as nat, everything()),
        decreases n - i,
    {
        out.push(i);
        i += 1;
    }
    out
}

/// A query in lower case.
pub(crate) fn query_of(filter: &[char]) -> (r: Vec<char>)
    ensures
        r@ == title::lowercase(filter@),
{
    let typed = text::string_of(filter);
    text::chars_of(typed.as_str().to_lowercase().as_str())
}

/// The songs that match `filter`, by their places; all of them where it is empty.
pub fn filtered_songs(songs: &[Track], filter: &[char]) -> (r: Vec<usize>)
    ensures
        r@ == songs_shown(songs@, filter@),
        forall|i: int| 0 <= i < r@.len() ==> #[trigger] r@[i] < songs@.len(),
{
    let n: usize = songs.len();
    if filter.len() == 0 {
        let r = all_rows(n);
        proof {
            without_a_query_all_is_shown(n as nat);
        }
        return r;
    }
    let query = query_of(filter);
    let ghost p = song_matches(songs@, query@);
    let mut out: Vec<usize> = Vec::new();
    let mut i: usize = 0;
    while i < n
        invariant
            i <= n,
            n == songs@.len(),
            p == song_matches(songs@, query@),
            out@ == picked(i as nat, p),
            forall|k: int| 0 <= k < out@.len() ==> #[trigger] out@[k] < n,
        decreases n - i,
    {
        if matches(&songs[i], query.as_slice()) {
            out.push(i);
        }
        i += 1;
    }
    out
}

/// The queue entries that match `filter`, by their places; all of them where it is
/// empty.
pub fn filtered_queue_positions(library: &Library, queue: &[TrackRef], filter: &[char]) -> (r: Vec<
    usize,
>)
    ensures
        r@ == entries_shown(library@, queue@, filter@),
        forall|i: int| 0 <= i < r@.len() ==> #[trigger] r@[i] < queue@.len(),
{
    let n: usize = queue.len();
    if filter.len() == 0 {
        let r = all_rows(n);
        proof {
            without_a_query_all_is_shown(n as nat);
        }
        return r;
    }
    let query = query_of(filter);
    let ghost p = entry_matches(library@, queue@, query@);
    let mut out: Vec<usize> = Vec::new();
    let mut i: usize = 0;
    while i < n
        invariant
            i <= n,
            n == queue@.len(),
            p == entry_matches(library@, queue@, query@),
            out@ == picked(i as nat, p),
            forall|k: int| 0 <= k < out@.len() ==> #[trigger] out@[k] < n,
        decreases n - i,
    {
        let (pl, song) = queue[i];
        let shown = match library.track(pl, song) {
            Some(t) => matches(t, query.as_slice()),
            None => within("".to_lowercase().as_str(), query.as_slice()) || within(
                "",
                query.as_slice(),
            ),
        };
        if shown {
            out.push(i);
        }
        i += 1;
    }
    out
}

} // verus!
