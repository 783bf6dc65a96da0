//! What is kept and found again: the library, a saved queue, translations, settings and the
//! session.

use vstd::prelude::*;

use crate::config;
use crate::config::{Lyrics, Shift};
use crate::error;
use crate::error::ServiceFault;
use crate::filter;
use crate::json;
use crate::library;
use crate::library::{Artist, PlaylistEntry, Track};
use crate::media;
use crate::media::{NowPlaying, PlayState};
use crate::persistence;
use crate::persistence::{CachedTranslation, EntryView, RestoreView};
use crate::player::TrackRef;
use crate::seqs;
use crate::session;
use crate::session::Browser;
use crate::text;
use crate::title;
use crate::translate;

verus! {

// ── the library ──────────────────────────────────────────────────────────────

/// Artists are listed in their order, a comma and a space between two.
pub proof fn artists_are_listed_in_order(artists: Seq<Artist>, a: Artist)
    ensures
        library::listed(Seq::empty()).len() == 0,
        library::listed(seq![a]) == a.name@,
        artists.len() > 0 ==> library::listed(artists.push(a)) == library::listed(artists) + ", "@
            + a.name@,
{
    assert(artists.push(a).drop_last() =~= artists);
}

/// The seconds of two lists together are the sum of theirs, whatever their order; a track
/// of unknown length counts nothing.
pub proof fn seconds_add_up(a: Seq<Track>, b: Seq<Track>, t: Track)
    ensures
        library::seconds_sum(a + b) == library::seconds_sum(a) + library::seconds_sum(b),
        library::seconds_sum(seq![t]) == match t.duration_seconds {
            Some(n) => n as int,
            None => 0,
        },
    decreases b.len(),
{
    assert(seq![t].drop_last() =~= Seq::empty());
    reveal_with_fuel(library::seconds_sum, 2);
    if b.len() > 0 {
        seconds_add_up(a, b.drop_last(), t);
        assert((a + b).drop_last() =~= a + b.drop_last());
        assert((a + b).last() == b.last());
    } else {
        assert(a + b =~= a);
    }
}

/// A playlist whose tracks arrived has them and their seconds, is loaded and has not failed;
/// one of which nothing was fetched has none and is neither.
pub proof fn a_playlist_arrives_whole(
    e: PlaylistEntry,
    p: library::Playlist,
    songs: Seq<Track>,
)
    ensures
        library::arrived(e, p, songs) == (e.playlist == p && e.songs@ == songs && e.loaded
            && !e.failed && e.total_duration_secs == library::seconds_sum(songs)),
        library::untouched(e, p) == (e.playlist == p && e.songs@.len() == 0 && !e.loaded
            && !e.failed && e.total_duration_secs == 0),
{
}

/// A playlist is found by its id, the first where two share one, and where none has it,
/// none is found.
pub proof fn a_playlist_is_found_by_its_id(es: Seq<PlaylistEntry>, id: Seq<char>, j: int)
    ensures
        match library::playlist_index(es, id) {
            Some(i) => {
                &&& 0 <= i < es.len() && es[i].playlist.playlist_id@ == id
                &&& 0 <= j < i ==> es[j].playlist.playlist_id@ != id
            },
            None => 0 <= j < es.len() ==> es[j].playlist.playlist_id@ != id,
        },
{
    let p = library::called(id);
    seqs::lemma_first_where(es, p, 0);
    if 0 <= j < es.len() {
        assert(p(es[j]) == (es[j].playlist.playlist_id@ == id));
    }
}

/// A song is found by its video, the first where two share one.
pub proof fn a_song_is_found_by_its_video(songs: Seq<Track>, video: Seq<char>, j: int)
    ensures
        match library::song_index(songs, video) {
            Some(i) => {
                &&& 0 <= i < songs.len() && text::opt(songs[i].video_id) == Some(video)
                &&& 0 <= j < i ==> text::opt(songs[j].video_id) != Some(video)
            },
            None => 0 <= j < songs.len() ==> text::opt(songs[j].video_id) != Some(video),
        },
{
    let p = |t: Track| text::opt(t.video_id) == Some(video);
    seqs::lemma_first_where(songs, p, 0);
    if 0 <= j < songs.len() {
        assert(p(songs[j]) == (text::opt(songs[j].video_id) == Some(video)));
    }
}

/// A fetch is tried three times: again half a second after the first failure and a second
/// after the second, and then no more.
pub proof fn a_fetch_is_tried_three_times(attempt: u32)
    ensures
        library::delay(1) == Some(500u64),
        library::delay(2) == Some(1000u64),
        attempt >= 3 ==> library::delay(attempt) is None,
{
}

/// A track's title, or nothing.
pub open spec fn name_of(t: Track) -> Seq<char> {
    match t.title {
        Some(s) => s@,
        None => ""@,
    }
}

/// What is shown under a filter are the songs whose title or artists hold it, whatever the
/// case of the letters; without one it is every song.
pub proof fn a_filter_shows_what_holds_it(songs: Seq<Track>, query: Seq<char>, k: int, at: int)
    requires
        songs.len() <= usize::MAX,
        0 <= k < songs.len(),
    ensures
        ({
            let shown = filter::songs_shown(songs, query);
            let name = name_of(songs[k]);
            let artists = library::listed(songs[k].artists@);
            let q = title::lowercase(query);
            &&& query.len() == 0 ==> shown.contains(k as usize)
            &&& query.len() > 0 && text::occurs(title::lowercase(name), q, at) ==> shown.contains(
                k as usize,
            )
            &&& query.len() > 0 && text::occurs(title::lowercase(artists), q, at)
                ==> shown.contains(k as usize)
            &&& query.len() > 0 && shown.contains(k as usize) ==> (exists|i: int|
                #[trigger] text::occurs(title::lowercase(name), q, i)) || (exists|i: int|
                #[trigger] text::occurs(title::lowercase(artists), q, i))
        }),
{
    let shown = filter::songs_shown(songs, query);
    let q = title::lowercase(query);
    let name = name_of(songs[k]);
    let artists = library::listed(songs[k].artists@);
    let p = filter::song_matches(songs, q);
    if query.len() == 0 {
        filter::nothing_is_passed_over(songs.len(), filter::everything(), k);
    } else {
        text::lemma_find_from(title::lowercase(name), q, 0);
        text::lemma_find_from(title::lowercase(artists), q, 0);
        if p(k) {
            filter::nothing_is_passed_over(songs.len(), p, k);
        }
        assert(text::occurs(title::lowercase(name), q, at) ==> p(k));
        assert(text::occurs(title::lowercase(artists), q, at) ==> p(k));
        if shown.contains(k as usize) {
            let i = choose|i: int| 0 <= i < shown.len() && shown[i] == k as usize;
            filter::picked_below(songs.len(), p, i);
            assert(p(k));
            if filter::holds(title::lowercase(name), q) {
                let j = text::find_from(title::lowercase(name), q, 0)->0;
                assert(text::occurs(title::lowercase(name), q, j));
            } else {
                let j = text::find_from(title::lowercase(artists), q, 0)->0;
                assert(text::occurs(title::lowercase(artists), q, j));
            }
        }
    }
}

/// Of a queue the entries are shown whose track holds the filter, whatever the case of the
/// letters; without one every entry is.
pub proof fn a_filter_shows_entries_that_hold_it(
    es: Seq<PlaylistEntry>,
    queue: Seq<TrackRef>,
    query: Seq<char>,
    k: int,
    at: int,
)
    requires
        0 <= k < queue.len() <= usize::MAX,
        queue[k].0 < es.len(),
        queue[k].1 < es[queue[k].0 as int].songs@.len(),
    ensures
        ({
            let t = es[queue[k].0 as int].songs@[queue[k].1 as int];
            let shown = filter::entries_shown(es, queue, query);
            let q = title::lowercase(query);
            let artists = library::listed(t.artists@);
            &&& query.len() == 0 ==> shown.contains(k as usize)
            &&& query.len() > 0 && text::occurs(title::lowercase(name_of(t)), q, at)
                ==> shown.contains(k as usize)
            &&& query.len() > 0 && text::occurs(title::lowercase(artists), q, at)
                ==> shown.contains(k as usize)
            &&& query.len() > 0 && shown.contains(k as usize) ==> (exists|i: int|
                #[trigger] text::occurs(title::lowercase(name_of(t)), q, i)) || (exists|i: int|
                #[trigger] text::occurs(title::lowercase(artists), q, i))
        }),
{
    let t = es[queue[k].0 as int].songs@[queue[k].1 as int];
    let shown = filter::entries_shown(es, queue, query);
    let q = title::lowercase(query);
    let name = name_of(t);
    let artists = library::listed(t.artists@);
    let p = filter::entry_matches(es, queue, q);
    if query.len() == 0 {
        filter::nothing_is_passed_over(queue.len(), filter::everything(), k);
    } else {
        text::lemma_find_from(title::lowercase(name), q, 0);
        text::lemma_find_from(title::lowercase(artists), q, 0);
        if p(k) {
            filter::nothing_is_passed_over(queue.len(), p, k);
        }
        assert(text::occurs(title::lowercase(name), q, at) ==> p(k));
        assert(text::occurs(title::lowercase(artists), q, at) ==> p(k));
        if shown.contains(k as usize) {
            let i = choose|i: int| 0 <= i < shown.len() && shown[i] == k as usize;
            filter::picked_below(queue.len(), p, i);
            assert(p(k));
            if filter::holds(title::lowercase(name), q) {
                let j = text::find_from(title::lowercase(name), q, 0)->0;
                assert(text::occurs(title::lowercase(name), q, j));
            } else {
                let j = text::find_from(title::lowercase(artists), q, 0)->0;
                assert(text::occurs(title::lowercase(artists), q, j));
            }
        }
    }
}

// ── a saved queue ────────────────────────────────────────────────────────────

/// A queued track is saved by its playlist's id and its video; one without a video is not.
pub proof fn a_track_is_saved_by_its_video(es: Seq<PlaylistEntry>, t: TrackRef, video: Seq<char>)
    requires
        t.0 < es.len(),
        t.1 < es[t.0 as int].songs@.len(),
        text::opt(es[t.0 as int].songs@[t.1 as int].video_id) == Some(video),
    ensures
        video.len() > 0 ==> persistence::saved_entry(es, t) == Some(
            EntryView { playlist: Some(es[t.0 as int].playlist.playlist_id@), video },
        ),
        video.len() == 0 ==> persistence::saved_entry(es, t) is None,
{
}

/// Entries are saved in the queue's order, and the place of a track is how many saved ones
/// stand before it.
pub proof fn entries_are_saved_in_order(
    es: Seq<PlaylistEntry>,
    front: Seq<TrackRef>,
    t: TrackRef,
    back: Seq<TrackRef>,
)
    requires
        persistence::saved_entry(es, t) is Some,
        front.len() + back.len() < usize::MAX,
    ensures
        ({
            let queue = front.push(t) + back;
            let saved = persistence::saved_entries(es, queue);
            let p = persistence::saved_position(es, queue, Some(front.len() as usize));
            &&& p == Some(persistence::saved_entries(es, front).len() as usize)
            &&& saved == persistence::saved_entries(es, front).push(
                persistence::saved_entry(es, t)->0,
            ) + persistence::saved_entries(es, back)
        }),
        persistence::saved_position(es, front, None) is None,
{
    let queue = front.push(t) + back;
    let n = front.len() as int;
    assert(queue.take(n) =~= front);
    assert(queue[n] == t);
    lemma_saved_parts(es, front.push(t), back);
    assert(front.push(t).drop_last() =~= front);
}

proof fn lemma_saved_parts(es: Seq<PlaylistEntry>, a: Seq<TrackRef>, b: Seq<TrackRef>)
    ensures
        persistence::saved_entries(es, a + b) == persistence::saved_entries(es, a)
            + persistence::saved_entries(es, b),
    decreases b.len(),
{
    if b.len() > 0 {
        lemma_saved_parts(es, a, b.drop_last());
        assert((a + b).drop_last() =~= a + b.drop_last());
        assert((a + b).last() == b.last());
        assert(persistence::saved_entries(es, a + b) =~= persistence::saved_entries(es, a)
            + persistence::saved_entries(es, b));
    } else {
        assert(a + b =~= a);
        assert(persistence::saved_entries(es, a) + persistence::saved_entries(es, b)
            =~= persistence::saved_entries(es, a));
    }
}

/// A queue of a playlist that is gone is given up, and so is one of which no track is left.
pub proof fn a_lost_queue_is_given_up(
    es: Seq<PlaylistEntry>,
    entries: Seq<EntryView>,
    e: EntryView,
    position: Option<usize>,
)
    requires
        e.playlist is Some,
        forall|j: int|
            0 <= j < es.len() ==> (#[trigger] es[j]).playlist.playlist_id@ != e.playlist->0,
    ensures
        persistence::restored(es, seq![e] + entries, position) == RestoreView::Abandoned,
        persistence::restored(es, Seq::empty(), position) == RestoreView::Abandoned,
{
    let all = seq![e] + entries;
    a_playlist_is_found_by_its_id(es, e.playlist->0, 0);
    match library::playlist_index(es, e.playlist->0) {
        Some(i) => {
            assert(es[i].playlist.playlist_id@ != e.playlist->0);
        },
        None => {},
    }
    assert(all[0] == e);
    assert(persistence::blocks(es)(all[0]));
}

/// Of a queue whose playlists have all arrived, the tracks that are still there come back
/// in their order, at the saved position, or at the first where that is beyond them.
pub proof fn a_position_beyond_the_queue_starts_over(
    es: Seq<PlaylistEntry>,
    entries: Seq<EntryView>,
    p: usize,
)
    requires
        forall|i: int| 0 <= i < entries.len() ==> !persistence::blocks(es)(#[trigger] entries[i]),
        persistence::found_tracks(es, entries).len() > 0,
    ensures
        ({
            let queue = persistence::found_tracks(es, entries);
            &&& p < queue.len() ==> persistence::restored(es, entries, Some(p)) == (
            RestoreView::Ready { queue, position: Some(p) })
            &&& p >= queue.len() ==> persistence::restored(es, entries, Some(p)) == (
            RestoreView::Ready { queue, position: Some(0usize) })
            &&& persistence::restored(es, entries, None) == (RestoreView::Ready {
                queue,
                position: Some(0usize),
            })
        }),
{
    seqs::lemma_first_where(entries, persistence::blocks(es), 0);
}

/// What is found of an entry is the song with its video in the playlist with its id, and
/// an entry of which nothing is found is left out.
pub proof fn entries_are_found_in_order(es: Seq<PlaylistEntry>, front: Seq<EntryView>, e: EntryView)
    requires
        es.len() <= usize::MAX,
        forall|i: int| 0 <= i < es.len() ==> (#[trigger] es[i]).songs@.len() <= usize::MAX,
    ensures
        ({
            let before = persistence::found_tracks(es, front);
            let after = persistence::found_tracks(es, front.push(e));
            &&& after == before || after.drop_last() == before
            &&& after != before ==> ({
                let t = after.last();
                &&& t.0 < es.len() && t.1 < es[t.0 as int].songs@.len()
                &&& e.playlist == Some(es[t.0 as int].playlist.playlist_id@)
                &&& text::opt(es[t.0 as int].songs@[t.1 as int].video_id) == Some(e.video)
            })
        }),
{
    assert(front.push(e).drop_last() =~= front);
    match persistence::found(es, e) {
        Some(t) => {
            let before = persistence::found_tracks(es, front);
            assert(before.push(t).drop_last() =~= before);
            a_playlist_is_found_by_its_id(es, e.playlist->0, 0);
            let p = library::playlist_index(es, e.playlist->0)->0;
            a_song_is_found_by_its_video(library::songs_at(es, p), e.video, 0);
        },
        None => {},
    }
}

// ── translations ─────────────────────────────────────────────────────────────

/// A thousand translations are kept, and what goes to make room is older than all that
/// stays, or as old.
pub proof fn the_oldest_go(
    m: Map<Seq<char>, CachedTranslation>,
    cap: nat,
    gone: Seq<char>,
    kept: Seq<char>,
)
    requires
        m.dom().finite(),
        m.contains_key(gone),
        !persistence::evicting(m, cap).contains_key(gone),
        persistence::evicting(m, cap).contains_key(kept),
    ensures
        m.contains_key(kept),
        m[gone].saved_at <= m[kept].saved_at,
        m[gone].saved_at == m[kept].saved_at ==> text::before(gone, kept),
        persistence::MAX_SAVED_TRANSLATIONS == 1000,
    decreases m.len(),
{
    persistence::eviction_reaches_the_cap(m, cap);
    assert(m.dom().finite() && m.len() > cap && exists|k: Seq<char>| persistence::is_oldest(m, k));
    let k = choose|k: Seq<char>| persistence::is_oldest(m, k);
    let rest = m.remove(k);
    assert(persistence::evicting(m, cap) == persistence::evicting(rest, cap));
    persistence::eviction_reaches_the_cap(rest, cap);
    assert(rest.contains_key(kept));
    if gone == k {
        assert(persistence::goes_before(m, k, kept));
    } else {
        the_oldest_go(rest, cap, gone, kept);
    }
}

// ── settings ─────────────────────────────────────────────────────────────────

/// A shift of up to thirty seconds either way is used as it is, a larger one as thirty
/// seconds on the same side, and what is no number as none.
pub proof fn a_shift_is_at_most_thirty_seconds(n: i64)
    ensures
        -30_000_000_000 <= n <= 30_000_000_000 ==> config::usable_shift(Shift::Nanos(n)) == n,
        n > 30_000_000_000 ==> config::usable_shift(Shift::Nanos(n)) == 30_000_000_000,
        n < -30_000_000_000 ==> config::usable_shift(Shift::Nanos(n)) == -30_000_000_000,
        config::usable_shift(Shift::NotFinite) == 0,
{
}

/// A key is used as it was found, unless it is blank.
pub proof fn a_blank_key_is_none(k: Seq<char>)
    ensures
        text::trimmed(k).len() > 0 ==> config::usable_key(Some(k)) == Some(k),
        text::trimmed(k).len() == 0 ==> config::usable_key(Some(k)) is None,
        config::usable_key(None) is None,
{
}

/// A model translates only where it was asked for, is named and there is a key: without
/// any of the three nothing is sent to it.
pub proof fn nothing_is_sent_unasked(l: Lyrics, key: Option<Seq<char>>)
    ensures
        !l.ai_translation ==> !config::uses_model(l, key),
        l.ai_model@.len() == 0 ==> !config::uses_model(l, key),
        key is None ==> !config::uses_model(l, key),
        l.ai_translation && l.ai_model@.len() > 0 && key is Some ==> config::uses_model(l, key),
{
}

/// A language that is known in any case of its letters is spelled as it is known; one that
/// is not known has no spelling.
pub proof fn a_language_is_spelled_as_known(known: Seq<Seq<char>>, want: Seq<char>, j: int)
    ensures
        match config::known_spelling(known, want) {
            Some(code) => known.contains(code) && code.len() == want.len() && forall|i: int|
                0 <= i < code.len() ==> text::ascii_lower(#[trigger] code[i]) == text::ascii_lower(
                    want[i],
                ),
            None => 0 <= j < known.len() ==> known[j] != want,
        },
{
    let p = config::spells(want);
    seqs::lemma_first_where(known, p, 0);
    if 0 <= j < known.len() && known[j] == want {
        assert(p(known[j]));
    }
    match seqs::first_where(known, p, 0) {
        Some(i) => {
            assert(p(known[i]));
        },
        None => {},
    }
}

// ── the session ──────────────────────────────────────────────────────────────

/// A browser is shown by its name with a capital.
pub proof fn a_browser_is_shown_by_its_name(b: Browser)
    ensures
        session::same_but_case(session::label_of(b), session::browser_arg(b)),
        session::label_of(b).len() > 0,
        'A' <= session::label_of(b)[0] && session::label_of(b)[0] <= 'Z',
{
    reveal_strlit("chrome");
    reveal_strlit("firefox");
    reveal_strlit("edge");
    reveal_strlit("brave");
    reveal_strlit("opera");
    reveal_strlit("chromium");
    reveal_strlit("vivaldi");
    reveal_strlit("safari");
    reveal_strlit("Chrome");
    reveal_strlit("Firefox");
    reveal_strlit("Edge");
    reveal_strlit("Brave");
    reveal_strlit("Opera");
    reveal_strlit("Chromium");
    reveal_strlit("Vivaldi");
    reveal_strlit("Safari");
}

/// Two texts are the same but for case where they have the same letters in the same order;
/// one more character on each side keeps that exactly where these two are.
pub proof fn case_makes_no_difference(a: Seq<char>, b: Seq<char>, c: char, d: char)
    ensures
        session::same_but_case(Seq::empty(), Seq::empty()),
        !session::same_but_case(a.push(c), Seq::empty()),
        session::same_but_case(a.push(c), b.push(d)) == (session::same_but_case(a, b)
            && text::ascii_lower(c) == text::ascii_lower(d)),
{
    let x = a.push(c);
    let y = b.push(d);
    let n = a.len() as int;
    if session::same_but_case(x, y) {
        assert forall|i: int| 0 <= i < a.len() implies text::ascii_lower(#[trigger] a[i])
            == text::ascii_lower(b[i]) by {
            assert(x[i] == a[i]);
        }
        assert(x[n] == c);
    }
    if session::same_but_case(a, b) && text::ascii_lower(c) == text::ascii_lower(d) {
        assert forall|i: int| 0 <= i < x.len() implies text::ascii_lower(#[trigger] x[i])
            == text::ascii_lower(y[i]) by {
            if i < n {
                assert(a[i] == x[i]);
            }
        }
    }
}

/// Cookies are renewed when they are six hours old.
pub proof fn cookies_last_six_hours()
    ensures
        session::REFRESH_AFTER_SECS == 6 * 60 * 60,
{
}

proof fn lemma_field(a: Seq<char>, rest: Seq<char>, n: nat)
    requires
        !a.contains('\t'),
        n > 1,
    ensures
        session::fields(a + seq!['\t'] + rest, n) == seq![a] + session::fields(
            rest,
            (n - 1) as nat,
        ),
        session::fields(a, n) == seq![a],
{
    let s = a + seq!['\t'] + rest;
    let k = a.len() as int;
    text::lemma_first_of(s, '\t', 0);
    text::lemma_first_of(a, '\t', 0);
    if text::first_of(a, '\t', 0) is Some {
        assert(a.contains('\t'));
    }
    assert(s[k] == '\t');
    let i = text::first_of(s, '\t', 0)->0;
    if i < k {
        assert(a[i] == s[i]);
        assert(a.contains('\t'));
    }
    assert(i == k);
    assert(s.take(k) =~= a);
    assert(s.skip(k + 1) =~= rest);
}

/// A line of a cookie file has a domain, four more fields, a name and a value: with a
/// domain of the video service that is the cookie, and with another it is none. A comment
/// is none either.
pub proof fn a_cookie_is_a_name_and_a_value(
    domain: Seq<char>,
    a: Seq<char>,
    b: Seq<char>,
    c: Seq<char>,
    d: Seq<char>,
    name: Seq<char>,
    value: Seq<char>,
)
    requires
        domain.len() > 0,
        !domain.contains('\t'),
        !a.contains('\t'),
        !b.contains('\t'),
        !c.contains('\t'),
        !d.contains('\t'),
        !name.contains('\t'),
    ensures
        ({
            let t = seq!['\t'];
            let tail = d + t + (name + t + value);
            let line = domain + t + (a + t + (b + t + (c + t + tail)));
            let ours = exists|i: int|
                #[trigger] text::occurs(domain, "youtube.com"@, i) && i + "youtube.com"@.len()
                    == domain.len();
            &&& domain[0] == '#' ==> session::cookie_on(line) is None
            &&& domain[0] != '#' && ours ==> session::cookie_on(line) == Some(
                name + "="@ + value,
            )
            &&& !ours ==> session::cookie_on(line) is None
        }),
{
    let t = seq!['\t'];
    let l6 = name + t + value;
    let l5 = d + t + l6;
    let l4 = c + t + l5;
    let l3 = b + t + l4;
    let l2 = a + t + l3;
    let line = domain + t + l2;
    lemma_field(domain, l2, 7);
    lemma_field(a, l3, 6);
    lemma_field(b, l4, 5);
    lemma_field(c, l5, 4);
    lemma_field(d, l6, 3);
    lemma_field(name, value, 2);
    reveal_with_fuel(session::fields, 2);
    assert(session::fields(value, 1) == seq![value]);
    let f = session::fields(line, 7);
    assert(f =~= seq![domain, a, b, c, d, name, value]);
    assert(line[0] == domain[0]);
    let y = "youtube.com"@;
    let n = domain.len() - y.len();
    if title::without_suffix(domain, y) is Some {
        assert(domain.subrange(n, n + y.len()) =~= domain.skip(n));
        assert(text::occurs(domain, y, n));
    }
    if exists|i: int| #[trigger] text::occurs(domain, y, i) && i + y.len() == domain.len() {
        let i = choose|i: int| #[trigger]
            text::occurs(domain, y, i) && i + y.len() == domain.len();
        assert(domain.subrange(i, i + y.len()) =~= domain.skip(n));
    }
}

/// The cookies of a file are joined in their order by a semicolon and a space, and a line
/// without one adds nothing.
pub proof fn cookies_are_joined_in_order(ls: Seq<Seq<char>>, l: Seq<char>)
    ensures
        session::cookies_on(Seq::empty()).len() == 0,
        session::cookie_on(l) is None ==> session::cookies_on(ls.push(l)) == session::cookies_on(
            ls,
        ),
        session::cookie_on(l) matches Some(c) ==> session::cookies_on(ls.push(l))
            == session::cookies_on(ls).push(c),
        session::cookie_on(l) matches Some(c) ==> session::cookies_on(ls).len() > 0
            ==> text::joined(session::cookies_on(ls.push(l)), "; "@) == text::joined(
            session::cookies_on(ls),
            "; "@,
        ) + "; "@ + c,
{
    assert(ls.push(l).drop_last() =~= ls);
    match session::cookie_on(l) {
        Some(c) => {
            let cs = session::cookies_on(ls);
            assert(cs.push(c).drop_last() =~= cs);
        },
        None => {},
    }
}

/// The header of a file with two cookies has both, in their order.
pub proof fn a_header_has_every_cookie(a: Seq<char>, b: Seq<char>)
    requires
        !a.contains('\n'),
        !b.contains('\n'),
        a.len() == 0 || a.last() != '\r',
        b.len() > 0,
    ensures
        session::cookie_on(a) is Some && session::cookie_on(b) is Some ==> session::cookie_header(
            a + seq!['\n'] + b,
        ) == session::cookie_on(a)->0 + "; "@ + session::cookie_on(b)->0,
        session::cookie_on(a) is None && session::cookie_on(b) is Some ==> session::cookie_header(
            a + seq!['\n'] + b,
        ) == session::cookie_on(b)->0,
        session::cookie_on(a) is None && session::cookie_on(b) is None ==> session::cookie_header(
            a + seq!['\n'] + b,
        ).len() == 0,
{
    crate::laws::words::lines_end_at_newlines(a, b);
    crate::laws::words::lines_end_at_newlines(b, b);
    let ls = text::lines_of(a + seq!['\n'] + b);
    assert(ls =~= seq![a, b]);
    assert(ls.drop_last() =~= seq![a]);
    assert(seq![a].drop_last() =~= Seq::empty());
    assert(session::cookies_on(Seq::empty()) =~= Seq::empty());
    let first = session::cookies_on(seq![a]);
    let all = session::cookies_on(ls);
    match (session::cookie_on(a), session::cookie_on(b)) {
        (Some(x), Some(y)) => {
            assert(first =~= seq![x]);
            assert(all =~= seq![x, y]);
            assert(all.drop_last() =~= seq![x]);
            assert(text::joined(seq![x], "; "@) == x);
        },
        (None, Some(y)) => {
            assert(first =~= Seq::empty());
            assert(all =~= seq![y]);
        },
        _ => {},
    }
}

/// A new cookie goes into a session file that is an object; one that is no JSON is an error,
/// and another stays as it is.
pub proof fn a_new_cookie_goes_into_the_session(doc: Seq<char>, cookie: Seq<char>)
    ensures
        json::json_fault(doc) matches Some(e) ==> session::with_cookie(doc, cookie) == Err::<
            Option<Seq<char>>,
            Seq<char>,
        >(e),
        json::json_fault(doc) is None && !json::json_keyed(doc) ==> session::with_cookie(doc, cookie)
            == Ok::<Option<Seq<char>>, Seq<char>>(None),
        json::json_fault(doc) is None && json::json_keyed(doc) ==> session::with_cookie(doc, cookie)
            == Ok::<Option<Seq<char>>, Seq<char>>(Some(json::json_with(doc, "cookie"@, cookie))),
{
}

/// A value in single quotes behind a flag is taken without them, and the search goes on
/// behind it.
pub proof fn a_quoted_value_is_taken(
    a: Seq<char>,
    flag: Seq<char>,
    v: Seq<char>,
    rest: Seq<char>,
)
    requires
        !v.contains('\''),
        text::find_from(a + flag + v + seq!['\''] + rest, flag, 0) == Some(a.len() as int),
    ensures
        session::quoted_after(a + flag + v + seq!['\''] + rest, flag) == seq![v]
            + session::quoted_after(rest, flag),
{
    let s = a + flag + v + seq!['\''] + rest;
    let n = a.len() as int;
    let tail = s.skip(n + flag.len());
    assert(tail =~= v + seq!['\''] + rest);
    text::lemma_first_of(tail, '\'', 0);
    let k = v.len() as int;
    assert(tail[k] == '\'');
    let j = text::first_of(tail, '\'', 0)->0;
    if j < k {
        assert(tail[j] == v[j]);
        assert(v.contains('\''));
    }
    assert(j == k);
    assert(tail.take(k) =~= v);
    assert(tail.skip(k + 1) =~= rest);
}

/// A header is a name, a colon, a space and a value; its name is kept in lower case, and
/// the last of a name counts.
pub proof fn a_header_is_a_name_and_a_value(
    values: Seq<Seq<char>>,
    name: Seq<char>,
    v: Seq<char>,
    other: Seq<char>,
)
    requires
        !name.contains(':'),
    ensures
        ({
            let before = session::headers_of(values);
            let after = session::headers_of(values.push(name + ": "@ + v));
            &&& after.contains_key(title::lowercase(name)) && after[title::lowercase(name)] == v
            &&& other != title::lowercase(name) ==> after.contains_key(other)
                == before.contains_key(other) && (before.contains_key(other) ==> after[other]
                == before[other])
        }),
{
    reveal_strlit(": ");
    let sep = ": "@;
    let s = name + sep + v;
    let n = name.len() as int;
    assert(values.push(s).drop_last() =~= values);
    text::lemma_find_from(s, sep, 0);
    assert(s.subrange(n, n + sep.len()) =~= sep);
    assert(text::occurs(s, sep, n));
    let i = text::find_from(s, sep, 0)->0;
    assert(text::occurs(s, sep, i));
    assert(s.subrange(i, i + sep.len())[0] == sep[0]);
    assert(s[i] == ':');
    if i < n {
        assert(s[i] == name[i]);
        assert(name.contains(':'));
    }
    assert(i == n);
    assert(s.take(n) =~= name);
    assert(s.skip(n + 2) =~= v);
}

/// A cookie of its own on the command line counts before one among the headers.
pub proof fn a_cookie_flag_counts_first(line: Seq<char>)
    ensures
        ({
            let own = session::quoted_after(line, "-b"@ + " '"@);
            let h = session::headers_of(session::quoted_after(line, "-H"@ + " '"@));
            let all = session::curl_headers(line);
            &&& own.len() > 0 ==> all.contains_key("cookie"@) && all["cookie"@] == own[0]
            &&& own.len() == 0 ==> all == h
            &&& forall|k: Seq<char>|
                k != "cookie"@ ==> #[trigger] all.contains_key(k) == h.contains_key(k)
            &&& forall|k: Seq<char>|
                k != "cookie"@ && h.contains_key(k) ==> #[trigger] all[k] == h[k]
        }),
{
}

/// What a command lacks are those of the two headers that are not there.
pub proof fn a_session_needs_two_headers(h: Map<Seq<char>, Seq<char>>, k: Seq<char>)
    ensures
        session::missing_of(h).contains(k) == ((k == "cookie"@ || k == "x-goog-authuser"@)
            && !h.contains_key(k)),
{
    let m = session::missing_of(h);
    if m.contains(k) {
        let i = choose|i: int| 0 <= i < m.len() && m[i] == k;
        assert(m[i] == k);
    }
    if k == "cookie"@ && !h.contains_key(k) {
        assert(m[0] == k);
    }
    if k == "x-goog-authuser"@ && !h.contains_key(k) {
        assert(m.last() == k);
    }
}

/// The headers that go with a cookie have it as it is, for the first account of the music
/// site.
pub proof fn default_headers_carry_the_cookie(cookie: Seq<char>)
    ensures
        ({
            let h = session::default_headers(cookie);
            &&& h.contains_key("cookie"@) && h["cookie"@] == cookie
            &&& h.contains_key("x-goog-authuser"@) && h["x-goog-authuser"@] == "0"@
            &&& h.contains_key("x-origin"@) && h["x-origin"@] == "https://music.youtube.com"@
            &&& session::missing_of(h).len() == 0
        }),
{
    reveal_strlit("cookie");
    reveal_strlit("x-goog-authuser");
    reveal_strlit("x-origin");
    reveal_strlit("user-agent");
    reveal_strlit("accept");
    reveal_strlit("accept-language");
    reveal_strlit("content-type");
    assert("cookie"@.len() == 6 && "x-goog-authuser"@.len() == 15 && "x-origin"@.len() == 8
        && "user-agent"@.len() == 10 && "accept"@.len() == 6 && "accept-language"@.len() == 15
        && "content-type"@.len() == 12);
    assert("cookie"@[0] == 'c' && "accept"@[0] == 'a' && "x-goog-authuser"@[0] == 'x'
        && "accept-language"@[0] == 'a');
}

/// An error's words carry what was said of it; a browser is named, and missing headers are
/// quoted and listed.
pub proof fn an_error_says_what_happened(
    e: error::Error,
    install: Seq<char>,
    names: Seq<Seq<char>>,
    n: Seq<char>,
)
    ensures
        e matches error::Error::Mpv(s) ==> error::in_words(e, install) == "libmpv init failed: "@
            + s@,
        e matches error::Error::Lyrics(s) ==> error::in_words(e, install)
            == "lyrics lookup failed: "@ + s@,
        e matches error::Error::Ytmusicapi(s) ==> error::in_words(e, install) == s@,
        e matches error::Error::Io(s) ==> error::in_words(e, install) == s@,
        e matches error::Error::Json(s) ==> error::in_words(e, install) == s@,
        e matches error::Error::Prompt(s) ==> error::in_words(e, install) == s@,
        e matches error::Error::Other(s) ==> error::in_words(e, install) == s@,
        e is YtDlpNotInstalled ==> error::in_words(e, install)
            == "yt-dlp not found — install it with: "@ + install,
        e matches error::Error::NoCookiesFound { browser } ==> error::in_words(e, install)
            == "no youtube.com cookies found in "@ + session::label_of(browser)
            + " — are you signed in to YouTube Music?"@,
        names.len() > 0 ==> error::quoted_list(names.push(n)) == error::quoted_list(names) + ", "@
            + translate::quoted(n),
        error::quoted_list(seq![n]) == translate::quoted(n),
{
    assert(names.push(n).drop_last() =~= names);
}

/// A session has ended where the service wants one or answers 401, and with no other
/// answer.
pub proof fn only_a_401_ends_a_session(f: ServiceFault)
    ensures
        error::session_ended(f) == (f is AuthRequired || (f is Server && f->status == 401)),
{
}

// ── the desktop ──────────────────────────────────────────────────────────────

/// Within a track a jump of more than a second, either way, is a seek, unless nothing
/// plays; less is not.
pub proof fn a_jump_of_more_than_a_second_is_a_seek(now: NowPlaying, position: int)
    ensures
        ({
            let id = match now.track {
                Some(t) => Some(t.id@),
                None => None,
            };
            let p = now.position;
            let j = media::jumped(now, id, position);
            &&& now.state == PlayState::Stopped ==> !j
            &&& now.state != PlayState::Stopped ==> j == (p - position > 1_000_000_000
                || position - p > 1_000_000_000)
        }),
{
}

} // verus!
