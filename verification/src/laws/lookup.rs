//! Lyrics: which records are offered, in which order, and which one a search ends with.

use vstd::prelude::*;

use crate::library::Track;
use crate::lrc;
use crate::lyrics;
use crate::lyrics::{AttemptView, KindView, QueryView, RecordView, TrackView};
use crate::search;
use crate::search::{CollectionView, LookupView, RecordReply, Stage};
use crate::seqs;
use crate::text;
use crate::title;

verus! {

// ── ranking ──────────────────────────────────────────────────────────────────

/// How many nanoseconds a record's length is off.
pub open spec fn off_by(c: TrackView, q: QueryView) -> int {
    let d = c.duration->0 - q.duration->0;
    if d < 0 {
        -d
    } else {
        d
    }
}

/// The same in whole seconds, halves upwards.
pub open spec fn seconds_off(c: TrackView, q: QueryView) -> int {
    (off_by(c, q) + 500_000_000) / 1_000_000_000
}

/// Whether a record's artist holds the track's first artist, whatever the case.
pub open spec fn by_the_artist(c: TrackView, q: QueryView) -> bool {
    exists|i: int|
        0 <= i && #[trigger] text::occurs(
            title::lowercase(c.artist_name),
            title::lowercase(title::first_artist(q.artist)),
            i,
        )
}

/// Whether a record has the track's clean title, whatever the case.
pub open spec fn of_the_title(c: TrackView, q: QueryView) -> bool {
    title::lowercase(c.track_name) == title::lowercase(title::clean_title(q.title))
}

proof fn lemma_score(c: TrackView, q: QueryView)
    requires
        c.duration matches Some(d) ==> i64::MIN <= d <= i64::MAX,
        q.duration matches Some(d) ==> i64::MIN <= d <= i64::MAX,
    ensures
        lyrics::score(c, q).unsynced == !(c.kind is Synced),
        (lyrics::score(c, q).delta is Some) == (c.duration is Some && q.duration is Some),
        c.duration is Some && q.duration is Some ==> lyrics::score(c, q).delta->0 == seconds_off(
            c,
            q,
        ),
        lyrics::score(c, q).other_artist == !by_the_artist(c, q),
        lyrics::score(c, q).other_title == !of_the_title(c, q),
{
    text::lemma_find_from(
        title::lowercase(c.artist_name),
        title::lowercase(title::first_artist(q.artist)),
        0,
    );
}

/// Of two records that are offered, the first is never the worse: a timed one is not
/// behind a plain one; of two timed or two plain ones one whose length is known is not
/// behind one of unknown length, nor the closer in whole seconds behind the further; of
/// two as close, one by the track's artist is not behind one by another; and of two by
/// the artist, or two by others, one of the track's title not behind one of another.
pub proof fn better_records_come_first(items: Seq<TrackView>, q: QueryView, i: int, j: int)
    requires
        0 <= i < j < lyrics::ranked(items, q).len(),
        q.duration matches Some(d) ==> i64::MIN <= d <= i64::MAX,
        forall|k: int|
            0 <= k < items.len() ==> ((#[trigger] items[k]).duration matches Some(d) ==> i64::MIN
                <= d <= i64::MAX),
    ensures
        ({
            let a = lyrics::ranked(items, q)[i];
            let b = lyrics::ranked(items, q)[j];
            let alike = (a.kind is Synced) == (b.kind is Synced);
            let known_a = a.duration is Some && q.duration is Some;
            let known_b = b.duration is Some && q.duration is Some;
            let level = alike && known_a == known_b && (known_a ==> seconds_off(a, q)
                == seconds_off(b, q));
            &&& b.kind is Synced ==> a.kind is Synced
            &&& alike && known_b ==> known_a && seconds_off(a, q) <= seconds_off(b, q)
            &&& level && by_the_artist(b, q) ==> by_the_artist(a, q)
            &&& level && by_the_artist(a, q) == by_the_artist(b, q) && of_the_title(b, q)
                ==> of_the_title(a, q)
        }),
{
    let all = lyrics::ranked(items, q);
    assert(seqs::total(lyrics::better(q)));
    seqs::lemma_sorted_in_order(items.filter(lyrics::fits(q)), lyrics::better(q));
    assert(lyrics::better(q)(all[i], all[j]));
    lyrics::only_fitting_records_are_offered(items, q, i);
    lyrics::only_fitting_records_are_offered(items, q, j);
    let m = choose|m: int| 0 <= m < items.len() && items[m] == all[i];
    let n = choose|n: int| 0 <= n < items.len() && items[n] == all[j];
    assert(items[m] == all[i] && items[n] == all[j]);
    lemma_score(all[i], q);
    lemma_score(all[j], q);
}

/// A record is offered exactly where its length fits: the track's is unknown, or both are
/// known and at most five seconds apart.
pub proof fn five_seconds_decide(items: Seq<TrackView>, q: QueryView, c: TrackView)
    ensures
        lyrics::ranked(items, q).contains(c) <==> items.contains(c) && (q.duration is None || (
        c.duration is Some && off_by(c, q) <= 5_000_000_000)),
{
    if lyrics::ranked(items, q).contains(c) {
        let i = choose|i: int|
            0 <= i < lyrics::ranked(items, q).len() && lyrics::ranked(items, q)[i] == c;
        lyrics::only_fitting_records_are_offered(items, q, i);
    }
    if items.contains(c) && (q.duration is None || (c.duration is Some && off_by(c, q)
        <= 5_000_000_000)) {
        let i = choose|i: int| 0 <= i < items.len() && items[i] == c;
        assert(lyrics::fits(q)(items[i]));
        lyrics::every_fitting_record_is_offered(items, q, i);
    }
}

/// Two lengths are as far apart as their difference, either way round, where both are
/// known.
pub proof fn lengths_differ_both_ways(a: Option<int>, b: Option<int>)
    ensures
        lyrics::length_delta(a, b) == lyrics::length_delta(b, a),
        (lyrics::length_delta(a, b) is Some) == (a is Some && b is Some),
        a is Some && b is Some && a->0 <= b->0 ==> lyrics::length_delta(a, b) == Some(
            (b->0 - a->0) as nat,
        ),
{
}

// ── records ──────────────────────────────────────────────────────────────────

/// An instrumental has no words; else timed lines come before plain ones, and a record
/// with neither is of no use. What is used of one keeps its id, names and length.
pub proof fn timed_words_come_first(l: RecordView)
    ensures
        ({
            let timed = l.synced is Some && text::trimmed(l.synced->0).len() > 0 && lrc::parsed(
                l.synced->0,
            ).len() > 0;
            let plain = l.plain is Some && text::trimmed(l.plain->0).len() > 0;
            &&& (lyrics::usable(l) is Some) == (l.instrumental || timed || plain)
            &&& lyrics::usable(l) matches Some(t) ==> {
                &&& t.id == l.id && t.track_name == l.track_name && t.artist_name
                    == l.artist_name && t.album_name == l.album_name && t.duration == l.duration
                &&& l.instrumental ==> t.kind == KindView::Instrumental
                &&& !l.instrumental && timed ==> t.kind == KindView::Synced(
                    lrc::parsed(l.synced->0),
                )
                &&& !l.instrumental && !timed ==> t.kind == KindView::Plain(
                    text::lines_of(l.plain->0),
                )
                &&& !t.timing_mismatch
            }
        }),
{
}

/// What is used of two lists one after the other is what is used of each, in order.
pub proof fn records_are_used_one_by_one(a: Seq<RecordView>, b: Seq<RecordView>)
    ensures
        lyrics::usable_all(a + b) == lyrics::usable_all(a) + lyrics::usable_all(b),
        a.len() == 1 ==> lyrics::usable_all(a) == match lyrics::usable(a[0]) {
            Some(t) => seq![t],
            None => Seq::empty(),
        },
    decreases b.len(),
{
    if a.len() == 1 {
        assert(a.drop_last() =~= Seq::empty());
        assert(lyrics::usable_all(a.drop_last()) =~= Seq::empty());
        assert(lyrics::usable_all(a) =~= match lyrics::usable(a[0]) {
            Some(t) => seq![t],
            None => Seq::empty(),
        });
    }
    if b.len() == 0 {
        assert(a + b =~= a);
        assert(lyrics::usable_all(a) + lyrics::usable_all(b) =~= lyrics::usable_all(a));
    } else {
        records_are_used_one_by_one(a, b.drop_last());
        assert((a + b).drop_last() =~= a + b.drop_last());
        assert((a + b).last() == b.last());
        assert(lyrics::usable_all(a + b) =~= lyrics::usable_all(a) + lyrics::usable_all(b));
    }
}

/// A track without a title is not searched for; another is searched for by all that is
/// known of it.
pub proof fn a_track_is_searched_by_what_is_known(t: Track)
    ensures
        (lyrics::query_of(t) is None) == (t.title is None),
        lyrics::query_of(t) matches Some(q) ==> {
            &&& q.title == t.title->0@
            &&& t.album is Some ==> q.album == t.album->0.name@
            &&& t.album is None ==> q.album.len() == 0
            &&& t.duration_seconds is None ==> q.duration is None
            &&& t.duration_seconds is Some ==> q.duration == Some(
                t.duration_seconds->0 * 1_000_000_000,
            )
        },
{
}

// ── requests ─────────────────────────────────────────────────────────────────

/// The requests start with everything that is known, then leave the album, then take the
/// clean title with one artist and without, then the bare name with the artist and
/// without, and end with free text.
pub proof fn requests_grow_looser(q: QueryView)
    ensures
        ({
            let clean = title::clean_title(q.title);
            let artist = title::first_artist(q.artist);
            let song = title::song_name(q.title);
            let r = lyrics::rungs(q);
            &&& r.len() == 9
            &&& r[0] == AttemptView::Meta { track: q.title, artist: q.artist, album: q.album }
            &&& r[1] == AttemptView::Meta { track: q.title, artist: q.artist, album: ""@ }
            &&& r[2] == AttemptView::Meta { track: clean, artist, album: ""@ }
            &&& r[3] == AttemptView::Meta { track: clean, artist: ""@, album: ""@ }
            &&& r[4] == AttemptView::Meta { track: song, artist, album: ""@ }
            &&& r[5] == AttemptView::Meta { track: song, artist: ""@, album: ""@ }
            &&& r[6] == AttemptView::FreeText(text::trimmed(clean + " "@ + artist))
            &&& r[7] == AttemptView::FreeText(clean)
            &&& r[8] == AttemptView::FreeText(song)
        }),
{
    reveal_strlit("");
    assert(""@ =~= Seq::<char>::empty());
}

/// Whether `k` is where `a` first stands in `s`.
pub open spec fn first_at(s: Seq<AttemptView>, a: AttemptView, k: int) -> bool {
    0 <= k < s.len() && s[k] == a && forall|m: int| 0 <= m < k ==> #[trigger] s[m] != a
}

/// Leaving out what was asked before keeps the order of the rest.
pub proof fn requests_keep_their_order(s: Seq<AttemptView>, i: int, j: int)
    requires
        0 <= i < j < lyrics::firsts(s).len(),
    ensures
        exists|a: int, b: int|
            a < b && #[trigger] first_at(s, lyrics::firsts(s)[i], a) && #[trigger] first_at(
                s,
                lyrics::firsts(s)[j],
                b,
            ),
    decreases s.len(),
{
    let p = s.drop_last();
    let f = lyrics::firsts(p);
    let all = lyrics::firsts(s);
    if j < f.len() {
        requests_keep_their_order(p, i, j);
        let (a, b) = choose|a: int, b: int|
            a < b && #[trigger] first_at(p, f[i], a) && #[trigger] first_at(p, f[j], b);
        lemma_first_at_longer(s, f[i], a);
        lemma_first_at_longer(s, f[j], b);
        assert(first_at(s, all[i], a) && first_at(s, all[j], b));
    } else {
        lemma_first_at_of(p, i);
        let a = choose|a: int| first_at(p, f[i], a);
        lemma_first_at_longer(s, f[i], a);
        let b = s.len() - 1;
        lyrics::lemma_firsts(p);
        assert forall|m: int| 0 <= m < b implies #[trigger] s[m] != all[j] by {
            assert(p[m] == s[m]);
            if s[m] == all[j] {
                assert(p.contains(all[j]));
            }
        }
        assert(first_at(s, all[i], a) && first_at(s, all[j], b));
    }
}

proof fn lemma_first_at_longer(s: Seq<AttemptView>, x: AttemptView, k: int)
    requires
        s.len() > 0,
        first_at(s.drop_last(), x, k),
    ensures
        first_at(s, x, k),
{
    assert forall|m: int| 0 <= m < k implies #[trigger] s[m] != x by {
        assert(s.drop_last()[m] != x);
    }
}

proof fn lemma_first_at_of(s: Seq<AttemptView>, i: int)
    requires
        0 <= i < lyrics::firsts(s).len(),
    ensures
        exists|k: int| first_at(s, lyrics::firsts(s)[i], k),
    decreases s.len(),
{
    let p = s.drop_last();
    let f = lyrics::firsts(p);
    let all = lyrics::firsts(s);
    if i < f.len() {
        lemma_first_at_of(p, i);
        let k = choose|k: int| first_at(p, f[i], k);
        lemma_first_at_longer(s, f[i], k);
        assert(first_at(s, all[i], k));
    } else {
        let b = s.len() - 1;
        lyrics::lemma_firsts(p);
        assert forall|m: int| 0 <= m < b implies #[trigger] s[m] != all[i] by {
            assert(p[m] == s[m]);
            if s[m] == all[i] {
                assert(p.contains(all[i]));
            }
        }
        assert(first_at(s, all[i], b));
    }
}

/// Of the ladder only free text that says nothing is left out.
pub proof fn only_empty_requests_are_left_out(q: QueryView, a: AttemptView)
    ensures
        search::requests(q).contains(a) <==> lyrics::rungs(q).contains(a) && !(a
            matches AttemptView::FreeText(s) && s.len() == 0),
{
    let l = lyrics::ladder(q);
    let f = search::worth_asking();
    lyrics::a_ladder_has_no_duplicates(q);
    if search::requests(q).contains(a) {
        let i = choose|i: int| 0 <= i < l.filter(f).len() && l.filter(f)[i] == a;
        l.lemma_filter_pred(f, i);
        l.lemma_filter_contains_rev(f, a);
        assert(f(a));
    }
    if lyrics::rungs(q).contains(a) && !(a matches AttemptView::FreeText(s) && s.len() == 0) {
        assert(l.contains(a));
        let i = choose|i: int| 0 <= i < l.len() && l[i] == a;
        assert(f(l[i]));
        l.lemma_filter_contains(f, i);
    }
}

// ── one record ───────────────────────────────────────────────────────────────

/// A record that is not there is nothing, and no error; any other refusal is one, in the
/// service's words.
pub proof fn not_found_is_no_error(r: RecordReply)
    ensures
        r matches Ok(l) ==> search::record_outcome(r) == Ok::<Option<TrackView>, Seq<char>>(
            lyrics::usable(l@),
        ),
        r matches Err(f) ==> f.status == Some(404u16) ==> search::record_outcome(r) == Ok::<
            Option<TrackView>,
            Seq<char>,
        >(None),
        r matches Err(f) ==> f.status != Some(404u16) ==> search::record_outcome(r) == Err::<
            Option<TrackView>,
            Seq<char>,
        >(f.message@),
{
}

/// A search starts with the record chosen by hand, where there is one; else with the
/// exact record, where the track's length is known; else it climbs. It holds nothing yet.
pub proof fn a_choice_is_asked_for_first(q: QueryView, id: u64)
    ensures
        search::starting(q, Some(id)).stage == Stage::Override(id),
        q.duration is Some ==> search::starting(q, None).stage == Stage::Exact,
        q.duration is None ==> search::starting(q, None).stage == Stage::Climbing,
        search::starting(q, None).exact is None && search::starting(q, None).fallback is None
            && search::starting(q, None).plain.len() == 0 && search::starting(
            q,
            None,
        ).failed is None,
        search::starting(q, None).left == search::requests(q),
        search::starting(q, Some(id)).left == search::requests(q),
{
}

/// The record chosen by hand ends the search if it can be used, and is passed over if not.
pub proof fn a_choice_ends_the_search(v: LookupView, id: u64, reply: RecordReply)
    requires
        v.stage == Stage::Override(id),
    ensures
        search::record_outcome(reply) matches Ok(Some(t)) ==> search::after_record(v, reply).1
            == Some(Ok::<Option<TrackView>, Seq<char>>(Some(t))) && search::after_record(
            v,
            reply,
        ).0.stage == Stage::Finished,
        !(search::record_outcome(reply) matches Ok(Some(_))) ==> {
            let (w, o) = search::after_record(v, reply);
            &&& o is None
            &&& w.stage == if v.q.duration is Some {
                Stage::Exact
            } else {
                Stage::Climbing
            }
            &&& w == (LookupView { stage: w.stage, ..v })
        },
{
}

/// An exact hit ends the search only where it is timed and at most two seconds off. A
/// timed one further off is held against what the climb finds, a plain one for want of
/// anything timed; without a hit the climb starts all the same.
pub proof fn an_exact_hit_must_be_close(v: LookupView, reply: RecordReply)
    requires
        v.stage == Stage::Exact,
    ensures
        ({
            let (w, o) = search::after_record(v, reply);
            match search::record_outcome(reply) {
                Ok(Some(t)) => {
                    let close = t.duration is Some && v.q.duration is Some && off_by(t, v.q)
                        <= 2_000_000_000;
                    &&& t.kind is Synced && close ==> o == Some(
                        Ok::<Option<TrackView>, Seq<char>>(Some(t)),
                    ) && w.stage == Stage::Finished
                    &&& t.kind is Synced && !close ==> o is None && w == (LookupView {
                        stage: Stage::Climbing,
                        exact: Some(t),
                        ..v
                    })
                    &&& !(t.kind is Synced) ==> o is None && w == (LookupView {
                        stage: Stage::Climbing,
                        fallback: Some(t),
                        ..v
                    })
                },
                _ => o is None && w == (LookupView { stage: Stage::Climbing, ..v }),
            }
        }),
{
}

// ── the climb ────────────────────────────────────────────────────────────────

/// What a reply offers, the best first.
pub open spec fn offered(reply: Result<Seq<RecordView>, Seq<char>>, q: QueryView) -> Seq<
    TrackView,
> {
    match reply {
        Ok(raw) => lyrics::ranked(lyrics::usable_all(raw), q),
        Err(_) => Seq::empty(),
    }
}

/// Whether a reply offers nothing timed.
pub open spec fn untimed(reply: Result<Seq<RecordView>, Seq<char>>, q: QueryView) -> bool {
    offered(reply, q).len() > 0 ==> !(offered(reply, q)[0].kind is Synced)
}

/// What a climb ends with, given the reply to each request in turn.
pub open spec fn climb(
    v: LookupView,
    replies: Seq<Result<Seq<RecordView>, Seq<char>>>,
) -> Option<Result<Option<TrackView>, Seq<char>>>
    decreases replies.len(),
{
    if replies.len() == 0 {
        None
    } else {
        match search::after_search(v, replies[0]) {
            (_, Some(o)) => Some(o),
            (w, None) => climb(w, replies.skip(1)),
        }
    }
}

/// Where nothing timed turns up and no exact hit is held, the search ends with the best
/// plain record of the first request that brought any, whether or not others failed.
pub proof fn plain_words_are_better_than_none(
    v: LookupView,
    replies: Seq<Result<Seq<RecordView>, Seq<char>>>,
    k: int,
)
    requires
        v.stage is Climbing,
        v.exact is None,
        v.fallback is None,
        0 < v.left.len() == replies.len(),
        forall|i: int| 0 <= i < replies.len() ==> untimed(#[trigger] replies[i], v.q),
        v.plain.len() == 0 ==> 0 <= k < replies.len() && offered(replies[k], v.q).len() > 0
            && forall|i: int| 0 <= i < k ==> offered(#[trigger] replies[i], v.q).len() == 0,
    ensures
        climb(v, replies) == Some(
            Ok::<Option<TrackView>, Seq<char>>(
                Some(
                    if v.plain.len() > 0 {
                        v.plain[0]
                    } else {
                        offered(replies[k], v.q)[0]
                    },
                ),
            ),
        ),
    decreases replies.len(),
{
    let (w, o) = search::after_search(v, replies[0]);
    assert(untimed(replies[0], v.q));
    if replies.len() > 1 {
        let rest = replies.skip(1);
        assert(w.left.len() == rest.len());
        assert forall|i: int| 0 <= i < rest.len() implies untimed(#[trigger] rest[i], w.q) by {
            assert(untimed(replies[i + 1], v.q));
        }
        if w.plain.len() == 0 {
            assert(offered(replies[0], v.q).len() == 0);
            assert(k > 0);
            assert(rest[k - 1] == replies[k]);
            assert forall|i: int| 0 <= i < k - 1 implies offered(#[trigger] rest[i], w.q).len()
                == 0 by {
                assert(offered(replies[i + 1], v.q).len() == 0);
            }
        }
        plain_words_are_better_than_none(w, rest, k - 1);
        if v.plain.len() == 0 && k > 0 {
            assert(offered(replies[0], v.q).len() == 0);
            assert(rest[k - 1] == replies[k]);
        }
    }
}

/// Where nothing at all turns up and nothing is held, the search ends with nothing, and
/// with the last error where a request failed.
pub proof fn nothing_found_is_told_from_failure(
    v: LookupView,
    replies: Seq<Result<Seq<RecordView>, Seq<char>>>,
)
    requires
        v.stage is Climbing,
        v.exact is None,
        v.fallback is None,
        v.plain.len() == 0,
        0 < v.left.len() == replies.len(),
        forall|i: int|
            0 <= i < replies.len() ==> offered(#[trigger] replies[i], v.q).len() == 0,
    ensures
        ({
            let failed = v.failed is Some || exists|i: int|
                0 <= i < replies.len() && (#[trigger] replies[i]) is Err;
            &&& !failed ==> climb(v, replies) == Some(
                Ok::<Option<TrackView>, Seq<char>>(None),
            )
            &&& failed ==> (climb(v, replies) matches Some(Err(_)))
            &&& replies.last() matches Err(e) ==> climb(v, replies) == Some(
                Err::<Option<TrackView>, Seq<char>>(e),
            )
        }),
    decreases replies.len(),
{
    let (w, o) = search::after_search(v, replies[0]);
    assert(offered(replies[0], v.q).len() == 0);
    if replies.len() > 1 {
        let rest = replies.skip(1);
        assert forall|i: int| 0 <= i < rest.len() implies offered(#[trigger] rest[i], w.q).len()
            == 0 by {
            assert(offered(replies[i + 1], v.q).len() == 0);
        }
        nothing_found_is_told_from_failure(w, rest);
        assert(rest.last() == replies.last());
        if exists|i: int| 0 <= i < replies.len() && (#[trigger] replies[i]) is Err {
            let i = choose|i: int| 0 <= i < replies.len() && (#[trigger] replies[i]) is Err;
            if i > 0 {
                assert(rest[i - 1] is Err);
            }
        }
        if exists|i: int| 0 <= i < rest.len() && (#[trigger] rest[i]) is Err {
            let i = choose|i: int| 0 <= i < rest.len() && (#[trigger] rest[i]) is Err;
            assert(replies[i + 1] is Err);
        }
    }
}

/// A plain exact hit is what the search ends with unless something timed turns up: neither
/// plain records nor failures take its place.
pub proof fn a_plain_exact_hit_is_held(
    v: LookupView,
    replies: Seq<Result<Seq<RecordView>, Seq<char>>>,
)
    requires
        v.stage is Climbing,
        v.exact is None,
        v.fallback is Some,
        v.plain.len() > 0 ==> !(v.plain[0].kind is Synced),
        0 < v.left.len() == replies.len(),
        forall|i: int| 0 <= i < replies.len() ==> untimed(#[trigger] replies[i], v.q),
    ensures
        climb(v, replies) == Some(Ok::<Option<TrackView>, Seq<char>>(v.fallback)),
    decreases replies.len(),
{
    let (w, o) = search::after_search(v, replies[0]);
    assert(untimed(replies[0], v.q));
    if replies.len() > 1 {
        let rest = replies.skip(1);
        assert forall|i: int| 0 <= i < rest.len() implies untimed(#[trigger] rest[i], w.q) by {
            assert(untimed(replies[i + 1], v.q));
        }
        a_plain_exact_hit_is_held(w, rest);
    }
}

/// The first request that brings something timed ends the climb, and without a timed
/// exact hit its best record is the answer, whatever plain ones are held.
pub proof fn the_first_timed_record_is_taken(
    v: LookupView,
    replies: Seq<Result<Seq<RecordView>, Seq<char>>>,
    k: int,
)
    requires
        v.stage is Climbing,
        v.exact is None,
        0 <= k < replies.len() <= v.left.len(),
        forall|i: int| 0 <= i < k ==> untimed(#[trigger] replies[i], v.q),
        !untimed(replies[k], v.q),
    ensures
        climb(v, replies) == Some(
            Ok::<Option<TrackView>, Seq<char>>(Some(offered(replies[k], v.q)[0])),
        ),
    decreases replies.len(),
{
    let (w, o) = search::after_search(v, replies[0]);
    if k > 0 {
        assert(untimed(replies[0], v.q));
        let rest = replies.skip(1);
        assert forall|i: int| 0 <= i < k - 1 implies untimed(#[trigger] rest[i], w.q) by {
            assert(untimed(replies[i + 1], v.q));
        }
        assert(rest[k - 1] == replies[k]);
        the_first_timed_record_is_taken(w, rest, k - 1);
    }
}

/// A timed exact hit that was held is weighed against what the climb found: the answer is
/// timed, and neither the hit nor any record found is closer in whole seconds.
pub proof fn a_timed_exact_hit_is_weighed(v: LookupView, found: Seq<TrackView>, c: TrackView)
    requires
        v.exact matches Some(x) && x.kind is Synced && lyrics::fits(v.q)(x),
        v.q.duration matches Some(d) && i64::MIN <= d <= i64::MAX,
        forall|k: int|
            0 <= k < found.len() ==> ((#[trigger] found[k]).duration matches Some(d)
                && i64::MIN <= d <= i64::MAX) && lyrics::fits(v.q)(found[k]),
        v.exact->0.duration matches Some(d) && i64::MIN <= d <= i64::MAX,
        !search::has_id(found, v.exact->0.id),
        found.contains(c) || c == v.exact->0,
        c.kind is Synced,
    ensures
        search::concluding(v, Ok(found)) matches Ok(Some(t)) && t.kind is Synced && seconds_off(
            t,
            v.q,
        ) <= seconds_off(c, v.q) && (found.contains(t) || t == v.exact->0),
{
    let x = v.exact->0;
    let all = found.push(x);
    let pool = lyrics::ranked(all, v.q);
    let m = if found.contains(c) {
        choose|m: int| 0 <= m < found.len() && found[m] == c
    } else {
        found.len() as int
    };
    assert(all[m] == c);
    if m < found.len() {
        assert(lyrics::fits(v.q)(found[m]));
    }
    lyrics::every_fitting_record_is_offered(all, v.q, m);
    let k = choose|k: int| 0 <= k < pool.len() && pool[k] == c;
    assert forall|n: int| 0 <= n < all.len() implies ((#[trigger] all[n]).duration
        matches Some(d) ==> i64::MIN <= d <= i64::MAX) by {
        if n < found.len() {
            assert(all[n] == found[n]);
        }
    }
    lyrics::only_fitting_records_are_offered(all, v.q, 0);
    let n = choose|n: int| 0 <= n < all.len() && all[n] == pool[0];
    if n < found.len() {
        assert(found[n] == pool[0]);
    }
    if k > 0 {
        better_records_come_first(all, v.q, 0, k);
    }
}

/// A timed exact hit is the answer where the climb brings nothing, for all its distance.
pub proof fn a_timed_exact_hit_is_not_lost(v: LookupView)
    requires
        v.exact matches Some(x) && x.kind is Synced && lyrics::fits(v.q)(x),
    ensures
        search::concluding(v, Ok(Seq::empty())) == Ok::<Option<TrackView>, Seq<char>>(v.exact),
{
    let x = v.exact->0;
    let all = Seq::<TrackView>::empty().push(x);
    let pool = lyrics::ranked(all, v.q);
    assert(all[0] == x);
    lyrics::every_fitting_record_is_offered(all, v.q, 0);
    lyrics::only_fitting_records_are_offered(all, v.q, 0);
}

// ── every candidate ──────────────────────────────────────────────────────────

/// Every request brings its records to the list, a failed one none, and neither is asked
/// twice.
pub proof fn candidates_are_gathered(
    v: CollectionView,
    reply: Result<Seq<RecordView>, Seq<char>>,
    i: int,
)
    requires
        v.left.len() > 0,
        search::ids_differ(v.all),
    ensures
        ({
            let w = search::gathered(v, reply);
            &&& w.left == v.left.skip(1)
            &&& w.q == v.q
            &&& search::ids_differ(w.all)
            &&& v.all.is_prefix_of(w.all)
            &&& reply is Err ==> w.all == v.all && w.failed == Some(reply->Err_0)
            &&& reply matches Ok(raw) ==> w.failed == v.failed && (0 <= i
                < lyrics::usable_all(raw).len() ==> search::has_id(
                w.all,
                lyrics::usable_all(raw)[i].id,
            ))
        }),
{
    match reply {
        Ok(raw) => {
            search::merging_keeps_ids_apart(v.all, lyrics::usable_all(raw));
        },
        Err(_) => {},
    }
}

/// A record joins the candidates at the end, unless one of its id is among them: then the
/// one that came first stays.
pub proof fn a_record_joins_once(all: Seq<TrackView>, more: Seq<TrackView>, t: TrackView)
    ensures
        ({
            let before = search::merged(all, more);
            let after = search::merged(all, more.push(t));
            let present = exists|i: int|
                0 <= i < before.len() && (#[trigger] before[i]).id == t.id;
            &&& present ==> after == before
            &&& !present ==> after == before.push(t)
        }),
        search::merged(all, Seq::empty()) == all,
{
    assert(more.push(t).drop_last() =~= more);
}

/// The list is an error only where it is empty and a request failed; else it holds the
/// candidates that fit, the best first.
pub proof fn an_empty_list_is_told_from_failure(v: CollectionView)
    ensures
        v.all.len() == 0 && v.failed is Some ==> search::collected(v) == Err::<
            Seq<TrackView>,
            Seq<char>,
        >(v.failed->0),
        v.all.len() > 0 || v.failed is None ==> search::collected(v) == Ok::<
            Seq<TrackView>,
            Seq<char>,
        >(lyrics::ranked(v.all, v.q)),
{
}

} // verus!
