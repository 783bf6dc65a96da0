//! Searching for lyrics, one request at a time.
//!
//! A [`Lookup`] finds the best record for a track, a [`Collection`] gathers every
//! candidate. Each says what to ask the service next and takes in the reply, until it
//! has an outcome.

use vstd::prelude::*;

use crate::lyrics;
use crate::lyrics::{
    Attempt, AttemptView, Failure, Lyrics, LyricsQuery, QueryView, RecordView, TrackLyrics,
    TrackView, EXACT_DURATION_DELTA,
};
use crate::text;

verus! {

/// How far a lookup has come.
#[derive(Clone, Copy, Debug)]
pub enum Stage {
    /// The record chosen by hand is asked for.
    Override(u64),
    /// The record with exactly the track's names and length is asked for.
    Exact,
    /// The ladder of requests is climbed.
    Climbing,
    Finished,
}

/// What to ask the service.
pub enum Ask<'a> {
    ById(u64),
    /// By the query's title, artist, album and duration.
    Exact,
    Search(&'a Attempt),
    Nothing,
}

/// A reply to a request for one record.
pub type RecordReply = Result<Lyrics, Failure>;

/// A reply to a search: records, or what went wrong.
pub type SearchReply = Result<Vec<Lyrics>, String>;

/// The best record, none where the service has nothing, or what went wrong.
pub type Outcome = Result<Option<TrackLyrics>, String>;

/// The mathematical content of an [`Outcome`].
pub open spec fn outcome_view(o: Outcome) -> Result<Option<TrackView>, Seq<char>> {
    match o {
        Ok(t) => Ok(lyrics::opt_track(t)),
        Err(e) => Err(e@),
    }
}

/// The content of an outcome, where there is one.
pub open spec fn opt_outcome(o: Option<Outcome>) -> Option<Result<Option<TrackView>, Seq<char>>> {
    match o {
        Some(x) => Some(outcome_view(x)),
        None => None,
    }
}

/// The mathematical content of a [`SearchReply`].
pub open spec fn reply_view(r: SearchReply) -> Result<Seq<RecordView>, Seq<char>> {
    match r {
        Ok(v) => Ok(lyrics::record_views(v@)),
        Err(e) => Err(e@),
    }
}

/// What a reply to a request for one record brings: a record that is not there, or
/// holds no words, is nothing, and no error.
pub open spec fn record_outcome(r: RecordReply) -> Result<Option<TrackView>, Seq<char>> {
    match r {
        Ok(l) => Ok(lyrics::usable(l@)),
        Err(f) => if f.status == Some(404u16) {
            Ok(None)
        } else {
            Err(f.message@)
        },
    }
}

/// What a reply to a request for one record brings.
pub fn by_id(reply: RecordReply) -> (r: Outcome)
    ensures
        outcome_view(r) == record_outcome(reply),
{
    match reply {
        Ok(l) => Ok(TrackLyrics::from_record(l)),
        Err(f) => match f.status {
            Some(404) => Ok(None),
            _ => Err(f.message),
        },
    }
}

/// Whether a request is worth making: free text must say something.
pub open spec fn worth_asking() -> spec_fn(AttemptView) -> bool {
    |a: AttemptView| a matches AttemptView::FreeText(s) ==> s.len() > 0
}

/// The requests to make for a query.
pub open spec fn requests(q: QueryView) -> Seq<AttemptView> {
    lyrics::ladder(q).filter(worth_asking())
}

/// There is always something to ask, and it starts with everything that is known.
pub proof fn there_is_always_a_request(q: QueryView)
    ensures
        requests(q).len() > 0,
        requests(q)[0] == lyrics::rungs(q)[0],
{
    lyrics::a_ladder_has_no_duplicates(q);
    let l = lyrics::ladder(q);
    l.lemma_filter_eq_filter_alt(worth_asking());
    assert(worth_asking()(l[0]));
    let rest = l.drop_first();
    rest.lemma_filter_prepend(l[0], worth_asking());
    assert(seq![l[0]] + rest =~= l);
}

fn worthwhile(all: Vec<Attempt>) -> (r: Vec<Attempt>)
    ensures
        lyrics::attempt_views(r@) == lyrics::attempt_views(all@).filter(worth_asking()),
{
    let ghost vs = lyrics::attempt_views(all@);
    let mut out: Vec<Attempt> = Vec::new();
    assert(lyrics::attempt_views(out@) =~= vs.take(0).filter(worth_asking())) by {
        reveal(Seq::filter);
    }
    for a in it: all
        invariant
            it.seq() == all@,
            vs == lyrics::attempt_views(all@),
            lyrics::attempt_views(out@) == vs.take(it.index() as int).filter(worth_asking()),
    {
        let ghost i = it.index() as int;
        let ghost front = lyrics::attempt_views(out@);
        proof {
            broadcast use Seq::lemma_filter_push;

            assert(vs.take(i + 1) == vs.take(i).push(a@));
        }
        let keep = match &a {
            Attempt::Meta { .. } => true,
            Attempt::FreeText(s) => !s.as_str().is_empty(),
        };
        if keep {
            out.push(a);
            assert(lyrics::attempt_views(out@) =~= front.push(a@));
        }
    }
    assert(vs.take(vs.len() as int) == vs);
    out
}

// ── the best record ──────────────────────────────────────────────────────────

/// The mathematical content of a [`Lookup`].
pub struct LookupView {
    pub q: QueryView,
    pub stage: Stage,
    /// A timed exact hit whose length was not close enough to end the search.
    pub exact: Option<TrackView>,
    /// A plain exact hit, for want of anything timed.
    pub fallback: Option<TrackView>,
    /// The records of the first rung that had any, none of them timed.
    pub plain: Seq<TrackView>,
    /// The last request that failed.
    pub failed: Option<Seq<char>>,
    /// The requests that are left.
    pub left: Seq<AttemptView>,
}

/// The stage that automatic matching starts in.
pub open spec fn first_stage(q: QueryView) -> Stage {
    if q.duration is Some {
        Stage::Exact
    } else {
        Stage::Climbing
    }
}

/// A lookup before its first request.
pub open spec fn starting(q: QueryView, override_id: Option<u64>) -> LookupView {
    LookupView {
        q,
        stage: match override_id {
            Some(id) => Stage::Override(id),
            None => first_stage(q),
        },
        exact: None,
        fallback: None,
        plain: Seq::empty(),
        failed: None,
        left: requests(q),
    }
}

/// Whether a record is close enough in length to end the search.
pub open spec fn close(t: TrackView, q: QueryView) -> bool {
    lyrics::length_delta(t.duration, q.duration) matches Some(d) && d <= EXACT_DURATION_DELTA
}

/// The pool that a climb found, with a timed exact hit among it.
pub open spec fn pooled(v: LookupView, found: Seq<TrackView>) -> Seq<TrackView> {
    match v.exact {
        Some(x) => lyrics::ranked(
            if has_id(found, x.id) {
                found
            } else {
                found.push(x)
            },
            v.q,
        ),
        None => found,
    }
}

/// Whether a record of this id is among them.
pub open spec fn has_id(s: Seq<TrackView>, id: u64) -> bool {
    exists|i: int| 0 <= i < s.len() && (#[trigger] s[i]).id == id
}

/// What a lookup comes to once the climb is over. A failed climb is an error only
/// without a plain exact hit; a plain hit of the climb does not replace one.
pub open spec fn concluding(v: LookupView, found: Result<Seq<TrackView>, Seq<char>>) -> Result<
    Option<TrackView>,
    Seq<char>,
> {
    match found {
        Err(e) => if v.fallback is Some {
            Ok(v.fallback)
        } else {
            Err(e)
        },
        Ok(found) => {
            let pool = pooled(v, found);
            if pool.len() > 0 && (pool[0].kind is Synced || v.fallback is None) {
                Ok(Some(pool[0]))
            } else {
                Ok(v.fallback)
            }
        },
    }
}

/// One record came back.
pub open spec fn after_record(v: LookupView, reply: RecordReply) -> (
    LookupView,
    Option<Result<Option<TrackView>, Seq<char>>>,
) {
    match v.stage {
        Stage::Override(_) => match record_outcome(reply) {
            Ok(Some(t)) => (LookupView { stage: Stage::Finished, ..v }, Some(Ok(Some(t)))),
            _ => (LookupView { stage: first_stage(v.q), ..v }, None),
        },
        Stage::Exact => match record_outcome(reply) {
            Ok(Some(t)) => if t.kind is Synced && close(t, v.q) {
                (LookupView { stage: Stage::Finished, ..v }, Some(Ok(Some(t))))
            } else if t.kind is Synced {
                (LookupView { stage: Stage::Climbing, exact: Some(t), ..v }, None)
            } else {
                (LookupView { stage: Stage::Climbing, fallback: Some(t), ..v }, None)
            },
            _ => (LookupView { stage: Stage::Climbing, ..v }, None),
        },
        _ => (v, None),
    }
}

/// What the rung that was asked last adds: records, where none were held, or an error.
pub open spec fn climbed(v: LookupView, reply: Result<Seq<RecordView>, Seq<char>>) -> LookupView {
    let next = LookupView { left: v.left.skip(1), ..v };
    match reply {
        Ok(raw) => LookupView {
            plain: if v.plain.len() == 0 {
                lyrics::ranked(lyrics::usable_all(raw), v.q)
            } else {
                v.plain
            },
            ..next
        },
        Err(e) => LookupView { failed: Some(e), ..next },
    }
}

/// Records came back from a search. A rung with something timed ends the climb; else
/// it goes on, and ends with the plain records, or with an error where there are none
/// and a request failed.
pub open spec fn after_search(v: LookupView, reply: Result<Seq<RecordView>, Seq<char>>) -> (
    LookupView,
    Option<Result<Option<TrackView>, Seq<char>>>,
) {
    if v.stage is Climbing && v.left.len() > 0 {
        let best = match reply {
            Ok(raw) => lyrics::ranked(lyrics::usable_all(raw), v.q),
            Err(_) => Seq::empty(),
        };
        let next = climbed(v, reply);
        if best.len() > 0 && best[0].kind is Synced {
            (LookupView { stage: Stage::Finished, ..v }, Some(concluding(v, Ok(best))))
        } else if next.left.len() > 0 {
            (next, None)
        } else {
            let found = if next.failed is Some && next.plain.len() == 0 {
                Err(next.failed->0)
            } else {
                Ok(next.plain)
            };
            (LookupView { stage: Stage::Finished, ..next }, Some(concluding(next, found)))
        }
    } else {
        (v, None)
    }
}

/// A rung with a timed record leads to a timed record: no plain hit stands in its way,
/// and an exact hit only where it is better timed.
pub proof fn a_timed_match_wins(v: LookupView, raw: Seq<RecordView>)
    requires
        v.stage is Climbing,
        v.left.len() > 0,
        lyrics::ranked(lyrics::usable_all(raw), v.q).len() > 0,
        lyrics::ranked(lyrics::usable_all(raw), v.q)[0].kind is Synced,
    ensures
        after_search(v, Ok(raw)).1 matches Some(Ok(Some(t))) && t.kind is Synced,
{
    let items = lyrics::usable_all(raw);
    let best = lyrics::ranked(items, v.q);
    if v.exact is Some {
        let x = v.exact->0;
        let more = if has_id(best, x.id) {
            best
        } else {
            best.push(x)
        };
        lyrics::only_fitting_records_are_offered(items, v.q, 0);
        assert(more[0] == best[0]);
        lyrics::every_fitting_record_is_offered(more, v.q, 0);
        let pool = lyrics::ranked(more, v.q);
        let k = choose|k: int| 0 <= k < pool.len() && pool[k] == best[0];
        if k > 0 {
            lyrics::ranking_order(more, v.q, 0, k);
        }
    }
}

/// A failure and an absence are told apart: with nothing held, an error comes out only
/// where a request failed, and then it does.
pub proof fn an_error_is_not_an_absence(v: LookupView, reply: Result<Seq<RecordView>, Seq<char>>)
    requires
        v.stage is Climbing,
        v.left.len() == 1,
        v.plain.len() == 0,
        v.fallback is None,
        v.exact is None,
        reply matches Ok(raw) ==> lyrics::ranked(lyrics::usable_all(raw), v.q).len() == 0,
    ensures
        (after_search(v, reply).1 matches Some(Err(_))) == (v.failed is Some || reply is Err),
        (after_search(v, reply).1 == Some(Ok::<Option<TrackView>, Seq<char>>(None))) == (
        v.failed is None && reply is Ok),
{
}

/// Finds the best record for a track.
pub struct Lookup {
    query: LyricsQuery,
    stage: Stage,
    exact: Option<TrackLyrics>,
    fallback: Option<TrackLyrics>,
    plain: Vec<TrackLyrics>,
    failed: Option<String>,
    ladder: Vec<Attempt>,
    at: usize,
}

impl View for Lookup {
    type V = LookupView;

    closed spec fn view(&self) -> LookupView {
        LookupView {
            q: self.query@,
            stage: self.stage,
            exact: lyrics::opt_track(self.exact),
            fallback: lyrics::opt_track(self.fallback),
            plain: lyrics::track_views(self.plain@),
            failed: text::opt(self.failed),
            left: lyrics::attempt_views(self.ladder@).skip(self.at as int),
        }
    }
}

impl Lookup {
    /// Whether the place in the ladder is one.
    pub closed spec fn wf(&self) -> bool {
        self.at <= self.ladder@.len()
    }

    /// A lookup that asks for the record chosen by hand first, if there is one.
    pub fn start(query: LyricsQuery, override_id: Option<u64>) -> (r: Self)
        ensures
            r.wf(),
            r@ == starting(query@, override_id),
    {
        let ladder = worthwhile(query.search_ladder());
        let stage = match override_id {
            Some(id) => Stage::Override(id),
            None => match query.duration {
                Some(_) => Stage::Exact,
                None => Stage::Climbing,
            },
        };
        let r = Lookup {
            query,
            stage,
            exact: None,
            fallback: None,
            plain: Vec::new(),
            failed: None,
            ladder,
            at: 0,
        };
        assert(r@.left =~= requests(query@));
        assert(r@.plain =~= Seq::empty());
        r
    }

    /// The query.
    pub fn query(&self) -> (r: &LyricsQuery)
        ensures
            r@ == self@.q,
    {
        &self.query
    }

    /// What to ask next.
    pub fn ask(&self) -> (r: Ask<'_>)
        requires
            self.wf(),
        ensures
            match r {
                Ask::ById(id) => self@.stage == Stage::Override(id),
                Ask::Exact => self@.stage is Exact,
                Ask::Search(a) => self@.stage is Climbing && self@.left.len() > 0 && a@
                    == self@.left[0],
                Ask::Nothing => self@.stage is Finished || (self@.stage is Climbing
                    && self@.left.len() == 0),
            },
    {
        match self.stage {
            Stage::Override(id) => Ask::ById(id),
            Stage::Exact => Ask::Exact,
            Stage::Climbing => if self.at < self.ladder.len() {
                Ask::Search(&self.ladder[self.at])
            } else {
                Ask::Nothing
            },
            Stage::Finished => Ask::Nothing,
        }
    }

    /// Takes in the reply to a request for one record.
    pub fn take_record(&mut self, reply: RecordReply) -> (r: Option<Outcome>)
        requires
            old(self).wf(),
        ensures
            final(self).wf(),
            (final(self)@, opt_outcome(r)) == after_record(old(self)@, reply),
    {
        match self.stage {
            Stage::Override(_) => {
                match by_id(reply) {
                    Ok(Some(t)) => {
                        self.stage = Stage::Finished;
                        return Some(Ok(Some(t)));
                    },
                    _ => {
                        self.stage = match self.query.duration {
                            Some(_) => Stage::Exact,
                            None => Stage::Climbing,
                        };
                    },
                }
            },
            Stage::Exact => {
                match by_id(reply) {
                    Ok(Some(t)) => {
                        let near = match t.duration_delta(self.query.duration) {
                            Some(d) => d <= EXACT_DURATION_DELTA,
                            None => false,
                        };
                        if t.is_synced() {
                            if near {
                                self.stage = Stage::Finished;
                                return Some(Ok(Some(t)));
                            }
                            self.exact = Some(t);
                        } else {
                            self.fallback = Some(t);
                        }
                        self.stage = Stage::Climbing;
                    },
                    _ => {
                        self.stage = Stage::Climbing;
                    },
                }
            },
            _ => {},
        }
        None
    }

    fn conclude(&mut self, found: Result<Vec<TrackLyrics>, String>) -> (r: Outcome)
        requires
            old(self).wf(),
        ensures
            outcome_view(r) == concluding(
                old(self)@,
                match found {
                    Ok(v) => Ok(lyrics::track_views(v@)),
                    Err(e) => Err(e@),
                },
            ),
    {
        let fallback = self.fallback.take();
        match found {
            Err(e) => if fallback.is_some() {
                Ok(fallback)
            } else {
                Err(e)
            },
            Ok(found) => {
                let mut pool = found;
                let exact = self.exact.take();
                match exact {
                    Some(x) => {
                        let ghost before = lyrics::track_views(pool@);
                        let mut known = false;
                        let mut i: usize = 0;
                        while i < pool.len()
                            invariant
                                i <= pool@.len(),
                                before == lyrics::track_views(pool@),
                                known == exists|k: int|
                                    0 <= k < i && (#[trigger] before[k]).id == x.id,
                            decreases pool@.len() - i,
                        {
                            assert(before[i as int] == pool@[i as int]@);
                            if pool[i].id == x.id {
                                known = true;
                            }
                            i += 1;
                        }
                        assert(known == has_id(before, x.id));
                        if !known {
                            pool.push(x);
                            assert(lyrics::track_views(pool@) =~= before.push(x@));
                        }
                        pool = lyrics::rank(pool, &self.query);
                    },
                    None => {},
                }
                let ghost vs = lyrics::track_views(pool@);
                assert(vs == pooled(old(self)@, lyrics::track_views(found@)));
                if pool.len() > 0 {
                    assert(vs[0] == pool@[0]@);
                    let best = pool.remove(0);
                    if best.is_synced() || fallback.is_none() {
                        return Ok(Some(best));
                    }
                }
                Ok(fallback)
            },
        }
    }

    /// Takes in the reply to a search.
    pub fn take_search(&mut self, reply: SearchReply) -> (r: Option<Outcome>)
        requires
            old(self).wf(),
        ensures
            final(self).wf(),
            opt_outcome(r) == after_search(old(self)@, reply_view(reply)).1,
            r is None ==> final(self)@ == after_search(old(self)@, reply_view(reply)).0,
            r is Some ==> final(self)@.stage is Finished,
    {
        let climbing = match self.stage {
            Stage::Climbing => true,
            _ => false,
        };
        if !climbing || self.at >= self.ladder.len() {
            return None;
        }
        let ghost all = lyrics::attempt_views(self.ladder@);
        match reply {
            Ok(raw) => {
                let ranked = lyrics::rank(lyrics::use_all(raw), &self.query);
                let ghost vs = lyrics::track_views(ranked@);
                if ranked.len() > 0 {
                    assert(vs[0] == ranked@[0]@);
                    if ranked[0].is_synced() {
                        let done = self.conclude(Ok(ranked));
                        self.at = 0;
                        self.stage = Stage::Finished;
                        return Some(done);
                    }
                }
                if self.plain.len() == 0 {
                    self.plain = ranked;
                }
            },
            Err(e) => {
                self.failed = Some(e);
            },
        }
        self.at += 1;
        assert(all.skip(self.at as int) =~= all.skip(self.at - 1).skip(1));
        assert(self@ == climbed(old(self)@, reply_view(reply)));
        if self.at < self.ladder.len() {
            return None;
        }
        let mut plain: Vec<TrackLyrics> = Vec::new();
        std::mem::swap(&mut plain, &mut self.plain);
        let failed = self.failed.take();
        let found = match failed {
            Some(e) => if plain.len() == 0 {
                Err(e)
            } else {
                Ok(plain)
            },
            None => Ok(plain),
        };
        let done = self.conclude(found);
        self.at = 0;
        self.stage = Stage::Finished;
        Some(done)
    }
}

// ── every candidate ──────────────────────────────────────────────────────────

/// The mathematical content of a [`Collection`].
pub struct CollectionView {
    pub q: QueryView,
    pub all: Seq<TrackView>,
    pub failed: Option<Seq<char>>,
    pub left: Seq<AttemptView>,
}

/// `all` with those of `more` whose id is not yet among them.
pub open spec fn merged(all: Seq<TrackView>, more: Seq<TrackView>) -> Seq<TrackView>
    decreases more.len(),
{
    if more.len() == 0 {
        all
    } else {
        let front = merged(all, more.drop_last());
        if has_id(front, more.last().id) {
            front
        } else {
            front.push(more.last())
        }
    }
}

/// Whether no two records share an id.
pub open spec fn ids_differ(s: Seq<TrackView>) -> bool {
    forall|i: int, j: int|
        0 <= i < j < s.len() ==> (#[trigger] s[i]).id != (#[trigger] s[j]).id
}

/// Merging never lists a record twice.
pub proof fn merging_keeps_ids_apart(all: Seq<TrackView>, more: Seq<TrackView>)
    requires
        ids_differ(all),
    ensures
        ids_differ(merged(all, more)),
        forall|i: int| 0 <= i < more.len() ==> has_id(merged(all, more), (#[trigger] more[i]).id),
        all.is_prefix_of(merged(all, more)),
    decreases more.len(),
{
    if more.len() > 0 {
        let p = more.drop_last();
        merging_keeps_ids_apart(all, p);
        let front = merged(all, p);
        let full = merged(all, more);
        assert forall|i: int| 0 <= i < more.len() implies has_id(
            full,
            (#[trigger] more[i]).id,
        ) by {
            if i < p.len() {
                assert(p[i] == more[i]);
                assert(has_id(front, p[i].id));
                let k = choose|k: int| 0 <= k < front.len() && (#[trigger] front[k]).id == p[i].id;
                assert(full[k].id == more[i].id);
            } else if has_id(front, more.last().id) {
            } else {
                assert(full[front.len() as int].id == more[i].id);
            }
        }
    }
}

/// What a reply adds to the candidates.
pub open spec fn gathered(v: CollectionView, reply: Result<Seq<RecordView>, Seq<char>>) -> CollectionView {
    match reply {
        Ok(raw) => CollectionView {
            all: merged(v.all, lyrics::usable_all(raw)),
            left: v.left.skip(1),
            ..v
        },
        Err(e) => CollectionView { failed: Some(e), left: v.left.skip(1), ..v },
    }
}

/// What the candidates come to: an error only where there are none and a request failed.
pub open spec fn collected(v: CollectionView) -> Result<Seq<TrackView>, Seq<char>> {
    if v.all.len() == 0 && v.failed is Some {
        Err(v.failed->0)
    } else {
        Ok(lyrics::ranked(v.all, v.q))
    }
}

/// Gathers every candidate that the ladder reaches.
pub struct Collection {
    query: LyricsQuery,
    all: Vec<TrackLyrics>,
    failed: Option<String>,
    ladder: Vec<Attempt>,
    at: usize,
}

impl View for Collection {
    type V = CollectionView;

    closed spec fn view(&self) -> CollectionView {
        CollectionView {
            q: self.query@,
            all: lyrics::track_views(self.all@),
            failed: text::opt(self.failed),
            left: lyrics::attempt_views(self.ladder@).skip(self.at as int),
        }
    }
}

impl Collection {
    /// Whether the place in the ladder is one.
    pub closed spec fn wf(&self) -> bool {
        self.at <= self.ladder@.len()
    }

    /// A collection without candidates.
    pub fn start(query: LyricsQuery) -> (r: Self)
        ensures
            r.wf(),
            r@ == (CollectionView {
                q: query@,
                all: Seq::empty(),
                failed: None,
                left: requests(query@),
            }),
    {
        let ladder = worthwhile(query.search_ladder());
        let r = Collection { query, all: Vec::new(), failed: None, ladder, at: 0 };
        assert(r@.left =~= requests(query@));
        assert(r@.all =~= Seq::empty());
        r
    }

    /// What to search for next; `None` when every rung was asked.
    pub fn ask(&self) -> (r: Option<&Attempt>)
        requires
            self.wf(),
        ensures
            match r {
                Some(a) => self@.left.len() > 0 && a@ == self@.left[0],
                None => self@.left.len() == 0,
            },
    {
        if self.at < self.ladder.len() {
            Some(&self.ladder[self.at])
        } else {
            None
        }
    }

    /// Takes in the reply to a search.
    pub fn take_search(&mut self, reply: SearchReply)
        requires
            old(self).wf(),
            old(self)@.left.len() > 0,
        ensures
            final(self).wf(),
            final(self)@ == gathered(old(self)@, reply_view(reply)),
            ids_differ(old(self)@.all) ==> ids_differ(final(self)@.all),
    {
        let ghost ladder = lyrics::attempt_views(self.ladder@);
        let rungs: usize = self.ladder.len();
        assert(self.at < rungs);
        match reply {
            Ok(raw) => {
                let more = lyrics::use_all(raw);
                let ghost vs = lyrics::track_views(more@);
                let ghost start = lyrics::track_views(self.all@);
                assert(start == merged(start, vs.take(0)));
                for t in it: more
                    invariant
                        it.seq() == more@,
                        vs == lyrics::track_views(more@),
                        lyrics::track_views(self.all@) == merged(start, vs.take(it.index() as int)),
                        self.query@ == old(self).query@,
                        self.failed == old(self).failed,
                        self.ladder == old(self).ladder,
                        self.at == old(self).at,
                {
                    let ghost i = it.index() as int;
                    assert(vs.take(i + 1).drop_last() == vs.take(i));
                    assert(vs[i] == t@);
                    let ghost front = lyrics::track_views(self.all@);
                    let mut known = false;
                    let mut k: usize = 0;
                    while k < self.all.len()
                        invariant
                            k <= self.all@.len(),
                            front == lyrics::track_views(self.all@),
                            known == exists|j: int| 0 <= j < k && (#[trigger] front[j]).id == t.id,
                        decreases self.all@.len() - k,
                    {
                        assert(front[k as int] == self.all@[k as int]@);
                        if self.all[k].id == t.id {
                            known = true;
                        }
                        k += 1;
                    }
                    assert(known == has_id(front, t.id));
                    if !known {
                        self.all.push(t);
                        assert(lyrics::track_views(self.all@) =~= front.push(t@));
                    }
                }
                assert(vs.take(vs.len() as int) == vs);
                proof {
                    if ids_differ(start) {
                        merging_keeps_ids_apart(start, vs);
                    }
                }
            },
            Err(e) => {
                self.failed = Some(e);
            },
        }
        self.at += 1;
        assert(ladder.skip(self.at as int) =~= ladder.skip(self.at - 1).skip(1));
    }

    /// The candidates, the best first.
    pub fn finish(self) -> (r: Result<Vec<TrackLyrics>, String>)
        ensures
            match r {
                Ok(v) => collected(self@) == Ok::<Seq<TrackView>, Seq<char>>(
                    lyrics::track_views(v@),
                ),
                Err(e) => collected(self@) == Err::<Seq<TrackView>, Seq<char>>(e@),
            },
    {
        match self.failed {
            Some(e) => {
                if self.all.len() == 0 {
                    return Err(e);
                }
            },
            None => {},
        }
        Ok(lyrics::rank(self.all, &self.query))
    }
}

} // verus!
