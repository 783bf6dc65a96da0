//! Translating a song: what is sent, which replies are accepted, and which line each
//! translation comes under.

use vstd::prelude::*;

use crate::json;
use crate::text;
use crate::translate;
use crate::translate::EntryView;

verus! {

// ── echoes ───────────────────────────────────────────────────────────────────

/// An echo is the line, character for character, once white space is left out: nothing
/// echoes nothing; white space at the end of either changes nothing; two texts that end in
/// other characters echo each other exactly where these are equal and what stands before
/// them does; and a text that ends in such a character echoes none that is all white.
pub proof fn an_echo_is_the_line(a: Seq<char>, b: Seq<char>, c: char, d: char)
    ensures
        translate::is_echo(Seq::empty(), Seq::empty()),
        text::white(c) ==> translate::is_echo(a.push(c), b) == translate::is_echo(a, b),
        text::white(c) ==> translate::is_echo(a, b.push(c)) == translate::is_echo(a, b),
        !text::white(c) && !text::white(d) ==> translate::is_echo(a.push(c), b.push(d)) == (c == d
            && translate::is_echo(a, b)),
        !text::white(c) && (forall|i: int| 0 <= i < b.len() ==> text::white(#[trigger] b[i]))
            ==> !translate::is_echo(a.push(c), b) && !translate::is_echo(b, a.push(c)),
{
    broadcast use Seq::lemma_filter_push;

    let f = |c: char| !text::white(c);
    let x = a.filter(f);
    let y = b.filter(f);
    assert(a.push(c).filter(f) == if f(c) {
        x.push(c)
    } else {
        x
    });
    assert(b.push(c).filter(f) == if f(c) {
        y.push(c)
    } else {
        y
    });
    assert(b.push(d).filter(f) == if f(d) {
        y.push(d)
    } else {
        y
    });
    if !text::white(c) && !text::white(d) {
        if x.push(c) == y.push(d) {
            assert(x.push(c).last() == y.push(d).last());
            assert(x =~= x.push(c).drop_last());
            assert(y =~= y.push(d).drop_last());
        }
    }
    if forall|i: int| 0 <= i < b.len() ==> text::white(#[trigger] b[i]) {
        lemma_nothing_left(b);
    }
}

proof fn lemma_nothing_left(s: Seq<char>)
    requires
        forall|i: int| 0 <= i < s.len() ==> text::white(#[trigger] s[i]),
    ensures
        s.filter(|c: char| !text::white(c)).len() == 0,
{
    let f = |c: char| !text::white(c);
    if s.filter(f).len() > 0 {
        s.lemma_filter_pred(f, 0);
        s.lemma_filter_contains_rev(f, s.filter(f)[0]);
        let i = choose|i: int| 0 <= i < s.len() && s[i] == s.filter(f)[0];
        assert(text::white(s[i]));
    }
}

/// Echoing goes both ways, and on: two echoes of one line echo each other.
pub proof fn echoes_agree(a: Seq<char>, b: Seq<char>, c: Seq<char>)
    ensures
        translate::is_echo(a, a),
        translate::is_echo(a, b) == translate::is_echo(b, a),
        translate::is_echo(a, c) && translate::is_echo(b, c) ==> translate::is_echo(a, b),
{
}

// ── what is sent ─────────────────────────────────────────────────────────────

/// A further line is sent at the end, trimmed, unless it is blank or was sent before; the
/// numbers of those before it stay.
pub proof fn a_line_is_sent_once_at_the_end(lines: Seq<Seq<char>>, l: Seq<char>)
    ensures
        ({
            let t = text::trimmed(l);
            let before = translate::sent(lines);
            let after = translate::sent(lines.push(l));
            &&& t.len() == 0 || before.contains(t) ==> after == before
            &&& t.len() > 0 && !before.contains(t) ==> after == before.push(t)
            &&& before.is_prefix_of(after)
        }),
        translate::sent(Seq::empty()).len() == 0,
{
    assert(lines.push(l).drop_last() =~= lines);
}

/// Every row of the request is a line's number, a tab and the line, and the rows stand one
/// below the other.
pub proof fn rows_carry_their_numbers(order: Seq<Seq<char>>, l: Seq<char>)
    ensures
        order.len() == 0 ==> translate::numbered(order.push(l)) == text::decimal(0) + "\t"@ + l,
        order.len() > 0 ==> translate::numbered(order.push(l)) == translate::numbered(order)
            + "\n"@ + (text::decimal(order.len()) + "\t"@ + l),
{
    assert(order.push(l).drop_last() =~= order);
}

/// The request names the language where it starts and once more, and says how many lines
/// there are and what the last one's number is.
pub proof fn the_request_says_what_is_wanted(target: Seq<char>, order: Seq<Seq<char>>)
    requires
        order.len() > 0,
    ensures
        translate::system_text(target) == "You translate song lyrics into "@ + target
            + translate::SYSTEM_MIDDLE@ + target + translate::SYSTEM_TAIL@,
        translate::user_text(order) == text::decimal(order.len()) + " lines, numbered 0 to "@
            + text::decimal((order.len() - 1) as nat) + ". Return exactly "@ + text::decimal(
            order.len(),
        ) + " entries.\n\n<lines>\n"@ + translate::numbered(order) + "\n</lines>"@,
{
}

/// A reply may take two hundred tokens for each line, but never less than 8192 or more
/// than 32000; more lines never get less.
pub proof fn tokens_grow_with_the_lines(n: nat, m: nat)
    requires
        n <= m,
    ensures
        8192 <= translate::token_limit(n) <= 32000,
        8192 <= 200 * n <= 32000 ==> translate::token_limit(n) == 200 * n,
        translate::token_limit(n) <= translate::token_limit(m),
{
}

// ── what comes back ──────────────────────────────────────────────────────────

/// A reply is accepted exactly where every line has one entry that carries its number and
/// echoes it, and there is no other entry.
pub open spec fn aligned(entries: Seq<EntryView>, order: Seq<Seq<char>>) -> bool {
    &&& entries.len() == order.len()
    &&& forall|k: int|
        0 <= k < entries.len() ==> (#[trigger] entries[k]).index < order.len()
            && translate::is_echo(entries[k].source, order[entries[k].index as int])
    &&& forall|j: int, k: int|
        0 <= j < k < entries.len() ==> (#[trigger] entries[j]).index != (#[trigger] entries[k]).index
}

proof fn lemma_placing_goes_well(entries: Seq<EntryView>, order: Seq<Seq<char>>)
    requires
        forall|k: int|
            0 <= k < entries.len() ==> (#[trigger] entries[k]).index < order.len()
                && translate::is_echo(entries[k].source, order[entries[k].index as int]),
        forall|j: int, k: int|
            0 <= j < k < entries.len() ==> (#[trigger] entries[j]).index != (
            #[trigger] entries[k]).index,
    ensures
        translate::placing(entries, order) is Ok,
        ({
            let p = translate::placing(entries, order)->Ok_0;
            &&& p.filled.len() == order.len()
            &&& p.out.len() == order.len()
            &&& forall|i: int|
                0 <= i < order.len() && #[trigger] p.filled[i] ==> exists|k: int|
                    0 <= k < entries.len() && (#[trigger] entries[k]).index == i
            &&& forall|k: int|
                0 <= k < entries.len() ==> p.out[(#[trigger] entries[k]).index as int]
                    == text::trimmed(entries[k].text)
            &&& translate::unset(p.filled) + entries.len() == order.len()
        }),
    decreases entries.len(),
{
    if entries.len() > 0 {
        let front = entries.drop_last();
        assert forall|k: int| 0 <= k < front.len() implies (#[trigger] front[k]).index
            < order.len() && translate::is_echo(
            front[k].source,
            order[front[k].index as int],
        ) by {
            assert(front[k] == entries[k]);
        }
        assert forall|j: int, k: int| 0 <= j < k < front.len() implies (#[trigger] front[j]).index
            != (#[trigger] front[k]).index by {
            assert(entries[j].index != entries[k].index);
        }
        lemma_placing_goes_well(front, order);
        let q = translate::placing(front, order)->Ok_0;
        let n = entries.len() - 1;
        let e = entries[n];
        assert(e == entries.last());
        if q.filled[e.index as int] {
            let k = choose|k: int| 0 <= k < front.len() && (#[trigger] front[k]).index == e.index;
            assert(entries[k].index == entries[n].index);
        }
        translate::lemma_unset_update(q.filled, e.index as int);
        let p = translate::placing(entries, order)->Ok_0;
        assert forall|i: int| 0 <= i < order.len() && #[trigger] p.filled[i] implies exists|k: int|
            0 <= k < entries.len() && (#[trigger] entries[k]).index == i by {
            if i == e.index {
                assert(entries[n].index == i);
            } else {
                assert(q.filled[i]);
                let k = choose|k: int| 0 <= k < front.len() && (#[trigger] front[k]).index == i;
                assert(entries[k].index == i);
            }
        }
        assert forall|k: int| 0 <= k < entries.len() implies p.out[(
        #[trigger] entries[k]).index as int] == text::trimmed(entries[k].text) by {
            if k < n {
                assert(front[k] == entries[k]);
                assert(entries[k].index != entries[n].index);
            }
        }
    } else {
        translate::lemma_unset_all(order.len());
    }
}

proof fn lemma_placed_apart(entries: Seq<EntryView>, order: Seq<Seq<char>>)
    requires
        translate::placing(entries, order) is Ok,
    ensures
        ({
            let p = translate::placing(entries, order)->Ok_0;
            &&& p.filled.len() == order.len()
            &&& forall|k: int|
                0 <= k < entries.len() ==> (#[trigger] entries[k]).index < order.len()
                    && translate::is_echo(entries[k].source, order[entries[k].index as int])
                    && p.filled[entries[k].index as int]
            &&& forall|j: int, k: int|
                0 <= j < k < entries.len() ==> (#[trigger] entries[j]).index != (
                #[trigger] entries[k]).index
        }),
    decreases entries.len(),
{
    if entries.len() > 0 {
        let front = entries.drop_last();
        lemma_placed_apart(front, order);
        let q = translate::placing(front, order)->Ok_0;
        let n = entries.len() - 1;
        assert(entries[n] == entries.last());
        assert forall|k: int| 0 <= k < entries.len() implies (#[trigger] entries[k]).index
            < order.len() && translate::is_echo(
            entries[k].source,
            order[entries[k].index as int],
        ) && translate::placing(entries, order)->Ok_0.filled[entries[k].index as int] by {
            if k < n {
                assert(front[k] == entries[k]);
            }
        }
        assert forall|j: int, k: int| 0 <= j < k < entries.len() implies (
        #[trigger] entries[j]).index != (#[trigger] entries[k]).index by {
            assert(front[j] == entries[j]);
            if k < n {
                assert(front[k] == entries[k]);
            } else {
                assert(q.filled[front[j].index as int]);
            }
        }
    }
}

/// A reply that is aligned is accepted, in whatever order its entries stand, and one that
/// is not is rejected; each translation comes under the line its entry numbers, without
/// white space around it.
pub proof fn an_aligned_reply_is_accepted(
    entries: Seq<EntryView>,
    order: Seq<Seq<char>>,
    k: int,
)
    ensures
        (translate::placed(entries, order) is Ok) == aligned(entries, order),
        translate::placed(entries, order) is Ok && 0 <= k < entries.len()
            ==> translate::placed(entries, order)->Ok_0[entries[k].index as int]
            == text::trimmed(entries[k].text),
{
    if aligned(entries, order) {
        lemma_placing_goes_well(entries, order);
    }
    if translate::placed(entries, order) is Ok {
        translate::an_accepted_reply_is_aligned(entries, order);
        lemma_placed_apart(entries, order);
        lemma_placing_goes_well(entries, order);
        if 0 <= k < entries.len() {
            assert(translate::placing(entries, order)->Ok_0.out[entries[k].index as int]
                == text::trimmed(entries[k].text));
        }
    }
}

/// The first entry that does not fit is what a rejection names: a number beyond the lines,
/// a number that came before, or the echo of another line.
pub proof fn a_rejection_names_the_fault(
    front: Seq<EntryView>,
    e: EntryView,
    order: Seq<Seq<char>>,
)
    requires
        translate::placing(front, order) is Ok,
    ensures
        ({
            let i = e.index;
            let r = translate::placed(front.push(e), order);
            let taken = exists|k: int| 0 <= k < front.len() && (#[trigger] front[k]).index == i;
            &&& i >= order.len() ==> r == Err::<Seq<Seq<char>>, Seq<char>>(
                "reply indexed line "@ + text::decimal(i as nat) + " of "@ + text::decimal(
                    order.len(),
                ),
            )
            &&& i < order.len() && taken ==> r == Err::<Seq<Seq<char>>, Seq<char>>(
                "reply repeated line "@ + text::decimal(i as nat),
            )
            &&& i < order.len() && !taken && !translate::is_echo(e.source, order[i as int]) ==> r
                == Err::<Seq<Seq<char>>, Seq<char>>(
                "reply put "@ + translate::quoted(translate::short(e.source)) + " under line "@
                    + text::decimal(i as nat) + " ("@ + translate::quoted(
                    translate::short(order[i as int]),
                ) + ")"@,
            )
        }),
{
    let all = front.push(e);
    assert(all.drop_last() =~= front);
    assert(all.last() == e);
    lemma_placed_apart(front, order);
    lemma_placing_goes_well(front, order);
    if e.index < order.len() {
        let p = translate::placing(front, order)->Ok_0;
        if exists|k: int| 0 <= k < front.len() && (#[trigger] front[k]).index == e.index {
            let k = choose|k: int| 0 <= k < front.len() && (#[trigger] front[k]).index == e.index;
            assert(p.filled[front[k].index as int]);
        }
    }
}

/// A reply that lacks lines says how many.
pub proof fn a_short_reply_counts_what_is_missing(entries: Seq<EntryView>, order: Seq<Seq<char>>)
    requires
        translate::placing(entries, order) is Ok,
        entries.len() < order.len(),
    ensures
        translate::placed(entries, order) == Err::<Seq<Seq<char>>, Seq<char>>(
            "reply dropped "@ + text::decimal((order.len() - entries.len()) as nat) + " of "@
                + text::decimal(order.len()) + " lines"@,
        ),
{
    lemma_placed_apart(entries, order);
    lemma_placing_goes_well(entries, order);
}

/// Each line of the song gets the translation of its trimmed form, and a blank one none.
pub proof fn each_line_gets_its_own_translation(
    lines: Seq<Seq<char>>,
    seen: Map<Seq<char>, usize>,
    entries: Seq<EntryView>,
    i: int,
    k: int,
)
    requires
        0 <= i < lines.len(),
        0 <= k < entries.len(),
        translate::locates(seen, translate::sent(lines)),
        aligned(entries, translate::sent(lines)),
        translate::sent(lines)[entries[k].index as int] == text::trimmed(lines[i]),
    ensures
        ({
            let done = translate::placed(entries, translate::sent(lines))->Ok_0;
            translate::spread_out(lines, seen, done)[i] == text::trimmed(entries[k].text)
        }),
{
    let order = translate::sent(lines);
    an_aligned_reply_is_accepted(entries, order, k);
    translate::nothing_is_sent_twice(lines);
    let t = text::trimmed(lines[i]);
    assert(order.contains(t)) by {
        assert(order[entries[k].index as int] == t);
    }
    assert(seen.contains_key(t));
    assert(order[seen[t] as int] == t);
    assert(seen[t] == entries[k].index);
}

/// There is a translation for every line, found by the line without white space around it,
/// and an empty one for a line that was not sent.
pub proof fn a_line_that_was_not_sent_has_none(
    lines: Seq<Seq<char>>,
    seen: Map<Seq<char>, usize>,
    done: Seq<Seq<char>>,
    i: int,
)
    requires
        0 <= i < lines.len(),
    ensures
        ({
            let r = translate::spread_out(lines, seen, done);
            let t = text::trimmed(lines[i]);
            &&& r.len() == lines.len()
            &&& !seen.contains_key(t) ==> r[i].len() == 0
            &&& seen.contains_key(t) ==> r[i] == done[seen[t] as int]
        }),
{
}

/// What a failed request shows is the service's own message, and without one at most the
/// first two hundred characters of its answer.
pub proof fn a_failure_is_shown_in_short(message: Option<Seq<char>>, body: Seq<char>)
    ensures
        message matches Some(m) ==> translate::error_shown(message, body) == m,
        message is None ==> translate::error_shown(message, body).is_prefix_of(body),
        message is None && body.len() <= 200 ==> translate::error_shown(message, body) == body,
        message is None && body.len() > 200 ==> translate::error_shown(message, body).len() == 200,
{
    if body.len() > 200 {
        assert(body.take(200) =~= body.take(body.take(200).len() as int));
    } else {
        assert(body =~= body.take(body.len() as int));
    }
}

/// A text of up to forty characters is shown whole, a longer one as its first forty and a
/// mark.
pub proof fn long_texts_are_shown_in_short(s: Seq<char>)
    ensures
        s.len() <= 40 ==> translate::short(s) == s,
        s.len() > 40 ==> translate::short(s) == s.take(40) + "…"@,
{
}

/// A reply that is no JSON, that the model declined or that was cut off is an error in
/// that order, whatever text it holds; else the first text block is what it says, and
/// without one that is an error.
pub proof fn a_reply_says_its_first_text(body: Seq<char>, i: int)
    ensures
        ({
            let r = translate::reply_said(body);
            let stop = json::json_text(body, "/stop_reason"@);
            let n = json::json_items(body, "/content"@);
            &&& json::json_fault(body) matches Some(e) ==> r == Err::<Seq<char>, Seq<char>>(e)
            &&& json::json_fault(body) is None && stop == Some("refusal"@) ==> r == Err::<
                Seq<char>,
                Seq<char>,
            >("the model declined this request"@)
            &&& json::json_fault(body) is None && stop != Some("refusal"@) && stop == Some(
                "max_tokens"@,
            ) ==> r == Err::<Seq<char>, Seq<char>>("reply was truncated"@)
            &&& json::json_fault(body) is None && stop != Some("refusal"@) && stop != Some(
                "max_tokens"@,
            ) && n is None ==> r == Err::<Seq<char>, Seq<char>>("no text block in the reply"@)
            &&& json::json_fault(body) is None && stop != Some("refusal"@) && stop != Some(
                "max_tokens"@,
            ) && n is Some && 0 <= i < n->0 && json::json_text(
                body,
                "/content/"@ + text::decimal(i as nat) + "/type"@,
            ) == Some("text"@) && (forall|j: int|
                0 <= j < i ==> json::json_text(
                    body,
                    "/content/"@ + #[trigger] text::decimal(j as nat) + "/type"@,
                ) != Some("text"@)) ==> r == match json::json_text(
                body,
                "/content/"@ + text::decimal(i as nat) + "/text"@,
            ) {
                Some(t) => Ok::<Seq<char>, Seq<char>>(t),
                None => Err::<Seq<char>, Seq<char>>("no text block in the reply"@),
            }
        }),
{
    if json::json_items(body, "/content"@) is Some {
        let n = json::json_items(body, "/content"@)->0;
        if 0 <= i < n && json::json_text(body, "/content/"@ + text::decimal(i as nat) + "/type"@)
            == Some("text"@) && (forall|j: int|
            0 <= j < i ==> json::json_text(
                body,
                "/content/"@ + #[trigger] text::decimal(j as nat) + "/type"@,
            ) != Some("text"@)) {
            lemma_first_text_block(body, 0, i, n as int);
        }
    }
}

proof fn lemma_first_text_block(body: Seq<char>, from: int, i: int, n: int)
    requires
        0 <= from <= i < n,
        json::json_text(body, "/content/"@ + text::decimal(i as nat) + "/type"@) == Some("text"@),
        forall|j: int|
            0 <= j < i ==> json::json_text(
                body,
                "/content/"@ + #[trigger] text::decimal(j as nat) + "/type"@,
            ) != Some("text"@),
    ensures
        translate::text_block(body, from, n) == Some(i),
    decreases i - from,
{
    if from < i {
        assert(json::json_text(body, "/content/"@ + text::decimal(from as nat) + "/type"@)
            != Some("text"@));
        lemma_first_text_block(body, from + 1, i, n);
    }
}

} // verus!
