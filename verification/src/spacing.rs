//! What collapsing white space does to the parts of a text.

use vstd::prelude::*;

use crate::text;

verus! {

/// `s` with one space in place of every run of white space. `started` says that
/// something stands before `s`, and `pending` that white space does, which becomes
/// a space when something follows.
pub open spec fn squeezed(s: Seq<char>, started: bool, pending: bool) -> Seq<char>
    decreases s.len(),
{
    if s.len() == 0 {
        Seq::empty()
    } else if text::white(s[0]) {
        squeezed(s.skip(1), started, started)
    } else {
        lead(pending) + seq![s[0]] + squeezed(s.skip(1), true, false)
    }
}

/// The space that stands for white space before something.
pub open spec fn lead(pending: bool) -> Seq<char> {
    if pending {
        seq![' ']
    } else {
        Seq::empty()
    }
}

/// Whether something, and whether white space, stands before what follows `s`.
pub open spec fn state(s: Seq<char>, started: bool, pending: bool) -> (bool, bool)
    decreases s.len(),
{
    if s.len() == 0 {
        (started, pending)
    } else if text::white(s[0]) {
        state(s.skip(1), started, started)
    } else {
        state(s.skip(1), true, false)
    }
}

/// Whether all white space in `s` is single spaces.
pub open spec fn spaced(s: Seq<char>) -> bool {
    forall|i: int|
        0 <= i < s.len() && text::white(#[trigger] s[i]) ==> s[i] == ' ' && (i + 1 < s.len()
            ==> !text::white(s[i + 1]))
}

/// A part of what is spaced is spaced.
pub proof fn lemma_spaced_part(s: Seq<char>, i: int, j: int)
    requires
        spaced(s),
        0 <= i <= j <= s.len(),
    ensures
        spaced(s.subrange(i, j)),
{
    let t = s.subrange(i, j);
    assert forall|k: int| 0 <= k < t.len() && text::white(#[trigger] t[k]) implies t[k] == ' ' && (
    k + 1 < t.len() ==> !text::white(t[k + 1])) by {
        assert(text::white(s[i + k]));
    }
}

/// Squeezing two parts is squeezing one after the other.
pub proof fn lemma_squeezed_parts(a: Seq<char>, b: Seq<char>, started: bool, pending: bool)
    ensures
        squeezed(a + b, started, pending) == squeezed(a, started, pending) + squeezed(
            b,
            state(a, started, pending).0,
            state(a, started, pending).1,
        ),
    decreases a.len(),
{
    if a.len() == 0 {
        assert(a + b =~= b);
    } else {
        assert((a + b).skip(1) =~= a.skip(1) + b);
        if text::white(a[0]) {
            lemma_squeezed_parts(a.skip(1), b, started, started);
        } else {
            lemma_squeezed_parts(a.skip(1), b, true, false);
        }
        assert(squeezed(a + b, started, pending) =~= squeezed(a, started, pending) + squeezed(
            b,
            state(a, started, pending).0,
            state(a, started, pending).1,
        ));
    }
}

/// Squeezing adds nothing but spaces, and keeps no other white space.
pub proof fn lemma_squeezed_chars(s: Seq<char>, started: bool, pending: bool)
    ensures
        forall|i: int|
            0 <= i < squeezed(s, started, pending).len() ==> {
                let c = #[trigger] squeezed(s, started, pending)[i];
                c == ' ' || (!text::white(c) && exists|j: int| 0 <= j < s.len() && s[j] == c)
            },
    decreases s.len(),
{
    if s.len() > 0 {
        let t = s.skip(1);
        let q = squeezed(s, started, pending);
        let (st, pe) = if text::white(s[0]) {
            (started, started)
        } else {
            (true, false)
        };
        lemma_squeezed_chars(t, st, pe);
        let r = squeezed(t, st, pe);
        let n = q.len() - r.len();
        assert forall|i: int| 0 <= i < q.len() implies {
            let c = #[trigger] q[i];
            c == ' ' || (!text::white(c) && exists|j: int| 0 <= j < s.len() && s[j] == c)
        } by {
            let c = q[i];
            if i >= n {
                assert(r[i - n] == c);
                if c != ' ' {
                    let j = choose|j: int| 0 <= j < t.len() && t[j] == c;
                    assert(s[j + 1] == c);
                }
            } else if c != ' ' {
                assert(s[0] == c);
            }
        }
    }
}

/// What is spaced already, and neither starts nor ends with white space, stays.
pub proof fn lemma_squeezed_spaced(s: Seq<char>, started: bool, pending: bool)
    requires
        spaced(s),
        s.len() > 0,
        !text::white(s[0]),
        !text::white(s.last()),
    ensures
        squeezed(s, started, pending) == lead(pending) + s,
        state(s, started, pending) == (true, false),
    decreases s.len(),
{
    let t = s.skip(1);
    lemma_spaced_part(s, 1, s.len() as int);
    assert(t =~= s.subrange(1, s.len() as int));
    if t.len() == 0 {
        assert(squeezed(t, true, false) =~= Seq::empty());
        assert(state(t, true, false) == (true, false));
        assert(squeezed(s, started, pending) =~= lead(pending) + s);
    } else if text::white(t[0]) {
        let v = t.skip(1);
        assert(s[1] == t[0]);
        assert(text::white(s[1]));
        assert(s.last() == t.last());
        assert(v.len() > 0);
        assert(v[0] == s[2]);
        assert(v.last() == s.last());
        lemma_spaced_part(s, 2, s.len() as int);
        assert(v =~= s.subrange(2, s.len() as int));
        lemma_squeezed_spaced(v, true, true);
        assert(squeezed(t, true, false) == squeezed(v, true, true));
        assert(state(t, true, false) == state(v, true, true));
        assert(squeezed(s, started, pending) =~= lead(pending) + s);
    } else {
        assert(s.last() == t.last());
        lemma_squeezed_spaced(t, true, false);
        assert(squeezed(s, started, pending) =~= lead(pending) + s);
    }
}

proof fn lemma_squeezed_tidy(s: Seq<char>, started: bool, pending: bool)
    requires
        pending ==> started,
    ensures
        ({
            let q = squeezed(s, started, pending);
            &&& q.len() > 0 ==> !text::white(q.last())
            &&& spaced(q)
            &&& q.len() > 0 && text::white(q[0]) ==> started && (pending || text::white(s[0]))
            &&& q.len() > 0 ==> s.len() > 0
        }),
    decreases s.len(),
{
    if s.len() > 0 {
        let t = s.skip(1);
        let q = squeezed(s, started, pending);
        if text::white(s[0]) {
            lemma_squeezed_tidy(t, started, started);
        } else {
            lemma_squeezed_tidy(t, true, false);
            let r = squeezed(t, true, false);
            let n = q.len() - r.len();
            assert(r.len() > 0 ==> q.last() == r.last());
            assert(q[n - 1] == s[0]);
            assert forall|i: int| 0 <= i < q.len() && text::white(#[trigger] q[i]) implies q[i]
                == ' ' && (i + 1 < q.len() ==> !text::white(q[i + 1])) by {
                if i >= n {
                    assert(r[i - n] == q[i]);
                    if i + 1 < q.len() {
                        assert(r[i + 1 - n] == q[i + 1]);
                    }
                }
            }
        }
    }
}

proof fn lemma_squeezed_word(s: Seq<char>, started: bool, pending: bool)
    requires
        s.len() > 0,
        !text::white(s[0]),
    ensures
        text::word_len(s) <= s.len(),
        ({
            let n = text::word_len(s) as int;
            &&& n < s.len() ==> text::white(s[n])
            &&& squeezed(s, started, pending) == lead(pending) + s.take(n) + squeezed(
                s.skip(n),
                true,
                false,
            )
        }),
    decreases s.len(),
{
    let n = text::word_len(s) as int;
    let t = s.skip(1);
    if t.len() == 0 || text::white(t[0]) {
        assert(text::word_len(t) == 0);
        assert(n == 1);
        assert(s.take(1) =~= seq![s[0]]);
    } else {
        lemma_squeezed_word(t, true, false);
        assert(t.skip(n - 1) =~= s.skip(n));
        assert(s.take(n) =~= seq![s[0]] + t.take(n - 1));
    }
    assert(squeezed(s, started, pending) =~= lead(pending) + s.take(n) + squeezed(
        s.skip(n),
        true,
        false,
    ));
}

proof fn lemma_squeezed_words(s: Seq<char>, started: bool, pending: bool)
    requires
        pending ==> started,
        started ==> pending || s.len() == 0 || text::white(s[0]),
    ensures
        squeezed(s, started, pending) == if text::words_of(s).len() == 0 {
            Seq::empty()
        } else {
            lead(started) + text::joined(text::words_of(s), seq![' '])
        },
    decreases s.len(),
{
    if s.len() == 0 {
    } else if text::white(s[0]) {
        let t = s.skip(1);
        lemma_squeezed_words(t, started, started);
        assert(text::trimmed_start(s) == text::trimmed_start(t));
        assert(text::words_of(s) == text::words_of(t));
    } else {
        lemma_squeezed_word(s, started, pending);
        text::lemma_word_len(s);
        let n = text::word_len(s) as int;
        let v = s.skip(n);
        assert(v.len() > 0 ==> v[0] == s[n]);
        lemma_squeezed_words(v, true, false);
        assert(text::trimmed_start(s) == s);
        assert(text::words_of(s) == seq![s.take(n)] + text::words_of(v));
        text::lemma_joined_first(s.take(n), text::words_of(v), seq![' ']);
        assert(squeezed(s, started, pending) =~= lead(started) + text::joined(
            text::words_of(s),
            seq![' '],
        ));
    }
}

/// A collapsed text is tidy, and holds nothing but what the text holds, and spaces.
pub proof fn lemma_collapsed(s: Seq<char>)
    ensures
        text::collapsed(s) == squeezed(s, false, false),
        text::tidy(text::collapsed(s)),
        spaced(text::collapsed(s)),
        forall|i: int|
            0 <= i < text::collapsed(s).len() ==> {
                let c = #[trigger] text::collapsed(s)[i];
                c == ' ' || (!text::white(c) && exists|j: int| 0 <= j < s.len() && s[j] == c)
            },
{
    lemma_squeezed_words(s, false, false);
    assert(text::collapsed(s) =~= squeezed(s, false, false));
    lemma_squeezed_tidy(s, false, false);
    lemma_squeezed_chars(s, false, false);
}

/// A tidy text is its own collapsed form.
pub proof fn lemma_collapsed_tidy(s: Seq<char>)
    requires
        text::tidy(s),
    ensures
        text::collapsed(s) == s,
{
    lemma_collapsed(s);
    if s.len() > 0 {
        lemma_squeezed_spaced(s, false, false);
        assert(squeezed(s, false, false) =~= s);
    }
}

} // verus!
