//! Timed lyrics: what timestamps and offsets say, which lines a file has, and which of
//! them is sung.

use vstd::prelude::*;

use crate::config;
use crate::lrc;
use crate::lrc::{LineView, LyricLine};
use crate::seqs;
use crate::text;

verus! {

// ── timestamps ───────────────────────────────────────────────────────────────

/// `n`, but at most the longest time that is told apart.
pub open spec fn at_most_292_years(n: nat) -> nat {
    if n < 0x7fff_ffff_ffff_ffff {
        n
    } else {
        0x7fff_ffff_ffff_ffff
    }
}

/// Whether `s` is one digit or more, and nothing else.
pub open spec fn numeral(s: Seq<char>) -> bool {
    s.len() > 0 && forall|i: int| 0 <= i < s.len() ==> '0' <= (#[trigger] s[i]) && s[i] <= '9'
}

proof fn lemma_split(a: Seq<char>, b: Seq<char>, c: char)
    requires
        !a.contains(c),
    ensures
        text::split_on(a + seq![c] + b, c) == seq![a] + text::split_on(b, c),
        text::split_on(a, c) == seq![a],
{
    let s = a + seq![c] + b;
    let n = a.len() as int;
    text::lemma_first_of(s, c, 0);
    text::lemma_first_of(a, c, 0);
    if text::first_of(a, c, 0) is Some {
        assert(a.contains(c));
    }
    assert(s[n] == c);
    let i = text::first_of(s, c, 0)->0;
    if i < n {
        assert(s[i] == a[i]);
        assert(a.contains(c));
    }
    assert(i == n);
    assert(s.take(n) =~= a);
    assert(s.skip(n + 1) =~= b);
}

proof fn lemma_dot(a: Seq<char>, b: Seq<char>)
    requires
        !a.contains('.'),
    ensures
        lrc::around_dot(a) == (a, None::<Seq<char>>),
        lrc::around_dot(a + seq!['.'] + b) == (a, Some(b)),
{
    let s = a + seq!['.'] + b;
    let n = a.len() as int;
    text::lemma_first_of(s, '.', 0);
    text::lemma_first_of(a, '.', 0);
    if text::first_of(a, '.', 0) is Some {
        assert(a.contains('.'));
    }
    assert(s[n] == '.');
    let i = text::first_of(s, '.', 0)->0;
    if i < n {
        assert(s[i] == a[i]);
        assert(a.contains('.'));
    }
    assert(i == n);
    assert(s.take(n) =~= a);
    assert(s.skip(n + 1) =~= b);
}

proof fn lemma_numeral(s: Seq<char>, c: char)
    requires
        numeral(s),
        c < '0' || c > '9',
    ensures
        !s.contains(c),
        lrc::digits(s),
{
    if s.contains(c) {
        let i = choose|i: int| 0 <= i < s.len() && s[i] == c;
        assert('0' <= s[i] && s[i] <= '9');
    }
    assert forall|i: int| 0 <= i < s.len() implies lrc::is_digit(#[trigger] s[i]) by {
        assert('0' <= s[i] && s[i] <= '9');
    }
}

/// `mm:ss` says minutes and seconds, and `hh:mm:ss` hours too.
pub proof fn a_stamp_says_hours_minutes_and_seconds(h: Seq<char>, m: Seq<char>, s: Seq<char>)
    requires
        numeral(h),
        numeral(m),
        numeral(s),
    ensures
        lrc::stamp(m + seq![':'] + s) == Some(
            at_most_292_years((60 * lrc::number(m) + lrc::number(s)) * 1_000_000_000),
        ),
        lrc::stamp(h + seq![':'] + (m + seq![':'] + s)) == Some(
            at_most_292_years(
                (3600 * lrc::number(h) + 60 * lrc::number(m) + lrc::number(s)) * 1_000_000_000,
            ),
        ),
{
    lemma_numeral(h, ':');
    lemma_numeral(m, ':');
    lemma_numeral(s, ':');
    lemma_numeral(s, '.');
    lemma_split(s, s, ':');
    lemma_split(m, s, ':');
    lemma_split(h, m + seq![':'] + s, ':');
    lemma_dot(s, s);
    assert(seq![m] + seq![s] =~= seq![m, s]);
    assert(seq![h] + seq![m, s] =~= seq![h, m, s]);
}

/// The digits behind the dot are tenths, hundredths and thousandths of a second, and so on
/// down to the billionth.
pub proof fn a_fraction_is_read_from_its_front(m: Seq<char>, s: Seq<char>, f: Seq<char>)
    requires
        numeral(m),
        numeral(s),
        numeral(f),
    ensures
        ({
            let whole = (60 * lrc::number(m) + lrc::number(s)) * 1_000_000_000;
            let t = lrc::stamp(m + seq![':'] + (s + seq!['.'] + f));
            &&& f.len() == 1 ==> t == Some(
                at_most_292_years(whole + lrc::number(f) * 100_000_000),
            )
            &&& f.len() == 2 ==> t == Some(
                at_most_292_years(whole + lrc::number(f) * 10_000_000),
            )
            &&& f.len() == 3 ==> t == Some(at_most_292_years(whole + lrc::number(f) * 1_000_000))
            &&& f.len() == 6 ==> t == Some(at_most_292_years(whole + lrc::number(f) * 1_000))
            &&& f.len() == 9 ==> t == Some(at_most_292_years(whole + lrc::number(f)))
            &&& f.len() > 9 ==> t == lrc::stamp(m + seq![':'] + (s + seq!['.'] + f.take(9)))
        }),
{
    lemma_stamp_with_fraction(m, s, f);
    reveal_with_fuel(lrc::pow10, 10);
    let n = lrc::number(f);
    lemma_scaled(n, lrc::pow10(8), 100_000_000);
    lemma_scaled(n, lrc::pow10(7), 10_000_000);
    lemma_scaled(n, lrc::pow10(6), 1_000_000);
    lemma_scaled(n, lrc::pow10(3), 1_000);
    lemma_scaled(n, lrc::pow10(0), 1);
    if f.len() > 9 {
        let g = f.take(9);
        assert forall|i: int| 0 <= i < g.len() implies '0' <= (#[trigger] g[i]) && g[i]
            <= '9' by {
            assert(g[i] == f[i]);
        }
        lemma_stamp_with_fraction(m, s, g);
        lemma_scaled(lrc::number(g), lrc::pow10(0), 1);
        assert(f.take(f.len() + (9 - f.len())) =~= g);
    }
}

proof fn lemma_scaled(n: nat, p: nat, q: nat)
    requires
        p == q,
    ensures
        n * p == n * q,
{
}

proof fn lemma_stamp_with_fraction(m: Seq<char>, s: Seq<char>, f: Seq<char>)
    requires
        numeral(m),
        numeral(s),
        numeral(f),
    ensures
        lrc::stamp(m + seq![':'] + (s + seq!['.'] + f)) == Some(
            at_most_292_years(
                (60 * lrc::number(m) + lrc::number(s)) * 1_000_000_000 + lrc::moved(
                    f,
                    9 - f.len(),
                ),
            ),
        ),
{
    lemma_numeral(m, ':');
    lemma_numeral(s, ':');
    lemma_numeral(f, ':');
    lemma_numeral(s, '.');
    let t = s + seq!['.'] + f;
    if t.contains(':') {
        let i = choose|i: int| 0 <= i < t.len() && t[i] == ':';
        if i < s.len() {
            assert(s[i] == ':');
            assert(s.contains(':'));
        } else if i > s.len() {
            assert(f[i - s.len() - 1] == ':');
            assert(f.contains(':'));
        }
    }
    lemma_split(t, t, ':');
    lemma_split(m, t, ':');
    lemma_dot(s, f);
    assert(seq![m] + seq![t] =~= seq![m, t]);
}

/// Without a colon nothing is a timestamp, nor is what holds a character that is no digit,
/// colon or dot: a tag is none.
pub proof fn a_tag_is_no_stamp(content: Seq<char>, c: char)
    ensures
        !content.contains(':') ==> lrc::stamp(content) is None,
        content.contains(c) && (c < '0' || c > '9') && c != ':' && c != '.' ==> lrc::stamp(content)
            is None,
{
    if !content.contains(':') {
        lemma_split(content, content, ':');
    }
    if content.contains(c) && (c < '0' || c > '9') && c != ':' && c != '.' {
        let parts = text::split_on(content, ':');
        lemma_some_piece(content, ':', c);
        let k = choose|k: int| 0 <= k < parts.len() && (#[trigger] parts[k]).contains(c);
        let p = parts[k];
        let i = choose|i: int| 0 <= i < p.len() && p[i] == c;
        assert(!lrc::is_digit(p[i]));
        let n = parts.len() as int;
        if n == 2 || n == 3 {
            if k < n - 1 {
                assert(!lrc::digits(p));
            } else {
                text::lemma_first_of(p, '.', 0);
                match text::first_of(p, '.', 0) {
                    Some(d) => {
                        if i < d {
                            assert(p.take(d)[i] == c);
                            assert(!lrc::digits(p.take(d)));
                        } else {
                            assert(p.skip(d + 1)[i - d - 1] == c);
                            assert(!lrc::digits(p.skip(d + 1)));
                        }
                    },
                    None => {
                        assert(!lrc::digits(p));
                    },
                }
            }
        }
    }
}

proof fn lemma_some_piece(s: Seq<char>, sep: char, c: char)
    requires
        s.contains(c),
        c != sep,
    ensures
        exists|k: int|
            0 <= k < text::split_on(s, sep).len() && (#[trigger] text::split_on(
                s,
                sep,
            )[k]).contains(c),
    decreases s.len(),
{
    text::lemma_first_of(s, sep, 0);
    let j = choose|j: int| 0 <= j < s.len() && s[j] == c;
    let parts = text::split_on(s, sep);
    match text::first_of(s, sep, 0) {
        Some(i) => {
            let rest = s.skip(i + 1);
            if j < i {
                assert(s.take(i)[j] == c);
                assert(parts[0] == s.take(i));
                assert(parts[0].contains(c));
            } else {
                assert(rest[j - i - 1] == c);
                lemma_some_piece(rest, sep, c);
                let more = text::split_on(rest, sep);
                let k = choose|k: int| 0 <= k < more.len() && (#[trigger] more[k]).contains(c);
                assert(parts[k + 1] == more[k]);
            }
        },
        None => {
            assert(parts[0] == s);
        },
    }
}

// ── offsets ──────────────────────────────────────────────────────────────────

/// An offset is a number of milliseconds, with a minus sign below zero; a plus sign says
/// nothing.
pub proof fn an_offset_is_in_milliseconds(ds: Seq<char>)
    requires
        numeral(ds),
    ensures
        ({
            let n = at_most_292_years(lrc::number(ds) * 1_000_000);
            &&& lrc::offset_value(ds) == Some(n as int)
            &&& lrc::offset_value(seq!['+'] + ds) == Some(n as int)
            &&& lrc::offset_value(seq!['-'] + ds) == Some(-(n as int))
            &&& lrc::offset_value(seq!['+', '-'] + ds) == Some(-(n as int))
        }),
{
    lemma_plain_magnitude(ds);
    lemma_unsigned_is_trimmed(ds);
    let p = seq!['+'] + ds;
    let m = seq!['-'] + ds;
    let pm = seq!['+', '-'] + ds;
    lemma_unsigned_is_trimmed(p);
    lemma_unsigned_is_trimmed(m);
    lemma_unsigned_is_trimmed(pm);
    assert(p.skip(1) =~= ds);
    assert(m.skip(1) =~= ds);
    assert(pm.skip(1) =~= m);
    assert('0' <= ds[0] && ds[0] <= '9');
    reveal_with_fuel(lrc::without_plus, 3);
}

proof fn lemma_unsigned_is_trimmed(s: Seq<char>)
    requires
        s.len() > 0,
        !text::white(s[0]),
        !text::white(s.last()),
    ensures
        text::trimmed(s) == s,
{
}

proof fn lemma_plain_magnitude(ds: Seq<char>)
    requires
        numeral(ds),
    ensures
        lrc::magnitude(ds) == Some(at_most_292_years(lrc::number(ds) * 1_000_000)),
{
    reveal_strlit("inf");
    reveal_strlit("infinity");
    assert('0' <= ds[0] && ds[0] <= '9');
    assert(text::ascii_lower(ds[0]) == ds[0]);
    lemma_numeral(ds, 'e');
    lemma_numeral(ds, 'E');
    lemma_numeral(ds, '.');
    text::lemma_first_of(ds, 'e', 0);
    text::lemma_first_of(ds, 'E', 0);
    if text::first_of(ds, 'e', 0) is Some {
        assert(ds.contains('e'));
    }
    if text::first_of(ds, 'E', 0) is Some {
        assert(ds.contains('E'));
    }
    lemma_dot(ds, ds);
    assert(ds + Seq::<char>::empty() =~= ds);
    reveal_with_fuel(lrc::pow10, 8);
    assert(lrc::pow10(6) == 1_000_000);
}

/// An offset may have a fraction: the digits behind the dot are tenths of a millisecond and
/// so on; and an exponent, by which its digits move.
pub proof fn an_offset_may_have_a_fraction(w: Seq<char>, f: Seq<char>, x: Seq<char>)
    requires
        numeral(w),
        numeral(f),
        numeral(x),
        f.len() <= 6,
    ensures
        lrc::magnitude(w + seq!['.'] + f) == Some(
            at_most_292_years(lrc::number(w + f) * lrc::pow10((6 - f.len()) as nat)),
        ),
        lrc::magnitude(w + seq!['e'] + x) == Some(
            at_most_292_years(lrc::number(w) * lrc::pow10(lrc::number(x) + 6)),
        ),
        lrc::magnitude("inf"@) == Some(0x7fff_ffff_ffff_ffffnat),
{
    reveal_strlit("inf");
    reveal_strlit("infinity");
    assert('0' <= w[0] && w[0] <= '9');
    let s = w + seq!['.'] + f;
    let t = w + seq!['e'] + x;
    assert(s[0] == w[0] && t[0] == w[0]);
    assert(text::ascii_lower(s[0]) == s[0]);
    lemma_numeral(w, '.');
    lemma_numeral(w, 'e');
    lemma_numeral(w, 'E');
    lemma_numeral(f, 'e');
    lemma_numeral(f, 'E');
    lemma_numeral(x, 'E');
    lemma_not_among(w, '.', f, 'e');
    lemma_not_among(w, '.', f, 'E');
    lemma_not_among(w, 'e', x, 'E');
    text::lemma_first_of(s, 'e', 0);
    text::lemma_first_of(s, 'E', 0);
    lemma_dot(w, f);
    let both = w + f;
    assert forall|i: int| 0 <= i < both.len() implies lrc::is_digit(#[trigger] both[i]) by {
        if i < w.len() {
            assert('0' <= w[i] && w[i] <= '9');
        } else {
            assert('0' <= f[i - w.len()] && f[i - w.len()] <= '9');
        }
    }
    text::lemma_first_of(t, 'e', 0);
    text::lemma_first_of(t, 'E', 0);
    let n = w.len() as int;
    assert(t[n] == 'e');
    let e = text::first_of(t, 'e', 0)->0;
    if e < n {
        assert(w[e] == 'e');
        assert(w.contains('e'));
    }
    assert(e == n);
    assert(t.take(n) =~= w);
    assert(t.skip(n + 1) =~= x);
    assert('0' <= x[0] && x[0] <= '9');
    assert(w + Seq::<char>::empty() =~= w);
    assert("inf"@.len() == 3 && text::ascii_lower("inf"@[0]) == 'i' && text::ascii_lower(
        "inf"@[1],
    ) == 'n' && text::ascii_lower("inf"@[2]) == 'f');
}

proof fn lemma_not_among(a: Seq<char>, m: char, b: Seq<char>, c: char)
    requires
        !a.contains(c),
        !b.contains(c),
        m != c,
    ensures
        forall|i: int| 0 <= i < (a + seq![m] + b).len() ==> (a + seq![m] + b)[i] != c,
{
    let s = a + seq![m] + b;
    assert forall|i: int| 0 <= i < s.len() implies s[i] != c by {
        if i < a.len() {
            assert(a.contains(a[i]));
        } else if i > a.len() {
            assert(b.contains(b[i - a.len() - 1]));
        }
    }
}

/// A tag with an offset sets it, and another tag leaves it.
pub proof fn only_an_offset_tag_sets_the_offset(tag: Seq<char>, v: Seq<char>, offset: int)
    ensures
        !"offset:"@.is_prefix_of(tag) ==> lrc::offset_after(tag, offset) == offset,
        lrc::offset_value(v) is None ==> lrc::offset_after("offset:"@ + v, offset) == offset,
        lrc::offset_value(v) matches Some(n) ==> lrc::offset_after("offset:"@ + v, offset) == n,
{
    let t = "offset:"@ + v;
    assert("offset:"@ =~= t.take("offset:"@.len() as int));
    assert(t.skip("offset:"@.len() as int) =~= v);
}

// ── lines ────────────────────────────────────────────────────────────────────

proof fn lemma_group(c: Seq<char>, rest: Seq<char>, stamps: Seq<nat>, offset: int)
    requires
        !c.contains(']'),
    ensures
        lrc::peeled(seq!['['] + c + seq![']'] + rest, stamps, offset) == match lrc::stamp(c) {
            Some(t) => lrc::peeled(rest, stamps.push(t), offset),
            None => lrc::peeled(rest, stamps, lrc::offset_after(c, offset)),
        },
{
    let s = seq!['['] + c + seq![']'] + rest;
    let n = c.len() as int + 1;
    text::lemma_first_of(s, ']', 1);
    assert(s[n] == ']');
    let i = text::first_of(s, ']', 1)->0;
    if i < n {
        assert(s[i] == c[i - 1]);
        assert(c.contains(']'));
    }
    assert(i == n);
    assert(s.subrange(1, i) =~= c);
    assert(s.skip(i + 1) =~= rest);
}

/// A line with a timestamp is sung at that time less the offset, in the file's place: what
/// stands behind the group are its words, without white space around them.
pub proof fn a_stamped_line_is_an_entry(
    c: Seq<char>,
    words: Seq<char>,
    more: Seq<Seq<char>>,
    offset: int,
)
    requires
        lrc::stamp(c) is Some,
        !c.contains(']'),
        words.len() == 0 || words[0] != '[',
    ensures
        ({
            let line = seq!['['] + c + seq![']'] + words;
            let t = lrc::stamp(c)->0;
            &&& i64::MIN <= t - offset <= i64::MAX ==> lrc::read(seq![line] + more, offset)
                == seq![LineView { at: t - offset, text: text::trimmed(words) }] + lrc::read(
                more,
                offset,
            )
            &&& t - offset < i64::MIN ==> lrc::read(seq![line] + more, offset) == seq![
                LineView { at: i64::MIN as int, text: text::trimmed(words) },
            ] + lrc::read(more, offset)
            &&& t - offset > i64::MAX ==> lrc::read(seq![line] + more, offset) == seq![
                LineView { at: i64::MAX as int, text: text::trimmed(words) },
            ] + lrc::read(more, offset)
        }),
{
    let line = seq!['['] + c + seq![']'] + words;
    let all = seq![line] + more;
    assert(all.skip(1) =~= more);
    assert(line[0] == '[');
    lemma_group(c, words, Seq::empty(), offset);
    let t = lrc::stamp(c)->0;
    assert(Seq::<nat>::empty().push(t) =~= seq![t]);
    assert(lrc::entries(seq![t], offset, text::trimmed(words)) =~= seq![
        LineView { at: lrc::clamped(t - offset), text: text::trimmed(words) },
    ]);
}

/// A line with two timestamps is sung twice, with the same words.
pub proof fn a_repeated_line_is_two_entries(
    c: Seq<char>,
    d: Seq<char>,
    words: Seq<char>,
    more: Seq<Seq<char>>,
    offset: int,
)
    requires
        lrc::stamp(c) is Some,
        lrc::stamp(d) is Some,
        !c.contains(']'),
        !d.contains(']'),
        words.len() == 0 || words[0] != '[',
    ensures
        ({
            let line = seq!['['] + c + seq![']'] + (seq!['['] + d + seq![']'] + words);
            let one = seq!['['] + c + seq![']'] + words;
            let two = seq!['['] + d + seq![']'] + words;
            lrc::read(seq![line] + more, offset) == lrc::read(seq![one, two] + more, offset)
        }),
{
    let one = seq!['['] + c + seq![']'] + words;
    let two = seq!['['] + d + seq![']'] + words;
    let line = seq!['['] + c + seq![']'] + two;
    let t = lrc::stamp(c)->0;
    let u = lrc::stamp(d)->0;
    lemma_group(c, two, Seq::empty(), offset);
    lemma_group(d, words, seq![t], offset);
    lemma_group(c, words, Seq::empty(), offset);
    lemma_group(d, words, Seq::empty(), offset);
    assert(Seq::<nat>::empty().push(t) =~= seq![t]);
    assert(Seq::<nat>::empty().push(u) =~= seq![u]);
    assert(seq![t].push(u) =~= seq![t, u]);
    let w = text::trimmed(words);
    assert((seq![line] + more).skip(1) =~= more);
    assert((seq![one, two] + more).skip(1) =~= seq![two] + more);
    assert((seq![two] + more).skip(1) =~= more);
    assert(line[0] == '[' && one[0] == '[' && two[0] == '[');
    assert(lrc::entries(seq![t, u], offset, w) =~= lrc::entries(seq![t], offset, w) + lrc::entries(
        seq![u],
        offset,
        w,
    ));
    assert(lrc::read(seq![two] + more, offset) == lrc::entries(seq![u], offset, w) + lrc::read(
        more,
        offset,
    ));
    assert(lrc::read(seq![one, two] + more, offset) == lrc::entries(seq![t], offset, w)
        + lrc::read(seq![two] + more, offset));
    assert(lrc::read(seq![line] + more, offset) =~= lrc::read(seq![one, two] + more, offset));
}

/// A line without a timestamp in front is no entry.
pub proof fn an_unstamped_line_is_none(line: Seq<char>, more: Seq<Seq<char>>, offset: int)
    requires
        line.len() > 0,
        !text::white(line[0]),
        line[0] != '[',
    ensures
        lrc::read(seq![line] + more, offset) == lrc::read(more, offset),
        lrc::read(Seq::empty(), offset).len() == 0,
{
    assert((seq![line] + more).skip(1) =~= more);
    assert(lrc::entries(Seq::empty(), offset, text::trimmed(line)) =~= Seq::empty());
    assert(lrc::read(seq![line] + more, offset) =~= lrc::read(more, offset));
}

/// The lines of a file come out in order of time, none lost and none made up, and lines of
/// one time as they stand in it.
pub proof fn lines_come_in_order_of_time(src: Seq<char>, i: int, j: int, k: LineView)
    ensures
        ({
            let ls = text::lines_of(src);
            let all = lrc::read(ls, lrc::offset_of(ls, 0));
            let r = lrc::parsed(src);
            &&& 0 <= i < j < r.len() ==> r[i].at <= r[j].at
            &&& r.to_multiset() == all.to_multiset()
            &&& r.filter(|e: LineView| e.at == k.at) == all.filter(|e: LineView| e.at == k.at)
        }),
{
    let ls = text::lines_of(src);
    let all = lrc::read(ls, lrc::offset_of(ls, 0));
    let le = lrc::earlier();
    assert(seqs::total(le));
    seqs::lemma_sorted_in_order(all, le);
    seqs::lemma_sorted_permutes(all, le);
    seqs::lemma_sorted_stable(all, k, le);
    let f = |e: LineView| e.at == k.at;
    let g = |x: LineView| le(x, k) && le(k, x);
    assert forall|x: LineView| #[trigger] f(x) == g(x) by {}
    lemma_same_filter(lrc::parsed(src), f, g);
    lemma_same_filter(all, f, g);
    if 0 <= i < j < lrc::parsed(src).len() {
        assert(le(lrc::parsed(src)[i], lrc::parsed(src)[j]));
    }
}

proof fn lemma_same_filter<A>(s: Seq<A>, f: spec_fn(A) -> bool, g: spec_fn(A) -> bool)
    requires
        forall|x: A| #[trigger] f(x) == g(x),
    ensures
        s.filter(f) == s.filter(g),
    decreases s.len(),
{
    reveal(Seq::filter);
    if s.len() > 0 {
        lemma_same_filter(s.drop_last(), f, g);
        assert(f(s.last()) == g(s.last()));
    }
}

// ── what is sung ─────────────────────────────────────────────────────────────

/// A line is sung from its own time on until the next one's, and not before or then.
pub proof fn a_line_is_sung_from_its_time(lines: Seq<LyricLine>, t: int, i: int)
    requires
        0 <= i < lines.len(),
    ensures
        t < lines[i].at ==> !lrc::is_active(lines, t, i),
        i + 1 < lines.len() && lines[i].at <= t < lines[i + 1].at ==> lrc::is_active(lines, t, i),
        i + 1 < lines.len() && lines[i + 1].at <= t ==> !lrc::is_active(lines, t, i),
        i + 1 == lines.len() && lines[i].at <= t ==> lrc::is_active(lines, t, i),
{
}

/// A shift behind zero shows lines late and one before it early, by as much: a line comes
/// when so much more of the song has passed.
pub proof fn lines_come_as_late_as_asked(elapsed: int, shift: i64, at: int)
    requires
        i64::MIN <= elapsed - shift <= i64::MAX,
    ensures
        (config::moment(config::Shift::Nanos(shift), elapsed) >= at) == (elapsed >= at + shift),
        config::moment(config::Shift::NotFinite, shift as int) == shift,
{
}

} // verus!
