//! Texts: white space, lines, order, numbers, and what is left of a title.

use vstd::prelude::*;

use crate::lrc;
use crate::seqs;
use crate::spacing;
use crate::text;
use crate::title;
use crate::translate;

verus! {

// ── white space ──────────────────────────────────────────────────────────────

/// White space is the tab and its four successors, the space, the next line, the no-break
/// spaces, and the spaces and separators of other scripts; nothing that is seen.
pub proof fn white_space_is_not_seen(c: char)
    ensures
        text::white(c) <==> (c == ' ' || ('\t' <= c && c <= '\r') || c == '\u{85}' || c
            == '\u{a0}' || c == '\u{1680}' || ('\u{2000}' <= c && c <= '\u{200a}') || c
            == '\u{2028}' || c == '\u{2029}' || c == '\u{202f}' || c == '\u{205f}' || c
            == '\u{3000}'),
{
}

proof fn lemma_trimmed_parts(s: Seq<char>) -> (r: (int, int))
    ensures
        0 <= r.0 <= r.1 <= s.len(),
        text::trimmed(s) == s.subrange(r.0, r.1),
        forall|i: int| 0 <= i < r.0 || r.1 <= i < s.len() ==> text::white(#[trigger] s[i]),
{
    let a = lemma_lead(s);
    let t = text::trimmed_start(s);
    let b = lemma_tail(t);
    assert(text::trimmed(s) =~= s.subrange(a, a + b));
    assert forall|i: int| 0 <= i < a || a + b <= i < s.len() implies text::white(
        #[trigger] s[i],
    ) by {
        if i >= a + b {
            assert(t[i - a] == s[i]);
            assert(text::white(t[i - a]));
        }
    }
    (a, a + b)
}

proof fn lemma_lead(s: Seq<char>) -> (n: int)
    ensures
        0 <= n <= s.len(),
        text::trimmed_start(s) == s.skip(n),
        forall|i: int| 0 <= i < n ==> text::white(#[trigger] s[i]),
        n < s.len() ==> !text::white(s[n]),
    decreases s.len(),
{
    if s.len() > 0 && text::white(s[0]) {
        let n = lemma_lead(s.skip(1));
        assert(s.skip(1).skip(n) =~= s.skip(n + 1));
        assert forall|i: int| 0 <= i < n + 1 implies text::white(#[trigger] s[i]) by {
            if i > 0 {
                assert(s.skip(1)[i - 1] == s[i]);
            }
        }
        n + 1
    } else {
        assert(s.skip(0) =~= s);
        0
    }
}

proof fn lemma_tail(s: Seq<char>) -> (n: int)
    ensures
        0 <= n <= s.len(),
        text::trimmed_end(s) == s.take(n),
        forall|i: int| n <= i < s.len() ==> text::white(#[trigger] s[i]),
    decreases s.len(),
{
    if s.len() > 0 && text::white(s.last()) {
        let n = lemma_tail(s.drop_last());
        assert(s.drop_last().take(n) =~= s.take(n));
        assert forall|i: int| n <= i < s.len() implies text::white(#[trigger] s[i]) by {
            if i < s.len() - 1 {
                assert(s.drop_last()[i] == s[i]);
            }
        }
        n
    } else {
        assert(s.take(s.len() as int) =~= s);
        s.len() as int
    }
}

/// Trimming takes white space off both ends, all of it and nothing else.
pub proof fn trimming_takes_the_ends(s: Seq<char>)
    ensures
        exists|i: int, j: int|
            0 <= i <= j <= s.len() && text::trimmed(s) == #[trigger] s.subrange(i, j) && forall|
                k: int,
            |
                0 <= k < i || j <= k < s.len() ==> text::white(#[trigger] s[k]),
        text::trimmed(s).len() > 0 ==> !text::white(text::trimmed(s)[0]) && !text::white(
            text::trimmed(s).last(),
        ),
{
    let (i, j) = lemma_trimmed_parts(s);
    assert(text::trimmed(s) == s.subrange(i, j));
    let t = text::trimmed_start(s);
    text::lemma_trimmed_start(s);
    text::lemma_trimmed_end(t);
}

/// Trimming twice is trimming once.
pub proof fn trimming_twice_is_trimming_once(s: Seq<char>)
    ensures
        text::trimmed(text::trimmed(s)) == text::trimmed(s),
{
    trimming_takes_the_ends(s);
}

/// Collapsing changes nothing but white space.
pub proof fn collapsing_keeps_what_is_seen(s: Seq<char>)
    ensures
        translate::is_echo(text::collapsed(s), s),
        text::tidy(text::collapsed(s)),
{
    spacing::lemma_collapsed(s);
    lemma_squeezed_echo(s, false, false);
}

proof fn lemma_squeezed_echo(s: Seq<char>, started: bool, pending: bool)
    ensures
        translate::bare(spacing::squeezed(s, started, pending)) == translate::bare(s),
    decreases s.len(),
{
    let f = |c: char| !text::white(c);
    reveal(Seq::filter);
    if s.len() == 0 {
    } else {
        let t = s.skip(1);
        assert(s =~= seq![s[0]] + t);
        Seq::<char>::filter_distributes_over_add(seq![s[0]], t, f);
        lemma_one(s[0]);
        if text::white(s[0]) {
            lemma_squeezed_echo(t, started, started);
            assert(s.filter(f) =~= t.filter(f));
        } else {
            lemma_squeezed_echo(t, true, false);
            let q = spacing::squeezed(t, true, false);
            let head = spacing::lead(pending) + seq![s[0]];
            Seq::<char>::filter_distributes_over_add(head, q, f);
            Seq::<char>::filter_distributes_over_add(
                spacing::lead(pending),
                seq![s[0]],
                f,
            );
            lemma_one(' ');
            assert(spacing::lead(pending).filter(f) =~= Seq::empty());
            assert(spacing::squeezed(s, started, pending) =~= head + q);
            assert(s.filter(f) =~= head.filter(f) + q.filter(f));
        }
    }
}

proof fn lemma_one(c: char)
    ensures
        seq![c].filter(|c: char| !text::white(c)) == if text::white(c) {
            Seq::<char>::empty()
        } else {
            seq![c]
        },
        Seq::<char>::empty().filter(|c: char| !text::white(c)) == Seq::<char>::empty(),
{
    broadcast use Seq::lemma_filter_push;

    let f = |c: char| !text::white(c);
    let e = Seq::<char>::empty();
    assert(e.filter(f) =~= e) by {
        reveal(Seq::filter);
    }
    assert(seq![c] =~= e.push(c));
}

proof fn lemma_white_run(s: Seq<char>, started: bool, pending: bool)
    requires
        forall|i: int| 0 <= i < s.len() ==> text::white(#[trigger] s[i]),
    ensures
        spacing::squeezed(s, started, pending) == Seq::<char>::empty(),
        s.len() > 0 ==> spacing::state(s, started, pending) == (started, started),
        s.len() == 0 ==> spacing::state(s, started, pending) == (started, pending),
    decreases s.len(),
{
    if s.len() > 0 {
        let t = s.skip(1);
        assert(text::white(s[0]));
        assert forall|i: int| 0 <= i < t.len() implies text::white(#[trigger] t[i]) by {
            assert(text::white(s[i + 1]));
        }
        lemma_white_run(t, started, started);
    }
}

/// White space at the ends goes, and any run of it between two tidy texts becomes one
/// space; a tidy text stays.
pub proof fn a_run_of_white_space_is_one_space(
    x: Seq<char>,
    a: Seq<char>,
    gap: Seq<char>,
    b: Seq<char>,
    y: Seq<char>,
)
    requires
        text::tidy(a),
        text::tidy(b),
        a.len() > 0,
        b.len() > 0,
        gap.len() > 0,
        forall|i: int| 0 <= i < x.len() ==> text::white(#[trigger] x[i]),
        forall|i: int| 0 <= i < gap.len() ==> text::white(#[trigger] gap[i]),
        forall|i: int| 0 <= i < y.len() ==> text::white(#[trigger] y[i]),
    ensures
        text::collapsed(x + a + gap + b + y) == a + seq![' '] + b,
        text::collapsed(a) == a,
        text::collapsed(x).len() == 0,
{
    let s = x + a + gap + b + y;
    spacing::lemma_collapsed(s);
    spacing::lemma_collapsed(x);
    spacing::lemma_collapsed_tidy(a);
    lemma_white_run(x, false, false);
    spacing::lemma_squeezed_spaced(a, false, false);
    lemma_white_run(gap, true, false);
    spacing::lemma_squeezed_spaced(b, true, true);
    lemma_white_run(y, true, false);
    assert(s =~= x + (a + (gap + (b + y))));
    spacing::lemma_squeezed_parts(x, a + (gap + (b + y)), false, false);
    spacing::lemma_squeezed_parts(a, gap + (b + y), false, false);
    spacing::lemma_squeezed_parts(gap, b + y, true, false);
    spacing::lemma_squeezed_parts(b, y, true, true);
    assert(text::collapsed(s) =~= a + seq![' '] + b);
}

// ── lines, order, numbers ────────────────────────────────────────────────────

/// A line ends at its first newline, a carriage return before it left out; what has no
/// newline is one line; and no text has none.
pub proof fn lines_end_at_newlines(a: Seq<char>, b: Seq<char>)
    requires
        !a.contains('\n'),
    ensures
        text::lines_of(Seq::empty()).len() == 0,
        a.len() > 0 ==> text::lines_of(a) == seq![a],
        text::lines_of(a + seq!['\n'] + b) == seq![
            if a.len() > 0 && a.last() == '\r' {
                a.drop_last()
            } else {
                a
            },
        ] + text::lines_of(b),
{
    let s = a + seq!['\n'] + b;
    let n = a.len() as int;
    text::lemma_first_of(a, '\n', 0);
    text::lemma_first_of(s, '\n', 0);
    if text::first_of(a, '\n', 0) is Some {
        assert(a.contains('\n'));
    }
    assert(s[n] == '\n');
    let i = text::first_of(s, '\n', 0)->0;
    if i < n {
        assert(a[i] == s[i]);
        assert(a.contains('\n'));
    }
    assert(i == n);
    assert(s.take(n) =~= a);
    assert(s.skip(n + 1) =~= b);
}

/// In a dictionary the first difference decides, and a text stands before what it starts.
pub proof fn the_first_difference_decides(p: Seq<char>, a: Seq<char>, b: Seq<char>)
    ensures
        a.len() > 0 && b.len() > 0 && a[0] != b[0] ==> text::before(p + a, p + b) == (a[0] < b[0]),
        b.len() > 0 ==> text::before(p, p + b),
        !text::before(p + a, p),
    decreases p.len(),
{
    if p.len() > 0 {
        the_first_difference_decides(p.skip(1), a, b);
        assert((p + a).skip(1) =~= p.skip(1) + a);
        assert((p + b).skip(1) =~= p.skip(1) + b);
    } else {
        assert(p + a =~= a);
        assert(p + b =~= b);
    }
}

/// What is written in base ten is read as the number it was, and has no zero in front.
pub proof fn numbers_are_read_back(n: nat)
    ensures
        lrc::number(text::decimal(n)) == n,
        n > 0 ==> text::decimal(n)[0] != '0',
    decreases n,
{
    let d = text::decimal(n);
    if n < 10 {
        assert(d.drop_last() =~= Seq::empty());
        assert(lrc::number(d.drop_last()) == 0);
        assert(d.last() as int - '0' as int == n);
    } else {
        numbers_are_read_back(n / 10);
        assert(d.drop_last() =~= text::decimal(n / 10));
        assert(d.last() as int - '0' as int == n % 10);
        assert(n == n / 10 * 10 + n % 10);
        text::lemma_decimal_digits(n / 10);
    }
}

/// A text stands where its characters do, one after another.
pub proof fn a_text_stands_where_its_characters_do(
    a: Seq<char>,
    w: Seq<char>,
    b: Seq<char>,
    i: int,
    k: int,
)
    ensures
        text::occurs(a + w + b, w, a.len() as int),
        text::occurs(a, w, i) ==> 0 <= i && i + w.len() <= a.len(),
        text::occurs(a, w, i) && 0 <= k < w.len() ==> a[i + k] == w[k],
{
    let s = a + w + b;
    let n = a.len() as int;
    assert(s.subrange(n, n + w.len()) =~= w);
    if text::occurs(a, w, i) && 0 <= k < w.len() {
        assert(a.subrange(i, i + w.len())[k] == a[i + k]);
    }
}

/// A text is found where it first stands, and nowhere where it does not stand.
pub proof fn the_first_place_is_found(a: Seq<char>, w: Seq<char>, i: int)
    requires
        0 <= i,
    ensures
        match text::find_from(a, w, 0) {
            Some(j) => text::occurs(a, w, j) && (i < j ==> !text::occurs(a, w, i)),
            None => !text::occurs(a, w, i),
        },
{
    text::lemma_find_from(a, w, 0);
}

/// Lower case changes the letters `A` to `Z`, each to its small one, and nothing else.
pub proof fn only_capitals_are_lowered(c: char)
    ensures
        ('A' <= c && c <= 'Z') ==> text::ascii_lower(c) as int == c as int + 32,
        !('A' <= c && c <= 'Z') ==> text::ascii_lower(c) == c,
{
}

/// A text split at a character and joined with it is the text.
pub proof fn splitting_is_undone(s: Seq<char>, c: char)
    ensures
        text::joined(text::split_on(s, c), seq![c]) == s,
    decreases s.len(),
{
    text::lemma_first_of(s, c, 0);
    match text::first_of(s, c, 0) {
        Some(i) => {
            let rest = s.skip(i + 1);
            splitting_is_undone(rest, c);
            text::lemma_split_pieces(rest, c);
            text::lemma_joined_first(s.take(i), text::split_on(rest, c), seq![c]);
            assert(s =~= s.take(i) + seq![c] + rest);
        },
        None => {
            assert(text::split_on(s, c) =~= seq![s]);
        },
    }
}

/// The character that starts behind the bytes of the first `k` is number `k`.
pub proof fn bytes_lead_to_their_character(s: Seq<char>, k: int)
    requires
        0 <= k <= s.len(),
    ensures
        text::at_byte(s, text::byte_len(s.take(k))) == Some(k),
    decreases s.len(),
{
    if k > 0 {
        let t = s.skip(1);
        bytes_lead_to_their_character(t, k - 1);
        assert(s.take(k).skip(1) =~= t.take(k - 1));
        assert(s.take(k)[0] == s[0]);
    } else {
        assert(s.take(0) =~= Seq::empty());
    }
}

/// In UTF-8 a character takes one byte in ASCII, two up to U+07FF, three up to U+FFFF, and
/// else four.
pub proof fn characters_take_one_to_four_bytes(c: char)
    ensures
        c <= '\u{7f}' ==> text::byte_width(c) == 1,
        '\u{7f}' < c && c <= '\u{7ff}' ==> text::byte_width(c) == 2,
        '\u{7ff}' < c && c <= '\u{ffff}' ==> text::byte_width(c) == 3,
        '\u{ffff}' < c ==> text::byte_width(c) == 4,
{
}

// ── titles ───────────────────────────────────────────────────────────────────

/// A group in brackets goes from a title exactly where it holds a keyword; else it stays
/// as it is. What stands before it stays either way, and the rest is gone through in turn.
pub proof fn a_group_goes_with_its_keyword(
    a: Seq<char>,
    o: char,
    inner: Seq<char>,
    c: char,
    rest: Seq<char>,
    keywords: Seq<Seq<char>>,
)
    requires
        forall|i: int|
            0 <= i < a.len() ==> {
                let x = #[trigger] a[i];
                x != '(' && x != '[' && x != '【' && x != '「' && x != '『'
            },
        (o == '(' && c == ')') || (o == '[' && c == ']') || (o == '【' && c == '】') || (o == '「'
            && c == '」') || (o == '『' && c == '』'),
        !inner.contains(c),
    ensures
        ({
            let s = a + seq![o] + inner + seq![c] + rest;
            let noisy = exists|k: int|
                0 <= k < keywords.len() && title::holds(
                    title::lowercase(inner),
                    #[trigger] keywords[k],
                );
            &&& noisy ==> title::stripped(s, keywords) == a + title::stripped(rest, keywords)
            &&& !noisy ==> title::stripped(s, keywords) == a + seq![o] + inner + seq![c]
                + title::stripped(rest, keywords)
        }),
{
    let s = a + seq![o] + inner + seq![c] + rest;
    let n = a.len() as int;
    let m = n + 1 + inner.len();
    seqs::lemma_first_where(s, title::opens(), 0);
    assert(s[n] == o);
    assert(title::opens()(s[n]));
    let so = seqs::first_where(s, title::opens(), 0)->0;
    assert(title::opens()(s[so]));
    if so < n {
        assert(s[so] == a[so]);
    }
    assert(so == n);
    text::lemma_first_of(s, c, n);
    assert(s[m] == c);
    let sc = text::first_of(s, c, n)->0;
    if sc < m {
        if sc > n {
            assert(s[sc] == inner[sc - n - 1]);
            assert(inner.contains(c));
        }
    }
    assert(sc == m);
    assert(s.take(n) =~= a);
    assert(s.subrange(n + 1, m) =~= inner);
    assert(s.subrange(n, m + 1) =~= seq![o] + inner + seq![c]);
    assert(s.skip(m + 1) =~= rest);
    let noisy = exists|k: int|
        0 <= k < keywords.len() && title::holds(title::lowercase(inner), #[trigger] keywords[k]);
    if noisy {
        assert(title::stripped(s, keywords) =~= a + title::stripped(rest, keywords));
    } else {
        assert(title::stripped(s, keywords) =~= a + seq![o] + inner + seq![c] + title::stripped(
            rest,
            keywords,
        ));
    }
}

/// Whether `c` parts tokens.
pub open spec fn parts(c: char) -> bool {
    !title::alphanumeric(c) && c != '.' && c != '/'
}

proof fn lemma_run(s: Seq<char>, w: Seq<char>, rest: Seq<char>)
    requires
        s == w + rest,
        forall|i: int| 0 <= i < w.len() ==> !parts(#[trigger] w[i]),
        rest.len() == 0 || parts(rest[0]),
    ensures
        title::token_len(s) == w.len(),
    decreases w.len(),
{
    if w.len() > 0 {
        assert(s[0] == w[0]);
        assert(!parts(w[0]));
        assert(s.skip(1) =~= w.skip(1) + rest);
        assert forall|i: int| 0 <= i < w.skip(1).len() implies !parts(
            #[trigger] w.skip(1)[i],
        ) by {
            assert(!parts(w[i + 1]));
        }
        lemma_run(s.skip(1), w.skip(1), rest);
    } else {
        assert(s =~= rest);
    }
}

/// A token is what stands between two parting characters, or between one and an end of the
/// text: the token `w` of `x w y` follows those of `x`, and is followed by those of `y`.
pub proof fn tokens_stand_between_parting_characters(x: Seq<char>, w: Seq<char>, y: Seq<char>)
    requires
        w.len() > 0,
        forall|i: int| 0 <= i < w.len() ==> !parts(#[trigger] w[i]),
        x.len() == 0 || parts(x.last()),
        y.len() == 0 || parts(y[0]),
    ensures
        title::tokens_of(x + w + y) == title::tokens_of(x) + seq![w] + title::tokens_of(y),
        title::tokens_of(Seq::empty()).len() == 0,
    decreases x.len(),
{
    let s = x + w + y;
    assert(title::tokens_of(Seq::empty()) =~= Seq::empty());
    if x.len() == 0 {
        assert(s =~= w + y);
        lemma_run(s, w, y);
        assert(s.take(w.len() as int) =~= w);
        if y.len() > 0 {
            assert(s.skip(w.len() + 1int) =~= y.skip(1));
            lemma_run(y, Seq::empty(), y);
            assert(y =~= Seq::<char>::empty() + y);
        }
        assert(title::tokens_of(s) =~= title::tokens_of(x) + seq![w] + title::tokens_of(y));
    } else {
        lemma_token_run(x);
        let n = title::token_len(x) as int;
        assert(n < x.len()) by {
            if n == x.len() {
                assert(!parts(x[n - 1]));
            }
        }
        let head = x.take(n);
        assert(s =~= head + (x.skip(n) + w + y));
        lemma_run(s, head, x.skip(n) + w + y);
        let t = x.skip(n + 1);
        assert(s.skip(n + 1) =~= t + w + y);
        assert(t.len() > 0 ==> t.last() == x.last());
        tokens_stand_between_parting_characters(t, w, y);
        assert(s.take(n) =~= head);
        assert(title::tokens_of(s) =~= title::tokens_of(x) + seq![w] + title::tokens_of(y));
    }
}

proof fn lemma_token_run(s: Seq<char>)
    ensures
        title::token_len(s) <= s.len(),
        title::token_len(s) < s.len() ==> parts(s[title::token_len(s) as int]),
        forall|i: int| 0 <= i < title::token_len(s) ==> !parts(#[trigger] s[i]),
    decreases s.len(),
{
    if s.len() > 0 && !title::separates(s[0]) {
        lemma_token_run(s.skip(1));
        let n = title::token_len(s) as int;
        assert forall|i: int| 0 <= i < n implies !parts(#[trigger] s[i]) by {
            if i > 0 {
                assert(s.skip(1)[i - 1] == s[i]);
            }
        }
        if n < s.len() {
            assert(s.skip(1)[n - 1] == s[n]);
        }
    }
}

/// A keyword in ASCII is held where its words are tokens in a row, in that order; another
/// where it stands at all.
pub proof fn a_keyword_is_held_word_by_word(inner: Seq<char>, w: Seq<char>)
    ensures
        !title::is_ascii(w) ==> title::holds(inner, w) == (exists|i: int|
            0 <= i && #[trigger] text::occurs(inner, w, i)),
        title::is_ascii(w) && !w.contains(' ') ==> title::holds(inner, w)
            == title::tokens_of(inner).contains(w),
        title::is_ascii(w) ==> title::holds(inner, w) == (exists|i: int|
            0 <= i && i + text::split_on(w, ' ').len() <= title::tokens_of(inner).len()
                && #[trigger] title::tokens_of(inner).subrange(
                i,
                i + text::split_on(w, ' ').len(),
            ) == text::split_on(w, ' ')),
{
    text::lemma_find_from(inner, w, 0);
    if !w.contains(' ') {
        text::lemma_first_of(w, ' ', 0);
        if text::first_of(w, ' ', 0) is Some {
            assert(w.contains(' '));
        }
        assert(text::split_on(w, ' ') =~= seq![w]);
        let ts = title::tokens_of(inner);
        if ts.contains(w) {
            let i = choose|i: int| 0 <= i < ts.len() && ts[i] == w;
            assert(ts.subrange(i, i + 1) =~= seq![w]);
        }
        if title::in_a_row(ts, seq![w]) {
            let i = choose|i: int|
                0 <= i && i + 1 <= ts.len() && #[trigger] ts.subrange(i, i + 1) == seq![w];
            assert(ts[i] == ts.subrange(i, i + 1)[0]);
        }
    }
}

/// A marker at a word boundary is found where it first stands, one that starts with
/// something else than a letter or a digit anywhere, and one that does not occur nowhere.
pub proof fn a_marker_is_found_at_a_boundary(hay: Seq<char>, needle: Seq<char>)
    ensures
        text::find_from(hay, needle, 0) is None ==> title::bounded_find(hay, needle, 0) is None,
        text::find_from(hay, needle, 0) matches Some(i) ==> (needle.len() == 0
            || !title::ascii_word_char(needle[0]) || i == 0 || !title::ascii_word_char(hay[i - 1]))
            ==> title::bounded_find(hay, needle, 0) == Some(i),
        title::bounded_find(hay, needle, 0) matches Some(i) ==> text::occurs(hay, needle, i) && (
        needle.len() == 0 || !title::ascii_word_char(needle[0]) || i == 0
            || !title::ascii_word_char(hay[i - 1])),
{
    text::lemma_find_from(hay, needle, 0);
    lemma_bounded(hay, needle, 0);
}

proof fn lemma_bounded(hay: Seq<char>, needle: Seq<char>, from: int)
    requires
        0 <= from,
    ensures
        title::bounded_find(hay, needle, from) matches Some(i) ==> text::occurs(hay, needle, i) && (
        needle.len() == 0 || !title::ascii_word_char(needle[0]) || i == 0
            || !title::ascii_word_char(hay[i - 1])),
    decreases hay.len() - from,
{
    text::lemma_find_from(hay, needle, from);
    match text::find_from(hay, needle, from) {
        Some(at) => {
            if needle.len() > 0 && title::ascii_word_char(needle[0]) && at > 0
                && title::ascii_word_char(hay[at - 1]) {
                lemma_bounded(hay, needle, at + needle.len());
            }
        },
        None => {},
    }
}

/// An ASCII word is mentioned only where it starts at a word boundary, so that `cover` is not
/// mentioned by `discover`, and it is where it first stands so; another word is mentioned
/// wherever it stands.
pub proof fn a_word_is_mentioned_at_a_boundary(hay: Seq<char>, w: Seq<char>)
    ensures
        title::is_ascii(w) && w.len() > 0 && title::ascii_word_char(w[0]) && title::mentioned(
            hay,
            w,
        ) ==> exists|i: int|
            #[trigger] text::occurs(hay, w, i) && (i == 0 || !title::ascii_word_char(hay[i - 1])),
        title::is_ascii(w) ==> (text::find_from(hay, w, 0) matches Some(i) ==> (i == 0
            || !title::ascii_word_char(hay[i - 1])) ==> title::mentioned(hay, w)),
        !title::is_ascii(w) ==> title::mentioned(hay, w) == (exists|i: int|
            0 <= i && #[trigger] text::occurs(hay, w, i)),
{
    a_marker_is_found_at_a_boundary(hay, w);
    text::lemma_find_from(hay, w, 0);
    match title::bounded_find(hay, w, 0) {
        Some(i) => {
            assert(text::occurs(hay, w, i));
        },
        None => {},
    }
    match text::find_from(hay, w, 0) {
        Some(i) => {
            assert(text::occurs(hay, w, i));
        },
        None => {},
    }
}

/// Each of the words for a cover, and each phrase that introduces a rendition, makes a
/// title a cover where the title mentions it; without any it is none.
pub proof fn covers_say_so(t: Seq<char>)
    ensures
        title::is_cover(t) <==> ({
            let l = title::lowercase(t);
            ||| title::mentioned(l, "歌ってみた"@)
            ||| title::mentioned(l, "唄ってみた"@)
            ||| title::mentioned(l, "うたってみた"@)
            ||| title::mentioned(l, "カバー"@)
            ||| title::mentioned(l, "cover"@)
            ||| title::mentioned(l, "covered"@)
            ||| title::mentioned(l, "covered by"@)
            ||| title::mentioned(l, "cover by"@)
            ||| title::mentioned(l, "cover:"@)
            ||| title::mentioned(l, "covered:"@)
            ||| title::mentioned(l, "ver."@)
            ||| title::mentioned(l, "ver:"@)
        }),
{
    let l = title::lowercase(t);
    let a = title::cover_words();
    let b = title::rendition_credits();
    assert(a[0] == "歌ってみた"@ && a[1] == "唄ってみた"@ && a[2] == "うたってみた"@ && a[3]
        == "カバー"@ && a[4] == "cover"@ && a[5] == "covered"@);
    assert(b[0] == "covered by"@ && b[1] == "cover by"@ && b[2] == "cover:"@ && b[3]
        == "covered:"@ && b[4] == "ver."@ && b[5] == "ver:"@);
    if title::mentions_any(l, a) {
        let i = choose|i: int| 0 <= i < a.len() && title::mentioned(l, #[trigger] a[i]);
        assert(title::mentioned(l, a[i]));
    }
    if title::mentions_any(l, b) {
        let i = choose|i: int| 0 <= i < b.len() && title::mentioned(l, #[trigger] b[i]);
        assert(title::mentioned(l, b[i]));
    }
}

/// These words mark decoration, and these alone.
pub proof fn decoration_is_marked_by_these(w: Seq<char>)
    ensures
        title::noise_words().contains(w) <==> (w == "official"@ || w == "video"@ || w == "audio"@
            || w == "mv"@ || w == "m/v"@ || w == "lyric"@ || w == "lyrics"@ || w == "visualizer"@
            || w == "visualiser"@ || w == "remaster"@ || w == "remastered"@ || w == "hd"@ || w
            == "hq"@ || w == "4k"@ || w == "full version"@ || w == "explicit"@ || w == "clean"@
            || w == "feat"@ || w == "feat."@ || w == "ft"@ || w == "ft."@ || w == "featuring"@),
{
    let s = title::noise_words();
    assert(s[0] == "official"@ && s[1] == "video"@ && s[2] == "audio"@ && s[3] == "mv"@ && s[4]
        == "m/v"@ && s[5] == "lyric"@ && s[6] == "lyrics"@ && s[7] == "visualizer"@ && s[8]
        == "visualiser"@ && s[9] == "remaster"@ && s[10] == "remastered"@);
    assert(s[11] == "hd"@ && s[12] == "hq"@ && s[13] == "4k"@ && s[14] == "full version"@ && s[15]
        == "explicit"@ && s[16] == "clean"@ && s[17] == "feat"@ && s[18] == "feat."@ && s[19]
        == "ft"@ && s[20] == "ft."@ && s[21] == "featuring"@);
    if s.contains(w) {
        let i = choose|i: int| 0 <= i < s.len() && s[i] == w;
        assert(s[i] == w);
    }
}

/// A credit starts at one of these phrases at a word boundary, the first of those that
/// occur; a bare `by` is one only on a cover.
pub proof fn credits_start_at_these(t: Seq<char>, w: Seq<char>)
    ensures
        title::credits(t).contains(w) == (w == "covered by"@ || w == "cover by"@ || w == "cover:"@
            || w == "covered:"@ || w == "ver."@ || w == "ver:"@ || w == "feat."@ || w == "feat "@
            || w == "ft."@ || w == "featuring "@ || (w == " by "@ && title::is_cover(t))),
{
    let a = title::rendition_credits();
    let b = title::guest_credits();
    let c = title::credits(t);
    assert(a[0] == "covered by"@ && a[1] == "cover by"@ && a[2] == "cover:"@ && a[3]
        == "covered:"@ && a[4] == "ver."@ && a[5] == "ver:"@ && a.len() == 6);
    assert(b[0] == "feat."@ && b[1] == "feat "@ && b[2] == "ft."@ && b[3] == "featuring "@
        && b.len() == 4);
    assert forall|i: int| 0 <= i < 6 implies c[i] == a[i] by {}
    assert forall|i: int| 6 <= i < 10 implies c[i] == b[i - 6] by {}
    assert(c[0] == a[0] && c[1] == a[1] && c[2] == a[2] && c[3] == a[3] && c[4] == a[4] && c[5]
        == a[5]);
    assert(c[6] == b[0] && c[7] == b[1] && c[8] == b[2] && c[9] == b[3]);
    if title::is_cover(t) {
        assert(c.len() == 11 && c[10] == " by "@);
    }
    if c.contains(w) {
        let i = choose|i: int| 0 <= i < c.len() && c[i] == w;
        assert(c[i] == w);
    }
}

/// Of several phrases the first that stands at a word boundary is found: none of them does
/// before it, and where none does none is found.
pub proof fn the_first_phrase_is_found(hay: Seq<char>, phrases: Seq<Seq<char>>, k: int)
    requires
        0 <= k < phrases.len(),
    ensures
        match title::first_marker(hay, phrases) {
            Some(i) => {
                &&& exists|j: int|
                    0 <= j < phrases.len() && title::bounded_find(hay, #[trigger] phrases[j], 0)
                        == Some(i)
                &&& (title::bounded_find(hay, phrases[k], 0) matches Some(x) ==> i <= x)
            },
            None => title::bounded_find(hay, phrases[k], 0) is None,
        },
    decreases phrases.len(),
{
    let front = phrases.drop_last();
    let n = phrases.len() - 1;
    if front.len() == 0 {
        assert(title::bounded_find(hay, phrases[0], 0) == title::first_marker(hay, phrases));
    } else {
        the_first_phrase_is_found(hay, front, if k < n {
            k
        } else {
            0
        });
        assert(front[if k < n {
            k
        } else {
            0
        }] == phrases[if k < n {
            k
        } else {
            0
        }]);
        match title::first_marker(hay, phrases) {
            Some(i) => {
                if title::first_marker(hay, front) == Some(i) {
                    let j = choose|j: int|
                        0 <= j < front.len() && title::bounded_find(hay, #[trigger] front[j], 0)
                            == Some(i);
                    assert(phrases[j] == front[j]);
                    assert(title::bounded_find(hay, phrases[j], 0) == Some(i));
                } else {
                    assert(title::bounded_find(hay, phrases[n], 0) == Some(i));
                }
            },
            None => {},
        }
    }
}

/// A text is cut before its credit, without what dangles there: where the lower case is as
/// long as the text up to that place. Without a credit it stays.
pub proof fn a_text_is_cut_before_its_credit(a: Seq<char>, b: Seq<char>, phrases: Seq<Seq<char>>)
    ensures
        title::first_marker(title::lowercase(a + b), phrases) matches Some(i) ==> text::byte_len(
            title::lowercase(a + b).take(i),
        ) == text::byte_len(a) ==> title::uncredited(a + b, phrases) == title::undangled(a),
        title::first_marker(title::lowercase(a), phrases) is None ==> title::uncredited(a, phrases)
            == a,
{
    bytes_lead_to_their_character(a + b, a.len() as int);
    assert((a + b).take(a.len() as int) =~= a);
}

/// The song's name goes without a group that marks a cover, before any credit and up to the
/// first separator, trimmed; a clean title keeps such a group unless it is decoration.
pub proof fn a_cover_mark_is_not_in_the_name(
    t: Seq<char>,
    a: Seq<char>,
    inner: Seq<char>,
    rest: Seq<char>,
)
    requires
        text::collapsed(t) == a + seq!['('] + inner + seq![')'] + rest,
        !inner.contains(')'),
        forall|i: int|
            0 <= i < a.len() ==> {
                let x = #[trigger] a[i];
                x != '(' && x != '[' && x != '【' && x != '「' && x != '『'
            },
        forall|i: int|
            0 <= i < rest.len() ==> {
                let x = #[trigger] rest[i];
                x != '(' && x != '[' && x != '【' && x != '「' && x != '『'
            },
    ensures
        ({
            let l = title::lowercase(inner);
            &&& title::holds(l, "cover"@) || title::holds(l, "歌ってみた"@) || title::holds(
                l,
                "official"@,
            ) ==> title::song_name(t) == text::trimmed(
                title::first_field(
                    title::uncredited(text::collapsed(a + rest), title::credits(t)),
                ),
            )
            &&& title::holds(l, "official"@) ==> title::clean_title(t) == text::collapsed(a + rest)
            &&& !title::holds_keyword(l, title::noise_words()) ==> title::clean_title(t)
                == text::collapsed(t)
        }),
{
    let l = title::lowercase(inner);
    let noise = title::noise_words();
    let all = noise + title::cover_words();
    let s = a + seq!['('] + inner + seq![')'] + rest;
    a_group_goes_with_its_keyword(a, '(', inner, ')', rest, noise);
    a_group_goes_with_its_keyword(a, '(', inner, ')', rest, all);
    lemma_no_group(rest, noise);
    lemma_no_group(rest, all);
    assert(noise[0] == "official"@);
    assert(all[0] == "official"@);
    assert(all[22] == "歌ってみた"@);
    assert(all[26] == "cover"@);
    spacing::lemma_collapsed(t);
    spacing::lemma_collapsed_tidy(s);
}

proof fn lemma_no_group(s: Seq<char>, keywords: Seq<Seq<char>>)
    requires
        forall|i: int|
            0 <= i < s.len() ==> {
                let x = #[trigger] s[i];
                x != '(' && x != '[' && x != '【' && x != '「' && x != '『'
            },
    ensures
        title::stripped(s, keywords) == s,
{
    seqs::lemma_first_where(s, title::opens(), 0);
    match seqs::first_where(s, title::opens(), 0) {
        Some(i) => {
            assert(title::opens()(s[i]));
        },
        None => {},
    }
}

/// What dangles before a credit is taken off, all of it and nothing else.
pub proof fn what_dangles_goes(s: Seq<char>)
    ensures
        ({
            let r = title::undangled(s);
            &&& r.is_prefix_of(s)
            &&& forall|i: int|
                r.len() <= i < s.len() ==> {
                    let c = #[trigger] s[i];
                    c == ' ' || c == '/' || c == '／' || c == '-' || c == '–' || c == '—' || c
                        == '・'
                }
            &&& r.len() > 0 ==> {
                let c = r.last();
                c != ' ' && c != '/' && c != '／' && c != '-' && c != '–' && c != '—' && c
                    != '・'
            }
        }),
    decreases s.len(),
{
    if s.len() > 0 && title::dangles(s.last()) {
        let t = s.drop_last();
        what_dangles_goes(t);
        let r = title::undangled(s);
        assert(r =~= s.take(r.len() as int));
        assert forall|i: int| r.len() <= i < s.len() implies title::dangles(#[trigger] s[i]) by {
            if i < t.len() {
                assert(t[i] == s[i]);
            }
        }
    } else {
        assert(s =~= s.take(s.len() as int));
    }
}

/// A title's first field ends where the first separator stands.
pub proof fn a_field_ends_at_its_separator(s: Seq<char>, k: int, j: int)
    requires
        0 <= k < 6,
        0 <= j,
    ensures
        ({
            let w = seq![" - "@, " – "@, " — "@, " / "@, "／"@, " ・ "@][k];
            text::occurs(s, w, j) ==> title::first_field(s).len() <= j
        }),
        title::first_field(s).is_prefix_of(s),
{
    let all = title::field_separators();
    title::lemma_first_any(s, all);
    assert(all[k] == seq![" - "@, " – "@, " — "@, " / "@, "／"@, " ・ "@][k]);
    if text::occurs(s, all[k], j) {
        assert(text::occurs(s, all[k], j));
    }
    let r = title::first_field(s);
    assert(r =~= s.take(r.len() as int));
}

/// The suffix of automatic channels is taken off an artist's name, in either spelling, and
/// no other is.
pub proof fn an_automatic_channel_is_its_artist(name: Seq<char>)
    ensures
        title::without_topic(name + " - Topic"@) == name,
        title::without_topic(name).len() == name.len() ==> title::without_topic(name) == name,
        title::without_topic(name).len() != name.len() ==> name == title::without_topic(name)
            + " - Topic"@ || name == title::without_topic(name) + " - topic"@,
{
    reveal_strlit(" - Topic");
    reveal_strlit(" - topic");
    let a = name + " - Topic"@;
    assert(a.skip(name.len() as int) =~= " - Topic"@);
    assert(a.take(name.len() as int) =~= name);
    assert(a.len() - " - Topic"@.len() == name.len());
    let n = name.len() - 8;
    if n >= 0 {
        assert(name =~= name.take(n) + name.skip(n));
    }
}

/// Of several artists the first is taken: what stands before the first comma or semicolon,
/// without white space around it.
pub proof fn the_first_artist_is_taken(a: Seq<char>, c: char, b: Seq<char>)
    requires
        !a.contains(','),
        !a.contains(';'),
        c == ',' || c == ';',
        title::without_topic(a + seq![c] + b) == a + seq![c] + b,
    ensures
        title::first_artist(a + seq![c] + b) == text::trimmed(a),
{
    let s = a + seq![c] + b;
    let n = a.len() as int;
    seqs::lemma_first_where(s, title::lists(), 0);
    assert(s[n] == c);
    assert(title::lists()(s[n]));
    let i = seqs::first_where(s, title::lists(), 0)->0;
    assert(title::lists()(s[i]));
    if i < n {
        assert(s[i] == a[i]);
        assert(a.contains(s[i]));
    }
    assert(i == n);
    assert(s.take(n) =~= a);
}

} // verus!
