//! Text in terminal cells: how wide it is, how it is cut, and how it wraps.
//!
//! A cell is one column of the terminal. East Asian characters and emoji take two,
//! so lists are measured in cells; the panels of fixed-width text count characters.

use crate::text;
use vstd::prelude::*;

verus! {

/// The columns that `UnicodeWidthStr::width` of the crate `unicode-width` counts.
pub uninterp spec fn str_width(s: Seq<char>) -> usize;

/// `UnicodeWidthStr::width` of the crate `unicode-width`: the columns a text takes,
/// a function of its characters alone. How the columns come from the characters is
/// left to the crate.
#[verifier::external_body]
fn columns(text: &str) -> (r: usize)
    ensures
        r == str_width(text@),
{
    unicode_width::UnicodeWidthStr::width(text)
}

/// The columns that `UnicodeWidthChar::width` of the crate `unicode-width` counts.
pub uninterp spec fn char_width(c: char) -> Option<usize>;

/// `UnicodeWidthChar::width` of the crate `unicode-width`: the columns one character
/// takes, and nothing for a control character. Which width a character has is left
/// to the crate.
#[verifier::external_body]
fn char_columns(c: char) -> (r: Option<usize>)
    ensures
        r == char_width(c),
{
    unicode_width::UnicodeWidthChar::width(c)
}

/// The text that `str::to_uppercase` gives.
pub uninterp spec fn uppercase(s: Seq<char>) -> Seq<char>;

/// `str::to_uppercase` of the standard library: a function of the text alone, by
/// Unicode's tables.
#[verifier::external_body]
pub(crate) fn to_upper(s: &str) -> (r: String)
    ensures
        r@ == uppercase(s@),
{
    s.to_uppercase()
}

/// The columns of a text.
pub fn width_of(text: &str) -> (r: usize)
    ensures
        r == str_width(text@),
{
    columns(text)
}

/// The columns of a character; control characters have none.
pub open spec fn cells(c: char) -> nat {
    match char_width(c) {
        Some(w) => w as nat,
        None => 0,
    }
}

/// The columns of a text, character by character.
pub open spec fn cells_of(s: Seq<char>) -> nat
    decreases s.len(),
{
    if s.len() == 0 {
        0
    } else {
        cells(s[0]) + cells_of(s.skip(1))
    }
}

/// How many characters of `s`, from its start, fit in `budget` columns.
pub open spec fn fitting(s: Seq<char>, budget: nat) -> nat
    decreases s.len(),
{
    if s.len() == 0 || cells(s[0]) > budget {
        0
    } else {
        1 + fitting(s.skip(1), (budget - cells(s[0])) as nat)
    }
}

/// `s` in at most `max` columns, with an ellipsis where it had to be cut.
pub open spec fn cut(s: Seq<char>, max: nat) -> Seq<char> {
    if max == 0 {
        Seq::empty()
    } else if str_width(s) <= max {
        s
    } else {
        s.take(fitting(s, (max - 1) as nat) as int).push('…')
    }
}

proof fn lemma_fitting(s: Seq<char>, budget: nat)
    ensures
        fitting(s, budget) <= s.len(),
        cells_of(s.take(fitting(s, budget) as int)) <= budget,
    decreases s.len(),
{
    if s.len() == 0 || cells(s[0]) > budget {
        assert(s.take(0).len() == 0);
    } else {
        let rest = s.skip(1);
        let left = (budget - cells(s[0])) as nat;
        lemma_fitting(rest, left);
        let k = fitting(rest, left);
        let taken = s.take((k + 1) as int);
        assert(taken.skip(1) =~= rest.take(k as int));
        assert(taken[0] == s[0]);
    }
}

/// A line that fits stays. What is kept of one that is cut takes at most one column
/// less than there is room for: that one is the ellipsis's.
pub proof fn a_cut_line_leaves_room_for_its_ellipsis(s: Seq<char>, max: nat)
    requires
        max > 0,
    ensures
        str_width(s) <= max ==> cut(s, max) == s,
        str_width(s) > max ==> {
            let kept = cut(s, max).drop_last();
            &&& cut(s, max) == kept.push('…')
            &&& kept.is_prefix_of(s)
            &&& cells_of(kept) <= max - 1
        },
{
    lemma_fitting(s, (max - 1) as nat);
    let k = fitting(s, (max - 1) as nat) as int;
    if str_width(s) > max {
        assert(cut(s, max).drop_last() =~= s.take(k));
        assert(s.take(k).is_prefix_of(s));
    }
}

/// Cuts `text` to `max` columns, with an ellipsis where something went.
pub fn truncate_line(text: &str, max: usize) -> (r: String)
    ensures
        r@ == cut(text@, max as nat),
{
    if max == 0 {
        return String::new();
    }
    if width_of(text) <= max {
        return text.to_owned();
    }
    let cs = text::chars_of(text);
    let mut left: usize = max - 1;
    let mut out = String::new();
    let mut i: usize = 0;
    let ghost s = text@;
    assert(s.skip(0) =~= s);
    while i < cs.len()
        invariant
            i <= cs@.len(),
            cs@ == s,
            out@ == s.take(i as int),
            fitting(s, (max - 1) as nat) == i + fitting(s.skip(i as int), left as nat),
            max > 0,
        ensures
            out@ == s.take(fitting(s, (max - 1) as nat) as int),
        decreases cs@.len() - i,
    {
        let w: usize = match char_columns(cs[i]) {
            Some(w) => w,
            None => 0,
        };
        assert(s.skip(i as int)[0] == s[i as int]);
        assert(w == cells(s[i as int]));
        if w > left {
            break;
        }
        assert(s.skip(i as int).skip(1) =~= s.skip(i + 1));
        out.push(cs[i]);
        left = left - w;
        i += 1;
    }
    out.push('…');
    out
}

/// `s` cut to `max` characters, with an ellipsis where something went.
pub open spec fn clipped(s: Seq<char>, max: nat) -> Seq<char> {
    if max == 0 {
        Seq::empty()
    } else if s.len() <= max {
        s
    } else {
        s.take(max - 1).push('…')
    }
}

/// Cuts `text` to `max` characters.
pub fn clip(text: &str, max: usize) -> (r: String)
    ensures
        r@ == clipped(text@, max as nat),
        r@.len() <= max,
{
    if max == 0 {
        return String::new();
    }
    let cs = text::chars_of(text);
    if cs.len() <= max {
        return text.to_owned();
    }
    let mut out = text::string_of(vstd::slice::slice_subrange(cs.as_slice(), 0, max - 1));
    out.push('…');
    out
}

/// One row of a wrapped text.
pub struct RowView {
    pub text: Seq<char>,
    /// Whether its line goes on in the next row.
    pub goes_on: bool,
}

/// A line in rows of `w` characters; an empty line is one empty row.
pub open spec fn rows_of_line(s: Seq<char>, w: nat) -> Seq<RowView>
    decreases s.len(),
{
    if w == 0 || s.len() <= w {
        seq![RowView { text: s, goes_on: false }]
    } else {
        seq![RowView { text: s.take(w as int), goes_on: true }] + rows_of_line(s.skip(w as int), w)
    }
}

/// The rows of several lines, one after another.
pub open spec fn rows_of_lines(lines: Seq<Seq<char>>, w: nat) -> Seq<RowView>
    decreases lines.len(),
{
    if lines.len() == 0 {
        Seq::empty()
    } else {
        rows_of_lines(lines.drop_last(), w) + rows_of_line(lines.last(), w)
    }
}

/// The text of a row that may be the last one there is room for: where its line
/// goes on, an ellipsis takes the place of its last character.
pub open spec fn last_row(r: RowView) -> Seq<char> {
    if r.goes_on {
        r.text.drop_last().push('…')
    } else {
        r.text
    }
}

/// At most `max` rows of those given.
pub open spec fn shown_rows(rows: Seq<RowView>, max: nat) -> Seq<Seq<char>> {
    Seq::new(
        if rows.len() < max {
            rows.len()
        } else {
            max
        },
        |i: int|
            if i + 1 == max {
                last_row(rows[i])
            } else {
                rows[i].text
            },
    )
}

/// `s` in rows of `w` characters, at most `max` of them.
pub open spec fn wrapped(s: Seq<char>, w: nat, max: nat) -> Seq<Seq<char>> {
    if w == 0 || max == 0 {
        seq![s]
    } else {
        let rows = shown_rows(rows_of_lines(text::lines_of(s), w), max);
        if rows.len() == 0 {
            seq![Seq::empty()]
        } else {
            rows
        }
    }
}

/// The rows of a line hold it whole, in order.
pub proof fn rows_hold_their_line(s: Seq<char>, w: nat)
    ensures
        rows_of_line(s, w).map_values(|r: RowView| r.text).flatten() == s,
    decreases s.len(),
{
    let texts = rows_of_line(s, w).map_values(|r: RowView| r.text);
    if w == 0 || s.len() <= w {
        assert(texts =~= seq![s]);
        assert(texts.drop_first().len() == 0);
        assert(texts.drop_first().flatten() =~= Seq::<char>::empty());
        assert(texts.flatten() =~= s);
    } else {
        let rest = rows_of_line(s.skip(w as int), w).map_values(|r: RowView| r.text);
        rows_hold_their_line(s.skip(w as int), w);
        assert(texts.drop_first() =~= rest);
        assert(texts.first() == s.take(w as int));
        assert(s.take(w as int) + s.skip(w as int) =~= s);
    }
}

/// No row is wider than the panel.
pub proof fn rows_fit(s: Seq<char>, w: nat, i: int)
    requires
        w > 0,
        0 <= i < rows_of_line(s, w).len(),
    ensures
        rows_of_line(s, w)[i].text.len() <= w,
        rows_of_line(s, w)[i].goes_on ==> rows_of_line(s, w)[i].text.len() == w,
    decreases s.len(),
{
    if s.len() > w && i > 0 {
        rows_fit(s.skip(w as int), w, i - 1);
    }
}

proof fn lemma_rows_prefix(lines: Seq<Seq<char>>, k: int, w: nat)
    requires
        0 <= k <= lines.len(),
    ensures
        rows_of_lines(lines.take(k), w).is_prefix_of(rows_of_lines(lines, w)),
    decreases lines.len() - k,
{
    if k == lines.len() {
        assert(lines.take(k) =~= lines);
    } else {
        lemma_rows_prefix(lines, k + 1, w);
        let a = rows_of_lines(lines.take(k), w);
        let b = rows_of_lines(lines.take(k + 1), w);
        let c = rows_of_lines(lines, w);
        assert(lines.take(k + 1).drop_last() =~= lines.take(k));
        assert(a.is_prefix_of(b));
        assert(c.take(a.len() as int) =~= b.take(a.len() as int));
    }
}

/// Wraps `text` into rows of `width` characters, at most `max_lines` of them, with
/// an ellipsis where a line did not fit.
pub fn wrap_n_lines(text: &str, width: usize, max_lines: usize) -> (r: Vec<String>)
    ensures
        text::texts(r@) == wrapped(text@, width as nat, max_lines as nat),
{
    let mut out: Vec<String> = Vec::new();
    if width == 0 || max_lines == 0 {
        out.push(text.to_owned());
        assert(text::texts(out@) =~= seq![text@]);
        return out;
    }
    let cs = text::chars_of(text);
    let lines = text::lines(cs.as_slice());
    let ghost ls = text::lines_of(text@);
    let ghost w = width as nat;
    let ghost max = max_lines as nat;
    let ghost all = rows_of_lines(ls, w);
    assert(text::rows(lines@) == ls);
    let mut i: usize = 0;
    assert(rows_of_lines(ls.take(0), w) =~= Seq::<RowView>::empty());
    assert(text::texts(out@) =~= shown_rows(rows_of_lines(ls.take(0), w), max));
    while i < lines.len()
        invariant
            i <= lines@.len(),
            width == w,
            max_lines == max,
            w > 0,
            max > 0,
            text::rows(lines@) == ls,
            all == rows_of_lines(ls, w),
            out@.len() < max,
            out@.len() == rows_of_lines(ls.take(i as int), w).len(),
            text::texts(out@) == shown_rows(rows_of_lines(ls.take(i as int), w), max),
            ls == text::lines_of(text@),
        decreases lines@.len() - i,
    {
        let line = lines[i].as_slice();
        let ghost s = ls[i as int];
        let ghost before = rows_of_lines(ls.take(i as int), w);
        let ghost after = rows_of_lines(ls.take(i + 1), w);
        proof {
            assert(text::rows(lines@)[i as int] == lines@[i as int]@);
            assert(ls.take(i + 1).drop_last() =~= ls.take(i as int));
            assert(ls.take(i + 1).last() == s);
            assert(after == before + rows_of_line(s, w));
            lemma_rows_prefix(ls, i + 1, w);
        }
        let mut start: usize = 0;
        let mut more = true;
        assert(s.skip(0) =~= s);
        assert(after.take(out@.len() as int) =~= before);
        while more
            invariant
                start <= line@.len(),
                line@ == s,
                width == w,
                max_lines == max,
                w > 0,
                max > 0,
                after == before + rows_of_line(s, w),
                after.is_prefix_of(all),
                all == rows_of_lines(text::lines_of(text@), w),
                more ==> out@.len() < max,
                more ==> after == after.take(out@.len() as int) + rows_of_line(
                    s.skip(start as int),
                    w,
                ),
                more ==> out@.len() < after.len(),
                !more ==> out@.len() == after.len() && out@.len() < max,
                text::texts(out@) == shown_rows(after.take(out@.len() as int), max),
            decreases more as int, line@.len() - start,
        {
            let ghost k = out@.len() as int;
            let ghost tail = rows_of_line(s.skip(start as int), w);
            assert(after[k] == tail[0]);
            let ghost shown = text::texts(out@);
            if line.len() - start > width {
                assert(tail[0] == (RowView { text: s.skip(start as int).take(w as int), goes_on: true }));
                if max_lines - 1 <= out.len() {
                    let end: usize = start + (width - 1);
                    let mut row = text::string_of(vstd::slice::slice_subrange(line, start, end));
                    row.push('…');
                    out.push(row);
                    proof {
                        assert(s.subrange(start as int, end as int) =~= s.skip(start as int).take(
                            w as int,
                        ).drop_last());
                        assert(text::texts(out@) =~= shown.push(row@));
                        assert(shown_rows(all, max) =~= shown.push(row@)) by {
                            assert(k + 1 == max);
                            assert(forall|j: int| 0 <= j < k ==> shown[j] == after[j].text);
                        }
                    }
                    return out;
                }
                let end: usize = start + width;
                let row = text::string_of(vstd::slice::slice_subrange(line, start, end));
                out.push(row);
                proof {
                    assert(s.subrange(start as int, end as int) =~= s.skip(start as int).take(w as int));
                    assert(s.skip(start as int).skip(w as int) =~= s.skip(end as int));
                    assert(text::texts(out@) =~= shown.push(row@));
                    assert(after.take(k + 1) =~= after.take(k).push(tail[0]));
                    assert(after =~= after.take(k + 1) + rows_of_line(s.skip(end as int), w));
                    assert(rows_of_line(s.skip(end as int), w).len() > 0);
                    assert(text::texts(out@) =~= shown_rows(after.take(k + 1), max));
                }
                start = end;
            } else {
                let row = text::string_of(vstd::slice::slice_subrange(line, start, line.len()));
                out.push(row);
                proof {
                    assert(s.subrange(start as int, s.len() as int) =~= s.skip(start as int));
                    assert(text::texts(out@) =~= shown.push(row@));
                    assert(tail =~= seq![RowView { text: s.skip(start as int), goes_on: false }]);
                    assert(after.len() == k + 1);
                    assert(after.take(k + 1) =~= after);
                    assert(text::texts(out@) =~= shown_rows(after, max));
                }
                if out.len() >= max_lines {
                    proof {
                        assert(shown_rows(all, max) =~= shown_rows(after, max));
                    }
                    return out;
                }
                more = false;
            }
        }
        assert(after.take(out@.len() as int) =~= after);
        i += 1;
    }
    assert(ls.take(i as int) =~= ls);
    if out.len() == 0 {
        out.push(String::new());
        assert(text::texts(out@) =~= seq![Seq::empty()]);
    }
    out
}

proof fn lemma_row_count(s: Seq<char>, w: nat)
    requires
        w > 0,
    ensures
        rows_of_line(s, w).len() == if s.len() == 0 {
            1
        } else {
            (s.len() - 1) / (w as int) + 1
        },
    decreases s.len(),
{
    let n = s.len() as int;
    let d = w as int;
    if n > d {
        lemma_row_count(s.skip(d), w);
        vstd::arithmetic::div_mod::lemma_div_plus_one(n - 1 - d, d);
        assert((d + (n - 1 - d)) / d == (n - 1) / d);
    } else if n > 0 {
        vstd::arithmetic::div_mod::lemma_basic_div(n - 1, d);
    }
}

/// How many rows of `w` characters `s` takes, and one for no text at all.
pub open spec fn row_count(s: Seq<char>, w: nat) -> nat {
    if w == 0 || text::lines_of(s).len() == 0 {
        1
    } else {
        rows_of_lines(text::lines_of(s), w).len()
    }
}

/// The rows of one line of `n` characters.
fn line_rows(n: usize, width: u16) -> (r: usize)
    requires
        width > 0,
    ensures
        r == if n == 0 {
            1
        } else {
            (n - 1) / (width as int) + 1
        },
{
    if n == 0 {
        1
    } else if width == 1 {
        assert((n - 1) / 1 + 1 == n);
        n
    } else {
        (n - 1) / width as usize + 1
    }
}

proof fn lemma_wrapped_sum(a: nat, b: nat, m: nat)
    requires
        m > 0,
    ensures
        (a + b) % m == (a % m + b % m) % m,
{
    vstd::arithmetic::div_mod::lemma_add_mod_noop(a as int, b as int, m as int);
}

/// The rows that `text` takes in a panel of `width` columns, as far as sixteen bits
/// hold them.
#[verifier::spinoff_prover]
pub fn text_rows(text: &str, width: u16) -> (r: u16)
    ensures
        r == row_count(text@, width as nat) % 0x1_0000,
{
    if width == 0 {
        return 1;
    }
    let cs = text::chars_of(text);
    let lines = text::lines(cs.as_slice());
    let ghost ls = text::lines_of(text@);
    let ghost w = width as nat;
    if lines.len() == 0 {
        assert(text::rows(lines@).len() == 0);
        return 1;
    }
    let mut total: u32 = 0;
    let mut i: usize = 0;
    assert(rows_of_lines(ls.take(0), w).len() == 0);
    while i < lines.len()
        invariant
            i <= lines@.len(),
            text::rows(lines@) == ls,
            total < 0x1_0000,
            total == rows_of_lines(ls.take(i as int), w).len() % 0x1_0000,
            w == width,
            w > 0,
        decreases lines@.len() - i,
    {
        let rows: usize = line_rows(lines[i].len(), width);
        proof {
            let s = ls[i as int];
            assert(s == text::rows(lines@)[i as int]);
            lemma_row_count(s, w);
            assert(rows == rows_of_line(s, w).len());
            assert(ls.take(i + 1).drop_last() =~= ls.take(i as int));
            assert(ls.take(i + 1).last() == s);
            let before = rows_of_lines(ls.take(i as int), w).len();
            assert(rows_of_lines(ls.take(i + 1), w).len() == before + rows);
            lemma_wrapped_sum(before, rows as nat, 0x1_0000);
        }
        total = (total + (rows % 0x1_0000) as u32) % 0x1_0000;
        i += 1;
    }
    assert(ls.take(i as int) =~= ls);
    total as u16
}

/// Two digits.
pub open spec fn two_digits(n: nat) -> Seq<char> {
    if n < 10 {
        seq!['0', text::digit(n)]
    } else {
        text::decimal(n)
    }
}

fn show_two(n: u64) -> (r: String)
    ensures
        r@ == two_digits(n as nat),
{
    let mut out = String::new();
    if n < 10 {
        out.push('0');
        out.append(text::show(n).as_str());
        assert(out@ =~= seq!['0', text::digit(n as nat)]);
    } else {
        out.append(text::show(n).as_str());
        assert(out@ =~= text::decimal(n as nat));
    }
    out
}

/// `m:ss`, and from an hour on `h:mm:ss`.
pub open spec fn duration(secs: nat) -> Seq<char> {
    let (h, m, s) = (secs / 3600, (secs % 3600) / 60, secs % 60);
    if h > 0 {
        text::decimal(h) + seq![':'] + two_digits(m) + seq![':'] + two_digits(s)
    } else {
        text::decimal(m) + seq![':'] + two_digits(s)
    }
}

/// A length in seconds, as `m:ss` or `h:mm:ss`.
pub fn fmt_duration(secs: u64) -> (r: String)
    ensures
        r@ == duration(secs as nat),
{
    let h: u64 = secs / 3600;
    let m: u64 = (secs % 3600) / 60;
    let s: u64 = secs % 60;
    let mut out = String::new();
    if h > 0 {
        out.append(text::show(h).as_str());
        out.push(':');
        out.append(show_two(m).as_str());
    } else {
        out.append(text::show(m).as_str());
    }
    out.push(':');
    out.append(show_two(s).as_str());
    assert(out@ =~= duration(secs as nat));
    out
}

/// Whole seconds of a time in nanoseconds; a time before zero counts as zero.
pub open spec fn seconds_of(t: int) -> nat {
    if t < 0 {
        0
    } else {
        (t / 1_000_000_000) as nat
    }
}

fn whole_seconds(t: i64) -> (r: u64)
    ensures
        r == seconds_of(t as int),
{
    if t < 0 {
        0
    } else {
        t as u64 / 1_000_000_000
    }
}

/// A time in nanoseconds, as `m:ss` or `h:mm:ss`.
pub fn fmt_secs(t: i64) -> (r: String)
    ensures
        r@ == duration(seconds_of(t as int)),
{
    fmt_duration(whole_seconds(t))
}

/// `m:ss`, with as many minutes as there are.
pub open spec fn minutes(secs: nat) -> Seq<char> {
    text::decimal(secs / 60) + seq![':'] + two_digits(secs % 60)
}

/// A length in seconds, in minutes and seconds.
pub fn fmt_minutes(secs: u64) -> (r: String)
    ensures
        r@ == minutes(secs as nat),
{
    let mut out = text::show(secs / 60);
    out.push(':');
    out.append(show_two(secs % 60).as_str());
    assert(out@ =~= minutes(secs as nat));
    out
}

/// A time in nanoseconds, in minutes and seconds.
pub fn fmt_clock(t: i64) -> (r: String)
    ensures
        r@ == minutes(seconds_of(t as int)),
{
    fmt_minutes(whole_seconds(t))
}

/// Under an hour the two forms are the same.
pub proof fn both_forms_agree_under_an_hour(secs: nat)
    requires
        secs < 3600,
    ensures
        duration(secs) == minutes(secs),
{
}

/// The length of a playlist in hours and minutes.
pub open spec fn hours(secs: nat) -> Seq<char> {
    let (h, m) = (secs / 3600, (secs % 3600) / 60);
    if h > 0 {
        text::decimal(h) + "h "@ + text::decimal(m) + "min"@
    } else {
        text::decimal(m) + "min"@
    }
}

/// A length in seconds, in hours and minutes.
pub fn fmt_hours(secs: u64) -> (r: String)
    ensures
        r@ == hours(secs as nat),
{
    let h: u64 = secs / 3600;
    let m: u64 = (secs % 3600) / 60;
    let mut out = String::new();
    if h > 0 {
        out.append(text::show(h).as_str());
        out.append("h ");
    }
    out.append(text::show(m).as_str());
    out.append("min");
    assert(out@ =~= hours(secs as nat));
    out
}

/// `c` over and over, `n` times.
pub open spec fn repeated(c: char, n: nat) -> Seq<char> {
    Seq::new(n, |i: int| c)
}

/// Writes `c` over and over, `n` times.
pub fn repeat(c: char, n: usize) -> (r: String)
    ensures
        r@ == repeated(c, n as nat),
{
    let mut out = String::new();
    let mut i: usize = 0;
    while i < n
        invariant
            i <= n,
            out@ == repeated(c, i as nat),
        decreases n - i,
    {
        out.push(c);
        assert(out@ =~= repeated(c, (i + 1) as nat));
        i += 1;
    }
    out
}

/// `s` to the right in a column of `w` characters.
pub open spec fn right_aligned(s: Seq<char>, w: nat) -> Seq<char> {
    if s.len() >= w {
        s
    } else {
        repeated(' ', (w - s.len()) as nat) + s
    }
}

/// Writes `s` to the right in a column of `w` characters.
pub fn align_right(s: &str, w: usize) -> (r: String)
    ensures
        r@ == right_aligned(s@, w as nat),
{
    let n: usize = text::chars_of(s).len();
    if n >= w {
        return s.to_owned();
    }
    let mut out = repeat(' ', w - n);
    out.append(s);
    out
}

} // verus!
