//! Text in cells: widths, cutting, wrapping, times, and the parts of a panel.

use vstd::prelude::*;

use crate::cells;
use crate::cells::RowView;
use crate::panel;
use crate::panel::{Rect, Role, SpanView};
use crate::text;

verus! {

// ── widths ───────────────────────────────────────────────────────────────────

/// Two texts side by side take the columns of both; a control character takes none.
pub proof fn columns_add_up(a: Seq<char>, b: Seq<char>, c: char)
    ensures
        cells::cells_of(a + b) == cells::cells_of(a) + cells::cells_of(b),
        cells::cells_of(seq![c]) == cells::cells(c),
        cells::char_width(c) is None ==> cells::cells(c) == 0,
        cells::char_width(c) matches Some(w) ==> cells::cells(c) == w,
    decreases a.len(),
{
    assert(seq![c].skip(1) =~= Seq::empty());
    reveal_with_fuel(cells::cells_of, 2);
    if a.len() > 0 {
        columns_add_up(a.skip(1), b, c);
        assert((a + b).skip(1) =~= a.skip(1) + b);
    } else {
        assert(a + b =~= b);
    }
}

/// What fits in some columns takes no more of them, and with one more character it would.
pub proof fn as_much_as_fits_is_taken(s: Seq<char>, budget: nat)
    ensures
        ({
            let n = cells::fitting(s, budget) as int;
            &&& n <= s.len()
            &&& cells::cells_of(s.take(n)) <= budget
            &&& n < s.len() ==> cells::cells_of(s.take(n + 1)) > budget
        }),
    decreases s.len(),
{
    let n = cells::fitting(s, budget) as int;
    if s.len() == 0 || cells::cells(s[0]) > budget {
        assert(s.take(0) =~= Seq::empty());
        if s.len() > 0 {
            assert(s.take(1) =~= seq![s[0]]);
            columns_add_up(Seq::empty(), s, s[0]);
        }
    } else {
        let t = s.skip(1);
        let left = (budget - cells::cells(s[0])) as nat;
        as_much_as_fits_is_taken(t, left);
        assert(s.take(n).skip(1) =~= t.take(n - 1));
        if n < s.len() {
            assert(s.take(n + 1).skip(1) =~= t.take(n));
        }
    }
}

/// A text is cut only where it is too wide, behind as much as fits with the ellipsis.
pub proof fn a_text_is_cut_only_where_it_is_too_wide(s: Seq<char>, max: nat)
    ensures
        max > 0 && cells::str_width(s) <= max ==> cells::cut(s, max) == s,
        max > 0 && cells::str_width(s) > max ==> {
            let r = cells::cut(s, max);
            let n = r.len() - 1;
            &&& r.last() == '…'
            &&& r.drop_last() == s.take(n)
            &&& cells::cells_of(s.take(n)) <= max - 1
            &&& n < s.len() ==> cells::cells_of(s.take(n + 1)) > max - 1
        },
        cells::cut(s, 0).len() == 0,
{
    if max > 0 && cells::str_width(s) > max {
        as_much_as_fits_is_taken(s, (max - 1) as nat);
        let r = cells::cut(s, max);
        assert(r.drop_last() =~= s.take(r.len() - 1));
    }
}

/// A text is clipped to so many characters, the last of them an ellipsis where something
/// went.
pub proof fn a_text_is_clipped_to_its_length(s: Seq<char>, max: nat)
    ensures
        s.len() <= max ==> cells::clipped(s, max) == s,
        s.len() > max ==> cells::clipped(s, max).len() == max,
        0 < max < s.len() ==> cells::clipped(s, max).last() == '…',
        0 < max < s.len() ==> cells::clipped(s, max).drop_last() == s.take(max - 1),
{
    if 0 < max < s.len() {
        assert(cells::clipped(s, max).drop_last() =~= s.take(max - 1));
    }
    if s.len() <= max && max == 0 {
        assert(s =~= Seq::empty());
    }
}

/// A text to the right keeps its characters behind spaces, and is as wide as its column or,
/// where it is longer, as itself.
pub proof fn right_aligned_text_stands_at_the_edge(s: Seq<char>, w: nat, i: int)
    ensures
        ({
            let r = cells::right_aligned(s, w);
            &&& s.len() >= w ==> r == s
            &&& s.len() < w ==> r.len() == w && r.skip(w - s.len()) == s
            &&& s.len() < w && 0 <= i < w - s.len() ==> r[i] == ' '
        }),
{
    if s.len() < w {
        assert(cells::right_aligned(s, w).skip(w - s.len()) =~= s);
    }
}

// ── rows ─────────────────────────────────────────────────────────────────────

/// A line's rows go on but for the last, and each that goes on is full.
pub proof fn only_the_last_row_ends_its_line(s: Seq<char>, w: nat, i: int)
    requires
        w > 0,
        0 <= i < cells::rows_of_line(s, w).len(),
    ensures
        ({
            let rows = cells::rows_of_line(s, w);
            &&& rows[i].goes_on == (i < rows.len() - 1)
            &&& rows[i].goes_on ==> rows[i].text.len() == w
            &&& rows[i].text.len() <= w
            &&& rows[i].text == s.subrange(i * w, i * w + rows[i].text.len())
            &&& i * w + rows[i].text.len() <= s.len()
            &&& i == rows.len() - 1 ==> i * w + rows[i].text.len() == s.len()
        }),
    decreases s.len(),
{
    let rows = cells::rows_of_line(s, w);
    if s.len() <= w {
        assert(i * w == 0) by (nonlinear_arith)
            requires
                i == 0,
        ;
        assert(s.subrange(0, s.len() as int) =~= s);
    } else {
        let t = s.skip(w as int);
        let more = cells::rows_of_line(t, w);
        assert(rows.len() == more.len() + 1);
        lemma_some_row(t, w);
        if i > 0 {
            only_the_last_row_ends_its_line(t, w, i - 1);
            assert(rows[i] == more[i - 1]);
            assert((i - 1) * w + w == i * w) by (nonlinear_arith);
            let n = rows[i].text.len();
            assert(t.subrange((i - 1) * w, (i - 1) * w + n) =~= s.subrange(i * w, i * w + n))
                by {
                assert(0 <= (i - 1) * w) by (nonlinear_arith)
                    requires
                        i >= 1,
                ;
            }
        } else {
            assert(i * w == 0) by (nonlinear_arith)
                requires
                    i == 0,
            ;
            assert(s.take(w as int) =~= s.subrange(0, w as int));
        }
    }
}

proof fn lemma_some_row(s: Seq<char>, w: nat)
    ensures
        cells::rows_of_line(s, w).len() > 0,
{
}

/// The rows of several lines come line by line.
pub proof fn rows_come_line_by_line(lines: Seq<Seq<char>>, l: Seq<char>, w: nat)
    ensures
        cells::rows_of_lines(lines.push(l), w) == cells::rows_of_lines(lines, w)
            + cells::rows_of_line(l, w),
        cells::rows_of_lines(Seq::empty(), w).len() == 0,
{
    assert(lines.push(l).drop_last() =~= lines);
}

/// Of more rows than there is room for the first are shown, each as it is but the last:
/// where its line goes on, it ends in an ellipsis. With room for all, all are shown.
pub proof fn the_last_row_shown_tells_of_more(rows: Seq<RowView>, max: nat, i: int)
    requires
        0 <= i < rows.len(),
    ensures
        ({
            let shown = cells::shown_rows(rows, max);
            &&& shown.len() <= max && shown.len() <= rows.len()
            &&& shown.len() == max || shown.len() == rows.len()
            &&& i + 1 < max ==> shown[i] == rows[i].text
            &&& i + 1 == max && !rows[i].goes_on ==> shown[i] == rows[i].text
            &&& i + 1 == max && rows[i].goes_on ==> shown[i] == rows[i].text.drop_last().push('…')
        }),
{
}

/// A wrapped text has as many rows as were counted, with room for them, and never more
/// than there is room for.
pub proof fn as_many_rows_as_were_counted(s: Seq<char>, w: nat, max: nat)
    requires
        w > 0,
        max > 0,
    ensures
        cells::row_count(s, w) <= max ==> cells::wrapped(s, w, max).len() == cells::row_count(s, w),
        cells::row_count(s, w) > max ==> cells::wrapped(s, w, max).len() == max,
        cells::row_count(s, w) > 0,
{
    let ls = text::lines_of(s);
    if ls.len() > 0 {
        lemma_some_row(ls.last(), w);
    }
}

// ── times ────────────────────────────────────────────────────────────────────

/// A number below a hundred in two digits has its tens, then its ones.
pub proof fn two_digits_are_tens_and_ones(n: nat)
    requires
        n < 100,
    ensures
        cells::two_digits(n) == seq![text::digit(n / 10), text::digit(n % 10)],
{
    if n >= 10 {
        assert(text::decimal(n / 10) =~= seq![text::digit(n / 10)]);
        assert(text::decimal(n) =~= seq![text::digit(n / 10), text::digit(n % 10)]);
    }
}

/// A time is minutes and two digits of seconds, and from an hour on hours, two digits of
/// minutes and two of seconds.
pub proof fn a_time_is_hours_minutes_and_seconds(h: nat, m: nat, s: nat)
    requires
        m < 60,
        s < 60,
    ensures
        cells::duration(60 * m + s) == text::decimal(m) + seq![':'] + cells::two_digits(s),
        h > 0 ==> cells::duration(3600 * h + 60 * m + s) == text::decimal(h) + seq![':']
            + cells::two_digits(m) + seq![':'] + cells::two_digits(s),
        cells::minutes(60 * (60 * h + m) + s) == text::decimal(60 * h + m) + seq![':']
            + cells::two_digits(s),
        cells::hours(60 * m + s) == text::decimal(m) + "min"@,
        h > 0 ==> cells::hours(3600 * h + 60 * m + s) == text::decimal(h) + "h "@ + text::decimal(m)
            + "min"@,
{
    let t = 3600 * h + 60 * m + s;
    assert(t / 3600 == h && t % 3600 == 60 * m + s);
    assert((60 * m + s) / 60 == m && t % 60 == s);
    let u = 60 * (60 * h + m) + s;
    assert(u / 60 == 60 * h + m && u % 60 == s);
    assert((60 * m + s) / 3600 == 0 && (60 * m + s) % 3600 == 60 * m + s && (60 * m + s) % 60 == s);
}

/// The seconds of a time are the whole ones; a time before zero has none.
pub proof fn seconds_are_whole(t: int)
    ensures
        t >= 0 ==> cells::seconds_of(t) * 1_000_000_000 <= t < (cells::seconds_of(t) + 1)
            * 1_000_000_000,
        t < 0 ==> cells::seconds_of(t) == 0,
{
}

// ── panels ───────────────────────────────────────────────────────────────────

/// An area holds the cells from its corner on, as many as it is wide and high, and no
/// others.
pub proof fn an_area_holds_its_cells(area: Rect, dx: int, dy: int)
    requires
        0 <= area.x + dx < u16::MAX,
        0 <= area.y + dy < u16::MAX,
    ensures
        panel::inside(area, (area.x + dx) as u16, (area.y + dy) as u16) == (0 <= dx < area.width
            && 0 <= dy < area.height),
{
}

/// A section's header takes two rows off the top of its area; what is left is as wide and
/// ends where the area does.
pub proof fn a_header_takes_two_rows(area: Rect)
    requires
        area.width > 0,
        area.height >= 2,
        area.y + area.height <= u16::MAX,
    ensures
        ({
            let b = panel::body_of(area);
            &&& b.x == area.x && b.width == area.width
            &&& b.y == area.y + 2
            &&& b.y + b.height == area.y + area.height
        }),
{
}

/// A list that overflows leaves two columns at its edge for the bar, and one that does not
/// leaves none.
pub proof fn an_overflowing_list_leaves_room_for_its_bar(area: Rect, total: usize)
    ensures
        ({
            let r = panel::list_room(area, total);
            &&& r.x == area.x && r.y == area.y && r.height == area.height
            &&& total <= area.height ==> r.width == area.width
            &&& total > area.height && area.width >= 2 ==> r.width == area.width - 2
            &&& total > area.height && area.width < 2 ==> r.width == 0
        }),
{
}

/// A header is the label in capitals, in the section's colour, and behind a separator the
/// status where both fit.
pub proof fn a_header_shows_its_status_where_it_fits(
    avail: nat,
    label: Seq<char>,
    status: Seq<SpanView>,
    focused: bool,
)
    ensures
        ({
            let r = panel::header_spans(avail, label, Some(status), focused);
            let name = cells::cut(cells::uppercase(label), avail);
            let fits = cells::str_width(name) + cells::str_width("  ·  "@) + panel::line_width(
                status,
            ) <= avail;
            &&& r.len() >= 1 && r[0].text == name
            &&& r[0].role == (if focused {
                Role::Header
            } else {
                Role::HeaderBlur
            })
            &&& fits ==> r.len() == 2 + status.len() && r[1].text == "  ·  "@ && r.skip(2)
                == status
            &&& !fits ==> r.len() == 1
            &&& panel::header_spans(avail, label, None, focused) == seq![r[0]]
        }),
{
    let r = panel::header_spans(avail, label, Some(status), focused);
    if r.len() > 1 {
        assert(r.skip(2) =~= status);
    }
    assert(panel::header_spans(avail, label, None, focused) =~= seq![r[0]]);
}

/// The columns of a line are those of its spans.
pub proof fn a_line_is_as_wide_as_its_spans(a: Seq<SpanView>, b: Seq<SpanView>, s: SpanView)
    ensures
        panel::line_width(a + b) == panel::line_width(a) + panel::line_width(b),
        panel::line_width(seq![s]) == cells::str_width(s.text),
    decreases b.len(),
{
    assert(seq![s].drop_last() =~= Seq::empty());
    reveal_with_fuel(panel::line_width, 2);
    if b.len() > 0 {
        a_line_is_as_wide_as_its_spans(a, b.drop_last(), s);
        assert((a + b).drop_last() =~= a + b.drop_last());
    } else {
        assert(a + b =~= a);
    }
}

/// A key stands before its words, and hints stand in their order with a separator between
/// them.
pub proof fn hints_stand_in_order(items: Seq<(Seq<char>, Seq<char>)>, n: nat, i: int)
    requires
        0 <= i < n <= items.len(),
    ensures
        ({
            let l = panel::hint_line(items, n);
            &&& l.len() == 3 * n - 1
            &&& l[3 * i] == (SpanView { text: items[i].0, role: Role::Key })
            &&& l[3 * i + 1] == (SpanView { text: " "@ + items[i].1, role: Role::Dim })
            &&& i + 1 < n ==> l[3 * i + 2] == (SpanView { text: "  ·  "@, role: Role::Dim })
        }),
    decreases n,
{
    if n > 1 {
        let before = panel::hint_line(items, (n - 1) as nat);
        hints_stand_in_order(items, (n - 1) as nat, if i < n - 1 {
            i
        } else {
            0
        });
        if i == n - 1 {
            assert(before.len() == 3 * i - 1);
        }
    }
}

/// A hint costs the columns of its key, a space and its words, and behind another those of
/// the separator too.
pub proof fn a_hint_costs_its_columns(items: Seq<(Seq<char>, Seq<char>)>, i: int)
    requires
        0 < i < items.len(),
    ensures
        panel::hint_cost(items, 0) == cells::str_width(items[0].0) + 1 + cells::str_width(
            items[0].1,
        ),
        panel::hint_cost(items, i) == cells::str_width("  ·  "@) + cells::str_width(items[i].0) + 1
            + cells::str_width(items[i].1),
{
}

/// Lines in the middle have as much room above as below, or one row less; what does not
/// fit starts at the top.
pub proof fn lines_stand_in_the_middle(lines: Seq<Seq<SpanView>>, area: Rect, i: int)
    requires
        area.width > 0,
        area.height > 0,
    ensures
        ({
            let r = panel::centred(lines, area);
            let above = r.len() - lines.len();
            &&& above >= 0
            &&& r.skip(above) == lines
            &&& 0 <= i < above ==> r[i].len() == 0
            &&& lines.len() <= area.height ==> above <= area.height - r.len() <= above + 1
            &&& lines.len() > area.height ==> above == 0
        }),
{
    let r = panel::centred(lines, area);
    assert(r.skip(r.len() - lines.len()) =~= lines);
}

/// The selection goes one row at a time, down from none to the first and up from none to
/// the last, and a table keeps it within its rows.
pub proof fn a_selection_goes_row_by_row(i: usize, n: nat)
    requires
        0 < n <= usize::MAX,
        i < n,
    ensures
        panel::row_in(panel::row_below(None), n) == Some(0usize),
        panel::row_in(panel::row_above(None), n) == Some((n - 1) as usize),
        i + 1 < n ==> panel::row_in(panel::row_below(Some(i)), n) == Some((i + 1) as usize),
        i + 1 == n ==> panel::row_in(panel::row_below(Some(i)), n) == Some(i),
        i > 0 ==> panel::row_in(panel::row_above(Some(i)), n) == Some((i - 1) as usize),
        i == 0 ==> panel::row_in(panel::row_above(Some(i)), n) == Some(0usize),
        panel::row_in(Some(i), n) == Some(i),
        panel::row_in(None, n) is None,
        panel::row_in(Some(i), 0) is None,
{
}

} // verus!
