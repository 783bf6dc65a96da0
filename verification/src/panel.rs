//! The pieces a panel is drawn from.
//!
//! A line is a row of spans, each a text in a role. A role says what a text is for;
//! the terminal front end gives it a colour. What a panel shows is decided here, how
//! it looks is not.

use crate::cells;
use crate::text;
use vstd::prelude::*;

verus! {

/// What a text on the screen is for.
#[derive(Clone, Copy, Debug, PartialEq, Eq, Structural)]
pub enum Role {
    /// The header of the focused section.
    Header,
    /// The header of another section.
    HeaderBlur,
    /// The track that plays.
    Playing,
    /// Titles and names.
    Primary,
    /// Artists and albums.
    Meta,
    /// Separators, counts, lengths, hints.
    Dim,
    /// A key to press.
    Key,
    /// Something live.
    Accent,
    /// Something that needs attention but works.
    Warn,
    /// A failure's headline.
    Error,
    /// A failure's text.
    ErrorBody,
    /// A completed action.
    Success,
    /// The lyric line that is sung.
    ActiveLyric,
    /// The mark before the track that plays.
    Mark,
    /// The cursor behind a query.
    Caret,
    /// The title of a paused track.
    Paused,
    /// Less than plain text.
    Faint,
    /// Plain text.
    Plain,
}

/// A text in a role.
pub struct Span {
    pub text: String,
    pub role: Role,
}

/// The content of a [`Span`].
pub struct SpanView {
    pub text: Seq<char>,
    pub role: Role,
}

impl View for Span {
    type V = SpanView;

    open spec fn view(&self) -> SpanView {
        SpanView { text: self.text@, role: self.role }
    }
}

/// One row of spans.
pub struct Line {
    pub spans: Vec<Span>,
}

impl View for Line {
    type V = Seq<SpanView>;

    open spec fn view(&self) -> Seq<SpanView> {
        self.spans@.map_values(|s: Span| s@)
    }
}

/// A span, as content.
pub open spec fn span(text: Seq<char>, role: Role) -> SpanView {
    SpanView { text, role }
}

/// The contents of several lines.
pub open spec fn line_views(lines: Seq<Line>) -> Seq<Seq<SpanView>> {
    lines.map_values(|l: Line| l@)
}

/// The content of a line that may be missing.
pub open spec fn opt_line(l: Option<Line>) -> Option<Seq<SpanView>> {
    match l {
        Some(x) => Some(x@),
        None => None,
    }
}

/// A span of a text.
pub fn styled(text: &str, role: Role) -> (r: Span)
    ensures
        r@ == span(text@, role),
{
    Span { text: text.to_owned(), role }
}

impl Line {
    /// A line without spans.
    pub fn blank() -> (r: Self)
        ensures
            r@ == Seq::<SpanView>::empty(),
    {
        let r = Line { spans: Vec::new() };
        assert(r@ =~= Seq::<SpanView>::empty());
        r
    }

    /// A line of one span.
    pub fn of(text: &str, role: Role) -> (r: Self)
        ensures
            r@ == seq![span(text@, role)],
    {
        let mut r = Line::blank();
        r.push(text, role);
        r
    }

    /// One more span.
    pub fn push(&mut self, text: &str, role: Role)
        ensures
            final(self)@ == old(self)@.push(span(text@, role)),
    {
        self.spans.push(styled(text, role));
        assert(self@ =~= old(self)@.push(span(text@, role)));
    }

    /// The spans of another line behind these.
    pub fn extend(&mut self, other: Line)
        ensures
            final(self)@ == old(self)@ + other@,
    {
        let mut other = other;
        let ghost added = other@;
        self.spans.append(&mut other.spans);
        assert(self@ =~= old(self)@ + added);
    }
}

fn push_line(out: &mut Vec<Line>, line: Line)
    ensures
        line_views(final(out)@) == line_views(old(out)@).push(line@),
{
    out.push(line);
    assert(line_views(out@) =~= line_views(old(out)@).push(line@));
}

/// What stands between two items of a line.
pub const SEP: &'static str = "  ·  ";

/// A key and what it does.
pub open spec fn hint_spans(key: Seq<char>, desc: Seq<char>) -> Seq<SpanView> {
    seq![span(key, Role::Key), span(" "@ + desc, Role::Dim)]
}

/// A key and what it does.
pub fn hint(key: &str, desc: &str) -> (r: Line)
    ensures
        r@ == hint_spans(key@, desc@),
{
    let mut r = Line::of(key, Role::Key);
    let words = text::concat(" ", desc);
    r.push(words.as_str(), Role::Dim);
    r
}

/// Two hints with a separator between them.
pub fn hint_pair(key: &str, desc: &str, other_key: &str, other_desc: &str) -> (r: Line)
    ensures
        r@ == hint_spans(key@, desc@) + seq![span(SEP@, Role::Dim)] + hint_spans(
            other_key@,
            other_desc@,
        ),
{
    let mut r = hint(key, desc);
    r.push(SEP, Role::Dim);
    r.extend(hint(other_key, other_desc));
    assert(r@ =~= hint_spans(key@, desc@) + seq![span(SEP@, Role::Dim)] + hint_spans(
        other_key@,
        other_desc@,
    ));
    r
}

/// Keys and what they do, as texts.
pub open spec fn pairs(items: Seq<(&str, &str)>) -> Seq<(Seq<char>, Seq<char>)> {
    items.map_values(|p: (&str, &str)| (p.0@, p.1@))
}

/// What hint `i` of `items` costs in columns, its separator with it.
pub open spec fn hint_cost(items: Seq<(Seq<char>, Seq<char>)>, i: int) -> nat {
    let sep: nat = if i > 0 {
        str_width_nat(SEP@)
    } else {
        0
    };
    sep + str_width_nat(items[i].0) + 1 + str_width_nat(items[i].1)
}

/// The columns of a text.
pub open spec fn str_width_nat(s: Seq<char>) -> nat {
    cells::str_width(s) as nat
}

/// How many hints, from the `i`-th on, fit in `room` columns.
pub open spec fn hints_that_fit(
    items: Seq<(Seq<char>, Seq<char>)>,
    i: int,
    room: nat,
) -> nat
    decreases items.len() - i,
{
    if i < 0 || i >= items.len() || hint_cost(items, i) > room {
        0
    } else {
        1 + hints_that_fit(items, i + 1, (room - hint_cost(items, i)) as nat)
    }
}

/// The first `n` hints, separated.
pub open spec fn hint_line(items: Seq<(Seq<char>, Seq<char>)>, n: nat) -> Seq<SpanView>
    decreases n,
{
    if n == 0 {
        Seq::empty()
    } else if n == 1 {
        hint_spans(items[0].0, items[0].1)
    } else {
        hint_line(items, (n - 1) as nat) + seq![span(SEP@, Role::Dim)] + hint_spans(
            items[n - 1].0,
            items[n - 1].1,
        )
    }
}

/// As many hints as fit in `width` columns.
pub open spec fn fitted(items: Seq<(Seq<char>, Seq<char>)>, width: nat) -> Seq<SpanView> {
    hint_line(items, hints_that_fit(items, 0, width))
}

/// What the first `n` hints cost together.
pub open spec fn hints_cost(items: Seq<(Seq<char>, Seq<char>)>, n: nat) -> nat
    decreases n,
{
    if n == 0 {
        0
    } else {
        hints_cost(items, (n - 1) as nat) + hint_cost(items, n - 1)
    }
}

proof fn lemma_hints_cost(items: Seq<(Seq<char>, Seq<char>)>, i: nat, room: nat)
    requires
        i <= items.len(),
    ensures
        i + hints_that_fit(items, i as int, room) <= items.len(),
        hints_cost(items, i + hints_that_fit(items, i as int, room)) <= hints_cost(items, i) + room,
        i + hints_that_fit(items, i as int, room) < items.len() ==> hints_cost(
            items,
            i + hints_that_fit(items, i as int, room) + 1,
        ) > hints_cost(items, i) + room,
    decreases items.len() - i,
{
    if i < items.len() && hint_cost(items, i as int) <= room {
        lemma_hints_cost(items, i + 1, (room - hint_cost(items, i as int)) as nat);
    }
}

proof fn lemma_hint_line_len(items: Seq<(Seq<char>, Seq<char>)>, n: nat)
    ensures
        hint_line(items, n).len() == if n == 0 {
            0
        } else {
            3 * n - 1
        },
    decreases n,
{
    if n > 1 {
        lemma_hint_line_len(items, (n - 1) as nat);
    }
}

/// Hints are dropped whole, from the end: those shown cost no more than there is
/// room for, one more would, and each has its key, its words and, but for the first,
/// its separator.
pub proof fn hints_are_dropped_whole(items: Seq<(Seq<char>, Seq<char>)>, width: nat)
    ensures
        ({
            let n = hints_that_fit(items, 0, width);
            &&& n <= items.len()
            &&& hints_cost(items, n) <= width
            &&& n < items.len() ==> hints_cost(items, n + 1) > width
            &&& fitted(items, width).len() == if n == 0 {
                0
            } else {
                3 * n - 1
            }
        }),
{
    lemma_hints_cost(items, 0, width);
    lemma_hint_line_len(items, hints_that_fit(items, 0, width));
}

/// Lays out as many hints as fit in `width` columns.
pub fn fit_hints(items: &[(&str, &str)], width: usize) -> (r: Line)
    ensures
        r@ == fitted(pairs(items@), width as nat),
{
    let ghost all = pairs(items@);
    let mut out = Line::blank();
    let mut room: usize = width;
    let mut i: usize = 0;
    while i < items.len()
        invariant
            i <= items@.len(),
            all == pairs(items@),
            out@ == hint_line(all, i as nat),
            hints_that_fit(all, 0, width as nat) == i + hints_that_fit(
                all,
                i as int,
                room as nat,
            ),
        ensures
            out@ == fitted(all, width as nat),
        decreases items@.len() - i,
    {
        let (key, desc) = items[i];
        assert(all[i as int] == (key@, desc@));
        let sep: u128 = if i > 0 {
            cells::width_of(SEP) as u128
        } else {
            0
        };
        let cost: u128 = sep + cells::width_of(key) as u128 + 1 + cells::width_of(desc) as u128;
        assert(cost == hint_cost(all, i as int));
        if cost > room as u128 {
            break;
        }
        if i > 0 {
            out.push(SEP, Role::Dim);
        }
        out.extend(hint(key, desc));
        assert(out@ =~= hint_line(all, (i + 1) as nat));
        room = room - cost as usize;
        i += 1;
    }
    out
}

/// The columns of a line.
pub open spec fn line_width(l: Seq<SpanView>) -> nat
    decreases l.len(),
{
    if l.len() == 0 {
        0
    } else {
        line_width(l.drop_last()) + str_width_nat(l.last().text)
    }
}

/// The columns of a line, as far as a `usize` holds them.
pub fn width(l: &Line) -> (r: usize)
    ensures
        r as nat == if line_width(l@) <= usize::MAX {
            line_width(l@)
        } else {
            usize::MAX as nat
        },
{
    let mut total: usize = 0;
    let mut i: usize = 0;
    assert(l@.take(0) =~= Seq::<SpanView>::empty());
    while i < l.spans.len()
        invariant
            i <= l.spans@.len(),
            total as nat == if line_width(l@.take(i as int)) <= usize::MAX {
                line_width(l@.take(i as int))
            } else {
                usize::MAX as nat
            },
        decreases l.spans@.len() - i,
    {
        let w: usize = cells::width_of(l.spans[i].text.as_str());
        assert(l@.take(i + 1).drop_last() =~= l@.take(i as int));
        assert(l@.take(i + 1).last() == l.spans@[i as int]@);
        total = if w > usize::MAX - total {
            usize::MAX
        } else {
            total + w
        };
        i += 1;
    }
    assert(l@.take(l.spans@.len() as int) =~= l@);
    total
}

/// A rectangle of cells.
#[derive(Clone, Copy, Debug, PartialEq, Eq, Structural)]
pub struct Rect {
    pub x: u16,
    pub y: u16,
    pub width: u16,
    pub height: u16,
}

/// Whether the cell at `(x, y)` lies in `area`; an area ends at the last cell there
/// is a number for.
pub open spec fn inside(area: Rect, x: u16, y: u16) -> bool {
    &&& area.x <= x < area.x + area.width
    &&& area.y <= y < area.y + area.height
    &&& x < u16::MAX || area.x + area.width <= u16::MAX
    &&& y < u16::MAX || area.y + area.height <= u16::MAX
}

impl Rect {
    /// Whether the cell at `(x, y)` lies in it.
    pub fn contains(&self, x: u16, y: u16) -> (r: bool)
        ensures
            r == inside(*self, x, y),
    {
        let right: u16 = self.x.saturating_add(self.width);
        let bottom: u16 = self.y.saturating_add(self.height);
        x >= self.x && x < right && y >= self.y && y < bottom
    }
}

/// A section's header and the room below it.
pub struct Section {
    /// The header, unless there is no room at all.
    pub header: Option<Line>,
    /// The rule under the header, where there is a row for it.
    pub rule: Option<String>,
    /// What is left for content.
    pub body: Rect,
}

/// A section's header in `avail` columns: the label in capitals, and behind it the
/// status if both fit.
pub open spec fn header_spans(
    avail: nat,
    label: Seq<char>,
    status: Option<Seq<SpanView>>,
    focused: bool,
) -> Seq<SpanView> {
    let role = if focused {
        Role::Header
    } else {
        Role::HeaderBlur
    };
    let name = cells::cut(cells::uppercase(label), avail);
    match status {
        Some(s) if str_width_nat(name) + str_width_nat(SEP@) + line_width(s) <= avail => seq![
            span(name, role),
            span(SEP@, Role::Dim),
        ] + s,
        _ => seq![span(name, role)],
    }
}

/// The room below a section's header.
pub open spec fn body_of(area: Rect) -> Rect {
    if area.height == 0 || area.width == 0 {
        area
    } else {
        Rect {
            y: (area.y + 2) as u16,
            height: if area.height < 2 {
                0
            } else {
                (area.height - 2) as u16
            },
            ..area
        }
    }
}

/// Heads a section that takes `area`.
pub fn section(area: Rect, label: &str, status: Option<Line>, focused: bool) -> (r: Section)
    requires
        area.y <= u16::MAX - 2,
    ensures
        r.body == body_of(area),
        area.height == 0 || area.width == 0 ==> r.header is None && r.rule is None,
        area.height > 0 && area.width > 0 ==> opt_line(r.header) == Some(
            header_spans(area.width as nat, label@, opt_line(status), focused),
        ),
        area.height > 0 && area.width > 0 ==> text::opt(r.rule) == if area.height >= 2 {
            Some(cells::repeated('─', area.width as nat))
        } else {
            None
        },
{
    if area.height == 0 || area.width == 0 {
        return Section { header: None, rule: None, body: area };
    }
    let role = if focused {
        Role::Header
    } else {
        Role::HeaderBlur
    };
    let avail: usize = area.width as usize;
    let name = cells::truncate_line(cells::to_upper(label).as_str(), avail);
    let mut header = Line::of(name.as_str(), role);
    match status {
        Some(s) => {
            let cost: u128 = cells::width_of(name.as_str()) as u128 + cells::width_of(SEP) as u128
                + width(&s) as u128;
            if cost <= avail as u128 {
                header.push(SEP, Role::Dim);
                header.extend(s);
                assert(header@ =~= seq![span(name@, role), span(SEP@, Role::Dim)] + s@);
            }
        },
        None => {},
    }
    let rule = if area.height >= 2 {
        Some(cells::repeat('─', avail))
    } else {
        None
    };
    let body = Rect {
        x: area.x,
        y: area.y + 2,
        width: area.width,
        height: if area.height < 2 {
            0
        } else {
            area.height - 2
        },
    };
    Section { header: Some(header), rule, body }
}

/// The room for a list of `total` rows: where they overflow, the bar at the edge
/// gets a column of its own.
pub open spec fn list_room(area: Rect, total: usize) -> Rect {
    if total > area.height && area.width >= 2 {
        Rect { width: (area.width - 2) as u16, ..area }
    } else if total > area.height {
        Rect { width: 0, ..area }
    } else {
        area
    }
}

/// The room for a list of `total` rows.
pub fn list_body(area: Rect, total: usize) -> (r: Rect)
    ensures
        r == list_room(area, total),
{
    if total > area.height as usize {
        Rect { x: area.x, y: area.y, width: area.width.saturating_sub(2), height: area.height }
    } else {
        area
    }
}

/// Whether a list of `total` rows gets a bar: only where it overflows its panel.
pub fn has_scrollbar(area: Rect, total: usize) -> (r: bool)
    ensures
        r == (total > area.height && area.width > 0),
{
    total > area.height as usize && area.width > 0
}

/// `lines` in the middle of `height` rows.
pub open spec fn centred(lines: Seq<Seq<SpanView>>, area: Rect) -> Seq<Seq<SpanView>> {
    if area.height == 0 || area.width == 0 {
        Seq::empty()
    } else {
        let pad: nat = if area.height >= lines.len() {
            ((area.height - lines.len()) / 2) as nat
        } else {
            0
        };
        Seq::new(pad, |i: int| Seq::<SpanView>::empty()) + lines
    }
}

/// A message in the middle of a panel.
pub fn centered_message(area: Rect, lines: Vec<Line>) -> (r: Vec<Line>)
    ensures
        line_views(r@) == centred(line_views(lines@), area),
{
    let mut out: Vec<Line> = Vec::new();
    if area.height == 0 || area.width == 0 {
        assert(line_views(out@) =~= Seq::empty());
        return out;
    }
    let h: usize = area.height as usize;
    let pad: usize = if h >= lines.len() {
        (h - lines.len()) / 2
    } else {
        0
    };
    let mut i: usize = 0;
    while i < pad
        invariant
            i <= pad,
            line_views(out@) =~= Seq::new(i as nat, |i: int| Seq::<SpanView>::empty()),
        decreases pad - i,
    {
        push_line(&mut out, Line::blank());
        i += 1;
    }
    let mut lines = lines;
    let ghost said = line_views(lines@);
    let ghost blanks = line_views(out@);
    out.append(&mut lines);
    assert(line_views(out@) =~= blanks + said);
    out
}

/// The row below the selected one; the first where none is.
pub open spec fn row_below(selected: Option<usize>) -> Option<usize> {
    match selected {
        None => Some(0),
        Some(i) => if i < usize::MAX {
            Some((i + 1) as usize)
        } else {
            Some(i)
        },
    }
}

/// The row above the selected one; past every row where none is, which a table
/// takes for its last.
pub open spec fn row_above(selected: Option<usize>) -> Option<usize> {
    match selected {
        None => Some(usize::MAX),
        Some(i) => if i > 0 {
            Some((i - 1) as usize)
        } else {
            Some(0)
        },
    }
}

/// What a table of `n` rows makes of a selection when it is drawn.
pub open spec fn row_in(selected: Option<usize>, n: nat) -> Option<usize> {
    match selected {
        _ if n == 0 => None,
        Some(i) if i >= n => Some((n - 1) as usize),
        other => other,
    }
}

/// The row below the selected one.
pub fn select_next(selected: Option<usize>) -> (r: Option<usize>)
    ensures
        r == row_below(selected),
{
    match selected {
        None => Some(0),
        Some(i) => Some(i.saturating_add(1)),
    }
}

/// The row above the selected one.
pub fn select_previous(selected: Option<usize>) -> (r: Option<usize>)
    ensures
        r == row_above(selected),
{
    match selected {
        None => Some(usize::MAX),
        Some(i) => Some(i.saturating_sub(1)),
    }
}

/// The selection that a table of `n` rows shows.
pub fn select_within(selected: Option<usize>, n: usize) -> (r: Option<usize>)
    ensures
        r == row_in(selected, n as nat),
{
    if n == 0 {
        return None;
    }
    match selected {
        Some(i) => if i >= n {
            Some(n - 1)
        } else {
            Some(i)
        },
        None => None,
    }
}

/// Down and up again stays on a row, unless the first step had nowhere to go.
pub proof fn down_then_up(selected: usize)
    requires
        selected < usize::MAX,
    ensures
        row_above(row_below(Some(selected))) == Some(selected),
{
}

} // verus!
