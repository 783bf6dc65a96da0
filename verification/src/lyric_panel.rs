//! The lyrics panel and the list of records to choose from.

use crate::cells;
use crate::lrc;
use crate::lrc::LyricLine;
use crate::lyrics::{LyricsKind, TrackLyrics};
use crate::lyrics;
use crate::panel::{Line, Role, Span};
use crate::panel;
use crate::seqs;
use crate::text;
use vstd::prelude::*;

verus! {

/// One row of the panel: a piece of a lyric line, and which line it is of.
pub struct LyricRow {
    pub lyric: usize,
    pub text: String,
}

/// The content of a [`LyricRow`].
pub struct RowView {
    pub lyric: int,
    pub text: Seq<char>,
}

impl View for LyricRow {
    type V = RowView;

    open spec fn view(&self) -> RowView {
        RowView { lyric: self.lyric as int, text: self.text@ }
    }
}

/// The contents of several rows.
pub open spec fn row_views(rows: Seq<LyricRow>) -> Seq<RowView> {
    rows.map_values(|r: LyricRow| r@)
}

/// The rows of lyric line `i`. A line without words keeps a row of its own.
pub open spec fn pieces(i: int, words: Seq<char>, width: nat) -> Seq<RowView> {
    if text::trimmed(words).len() == 0 {
        seq![RowView { lyric: i, text: Seq::empty() }]
    } else {
        cells::wrapped(words, width, usize::MAX as nat).map_values(
            |t: Seq<char>| RowView { lyric: i, text: t },
        )
    }
}

/// The rows of a song's lines.
pub open spec fn laid_out(lines: Seq<Seq<char>>, width: nat) -> Seq<RowView>
    decreases lines.len(),
{
    if lines.len() == 0 {
        Seq::empty()
    } else {
        laid_out(lines.drop_last(), width) + pieces(lines.len() - 1, lines.last(), width)
    }
}

fn add_pieces(rows: &mut Vec<LyricRow>, i: usize, words: &str, width: usize)
    ensures
        row_views(final(rows)@) == row_views(old(rows)@) + pieces(i as int, words@, width as nat),
{
    let cs = text::chars_of(words);
    let ghost before = row_views(rows@);
    if text::trim(cs.as_slice()).len() == 0 {
        rows.push(LyricRow { lyric: i, text: String::new() });
        assert(row_views(rows@) =~= before + pieces(i as int, words@, width as nat));
        return;
    }
    let texts = cells::wrap_n_lines(words, width, usize::MAX);
    let ghost all = pieces(i as int, words@, width as nat);
    let mut k: usize = 0;
    while k < texts.len()
        invariant
            k <= texts@.len(),
            text::texts(texts@) == cells::wrapped(words@, width as nat, usize::MAX as nat),
            all == text::texts(texts@).map_values(
                |t: Seq<char>| RowView { lyric: i as int, text: t },
            ),
            row_views(rows@) =~= before + all.take(k as int),
        decreases texts@.len() - k,
    {
        let ghost so_far = row_views(rows@);
        let row = LyricRow { lyric: i, text: texts[k].as_str().to_owned() };
        assert(text::texts(texts@)[k as int] == texts@[k as int]@);
        assert(row@ == all[k as int]);
        rows.push(row);
        assert(row_views(rows@) =~= so_far.push(row@));
        k += 1;
    }
    assert(all.take(k as int) =~= all);
}

/// The words of a record, line by line.
pub open spec fn words_of(kind: lyrics::KindView) -> Seq<Seq<char>> {
    match kind {
        lyrics::KindView::Synced(lines) => lines.map_values(|l: crate::lrc::LineView| l.text),
        lyrics::KindView::Plain(lines) => lines,
        lyrics::KindView::Instrumental => Seq::empty(),
    }
}

/// Lays a record's words out in rows of `width` characters.
pub fn lyric_rows(found: &TrackLyrics, width: usize) -> (r: Vec<LyricRow>)
    ensures
        row_views(r@) == laid_out(words_of(found@.kind), width as nat),
{
    let mut rows: Vec<LyricRow> = Vec::new();
    let ghost words = words_of(found@.kind);
    assert(row_views(rows@) =~= laid_out(words.take(0), width as nat));
    match &found.kind {
        LyricsKind::Synced(lines) => {
            let mut i: usize = 0;
            while i < lines.len()
                invariant
                    i <= lines@.len(),
                    words == words_of(found@.kind),
                    found.kind matches LyricsKind::Synced(v) && v@ == lines@,
                    row_views(rows@) == laid_out(words.take(i as int), width as nat),
                decreases lines@.len() - i,
            {
                assert(words[i as int] == lines@[i as int].text@);
                assert(words.take(i + 1).drop_last() =~= words.take(i as int));
                add_pieces(&mut rows, i, lines[i].text.as_str(), width);
                i += 1;
            }
            assert(words.take(i as int) =~= words);
        },
        LyricsKind::Plain(lines) => {
            let mut i: usize = 0;
            while i < lines.len()
                invariant
                    i <= lines@.len(),
                    words == words_of(found@.kind),
                    found.kind matches LyricsKind::Plain(v) && v@ == lines@,
                    row_views(rows@) == laid_out(words.take(i as int), width as nat),
                decreases lines@.len() - i,
            {
                assert(words[i as int] == lines@[i as int]@);
                assert(words.take(i + 1).drop_last() =~= words.take(i as int));
                add_pieces(&mut rows, i, lines[i].as_str(), width);
                i += 1;
            }
            assert(words.take(i as int) =~= words);
        },
        LyricsKind::Instrumental => {
            assert(words =~= words.take(0));
        },
    }
    rows
}

/// Being a row of lyric `a`.
pub open spec fn is_of(a: int) -> spec_fn(RowView) -> bool {
    |r: RowView| r.lyric == a
}

/// The row the panel centres on: the first of the line that is sung.
pub open spec fn focus(rows: Seq<RowView>, active: Option<usize>) -> int {
    match active {
        Some(a) => match seqs::first_where(rows, is_of(a as int), 0) {
            Some(i) => i,
            None => 0,
        },
        None => 0,
    }
}

/// The mark of an interlude.
pub open spec fn interlude() -> Seq<char> {
    "♪ ♪ ♪"@
}

/// How one row is shown while lyric `active` is sung.
pub open spec fn row_spans(row: RowView, active: Option<usize>) -> Seq<panel::SpanView> {
    match active {
        None => seq![panel::span(row.text, Role::Dim)],
        Some(a) => if row.lyric == a {
            let words = if row.text.len() == 0 {
                interlude()
            } else {
                row.text
            };
            seq![panel::span(" "@ + words + " "@, Role::ActiveLyric)]
        } else if row.lyric - a == 1 || a - row.lyric == 1 {
            seq![panel::span(row.text, Role::Meta)]
        } else {
            seq![panel::span(row.text, Role::Dim)]
        },
    }
}

/// Row `idx` of the song, and a blank where the song has none.
pub open spec fn row_at(rows: Seq<RowView>, active: Option<usize>, idx: int) -> Seq<
    panel::SpanView,
> {
    if 0 <= idx < rows.len() {
        row_spans(rows[idx], active)
    } else {
        Seq::empty()
    }
}

/// `height` rows with the line that is sung in the middle, `scroll` rows away from
/// it. Beyond the song's ends there are blanks.
pub open spec fn synced_rows(
    rows: Seq<RowView>,
    active: Option<usize>,
    height: nat,
    scroll: int,
) -> Seq<Seq<panel::SpanView>> {
    let top = focus(rows, active) - (height - 1) / 2 + scroll;
    Seq::new(height, |i: int| row_at(rows, active, top + i))
}

/// The line that is sung stands on the middle row, the first and the last line of
/// a song no less than any other.
pub proof fn the_sung_line_is_centred(rows: Seq<RowView>, a: usize, height: nat)
    requires
        height > 0,
        exists|i: int| 0 <= i < rows.len() && #[trigger] rows[i].lyric == a,
    ensures
        ({
            let at = focus(rows, Some(a));
            &&& 0 <= at < rows.len()
            &&& rows[at].lyric == a
            &&& synced_rows(rows, Some(a), height, 0)[(height - 1) / 2] == row_spans(
                rows[at],
                Some(a),
            )
        }),
{
    seqs::lemma_first_where(rows, is_of(a as int), 0);
    let i = choose|i: int| 0 <= i < rows.len() && #[trigger] rows[i].lyric == a;
    assert(is_of(a as int)(rows[i]));
}

/// Only the rows of the line that is sung are highlighted.
pub proof fn only_the_sung_line_is_highlighted(
    rows: Seq<RowView>,
    active: Option<usize>,
    height: nat,
    scroll: int,
    i: int,
)
    requires
        0 <= i < height,
    ensures
        ({
            let idx = focus(rows, active) - (height - 1) / 2 + scroll + i;
            let shown = synced_rows(rows, active, height, scroll)[i];
            (exists|k: int| 0 <= k < shown.len() && #[trigger] shown[k].role == Role::ActiveLyric)
                == (0 <= idx < rows.len() && active is Some && rows[idx].lyric == active->0)
        }),
{
    let idx = focus(rows, active) - (height - 1) / 2 + scroll + i;
    let shown = synced_rows(rows, active, height, scroll)[i];
    if 0 <= idx < rows.len() {
        assert(shown.len() == 1);
        if active matches Some(a) && rows[idx].lyric == a {
            assert(shown[0].role == Role::ActiveLyric);
        }
    }
}

fn focus_of(rows: &[LyricRow], active: Option<usize>) -> (r: usize)
    ensures
        r == focus(row_views(rows@), active),
        r < rows@.len() || r == 0,
{
    let a: usize = match active {
        Some(a) => a,
        None => return 0,
    };
    let ghost vs = row_views(rows@);
    let mut i: usize = 0;
    while i < rows.len()
        invariant
            i <= rows@.len(),
            active == Some(a),
            vs == row_views(rows@),
            seqs::first_where(vs, is_of(a as int), 0) == seqs::first_where(
                vs,
                is_of(a as int),
                i as int,
            ),
        decreases rows@.len() - i,
    {
        assert(vs[i as int] == rows@[i as int]@);
        if rows[i].lyric == a {
            return i;
        }
        i += 1;
    }
    0
}

fn show_row(row: &LyricRow, active: Option<usize>) -> (r: Line)
    ensures
        r@ == row_spans(row@, active),
{
    let a: usize = match active {
        Some(a) => a,
        None => return Line::of(row.text.as_str(), Role::Dim),
    };
    if row.lyric == a {
        let mut words = " ".to_owned();
        if row.text.as_str().is_empty() {
            words.append("♪ ♪ ♪");
        } else {
            words.append(row.text.as_str());
        }
        words.append(" ");
        return Line::of(words.as_str(), Role::ActiveLyric);
    }
    let apart: usize = if row.lyric > a {
        row.lyric - a
    } else {
        a - row.lyric
    };
    Line::of(
        row.text.as_str(),
        if apart == 1 {
            Role::Meta
        } else {
            Role::Dim
        },
    )
}

/// The timed lyrics panel.
pub fn synced_view(rows: &[LyricRow], active: Option<usize>, height: u16, scroll: i32) -> (r: Vec<
    Line,
>)
    ensures
        panel::line_views(r@) == synced_rows(
            row_views(rows@),
            active,
            height as nat,
            scroll as int,
        ),
        r@.len() == height,
{
    let ghost vs = row_views(rows@);
    let mut out: Vec<Line> = Vec::new();
    if height == 0 {
        assert(panel::line_views(out@) =~= synced_rows(vs, active, 0, scroll as int));
        return out;
    }
    let top: i128 = focus_of(rows, active) as i128 - ((height - 1) / 2) as i128 + scroll as i128;
    let n: usize = rows.len();
    let mut i: u16 = 0;
    while i < height
        invariant
            i <= height,
            vs == row_views(rows@),
            n == rows@.len(),
            top == focus(vs, active) - (height - 1) / 2 + scroll,
            -0x1_0000_0000 <= top <= usize::MAX + 0x1_0000_0000,
            panel::line_views(out@) == synced_rows(
                vs,
                active,
                height as nat,
                scroll as int,
            ).take(i as int),
        decreases height - i,
    {
        let ghost so_far = panel::line_views(out@);
        let idx: i128 = top + i as i128;
        let line = if 0 <= idx && idx < n as i128 {
            assert(vs[idx as int] == rows@[idx as int]@);
            show_row(&rows[idx as usize], active)
        } else {
            Line::blank()
        };
        assert(line@ == row_at(vs, active, top + i));
        out.push(line);
        assert(panel::line_views(out@) =~= so_far.push(line@));
        i += 1;
    }
    out
}

/// The first row of untimed lyrics that is shown: as far down as was scrolled, but
/// not past the end.
pub open spec fn plain_top(total: nat, height: nat, scroll: int) -> nat {
    let wanted: nat = if scroll > 0 {
        scroll as nat
    } else {
        0
    };
    let most: nat = if total > height {
        (total - height) as nat
    } else {
        0
    };
    if wanted < most {
        wanted
    } else {
        most
    }
}

/// The rows of untimed lyrics that are shown.
pub open spec fn plain_rows(rows: Seq<RowView>, height: nat, scroll: int) -> Seq<
    Seq<panel::SpanView>,
> {
    let top = plain_top(rows.len(), height, scroll);
    let shown = if rows.len() - top < height {
        (rows.len() - top) as nat
    } else {
        height
    };
    Seq::new(shown, |i: int| seq![panel::span(rows[top + i].text, Role::Meta)])
}

/// The untimed lyrics panel: the rows shown, and which is the first.
pub fn plain_view(rows: &[LyricRow], height: u16, scroll: i32) -> (r: (Vec<Line>, usize))
    ensures
        panel::line_views(r.0@) == plain_rows(row_views(rows@), height as nat, scroll as int),
        r.1 == plain_top(rows@.len(), height as nat, scroll as int),
{
    let total: usize = rows.len();
    let h: usize = height as usize;
    let wanted: usize = if scroll > 0 {
        scroll as usize
    } else {
        0
    };
    let most: usize = if total > h {
        total - h
    } else {
        0
    };
    let top: usize = if wanted < most {
        wanted
    } else {
        most
    };
    let shown: usize = if total - top < h {
        total - top
    } else {
        h
    };
    let ghost vs = row_views(rows@);
    let mut out: Vec<Line> = Vec::new();
    let mut i: usize = 0;
    while i < shown
        invariant
            i <= shown,
            vs == row_views(rows@),
            total == rows@.len(),
            top + shown <= total,
            panel::line_views(out@) =~= Seq::new(
                i as nat,
                |i: int| seq![panel::span(vs[top + i].text, Role::Meta)],
            ),
        decreases shown - i,
    {
        let ghost so_far = panel::line_views(out@);
        assert(vs[top + i] == rows@[top + i]@);
        let line = Line::of(rows[top + i].text.as_str(), Role::Meta);
        out.push(line);
        assert(panel::line_views(out@) =~= so_far.push(line@));
        i += 1;
    }
    (out, top)
}

/// Which record is in use, and how it came to be: the status beside the header.
pub open spec fn status_spans(
    badge: Option<panel::SpanView>,
    offset: Option<Seq<char>>,
    found: lyrics::TrackView,
) -> Seq<panel::SpanView> {
    let sep = panel::span(panel::SEP@, Role::Dim);
    let head = match badge {
        Some(b) => seq![b, sep],
        None => Seq::empty(),
    };
    let shift = match offset {
        Some(o) => seq![panel::span("offset "@ + o, Role::Warn), sep],
        None => Seq::empty(),
    };
    head + shift + seq![
        panel::span(found.track_name + " — "@ + found.artist_name, Role::Dim),
        panel::span(panel::SEP@ + "lrclib #"@ + text::decimal(found.id as nat), Role::Dim),
    ]
}

/// The status beside the lyrics header.
pub fn lyrics_status(found: &TrackLyrics, badge: Option<Span>, offset: Option<String>) -> (r: Line)
    ensures
        r@ == status_spans(
            match badge {
                Some(b) => Some(b@),
                None => None,
            },
            text::opt(offset),
            found@,
        ),
{
    let mut r = Line::blank();
    match &badge {
        Some(b) => {
            r.push(b.text.as_str(), b.role);
            r.push(panel::SEP, Role::Dim);
        },
        None => {},
    }
    match &offset {
        Some(o) => {
            let words = text::concat("offset ", o.as_str());
            r.push(words.as_str(), Role::Warn);
            r.push(panel::SEP, Role::Dim);
        },
        None => {},
    }
    let mut name = found.track_name.as_str().to_owned();
    name.append(" — ");
    name.append(found.artist_name.as_str());
    r.push(name.as_str(), Role::Dim);
    let mut id = panel::SEP.to_owned();
    id.append("lrclib #");
    id.append(text::show(found.id).as_str());
    r.push(id.as_str(), Role::Dim);
    assert(r@ =~= status_spans(
        match badge {
            Some(b) => Some(b@),
            None => None,
        },
        text::opt(offset),
        found@,
    ));
    r
}

/// What the panel says of a record without times: that there are none, or that they
/// were made for a recording of another length.
pub open spec fn plain_badge(timing_mismatch: bool) -> panel::SpanView {
    if timing_mismatch {
        panel::span("¶ timing differs"@, Role::Warn)
    } else {
        panel::span("¶ unsynced"@, Role::Warn)
    }
}

/// The badge of a record that is shown without times.
pub fn untimed_badge(found: &TrackLyrics) -> (r: Span)
    ensures
        r@ == plain_badge(found.timing_mismatch),
{
    if found.timing_mismatch {
        panel::styled("¶ timing differs", Role::Warn)
    } else {
        panel::styled("¶ unsynced", Role::Warn)
    }
}

/// One row of the list of records.
pub struct PickerRow {
    /// Whether the record is in use.
    pub badge: Span,
    pub name: Line,
    pub length: Span,
}

/// The content of a [`PickerRow`].
pub struct PickerRowView {
    pub badge: panel::SpanView,
    pub name: Seq<panel::SpanView>,
    pub length: panel::SpanView,
}

impl View for PickerRow {
    type V = PickerRowView;

    open spec fn view(&self) -> PickerRowView {
        PickerRowView { badge: self.badge@, name: self.name@, length: self.length@ }
    }
}

/// The contents of the list.
pub open spec fn picker_views(rows: Seq<PickerRow>) -> Seq<PickerRowView> {
    rows.map_values(|r: PickerRow| r@)
}

/// The first row: back to the best match.
pub open spec fn automatic_row(overridden: bool) -> PickerRowView {
    PickerRowView {
        badge: panel::span(
            if overridden {
                ""@
            } else {
                "IN USE"@
            },
            Role::Playing,
        ),
        name: seq![panel::span("Automatic (best match)"@, Role::Key)],
        length: panel::span(""@, Role::Plain),
    }
}

/// The mark of a record, by what its words are.
pub open spec fn kind_mark(kind: lyrics::KindView) -> panel::SpanView {
    match kind {
        lyrics::KindView::Synced(_) => panel::span("♪ "@, Role::Accent),
        lyrics::KindView::Plain(_) => panel::span("¶ "@, Role::Warn),
        lyrics::KindView::Instrumental => panel::span("· "@, Role::Dim),
    }
}

/// A part of a name behind its separator, where there is one.
pub open spec fn and_then(part: Seq<char>, role: Role) -> Seq<panel::SpanView> {
    if part.len() == 0 {
        Seq::empty()
    } else {
        seq![panel::span(panel::SEP@, Role::Dim), panel::span(part, role)]
    }
}

/// Whether a record is in use, by choice or as the best match.
pub open spec fn use_badge(in_use: bool, overridden: bool) -> panel::SpanView {
    if !in_use {
        panel::span(""@, Role::Dim)
    } else if overridden {
        panel::span("IN USE"@, Role::Playing)
    } else {
        panel::span("AUTO"@, Role::Accent)
    }
}

/// The length of a record, marked by how it fits the track's.
pub open spec fn length_span(c: lyrics::TrackView, track: Option<int>) -> panel::SpanView {
    let close = match lyrics::length_delta(c.duration, track) {
        Some(d) => d <= 2_000_000_000,
        None => false,
    };
    panel::span(
        match c.duration {
            Some(d) => cells::duration(cells::seconds_of(d)),
            None => "—"@,
        },
        if close {
            Role::Playing
        } else if c.timing_mismatch {
            Role::Warn
        } else {
            Role::Dim
        },
    )
}

/// The row of one record.
pub open spec fn record_row(
    c: lyrics::TrackView,
    current: Option<u64>,
    overridden: bool,
    track: Option<int>,
    name_w: nat,
) -> PickerRowView {
    PickerRowView {
        badge: use_badge(current == Some(c.id), overridden),
        name: seq![
            kind_mark(c.kind),
            panel::span(cells::cut(c.track_name, name_w), Role::Primary),
        ] + and_then(c.artist_name, Role::Meta) + and_then(c.album_name, Role::Dim),
        length: length_span(c, track),
    }
}

/// The list to choose from: the best match, then every record.
pub open spec fn listing(
    items: Seq<lyrics::TrackView>,
    current: Option<u64>,
    overridden: bool,
    track: Option<int>,
    name_w: nat,
) -> Seq<PickerRowView> {
    seq![automatic_row(overridden)] + items.map_values(
        |c: lyrics::TrackView| record_row(c, current, overridden, track, name_w),
    )
}

fn picker_row(
    c: &TrackLyrics,
    current_id: Option<u64>,
    overridden: bool,
    track_length: Option<i64>,
    name_w: usize,
) -> (r: PickerRow)
    ensures
        r@ == record_row(
            c@,
            current_id,
            overridden,
            lyrics::opt_time(track_length),
            name_w as nat,
        ),
{
    let mut name = Line::blank();
    match &c.kind {
        LyricsKind::Synced(_) => name.push("♪ ", Role::Accent),
        LyricsKind::Plain(_) => name.push("¶ ", Role::Warn),
        LyricsKind::Instrumental => name.push("· ", Role::Dim),
    }
    let title = cells::truncate_line(c.track_name.as_str(), name_w);
    name.push(title.as_str(), Role::Primary);
    if !c.artist_name.as_str().is_empty() {
        name.push(panel::SEP, Role::Dim);
        name.push(c.artist_name.as_str(), Role::Meta);
    }
    if !c.album_name.as_str().is_empty() {
        name.push(panel::SEP, Role::Dim);
        name.push(c.album_name.as_str(), Role::Dim);
    }
    let close = match c.duration_delta(track_length) {
        Some(d) => d <= 2_000_000_000,
        None => false,
    };
    let role = if close {
        Role::Playing
    } else if c.timing_mismatch {
        Role::Warn
    } else {
        Role::Dim
    };
    let length = match c.duration {
        Some(d) => {
            let words = cells::fmt_secs(d);
            panel::styled(words.as_str(), role)
        },
        None => panel::styled("—", role),
    };
    let in_use = match current_id {
        Some(id) => id == c.id,
        None => false,
    };
    let badge = if !in_use {
        panel::styled("", Role::Dim)
    } else if overridden {
        panel::styled("IN USE", Role::Playing)
    } else {
        panel::styled("AUTO", Role::Accent)
    };
    let r = PickerRow { badge, name, length };
    assert(r@.name =~= record_row(
        c@,
        current_id,
        overridden,
        lyrics::opt_time(track_length),
        name_w as nat,
    ).name);
    r
}

/// The rows of the list to choose from.
pub fn picker_rows(
    items: &[TrackLyrics],
    current_id: Option<u64>,
    overridden: bool,
    track_length: Option<i64>,
    name_w: usize,
) -> (r: Vec<PickerRow>)
    ensures
        picker_views(r@) == listing(
            lyrics::track_views(items@),
            current_id,
            overridden,
            lyrics::opt_time(track_length),
            name_w as nat,
        ),
{
    let ghost all = listing(
        lyrics::track_views(items@),
        current_id,
        overridden,
        lyrics::opt_time(track_length),
        name_w as nat,
    );
    let mut out: Vec<PickerRow> = Vec::new();
    let first = PickerRow {
        badge: panel::styled(
            if overridden {
                ""
            } else {
                "IN USE"
            },
            Role::Playing,
        ),
        name: Line::of("Automatic (best match)", Role::Key),
        length: panel::styled("", Role::Plain),
    };
    out.push(first);
    assert(picker_views(out@) =~= all.take(1));
    let mut i: usize = 0;
    while i < items.len()
        invariant
            i <= items@.len(),
            all == listing(
                lyrics::track_views(items@),
                current_id,
                overridden,
                lyrics::opt_time(track_length),
                name_w as nat,
            ),
            picker_views(out@) =~= all.take(i + 1),
        decreases items@.len() - i,
    {
        let ghost so_far = picker_views(out@);
        let row = picker_row(&items[i], current_id, overridden, track_length, name_w);
        assert(lyrics::track_views(items@)[i as int] == items@[i as int]@);
        assert(all[i + 1] == row@);
        out.push(row);
        assert(picker_views(out@) =~= so_far.push(row@));
        i += 1;
    }
    assert(all.take(i + 1) =~= all);
    out
}

/// Without a choice the best match is what is in use, and no record's row says so;
/// with one, only rows of the record that was chosen do.
pub proof fn at_most_the_choice_is_in_use(
    items: Seq<lyrics::TrackView>,
    current: Option<u64>,
    overridden: bool,
    track: Option<int>,
    name_w: nat,
    i: int,
)
    requires
        0 <= i < items.len(),
    ensures
        listing(items, current, overridden, track, name_w)[i + 1].badge.text == "IN USE"@ ==> (
        overridden && current == Some(items[i].id)),
        (listing(items, current, overridden, track, name_w)[0].badge.text == "IN USE"@)
            == !overridden,
{
    reveal_strlit("");
    reveal_strlit("IN USE");
    reveal_strlit("AUTO");
    let all = listing(items, current, overridden, track, name_w);
    assert(all[i + 1] == record_row(items[i], current, overridden, track, name_w));
    assert(""@.len() == 0 && "AUTO"@.len() == 4 && "IN USE"@.len() == 6);
}

/// Being record `id`.
pub open spec fn has_id(id: u64) -> spec_fn(lyrics::TrackView) -> bool {
    |c: lyrics::TrackView| c.id == id
}

/// The row the list opens on: what is in use.
pub open spec fn opening_row(
    items: Seq<lyrics::TrackView>,
    on_screen: Option<u64>,
    overridden: bool,
) -> int {
    match on_screen {
        Some(id) if overridden => match seqs::first_where(items, has_id(id), 0) {
            Some(i) => i + 1,
            None => 0,
        },
        _ => 0,
    }
}

/// The row the list opens on.
pub fn initial_picker_row(items: &[TrackLyrics], on_screen: Option<u64>, overridden: bool) -> (r:
    usize)
    ensures
        r == opening_row(lyrics::track_views(items@), on_screen, overridden),
{
    if !overridden {
        return 0;
    }
    let id: u64 = match on_screen {
        Some(id) => id,
        None => return 0,
    };
    let ghost vs = lyrics::track_views(items@);
    let n: usize = items.len();
    let mut i: usize = 0;
    while i < n
        invariant
            i <= n,
            n == items@.len(),
            overridden,
            on_screen == Some(id),
            vs == lyrics::track_views(items@),
            seqs::first_where(vs, has_id(id), 0) == seqs::first_where(vs, has_id(id), i as int),
        decreases n - i,
    {
        assert(vs[i as int] == items@[i as int]@);
        if items[i].id == id {
            return i + 1;
        }
        i += 1;
    }
    0
}

/// How many lines have begun at `t`.
pub open spec fn begun(lines: Seq<LyricLine>, t: int) -> nat
    decreases lines.len(),
{
    if lines.len() == 0 {
        0
    } else if lines.last().at <= t {
        lines.len()
    } else {
        begun(lines.drop_last(), t)
    }
}

/// The line that is sung at `t`: the last that has begun.
pub open spec fn sung(lines: Seq<LyricLine>, t: int) -> Option<usize> {
    if begun(lines, t) == 0 {
        None
    } else {
        Some((begun(lines, t) - 1) as usize)
    }
}

/// A line is sung from its start until the next one's.
pub proof fn sung_is_active(lines: Seq<LyricLine>, t: int, i: int)
    requires
        lrc::timed(lines),
        lrc::is_active(lines, t, i),
    ensures
        begun(lines, t) == i + 1,
    decreases lines.len(),
{
    let n = lines.len() as int;
    if lines.last().at <= t {
        if i + 1 < n {
            assert(lines[i + 1].at <= lines[n - 1].at);
        }
    } else {
        let front = lines.drop_last();
        assert(i < n - 1);
        assert(lrc::timed(front));
        if i + 1 < n - 1 {
            assert(front[i + 1] == lines[i + 1]);
        }
        assert(lrc::is_active(front, t, i));
        sung_is_active(front, t, i);
    }
}

/// Before the first line begins nothing is sung.
pub proof fn nothing_is_sung_in_the_intro(lines: Seq<LyricLine>, t: int)
    requires
        lrc::timed(lines),
        lines.len() == 0 || t < lines[0].at,
    ensures
        sung(lines, t) is None,
    decreases lines.len(),
{
    if lines.len() > 0 {
        let n = lines.len() as int;
        if n > 1 {
            assert(lines[0].at <= lines[n - 1].at);
        }
        let front = lines.drop_last();
        assert(lrc::timed(front));
        nothing_is_sung_in_the_intro(front, t);
    }
}

/// The line that is sung at `t`.
pub fn sung_line(lines: &[LyricLine], t: i64) -> (r: Option<usize>)
    requires
        lrc::timed(lines@),
    ensures
        r == sung(lines@, t as int),
{
    let r = lrc::active_index(lines, t);
    proof {
        match r {
            Some(i) => sung_is_active(lines@, t as int, i as int),
            None => nothing_is_sung_in_the_intro(lines@, t as int),
        }
    }
    r
}

} // verus!
