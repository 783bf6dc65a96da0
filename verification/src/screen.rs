//! What every panel of the screen says.

use crate::cells;
use crate::config;
use crate::filter;
use crate::library;
use crate::library::Track;
use crate::lrc;
use crate::lyric_panel;
use crate::lyric_panel::PickerRow;
use crate::lyrics;
use crate::lyrics::{LyricsKind, TrackLyrics};
use crate::panel;
use crate::panel::{Line, Rect, Role, Span};
use crate::playback;
use crate::playback::AudioState;
use crate::player;
use crate::text;
use crate::ui;
use crate::ui::{App, LyricsEntry, Panel};
use vstd::prelude::*;

verus! {

// ── hints ────────────────────────────────────────────────────────────────────

/// The hints for what is open, the most useful first.
pub open spec fn hints_for(v: ui::AppView) -> Seq<(Seq<char>, Seq<char>)> {
    if v.picker is Some {
        seq![("j/k"@, "select"@), ("↵"@, "use"@), ("Esc"@, "cancel"@), ("spc"@, "pause"@)]
    } else if v.lyrics_mode {
        seq![
            ("y"@, "close"@),
            ("c"@, "source"@),
            ("spc"@, "pause"@),
            ("p/n"@, "skip"@),
            ("j/k"@, "scroll"@),
            ("?"@, "keys"@),
        ]
    } else if v.panel == Panel::Playlists {
        seq![
            ("j/k"@, "nav"@),
            ("l/↵"@, "open"@),
            ("spc"@, "pause"@),
            ("?"@, "keys"@),
            ("q"@, "quit"@),
        ]
    } else if !v.show_queue {
        seq![
            ("↵"@, "play"@),
            ("spc"@, "pause"@),
            ("/"@, "filter"@),
            ("a"@, "+queue"@),
            ("o"@, "queue"@),
            ("y"@, "lyrics"@),
            ("p/n"@, "skip"@),
            ("?"@, "keys"@),
        ]
    } else {
        seq![
            ("↵"@, "play"@),
            ("spc"@, "pause"@),
            ("d"@, "remove"@),
            ("o"@, "songs"@),
            ("y"@, "lyrics"@),
            ("p/n"@, "skip"@),
            ("?"@, "keys"@),
        ]
    }
}

/// The hints for what is open.
pub fn hints(app: &App) -> (r: Vec<(&'static str, &'static str)>)
    ensures
        panel::pairs(r@) == hints_for(app@),
{
    let r: Vec<(&'static str, &'static str)> = if app.lyrics_picker().is_some() {
        vec![("j/k", "select"), ("↵", "use"), ("Esc", "cancel"), ("spc", "pause")]
    } else if app.lyrics_mode() {
        vec![
            ("y", "close"),
            ("c", "source"),
            ("spc", "pause"),
            ("p/n", "skip"),
            ("j/k", "scroll"),
            ("?", "keys"),
        ]
    } else if app.active_panel() == Panel::Playlists {
        vec![
            ("j/k", "nav"),
            ("l/↵", "open"),
            ("spc", "pause"),
            ("?", "keys"),
            ("q", "quit"),
        ]
    } else if !app.show_queue() {
        vec![
            ("↵", "play"),
            ("spc", "pause"),
            ("/", "filter"),
            ("a", "+queue"),
            ("o", "queue"),
            ("y", "lyrics"),
            ("p/n", "skip"),
            ("?", "keys"),
        ]
    } else {
        vec![
            ("↵", "play"),
            ("spc", "pause"),
            ("d", "remove"),
            ("o", "songs"),
            ("y", "lyrics"),
            ("p/n", "skip"),
            ("?", "keys"),
        ]
    };
    assert(panel::pairs(r@) =~= hints_for(app@));
    r
}

/// The bottom line: the query that is typed, else what is said, else hints.
pub open spec fn help_spans(v: ui::AppView, width: nat) -> Seq<panel::SpanView> {
    if v.filter_mode {
        let used = cells::str_width(v.filter) + 2;
        seq![panel::span("/"@ + v.filter, Role::Warn), panel::span("█"@, Role::Warn)]
            + panel::fitted(
            seq![("↵"@, "confirm"@), ("Esc"@, "cancel"@)],
            if used <= width {
                (width - used) as nat
            } else {
                0
            },
        )
    } else {
        match v.notification {
            Some((message, _)) => seq![
                panel::span("✓ "@, Role::Success),
                panel::span(message, Role::Success),
            ],
            None => panel::fitted(hints_for(v), width),
        }
    }
}

/// The bottom line, in `width` columns.
pub fn help_line(app: &App, width: u16) -> (r: Line)
    ensures
        r@ == help_spans(app@, width as nat),
{
    if app.filter_mode() {
        let typed = text::string_of(app.filter());
        let query = text::concat("/", typed.as_str());
        let mut r = Line::of(query.as_str(), Role::Warn);
        r.push("█", Role::Warn);
        let used: u128 = cells::width_of(typed.as_str()) as u128 + 2;
        let room: usize = if used <= width as u128 {
            (width as u128 - used) as usize
        } else {
            0
        };
        let keys: Vec<(&str, &str)> = vec![("↵", "confirm"), ("Esc", "cancel")];
        assert(panel::pairs(keys@) =~= seq![("↵"@, "confirm"@), ("Esc"@, "cancel"@)]);
        r.extend(panel::fit_hints(keys.as_slice(), room));
        assert(r@ =~= help_spans(app@, width as nat));
        return r;
    }
    match app.notification() {
        Some(message) => {
            let mut r = Line::of("✓ ", Role::Success);
            r.push(message, Role::Success);
            r
        },
        None => panel::fit_hints(hints(app).as_slice(), width as usize),
    }
}

// ── the overview of keys ─────────────────────────────────────────────────────

/// Every key and what it does; an empty pair is a gap.
pub open spec fn all_keys() -> Seq<(Seq<char>, Seq<char>)> {
    seq![
        ("j / k"@, "Move down / up"@),
        ("h / l"@, "Switch panel"@),
        ("↵"@, "Open playlist · play song"@),
        ("/"@, "Filter by title or artist"@),
        ("Esc"@, "Clear filter · back · close"@),
        (""@, ""@),
        ("space"@, "Pause / resume"@),
        ("p / n"@, "Previous / next in queue"@),
        ("← / →"@, "Seek ∓5s"@),
        ("↑ / ↓"@, "Volume ±5"@),
        ("m"@, "Mute / unmute"@),
        ("t"@, "Cycle play mode"@),
        (""@, ""@),
        ("a"@, "Add selected song to queue"@),
        ("d"@, "Remove selected queue entry"@),
        ("o"@, "Toggle queue / songs"@),
        (""@, ""@),
        ("y"@, "Toggle lyrics"@),
        ("c"@, "Choose lyrics source (in lyrics)"@),
        ("r"@, "Retry lyrics (in lyrics)"@),
        (""@, ""@),
        ("?"@, "Close this help"@),
        ("q  ·  Ctrl+C"@, "Quit"@),
    ]
}

fn keys() -> (r: Vec<(&'static str, &'static str)>)
    ensures
        panel::pairs(r@) == all_keys(),
        r@.len() == 23,
{
    let r: Vec<(&'static str, &'static str)> = vec![
        ("j / k", "Move down / up"),
        ("h / l", "Switch panel"),
        ("↵", "Open playlist · play song"),
        ("/", "Filter by title or artist"),
        ("Esc", "Clear filter · back · close"),
        ("", ""),
        ("space", "Pause / resume"),
        ("p / n", "Previous / next in queue"),
        ("← / →", "Seek ∓5s"),
        ("↑ / ↓", "Volume ±5"),
        ("m", "Mute / unmute"),
        ("t", "Cycle play mode"),
        ("", ""),
        ("a", "Add selected song to queue"),
        ("d", "Remove selected queue entry"),
        ("o", "Toggle queue / songs"),
        ("", ""),
        ("y", "Toggle lyrics"),
        ("c", "Choose lyrics source (in lyrics)"),
        ("r", "Retry lyrics (in lyrics)"),
        ("", ""),
        ("?", "Close this help"),
        ("q  ·  Ctrl+C", "Quit"),
    ];
    assert(panel::pairs(r@) =~= all_keys());
    r
}

/// The widest of the first `n` keys.
pub open spec fn widest_key(items: Seq<(Seq<char>, Seq<char>)>, n: nat) -> usize
    decreases n,
{
    if n == 0 {
        0
    } else {
        let w = cells::str_width(items[n - 1].0);
        let before = widest_key(items, (n - 1) as nat);
        if w > before {
            w
        } else {
            before
        }
    }
}

/// One line of the overview: the key to the right of its column, then the words.
pub open spec fn key_line(key: Seq<char>, desc: Seq<char>, key_w: nat) -> Seq<panel::SpanView> {
    if key.len() == 0 {
        Seq::empty()
    } else {
        seq![
            panel::span(cells::right_aligned(key, key_w), Role::Key),
            panel::span("   "@, Role::Dim),
            panel::span(desc, Role::Dim),
        ]
    }
}

/// The lines of the overview.
pub open spec fn key_lines() -> Seq<Seq<panel::SpanView>> {
    all_keys().map_values(
        |p: (Seq<char>, Seq<char>)|
            key_line(p.0, p.1, widest_key(all_keys(), all_keys().len()) as nat),
    )
}

/// The lines of the overview of keys.
pub fn keymap_lines() -> (r: Vec<Line>)
    ensures
        panel::line_views(r@) == key_lines(),
{
    let items = keys();
    let ghost all = all_keys();
    let n: usize = items.len();
    let mut key_w: usize = 0;
    let mut i: usize = 0;
    while i < n
        invariant
            i <= n,
            n == items@.len(),
            all == panel::pairs(items@),
            key_w == widest_key(all, i as nat),
        decreases n - i,
    {
        let w: usize = cells::width_of(items[i].0);
        assert(all[i as int].0 == items@[i as int].0@);
        if w > key_w {
            key_w = w;
        }
        i += 1;
    }
    let mut out: Vec<Line> = Vec::new();
    let mut k: usize = 0;
    while k < n
        invariant
            k <= n,
            n == items@.len(),
            all == panel::pairs(items@),
            all == all_keys(),
            key_w == widest_key(all, all.len()),
            panel::line_views(out@) =~= key_lines().take(k as int),
        decreases n - k,
    {
        let (key, desc) = items[k];
        assert(all[k as int] == (key@, desc@));
        let ghost so_far = panel::line_views(out@);
        let line = if key.is_empty() {
            Line::blank()
        } else {
            let wide = cells::align_right(key, key_w);
            let mut line = Line::of(wide.as_str(), Role::Key);
            line.push("   ", Role::Dim);
            line.push(desc, Role::Dim);
            line
        };
        assert(line@ =~= key_line(key@, desc@, key_w as nat));
        assert(key_lines()[k as int] == line@);
        out.push(line);
        assert(panel::line_views(out@) =~= so_far.push(line@));
        k += 1;
    }
    assert(key_lines().take(n as int) =~= key_lines());
    out
}

/// The columns and rows that the overview takes of a screen.
pub fn keymap_size(width: u16, height: u16) -> (r: (u16, u16))
    ensures
        r.0 == if width < 50 {
            if width < 4 {
                0
            } else {
                width - 4
            }
        } else {
            46
        },
        r.1 == if height < 29 {
            if height < 2 {
                0
            } else {
                height - 2
            }
        } else {
            27
        },
{
    let w: u16 = width.saturating_sub(4);
    let h: u16 = height.saturating_sub(2);
    (
        if w < 46 {
            w
        } else {
            46
        },
        if h < 27 {
            h
        } else {
            27
        },
    )
}

// ── lists ────────────────────────────────────────────────────────────────────

/// A row of a list: its text, and a number or a length at its right edge.
pub struct TableRow {
    pub left: Line,
    pub right: Span,
}

/// The content of a [`TableRow`].
pub struct TableRowView {
    pub left: Seq<panel::SpanView>,
    pub right: panel::SpanView,
}

impl View for TableRow {
    type V = TableRowView;

    open spec fn view(&self) -> TableRowView {
        TableRowView { left: self.left@, right: self.right@ }
    }
}

/// The contents of a list's rows.
pub open spec fn table_views(rows: Seq<TableRow>) -> Seq<TableRowView> {
    rows.map_values(|r: TableRow| r@)
}

/// What stands below a list's header.
pub enum Body {
    /// Something is being fetched.
    Loading,
    /// A message in the middle.
    Message(Vec<Line>),
    Rows(Vec<TableRow>),
}

/// The content of a [`Body`].
pub enum BodyView {
    Loading,
    Message(Seq<Seq<panel::SpanView>>),
    Rows(Seq<TableRowView>),
}

impl View for Body {
    type V = BodyView;

    open spec fn view(&self) -> BodyView {
        match self {
            Body::Loading => BodyView::Loading,
            Body::Message(lines) => BodyView::Message(panel::line_views(lines@)),
            Body::Rows(rows) => BodyView::Rows(table_views(rows@)),
        }
    }
}

/// A list with its header.
pub struct ListPanel {
    pub label: String,
    pub status: Option<Line>,
    pub focused: bool,
    pub body: Body,
}

/// The content of a [`ListPanel`].
pub struct ListPanelView {
    pub label: Seq<char>,
    pub status: Option<Seq<panel::SpanView>>,
    pub focused: bool,
    pub body: BodyView,
}

impl View for ListPanel {
    type V = ListPanelView;

    open spec fn view(&self) -> ListPanelView {
        ListPanelView {
            label: self.label@,
            status: panel::opt_line(self.status),
            focused: self.focused,
            body: self.body@,
        }
    }
}

fn add_line(out: &mut Vec<Line>, line: Line)
    ensures
        panel::line_views(final(out)@) == panel::line_views(old(out)@).push(line@),
{
    out.push(line);
    assert(panel::line_views(out@) =~= panel::line_views(old(out)@).push(line@));
}

fn no_lines() -> (r: Vec<Line>)
    ensures
        panel::line_views(r@) == Seq::<Seq<panel::SpanView>>::empty(),
{
    let r: Vec<Line> = Vec::new();
    assert(panel::line_views(r@) =~= Seq::<Seq<panel::SpanView>>::empty());
    r
}

fn one_line(line: Line) -> (r: Vec<Line>)
    ensures
        panel::line_views(r@) == seq![line@],
{
    let mut r = no_lines();
    add_line(&mut r, line);
    r
}

/// A headline, a gap and a last line.
fn message(head: Line, last: Line) -> (r: Vec<Line>)
    ensures
        panel::line_views(r@) == seq![head@, Seq::<panel::SpanView>::empty(), last@],
{
    let mut r = one_line(head);
    add_line(&mut r, Line::blank());
    add_line(&mut r, last);
    r
}

/// What is said where there is no playlist.
pub open spec fn no_playlists() -> Seq<Seq<panel::SpanView>> {
    seq![
        seq![panel::span("No playlists found"@, Role::Warn)],
        Seq::empty(),
        seq![panel::span("Your session may have expired."@, Role::Dim)],
        Seq::empty(),
        panel::hint_spans("r"@, "re-authenticate"@) + seq![panel::span(panel::SEP@, Role::Dim)]
            + panel::hint_spans("q"@, "quit"@),
    ]
}

/// The row of playlist `i`.
pub open spec fn playlist_row(v: ui::AppView, i: int) -> TableRowView {
    let playing = v.player.playing matches Some(t) && t.0 == i;
    TableRowView {
        left: seq![
            panel::span(
                v.library[i].playlist.title@,
                if playing {
                    Role::Playing
                } else {
                    Role::Primary
                },
            ),
        ],
        right: panel::span(text::decimal(v.library[i].songs@.len()), Role::Dim),
    }
}

/// The playlists.
pub open spec fn playlists_shown(v: ui::AppView) -> ListPanelView {
    ListPanelView {
        label: "Playlists"@,
        status: if v.library.len() > 0 {
            Some(seq![panel::span(text::decimal(v.library.len()), Role::Dim)])
        } else {
            None
        },
        focused: v.panel == Panel::Playlists,
        body: if v.library.len() == 0 {
            BodyView::Message(no_playlists())
        } else {
            BodyView::Rows(Seq::new(v.library.len(), |i: int| playlist_row(v, i)))
        },
    }
}

/// The playlists panel.
pub fn playlists_panel(app: &App) -> (r: ListPanel)
    ensures
        r@ == playlists_shown(app@),
{
    let ghost v = app@;
    let focused = app.active_panel() == Panel::Playlists;
    let entries = app.library().entries();
    let n: usize = entries.len();
    if n == 0 {
        let mut lines = one_line(Line::of("No playlists found", Role::Warn));
        add_line(&mut lines, Line::blank());
        add_line(&mut lines, Line::of("Your session may have expired.", Role::Dim));
        add_line(&mut lines, Line::blank());
        add_line(&mut lines, panel::hint_pair("r", "re-authenticate", "q", "quit"));
        let r = ListPanel {
            label: "Playlists".to_owned(),
            status: None,
            focused,
            body: Body::Message(lines),
        };
        assert(r@.body->Message_0 =~= no_playlists());
        return r;
    }
    let mut rows: Vec<TableRow> = Vec::new();
    let mut i: usize = 0;
    while i < n
        invariant
            i <= n,
            n == v.library.len(),
            v == app@,
            entries@ == v.library,
            table_views(rows@) =~= Seq::new(i as nat, |i: int| playlist_row(v, i)),
        decreases n - i,
    {
        let ghost so_far = table_views(rows@);
        let playing = match app.player().playing() {
            Some(t) => t.0 == i,
            None => false,
        };
        let count = text::show(entries[i].songs.len() as u64);
        let row = TableRow {
            left: Line::of(
                entries[i].playlist.title.as_str(),
                if playing {
                    Role::Playing
                } else {
                    Role::Primary
                },
            ),
            right: panel::styled(count.as_str(), Role::Dim),
        };
        assert(row@ == playlist_row(v, i as int));
        rows.push(row);
        assert(table_views(rows@) =~= so_far.push(row@));
        i += 1;
    }
    let count = text::show(n as u64);
    ListPanel {
        label: "Playlists".to_owned(),
        status: Some(Line::of(count.as_str(), Role::Dim)),
        focused,
        body: Body::Rows(rows),
    }
}

/// The status beside a list's header: the query with how much it leaves, else the
/// number of items.
pub open spec fn status_of_list(v: ui::AppView, shown: nat, total: nat) -> Option<
    Seq<panel::SpanView>,
> {
    if v.filter.len() > 0 {
        let query = seq![panel::span("/"@, Role::Warn), panel::span(v.filter, Role::Warn)];
        let caret = if v.filter_mode {
            seq![panel::span("█"@, Role::Warn)]
        } else {
            Seq::empty()
        };
        Some(
            query + caret + seq![
                panel::span("  "@ + text::decimal(shown) + "/"@ + text::decimal(total), Role::Dim),
            ],
        )
    } else if total > 0 {
        Some(seq![panel::span(text::decimal(total), Role::Dim)])
    } else {
        None
    }
}

/// The status beside a list's header.
pub fn list_status(app: &App, shown: usize, total: usize) -> (r: Option<Line>)
    ensures
        panel::opt_line(r) == status_of_list(app@, shown as nat, total as nat),
{
    if app.filter().len() > 0 {
        let typed = text::string_of(app.filter());
        let mut r = Line::of("/", Role::Warn);
        r.push(typed.as_str(), Role::Warn);
        if app.filter_mode() {
            r.push("█", Role::Warn);
        }
        let mut counts = "  ".to_owned();
        counts.append(text::show(shown as u64).as_str());
        counts.append("/");
        counts.append(text::show(total as u64).as_str());
        r.push(counts.as_str(), Role::Dim);
        assert(r@ =~= status_of_list(app@, shown as nat, total as nat)->0);
        return Some(r);
    }
    if total > 0 {
        let count = text::show(total as u64);
        Some(Line::of(count.as_str(), Role::Dim))
    } else {
        None
    }
}

/// The title shown for a track.
pub open spec fn shown_title(t: Option<Track>) -> Seq<char> {
    match t {
        Some(track) => match track.title {
            Some(s) => s@,
            None => "Unknown"@,
        },
        None => "Unknown"@,
    }
}

/// The artists shown for a track.
pub open spec fn shown_artists(t: Option<Track>) -> Seq<char> {
    match t {
        Some(track) => library::listed(track.artists@),
        None => Seq::empty(),
    }
}

/// The length shown for a track: as the service wrote it, else from its seconds.
pub open spec fn length_text(t: Track) -> Option<Seq<char>> {
    match t.duration {
        Some(s) => Some(s@),
        None => match t.duration_seconds {
            Some(n) => Some(cells::duration(n as nat)),
            None => None,
        },
    }
}

/// The length shown for a track.
pub fn track_duration(track: &Track) -> (r: Option<String>)
    ensures
        text::opt(r) == length_text(*track),
{
    match &track.duration {
        Some(s) => Some(s.as_str().to_owned()),
        None => match track.duration_seconds {
            Some(n) => Some(cells::fmt_duration(n as u64)),
            None => None,
        },
    }
}

/// The row of a track: a mark where it plays, its number, title and artists, and
/// its length.
pub open spec fn row_of_track(
    t: Option<Track>,
    number: nat,
    num_w: nat,
    playing: bool,
) -> TableRowView {
    TableRowView {
        left: seq![
            panel::span(
                if playing {
                    "♫ "@
                } else {
                    "  "@
                },
                Role::Playing,
            ),
            panel::span(cells::right_aligned(text::decimal(number), num_w) + "  "@, Role::Dim),
            panel::span(
                shown_title(t),
                if playing {
                    Role::Playing
                } else {
                    Role::Primary
                },
            ),
        ] + lyric_panel::and_then(shown_artists(t), Role::Meta),
        right: panel::span(
            match t {
                Some(track) => match length_text(track) {
                    Some(s) => s,
                    None => Seq::empty(),
                },
                None => Seq::empty(),
            },
            Role::Dim,
        ),
    }
}

/// A track that may be missing, as content.
pub open spec fn opt_ref(t: Option<&Track>) -> Option<Track> {
    match t {
        Some(x) => Some(*x),
        None => None,
    }
}

/// The row of a track.
pub fn track_row(track: Option<&Track>, number: usize, num_w: usize, playing: bool) -> (r: TableRow)
    ensures
        r@ == row_of_track(opt_ref(track), number as nat, num_w as nat, playing),
{
    let mut left = Line::of(
        if playing {
            "♫ "
        } else {
            "  "
        },
        Role::Playing,
    );
    let digits = text::show(number as u64);
    let mut place = cells::align_right(digits.as_str(), num_w);
    place.append("  ");
    left.push(place.as_str(), Role::Dim);
    let role = if playing {
        Role::Playing
    } else {
        Role::Primary
    };
    let mut artists = String::new();
    let mut length = String::new();
    match track {
        Some(t) => {
            match &t.title {
                Some(s) => left.push(s.as_str(), role),
                None => left.push("Unknown", role),
            }
            artists = t.artist_names();
            match track_duration(t) {
                Some(s) => {
                    length = s;
                },
                None => {},
            }
        },
        None => left.push("Unknown", role),
    }
    if !artists.as_str().is_empty() {
        left.push(panel::SEP, Role::Dim);
        left.push(artists.as_str(), Role::Meta);
    }
    let r = TableRow { left, right: panel::styled(length.as_str(), Role::Dim) };
    assert(r@.left =~= row_of_track(opt_ref(track), number as nat, num_w as nat, playing).left);
    assert(r@.right.text =~= row_of_track(
        opt_ref(track),
        number as nat,
        num_w as nat,
        playing,
    ).right.text);
    r
}

/// The columns that the numbers of a list of `n` take.
pub open spec fn number_width(n: nat) -> nat {
    text::decimal(n).len()
}

fn width_of_number(n: usize) -> (r: usize)
    ensures
        r == number_width(n as nat),
{
    let digits = text::show(n as u64);
    text::chars_of(digits.as_str()).len()
}

/// What is said where a query leaves nothing.
pub open spec fn nothing_matches(filter: Seq<char>) -> Seq<Seq<panel::SpanView>> {
    seq![
        seq![panel::span("Nothing matches /"@ + filter, Role::Warn)],
        Seq::empty(),
        panel::hint_spans("Esc"@, "clear filter"@),
    ]
}

fn say_nothing_matches(filter: &[char]) -> (r: Vec<Line>)
    ensures
        panel::line_views(r@) == nothing_matches(filter@),
{
    let typed = text::string_of(filter);
    let words = text::concat("Nothing matches /", typed.as_str());
    message(Line::of(words.as_str(), Role::Warn), panel::hint("Esc", "clear filter"))
}

/// The status beside a playlist's name: how many songs, and how long they take.
pub open spec fn playlist_status(e: library::PlaylistEntry) -> Seq<panel::SpanView> {
    let count = text::decimal(e.songs@.len()) + " songs"@;
    seq![
        panel::span(
            if e.total_duration_secs > 0 {
                count + panel::SEP@ + cells::hours(e.total_duration_secs as nat)
            } else {
                count
            },
            Role::Dim,
        ),
    ]
}

/// The row of song `i` of playlist `pl`.
pub open spec fn song_row(v: ui::AppView, pl: usize, i: usize) -> TableRowView {
    let songs = library::songs_at(v.library, pl as int);
    row_of_track(
        Some(songs[i as int]),
        i as nat + 1,
        number_width(songs.len()),
        v.player.playing == Some((pl, i)),
    )
}

/// The songs of the selected playlist.
pub open spec fn songs_shown(v: ui::AppView) -> ListPanelView {
    let entry = match v.list {
        Some(pl) if pl < v.library.len() => Some(v.library[pl as int]),
        _ => None,
    };
    let songs = match v.list {
        Some(pl) => library::songs_at(v.library, pl as int),
        None => Seq::empty(),
    };
    let shown = match v.list {
        Some(pl) => ui::songs_shown(v, pl),
        None => Seq::empty(),
    };
    ListPanelView {
        label: match entry {
            Some(e) => e.playlist.title@,
            None => "Songs"@,
        },
        status: if v.filter.len() > 0 {
            status_of_list(v, shown.len(), songs.len())
        } else {
            match entry {
                Some(e) => Some(playlist_status(e)),
                None => None,
            }
        },
        focused: v.panel == Panel::Songs,
        body: if v.list is Some && !(entry matches Some(e) && e.loaded) {
            BodyView::Loading
        } else if shown.len() > 0 {
            BodyView::Rows(Seq::new(shown.len(), |i: int| song_row(v, v.list->0, shown[i])))
        } else if songs.len() == 0 {
            BodyView::Message(seq![seq![panel::span("This playlist is empty"@, Role::Dim)]])
        } else {
            BodyView::Message(nothing_matches(v.filter))
        },
    }
}

fn describe(e: &library::PlaylistEntry) -> (r: Line)
    ensures
        r@ == playlist_status(*e),
{
    let mut words = text::show(e.songs.len() as u64);
    words.append(" songs");
    if e.total_duration_secs > 0 {
        words.append(panel::SEP);
        words.append(cells::fmt_hours(e.total_duration_secs).as_str());
    }
    let r = Line::of(words.as_str(), Role::Dim);
    assert(r@ =~= playlist_status(*e));
    r
}

fn song_rows(app: &App, pl: usize, shown: &Vec<usize>) -> (r: Vec<TableRow>)
    requires
        forall|i: int|
            0 <= i < shown@.len() ==> #[trigger] shown@[i] < library::songs_at(
                app@.library,
                pl as int,
            ).len(),
    ensures
        table_views(r@) == Seq::new(shown@.len(), |i: int| song_row(app@, pl, shown@[i])),
{
    let ghost v = app@;
    let songs = app.library().songs(pl);
    let num_w: usize = width_of_number(songs.len());
    let mut rows: Vec<TableRow> = Vec::new();
    let mut k: usize = 0;
    while k < shown.len()
        invariant
            k <= shown@.len(),
            v == app@,
            songs@ == library::songs_at(v.library, pl as int),
            num_w == number_width(songs@.len()),
            forall|i: int| 0 <= i < shown@.len() ==> #[trigger] shown@[i] < songs@.len(),
            table_views(rows@) =~= Seq::new(k as nat, |i: int| song_row(v, pl, shown@[i])),
        decreases shown@.len() - k,
    {
        let ghost so_far = table_views(rows@);
        let i: usize = shown[k];
        let n: usize = songs.len();
        let playing = match app.player().playing() {
            Some(t) => t.0 == pl && t.1 == i,
            None => false,
        };
        let row = track_row(Some(&songs[i]), i + 1, num_w, playing);
        assert(row@ == song_row(v, pl, i));
        rows.push(row);
        assert(table_views(rows@) =~= so_far.push(row@));
        k += 1;
    }
    rows
}

/// The songs panel.
pub fn songs_panel(app: &App) -> (r: ListPanel)
    ensures
        r@ == songs_shown(app@),
{
    let focused = app.active_panel() == Panel::Songs;
    let filtering = app.filter().len() > 0;
    match app.list() {
        None => {
            let status = if filtering {
                list_status(app, 0, 0)
            } else {
                None
            };
            let lines = one_line(Line::of("This playlist is empty", Role::Dim));
            let r = ListPanel {
                label: "Songs".to_owned(),
                status,
                focused,
                body: Body::Message(lines),
            };
            assert(r@ =~= songs_shown(app@));
            r
        },
        Some(pl) => {
            let shown = app.filtered_songs(pl);
            let total: usize = app.library().songs(pl).len();
            let mut label = "Songs".to_owned();
            let mut status: Option<Line> = None;
            let mut loaded = false;
            match app.library().entry(pl) {
                Some(e) => {
                    label = e.playlist.title.as_str().to_owned();
                    loaded = e.loaded;
                    if !filtering {
                        status = Some(describe(e));
                    }
                },
                None => {},
            }
            if filtering {
                status = list_status(app, shown.len(), total);
            }
            let body = if !loaded {
                Body::Loading
            } else if shown.len() > 0 {
                Body::Rows(song_rows(app, pl, &shown))
            } else if total == 0 {
                Body::Message(one_line(Line::of("This playlist is empty", Role::Dim)))
            } else {
                Body::Message(say_nothing_matches(app.filter()))
            };
            let r = ListPanel { label, status, focused, body };
            assert(r@.status == songs_shown(app@).status);
            assert(r@.body == songs_shown(app@).body);
            r
        },
    }
}

/// The row of queue entry `q`.
pub open spec fn entry_row(v: ui::AppView, q: usize) -> TableRowView {
    let t = v.player.queue[q as int];
    row_of_track(
        library::track_at(v.library, t.0 as int, t.1 as int),
        q as nat + 1,
        number_width(v.player.queue.len()),
        v.player.pos == Some(q),
    )
}

/// The name of a mode.
pub open spec fn mode_name(m: player::PlayMode) -> Seq<char> {
    match m {
        player::PlayMode::Cycle => "↺ Cycle"@,
        player::PlayMode::Single => "⊙ Single"@,
        player::PlayMode::Shuffle => "⇌ Shuffle"@,
    }
}

/// What is said of an empty queue.
pub open spec fn empty_queue() -> Seq<Seq<panel::SpanView>> {
    seq![
        seq![panel::span("The queue is empty"@, Role::Dim)],
        Seq::empty(),
        panel::hint_spans("a"@, "add the selected song"@),
    ]
}

/// The queue.
pub open spec fn queue_shown(v: ui::AppView) -> ListPanelView {
    let shown = ui::entries_shown(v);
    let n = v.player.queue.len();
    let place: nat = match v.player.pos {
        Some(p) => p as nat + 1,
        None => 0,
    };
    ListPanelView {
        label: "Queue"@,
        status: if v.filter.len() > 0 {
            status_of_list(v, shown.len(), n)
        } else {
            Some(
                seq![
                    panel::span(text::decimal(place) + "/"@ + text::decimal(n), Role::Dim),
                    panel::span(panel::SEP@, Role::Dim),
                    panel::span(mode_name(v.player.mode), Role::Dim),
                ],
            )
        },
        focused: v.panel == Panel::Songs,
        body: if shown.len() > 0 {
            BodyView::Rows(Seq::new(shown.len(), |i: int| entry_row(v, shown[i])))
        } else if n == 0 {
            BodyView::Message(empty_queue())
        } else {
            BodyView::Message(nothing_matches(v.filter))
        },
    }
}

fn entry_rows(app: &App, shown: &Vec<usize>) -> (r: Vec<TableRow>)
    requires
        forall|i: int|
            0 <= i < shown@.len() ==> #[trigger] shown@[i] < app@.player.queue.len(),
    ensures
        table_views(r@) == Seq::new(shown@.len(), |i: int| entry_row(app@, shown@[i])),
{
    let ghost v = app@;
    let queue = app.player().queue();
    let pos = app.player().queue_position();
    let num_w: usize = width_of_number(queue.len());
    let mut rows: Vec<TableRow> = Vec::new();
    let mut k: usize = 0;
    while k < shown.len()
        invariant
            k <= shown@.len(),
            v == app@,
            queue@ == v.player.queue,
            pos == v.player.pos,
            num_w == number_width(queue@.len()),
            forall|i: int| 0 <= i < shown@.len() ==> #[trigger] shown@[i] < queue@.len(),
            table_views(rows@) =~= Seq::new(k as nat, |i: int| entry_row(v, shown@[i])),
        decreases shown@.len() - k,
    {
        let ghost so_far = table_views(rows@);
        let q: usize = shown[k];
        let n: usize = queue.len();
        let (pl, song) = queue[q];
        let playing = match pos {
            Some(p) => p == q,
            None => false,
        };
        let row = track_row(app.library().track(pl, song), q + 1, num_w, playing);
        assert(row@ == entry_row(v, q));
        rows.push(row);
        assert(table_views(rows@) =~= so_far.push(row@));
        k += 1;
    }
    rows
}

/// The queue panel.
pub fn queue_panel(app: &App) -> (r: ListPanel)
    requires
        app@.wf(),
    ensures
        r@ == queue_shown(app@),
{
    let focused = app.active_panel() == Panel::Songs;
    let shown = app.filtered_queue_positions();
    let n: usize = app.player().queue().len();
    let status = if app.filter().len() > 0 {
        list_status(app, shown.len(), n)
    } else {
        let place: usize = match app.player().queue_position() {
            Some(p) => p + 1,
            None => 0,
        };
        let mut counts = text::show(place as u64);
        counts.append("/");
        counts.append(text::show(n as u64).as_str());
        let mut line = Line::of(counts.as_str(), Role::Dim);
        line.push(panel::SEP, Role::Dim);
        line.push(app.player().mode().label(), Role::Dim);
        Some(line)
    };
    let body = if shown.len() > 0 {
        Body::Rows(entry_rows(app, &shown))
    } else if n == 0 {
        Body::Message(
            message(
                Line::of("The queue is empty", Role::Dim),
                panel::hint("a", "add the selected song"),
            ),
        )
    } else {
        Body::Message(say_nothing_matches(app.filter()))
    };
    let r = ListPanel { label: "Queue".to_owned(), status, focused, body };
    assert(r@.status == queue_shown(app@).status);
    assert(r@.body == queue_shown(app@).body);
    r
}

// ── lyrics ───────────────────────────────────────────────────────────────────

/// What the lyrics panel shows.
pub enum LyricsBody {
    /// There is no room.
    Nothing,
    /// A search runs.
    Searching,
    /// A message in the middle.
    Message(Vec<Line>),
    /// Timed lyrics, each row in the middle.
    Timed(Vec<Line>),
    /// Untimed lyrics: the rows shown, how many there are, and which is the first.
    Prose { lines: Vec<Line>, total: usize, top: usize },
}

/// The content of a [`LyricsBody`].
pub enum LyricsBodyView {
    Nothing,
    Searching,
    Message(Seq<Seq<panel::SpanView>>),
    Timed(Seq<Seq<panel::SpanView>>),
    Prose { lines: Seq<Seq<panel::SpanView>>, total: nat, top: nat },
}

impl View for LyricsBody {
    type V = LyricsBodyView;

    open spec fn view(&self) -> LyricsBodyView {
        match self {
            LyricsBody::Nothing => LyricsBodyView::Nothing,
            LyricsBody::Searching => LyricsBodyView::Searching,
            LyricsBody::Message(lines) => LyricsBodyView::Message(panel::line_views(lines@)),
            LyricsBody::Timed(lines) => LyricsBodyView::Timed(panel::line_views(lines@)),
            LyricsBody::Prose { lines, total, top } => LyricsBodyView::Prose {
                lines: panel::line_views(lines@),
                total: *total as nat,
                top: *top as nat,
            },
        }
    }
}

/// The lyrics panel: the status beside its header, and what is below.
pub struct LyricsPanel {
    pub status: Option<Line>,
    pub body: LyricsBody,
}

/// The content of a [`LyricsPanel`].
pub struct LyricsPanelView {
    pub status: Option<Seq<panel::SpanView>>,
    pub body: LyricsBodyView,
}

impl View for LyricsPanel {
    type V = LyricsPanelView;

    open spec fn view(&self) -> LyricsPanelView {
        LyricsPanelView { status: panel::opt_line(self.status), body: self.body@ }
    }
}

/// The room for words: two columns less at either side.
pub open spec fn inset(body: Rect) -> Rect {
    Rect {
        x: (body.x + 2) as u16,
        width: if body.width < 4 {
            0
        } else {
            (body.width - 4) as u16
        },
        ..body
    }
}

/// The room for words.
pub fn lyrics_room(body: Rect) -> (r: Rect)
    requires
        body.x <= u16::MAX - 2,
    ensures
        r == inset(body),
{
    Rect { x: body.x + 2, y: body.y, width: body.width.saturating_sub(4), height: body.height }
}

/// What the panel shows of a record that was found, in the room `inner`.
pub open spec fn record_shown(
    found: TrackLyrics,
    inner: Rect,
    t: int,
    scroll: int,
    offset: Option<Seq<char>>,
) -> LyricsPanelView {
    match found.kind {
        LyricsKind::Instrumental => LyricsPanelView {
            status: Some(lyric_panel::status_spans(None, None, found@)),
            body: LyricsBodyView::Message(
                seq![
                    seq![panel::span("♪"@, Role::Accent)],
                    Seq::empty(),
                    seq![panel::span("instrumental"@, Role::Dim)],
                ],
            ),
        },
        LyricsKind::Synced(lines) => LyricsPanelView {
            status: Some(
                lyric_panel::status_spans(
                    Some(panel::span("♪ synced"@, Role::Accent)),
                    offset,
                    found@,
                ),
            ),
            body: if inner.width == 0 || inner.height == 0 {
                LyricsBodyView::Nothing
            } else {
                let width: nat = if inner.width > 2 {
                    (inner.width - 2) as nat
                } else {
                    1
                };
                LyricsBodyView::Timed(
                    lyric_panel::synced_rows(
                        lyric_panel::laid_out(lyric_panel::words_of(found@.kind), width),
                        lyric_panel::sung(lines@, t),
                        inner.height as nat,
                        scroll,
                    ),
                )
            },
        },
        LyricsKind::Plain(_) => LyricsPanelView {
            status: Some(
                lyric_panel::status_spans(
                    Some(lyric_panel::plain_badge(found.timing_mismatch)),
                    None,
                    found@,
                ),
            ),
            body: if inner.width == 0 || inner.height == 0 {
                LyricsBodyView::Nothing
            } else {
                let rows = lyric_panel::laid_out(
                    lyric_panel::words_of(found@.kind),
                    inner.width as nat,
                );
                LyricsBodyView::Prose {
                    lines: lyric_panel::plain_rows(rows, inner.height as nat, scroll),
                    total: rows.len(),
                    top: lyric_panel::plain_top(rows.len(), inner.height as nat, scroll),
                }
            },
        },
    }
}

/// What is said where there are no lyrics.
pub open spec fn no_lyrics() -> Seq<Seq<panel::SpanView>> {
    seq![
        seq![panel::span("No lyrics found"@, Role::Warn)],
        Seq::empty(),
        panel::hint_spans("c"@, "search lrclib"@) + seq![panel::span(panel::SEP@, Role::Dim)]
            + panel::hint_spans("r"@, "retry"@),
    ]
}

/// What is said where a search failed, in a panel of `width` columns.
pub open spec fn failed_lyrics(error: Seq<char>, width: u16) -> Seq<Seq<panel::SpanView>> {
    let room: nat = if width < 2 {
        0
    } else {
        (width - 2) as nat
    };
    seq![
        seq![panel::span("Lyrics unavailable"@, Role::Error)],
        Seq::empty(),
        seq![panel::span(cells::cut(error, room), Role::ErrorBody)],
        Seq::empty(),
        panel::hint_spans("r"@, "retry"@),
    ]
}

/// The lyrics panel in `area`, for the playback position `elapsed`.
pub open spec fn lyrics_shown(
    v: ui::AppView,
    elapsed: int,
    area: Rect,
    offset: Option<Seq<char>>,
) -> LyricsPanelView {
    match ui::current_video(v) {
        None => LyricsPanelView {
            status: None,
            body: LyricsBodyView::Message(seq![seq![panel::span("Nothing playing"@, Role::Dim)]]),
        },
        Some(id) => if !v.cache.contains_key(id) {
            LyricsPanelView { status: None, body: LyricsBodyView::Searching }
        } else {
            match v.cache[id] {
                LyricsEntry::Loading => LyricsPanelView {
                    status: None,
                    body: LyricsBodyView::Searching,
                },
                LyricsEntry::Missing => LyricsPanelView {
                    status: None,
                    body: LyricsBodyView::Message(no_lyrics()),
                },
                LyricsEntry::Failed(e) => LyricsPanelView {
                    status: None,
                    body: LyricsBodyView::Message(failed_lyrics(e@, area.width)),
                },
                LyricsEntry::Ready(found) => record_shown(
                    found,
                    inset(panel::body_of(area)),
                    config::moment(v.config.lyrics.offset, elapsed),
                    v.scroll as int,
                    offset,
                ),
            }
        },
    }
}

fn show_record(found: &TrackLyrics, inner: Rect, t: i64, scroll: i32, offset: Option<String>) -> (r:
    LyricsPanel)
    requires
        lyrics::well_timed(*found),
    ensures
        r@ == record_shown(*found, inner, t as int, scroll as int, text::opt(offset)),
{
    let room = inner.width > 0 && inner.height > 0;
    match &found.kind {
        LyricsKind::Instrumental => {
            let status = lyric_panel::lyrics_status(found, None, None);
            let lines = message(
                Line::of("♪", Role::Accent),
                Line::of("instrumental", Role::Dim),
            );
            LyricsPanel { status: Some(status), body: LyricsBody::Message(lines) }
        },
        LyricsKind::Synced(lines) => {
            let badge = panel::styled("♪ synced", Role::Accent);
            let status = lyric_panel::lyrics_status(found, Some(badge), offset);
            if !room {
                return LyricsPanel { status: Some(status), body: LyricsBody::Nothing };
            }
            let width: usize = if inner.width > 2 {
                (inner.width - 2) as usize
            } else {
                1
            };
            let rows = lyric_panel::lyric_rows(found, width);
            let active = lyric_panel::sung_line(lines.as_slice(), t);
            let shown = lyric_panel::synced_view(rows.as_slice(), active, inner.height, scroll);
            LyricsPanel { status: Some(status), body: LyricsBody::Timed(shown) }
        },
        LyricsKind::Plain(_) => {
            let badge = lyric_panel::untimed_badge(found);
            let status = lyric_panel::lyrics_status(found, Some(badge), None);
            if !room {
                return LyricsPanel { status: Some(status), body: LyricsBody::Nothing };
            }
            let rows = lyric_panel::lyric_rows(found, inner.width as usize);
            let total: usize = rows.len();
            let (lines, top) = lyric_panel::plain_view(rows.as_slice(), inner.height, scroll);
            assert(lyric_panel::row_views(rows@).len() == total);
            LyricsPanel { status: Some(status), body: LyricsBody::Prose { lines, total, top } }
        },
    }
}

/// The lyrics panel in `area`. `offset` is the shift of the lines, in words.
pub fn lyrics_panel(app: &App, audio: &AudioState, area: Rect, offset: Option<String>) -> (r:
    LyricsPanel)
    requires
        app@.wf(),
        area.x <= u16::MAX - 2,
        area.y <= u16::MAX - 2,
    ensures
        r@ == lyrics_shown(app@, audio@.elapsed, area, text::opt(offset)),
{
    let id = match app.current_video_id() {
        Some(id) => id,
        None => {
            let lines = one_line(Line::of("Nothing playing", Role::Dim));
            return LyricsPanel { status: None, body: LyricsBody::Message(lines) };
        },
    };
    match app.lyrics_entry(id.as_str()) {
        None => LyricsPanel { status: None, body: LyricsBody::Searching },
        Some(LyricsEntry::Loading) => LyricsPanel { status: None, body: LyricsBody::Searching },
        Some(LyricsEntry::Missing) => {
            let lines = message(
                Line::of("No lyrics found", Role::Warn),
                panel::hint_pair("c", "search lrclib", "r", "retry"),
            );
            assert(panel::line_views(lines@) =~= no_lyrics());
            LyricsPanel { status: None, body: LyricsBody::Message(lines) }
        },
        Some(LyricsEntry::Failed(e)) => {
            let room: usize = area.width.saturating_sub(2) as usize;
            let words = cells::truncate_line(e.as_str(), room);
            let mut lines = one_line(Line::of("Lyrics unavailable", Role::Error));
            add_line(&mut lines, Line::blank());
            add_line(&mut lines, Line::of(words.as_str(), Role::ErrorBody));
            add_line(&mut lines, Line::blank());
            add_line(&mut lines, panel::hint("r", "retry"));
            assert(panel::line_views(lines@) =~= failed_lyrics(e@, area.width));
            LyricsPanel { status: None, body: LyricsBody::Message(lines) }
        },
        Some(LyricsEntry::Ready(found)) => {
            let body = body_room(area);
            let inner = lyrics_room(body);
            let t: i64 = app.config().lyrics.lyric_time(audio.elapsed);
            show_record(found, inner, t, app.lyrics_scroll(), offset)
        },
    }
}

fn body_room(area: Rect) -> (r: Rect)
    requires
        area.y <= u16::MAX - 2,
    ensures
        r == panel::body_of(area),
{
    if area.height == 0 || area.width == 0 {
        area
    } else {
        Rect {
            x: area.x,
            y: area.y + 2,
            width: area.width,
            height: area.height.saturating_sub(2),
        }
    }
}

// ── the list of records ──────────────────────────────────────────────────────

/// What the list of records shows.
pub enum PickerBody {
    Searching,
    Message(Vec<Line>),
    Rows(Vec<PickerRow>),
}

/// The content of a [`PickerBody`].
pub enum PickerBodyView {
    Searching,
    Message(Seq<Seq<panel::SpanView>>),
    Rows(Seq<lyric_panel::PickerRowView>),
}

impl View for PickerBody {
    type V = PickerBodyView;

    open spec fn view(&self) -> PickerBodyView {
        match self {
            PickerBody::Searching => PickerBodyView::Searching,
            PickerBody::Message(lines) => PickerBodyView::Message(panel::line_views(lines@)),
            PickerBody::Rows(rows) => PickerBodyView::Rows(lyric_panel::picker_views(rows@)),
        }
    }
}

/// A size within bounds.
pub open spec fn within_bounds(n: int, least: int, most: int) -> int {
    if n < least {
        least
    } else if n > most {
        most
    } else {
        n
    }
}

/// The columns and rows of the list, over an area.
pub fn picker_size(area: Rect) -> (r: (u16, u16))
    ensures
        r.0 == within_bounds(area.width - 4, 40, 78),
        r.1 == within_bounds(area.height - 2, 7, 20),
{
    let w: u16 = area.width.saturating_sub(4);
    let h: u16 = area.height.saturating_sub(2);
    (
        if w < 40 {
            40
        } else if w > 78 {
            78
        } else {
            w
        },
        if h < 7 {
            7
        } else if h > 20 {
            20
        } else {
            h
        },
    )
}

/// The hints under the list, in `width` columns.
pub open spec fn picker_hint_spans(width: u16) -> Seq<panel::SpanView> {
    panel::fitted(
        seq![("j/k"@, "select"@), ("↵"@, "use"@), ("Esc"@, "cancel"@)],
        if width < 4 {
            0
        } else {
            (width - 4) as nat
        },
    )
}

/// The hints under the list.
pub fn picker_hints(width: u16) -> (r: Line)
    ensures
        r@ == picker_hint_spans(width),
{
    let keys: Vec<(&str, &str)> = vec![("j/k", "select"), ("↵", "use"), ("Esc", "cancel")];
    assert(panel::pairs(keys@) =~= seq![("j/k"@, "select"@), ("↵"@, "use"@), ("Esc"@, "cancel"@)]);
    panel::fit_hints(keys.as_slice(), width.saturating_sub(4) as usize)
}

/// The length of the track that plays, as it is listed.
pub open spec fn listed_length(v: ui::AppView) -> Option<int> {
    match ui::current_track(v) {
        Some(t) => match t.duration_seconds {
            Some(n) => Some(n * 1_000_000_000),
            None => None,
        },
        None => None,
    }
}

/// The list of records, `width` columns wide with `room` columns for a message.
pub open spec fn picker_shown(v: ui::AppView, p: ui::PickerView, width: u16, room: u16) -> PickerBodyView {
    if p.loading {
        PickerBodyView::Searching
    } else {
        match p.error {
            Some(e) => PickerBodyView::Message(
                seq![
                    seq![panel::span("Search failed"@, Role::Error)],
                    Seq::empty(),
                    seq![panel::span(cells::cut(e, room as nat), Role::ErrorBody)],
                ],
            ),
            None => PickerBodyView::Rows(
                lyric_panel::listing(
                    lyrics::track_views(p.items),
                    match ui::current_lyrics(v) {
                        Some(found) => Some(found.id),
                        None => None,
                    },
                    p.overridden,
                    listed_length(v),
                    if width < 20 {
                        0
                    } else {
                        (width - 20) as nat
                    },
                ),
            ),
        }
    }
}

/// The list of records, where it is open.
pub fn picker_panel(app: &App, width: u16, room: u16) -> (r: Option<PickerBody>)
    ensures
        match r {
            Some(b) => app@.picker matches Some(p) && b@ == picker_shown(app@, p, width, room),
            None => app@.picker is None,
        },
{
    let picker = match app.lyrics_picker() {
        Some(p) => p,
        None => return None,
    };
    if picker.loading {
        return Some(PickerBody::Searching);
    }
    match &picker.error {
        Some(e) => {
            let words = cells::truncate_line(e.as_str(), room as usize);
            let lines = message(
                Line::of("Search failed", Role::Error),
                Line::of(words.as_str(), Role::ErrorBody),
            );
            Some(PickerBody::Message(lines))
        },
        None => {
            let current = match app.current_lyrics() {
                Some(found) => Some(found.id),
                None => None,
            };
            let length = match app.current_track() {
                Some(t) => match t.duration_seconds {
                    Some(n) => Some(n as i64 * 1_000_000_000),
                    None => None,
                },
                None => None,
            };
            let rows = lyric_panel::picker_rows(
                picker.items.as_slice(),
                current,
                picker.overridden,
                length,
                width.saturating_sub(20) as usize,
            );
            Some(PickerBody::Rows(rows))
        },
    }
}

// ── the player ───────────────────────────────────────────────────────────────

/// The mode and the volume.
pub open spec fn player_status_spans(v: ui::AppView) -> Seq<panel::SpanView> {
    seq![
        panel::span(mode_name(v.player.mode), Role::Dim),
        panel::span(panel::SEP@, Role::Dim),
        if v.player.muted {
            panel::span("muted"@, Role::Warn)
        } else {
            panel::span(text::decimal(v.player.volume as nat) + "%"@, Role::Dim)
        },
    ]
}

/// The mode and the volume, at the right of the player's first row.
pub fn player_status(app: &App) -> (r: Line)
    ensures
        r@ == player_status_spans(app@),
{
    let mut r = Line::of(app.player().mode().label(), Role::Dim);
    r.push(panel::SEP, Role::Dim);
    if app.player().is_muted() {
        r.push("muted", Role::Warn);
    } else {
        let mut words = text::show(app.player().volume() as u64);
        words.append("%");
        r.push(words.as_str(), Role::Dim);
    }
    assert(r@ =~= player_status_spans(app@));
    r
}

/// The title of the track that plays.
pub open spec fn playing_title(v: ui::AppView) -> Seq<char> {
    match ui::current_track(v) {
        Some(t) => match t.title {
            Some(s) => s@,
            None => "Unknown"@,
        },
        None => "Nothing playing"@,
    }
}

/// The artists of the track that plays.
pub open spec fn playing_artists(v: ui::AppView) -> Seq<char> {
    match ui::current_track(v) {
        Some(t) => library::listed(t.artists@),
        None => Seq::empty(),
    }
}

/// What goes before the title: whether audio loads, is paused or plays.
pub open spec fn playing_mark(audio: playback::AudioView) -> Seq<char> {
    if audio.loading {
        "⋯ "@
    } else if audio.paused {
        "⏸ "@
    } else if audio.total > 0 {
        "♫ "@
    } else {
        "  "@
    }
}

/// What is set aside for the separator before the artists: its bytes, one more than the
/// columns it takes.
pub const ARTISTS_GAP: usize = 6;

/// The artists behind a title of `used` columns, where more than three columns are
/// left for them.
pub open spec fn artists_behind(artists: Seq<char>, used: nat, budget: nat) -> Seq<panel::SpanView> {
    let taken = if used < budget {
        used
    } else {
        budget
    };
    let rest: int = budget - taken - ARTISTS_GAP;
    if artists.len() > 0 && rest > 3 {
        seq![
            panel::span(panel::SEP@, Role::Dim),
            panel::span(cells::cut(artists, rest as nat), Role::Meta),
        ]
    } else {
        Seq::empty()
    }
}

/// What plays, in `width` columns; an error takes its place.
pub open spec fn now_playing_spans(
    v: ui::AppView,
    audio: playback::AudioView,
    width: u16,
) -> Seq<panel::SpanView> {
    let budget: nat = if width < 2 {
        0
    } else {
        (width - 2) as nat
    };
    match audio.error {
        Some(e) => seq![
            panel::span("✕ "@, Role::Error),
            panel::span(cells::cut(e, budget), Role::ErrorBody),
        ],
        None => {
            let title = playing_title(v);
            seq![
                panel::span(
                    playing_mark(audio),
                    if audio.paused {
                        Role::Dim
                    } else {
                        Role::Playing
                    },
                ),
                panel::span(
                    cells::cut(title, budget),
                    if audio.paused {
                        Role::Dim
                    } else {
                        Role::Primary
                    },
                ),
            ] + artists_behind(playing_artists(v), cells::str_width(title) as nat, budget)
        },
    }
}

/// What plays, at the left of the player's first row.
pub fn now_playing(app: &App, audio: &AudioState, width: u16) -> (r: Line)
    ensures
        r@ == now_playing_spans(app@, audio@, width),
{
    let budget: usize = width.saturating_sub(2) as usize;
    match &audio.error {
        Some(e) => {
            let words = cells::truncate_line(e.as_str(), budget);
            let mut r = Line::of("✕ ", Role::Error);
            r.push(words.as_str(), Role::ErrorBody);
            return r;
        },
        None => {},
    }
    let mark = if audio.loading {
        "⋯ "
    } else if audio.paused {
        "⏸ "
    } else if audio.total > 0 {
        "♫ "
    } else {
        "  "
    };
    let mut r = Line::of(
        mark,
        if audio.paused {
            Role::Dim
        } else {
            Role::Playing
        },
    );
    let mut title = "Nothing playing".to_owned();
    let mut artists = String::new();
    match app.current_track() {
        Some(t) => {
            title = match &t.title {
                Some(s) => s.as_str().to_owned(),
                None => "Unknown".to_owned(),
            };
            artists = t.artist_names();
        },
        None => {},
    }
    assert(title@ == playing_title(app@));
    assert(artists@ =~= playing_artists(app@));
    let words = cells::truncate_line(title.as_str(), budget);
    r.push(
        words.as_str(),
        if audio.paused {
            Role::Dim
        } else {
            Role::Primary
        },
    );
    if !artists.as_str().is_empty() {
        let used: usize = cells::width_of(title.as_str());
        let left: usize = if used < budget {
            budget - used
        } else {
            0
        };
        if left > ARTISTS_GAP && left - ARTISTS_GAP > 3 {
            let words = cells::truncate_line(artists.as_str(), left - ARTISTS_GAP);
            r.push(panel::SEP, Role::Dim);
            r.push(words.as_str(), Role::Meta);
        }
    }
    assert(r@ =~= now_playing_spans(app@, audio@, width));
    r
}

/// How far the track is, and how long it takes.
pub fn player_times(app: &App, audio: &AudioState) -> (r: (String, String))
    ensures
        r.0@ == if ui::current_track(app@) is Some {
            cells::duration(cells::seconds_of(audio@.elapsed))
        } else {
            "0:00"@
        },
        r.1@ == if ui::current_track(app@) is Some {
            cells::duration(cells::seconds_of(audio@.total))
        } else {
            "0:00"@
        },
{
    if app.current_track().is_some() {
        (cells::fmt_secs(audio.elapsed), cells::fmt_secs(audio.total))
    } else {
        ("0:00".to_owned(), "0:00".to_owned())
    }
}

/// The columns for each of two times: at least four, and enough for the longer.
pub fn time_width(elapsed: &str, total: &str) -> (r: usize)
    ensures
        r >= 4,
        r >= elapsed@.len(),
        r >= total@.len(),
        r == 4 || r == elapsed@.len() || r == total@.len(),
{
    let a: usize = text::chars_of(elapsed).len();
    let b: usize = text::chars_of(total).len();
    let longer: usize = if a > b {
        a
    } else {
        b
    };
    if longer > 4 {
        longer
    } else {
        4
    }
}

/// How much of the bar is filled, as a part of a whole.
pub fn progress(audio: &AudioState) -> (r: (u64, u64))
    ensures
        r.1 > 0,
        r.0 <= r.1,
        audio@.total <= 0 ==> r.0 == 0,
        audio@.total > 0 ==> r.1 == audio@.total && r.0 == within_bounds(
            audio@.elapsed,
            0,
            audio@.total,
        ),
{
    if audio.total <= 0 {
        return (0, 1);
    }
    let total: u64 = audio.total as u64;
    if audio.elapsed <= 0 {
        (0, total)
    } else if audio.elapsed > audio.total {
        (total, total)
    } else {
        (audio.elapsed as u64, total)
    }
}

} // verus!
