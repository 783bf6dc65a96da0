//! What every panel of the jukebox says.

use crate::cells;
use crate::jukebox;
use crate::jukebox::{Jukebox, Listing, Song};
use crate::panel;
use crate::panel::{Line, Role, Span};
use crate::playback::AudioState;
use crate::player::PlayMode;
use crate::screen;
use crate::screen::{Body, ListPanel, TableRow};
use crate::text;
use crate::ui::Panel;
use vstd::prelude::*;

verus! {

// ── the bottom line ──────────────────────────────────────────────────────────

/// The hints for what is open.
pub open spec fn hints_for(v: jukebox::JukeView) -> Seq<(Seq<char>, Seq<char>)> {
    if v.panel == Panel::Playlists {
        seq![("j/k"@, "nav"@), ("l/↵"@, "open"@), ("q"@, "quit"@)]
    } else if !v.show_queue {
        seq![
            ("j/k"@, "nav"@),
            ("↵"@, "play"@),
            ("/"@, "filter"@),
            ("a"@, "+queue"@),
            ("o"@, "queue"@),
            ("spc"@, "pause"@),
            ("p/n"@, "skip"@),
            ("←/→"@, "seek"@),
            ("↑/↓"@, "vol"@),
            ("m"@, "mute"@),
            ("t"@, "mode"@),
        ]
    } else {
        seq![
            ("j/k"@, "nav"@),
            ("↵"@, "play"@),
            ("/"@, "filter"@),
            ("d"@, "remove"@),
            ("o"@, "songs"@),
            ("spc"@, "pause"@),
            ("p/n"@, "skip"@),
            ("←/→"@, "seek"@),
            ("↑/↓"@, "vol"@),
            ("m"@, "mute"@),
            ("t"@, "mode"@),
        ]
    }
}

fn hints(app: &Jukebox) -> (r: Vec<(&'static str, &'static str)>)
    ensures
        panel::pairs(r@) == hints_for(app@),
{
    let r: Vec<(&'static str, &'static str)> = if app.active_panel() == Panel::Playlists {
        vec![("j/k", "nav"), ("l/↵", "open"), ("q", "quit")]
    } else if !app.show_queue() {
        vec![
            ("j/k", "nav"),
            ("↵", "play"),
            ("/", "filter"),
            ("a", "+queue"),
            ("o", "queue"),
            ("spc", "pause"),
            ("p/n", "skip"),
            ("←/→", "seek"),
            ("↑/↓", "vol"),
            ("m", "mute"),
            ("t", "mode"),
        ]
    } else {
        vec![
            ("j/k", "nav"),
            ("↵", "play"),
            ("/", "filter"),
            ("d", "remove"),
            ("o", "songs"),
            ("spc", "pause"),
            ("p/n", "skip"),
            ("←/→", "seek"),
            ("↑/↓", "vol"),
            ("m", "mute"),
            ("t", "mode"),
        ]
    };
    assert(panel::pairs(r@) =~= hints_for(app@));
    r
}

/// The bottom line: the query that is typed, else what is said, else every hint.
pub open spec fn help_spans(v: jukebox::JukeView) -> Seq<panel::SpanView> {
    if v.filter_mode {
        seq![
            panel::span("/"@, Role::Warn),
            panel::span(v.filter, Role::Warn),
            panel::span("█"@, Role::Caret),
            panel::span("  ·  "@, Role::Dim),
            panel::span("↵"@, Role::Key),
            panel::span(" confirm  ·  "@, Role::Dim),
            panel::span("Esc"@, Role::Key),
            panel::span(" cancel"@, Role::Dim),
        ]
    } else {
        match v.notification {
            Some((message, _)) => seq![
                panel::span("▶ "@, Role::Accent),
                panel::span(message, Role::Success),
            ],
            None => panel::hint_line(hints_for(v), hints_for(v).len()),
        }
    }
}

/// The bottom line.
pub fn help_line(app: &Jukebox) -> (r: Line)
    ensures
        r@ == help_spans(app@),
{
    if app.filter_mode() {
        let typed = text::string_of(app.filter());
        let mut r = Line::of("/", Role::Warn);
        r.push(typed.as_str(), Role::Warn);
        r.push("█", Role::Caret);
        r.push("  ·  ", Role::Dim);
        r.push("↵", Role::Key);
        r.push(" confirm  ·  ", Role::Dim);
        r.push("Esc", Role::Key);
        r.push(" cancel", Role::Dim);
        return r;
    }
    match app.notification() {
        Some(message) => {
            let mut r = Line::of("▶ ", Role::Accent);
            r.push(message, Role::Success);
            r
        },
        None => {
            let items = hints(app);
            let ghost all = hints_for(app@);
            let mut r = Line::blank();
            let n: usize = items.len();
            let mut i: usize = 0;
            while i < n
                invariant
                    i <= n,
                    n == items@.len(),
                    all == panel::pairs(items@),
                    r@ == panel::hint_line(all, i as nat),
                decreases n - i,
            {
                let (key, desc) = items[i];
                assert(all[i as int] == (key@, desc@));
                if i > 0 {
                    r.push(panel::SEP, Role::Dim);
                }
                r.extend(panel::hint(key, desc));
                assert(r@ =~= panel::hint_line(all, (i + 1) as nat));
                i += 1;
            }
            r
        },
    }
}

// ── lists ────────────────────────────────────────────────────────────────────

/// What is said where there is no playlist.
pub open spec fn no_playlists() -> Seq<Seq<panel::SpanView>> {
    seq![
        seq![panel::span("No playlists found."@, Role::Warn)],
        Seq::empty(),
        seq![panel::span("Your session may have expired."@, Role::Dim)],
        seq![
            panel::span("r"@, Role::Key),
            panel::span(" re-authenticate  ·  "@, Role::Dim),
            panel::span("q"@, Role::Key),
            panel::span(" quit"@, Role::Dim),
        ],
    ]
}

/// A name, or another word for it.
pub open spec fn name_or(name: Option<String>, otherwise: Seq<char>) -> Seq<char> {
    match name {
        Some(s) => s@,
        None => otherwise,
    }
}

fn name_of(name: &Option<String>, otherwise: &str) -> (r: String)
    ensures
        r@ == name_or(*name, otherwise@),
{
    match name {
        Some(s) => s.as_str().to_owned(),
        None => otherwise.to_owned(),
    }
}

/// The row of a playlist.
pub open spec fn playlist_row(l: Listing) -> screen::TableRowView {
    screen::TableRowView {
        left: seq![panel::span(name_or(l.title, "Untitled"@), Role::Primary)],
        right: panel::span(text::decimal(l.songs@.len()), Role::Dim),
    }
}

/// The playlists.
pub open spec fn playlists_shown(v: jukebox::JukeView) -> screen::ListPanelView {
    screen::ListPanelView {
        label: "Playlists"@,
        status: None,
        focused: v.panel == Panel::Playlists,
        body: if v.lists.len() == 0 {
            screen::BodyView::Message(no_playlists())
        } else {
            screen::BodyView::Rows(v.lists.map_values(|l: Listing| playlist_row(l)))
        },
    }
}

fn add_line(out: &mut Vec<Line>, line: Line)
    ensures
        panel::line_views(final(out)@) == panel::line_views(old(out)@).push(line@),
{
    out.push(line);
    assert(panel::line_views(out@) =~= panel::line_views(old(out)@).push(line@));
}

/// The playlists panel.
pub fn playlists_panel(app: &Jukebox) -> (r: ListPanel)
    ensures
        r@ == playlists_shown(app@),
{
    let focused = app.active_panel() == Panel::Playlists;
    let lists = app.lists();
    let n: usize = lists.len();
    if n == 0 {
        let mut lines: Vec<Line> = Vec::new();
        assert(panel::line_views(lines@) =~= Seq::empty());
        add_line(&mut lines, Line::of("No playlists found.", Role::Warn));
        add_line(&mut lines, Line::blank());
        add_line(&mut lines, Line::of("Your session may have expired.", Role::Dim));
        let mut keys = Line::of("r", Role::Key);
        keys.push(" re-authenticate  ·  ", Role::Dim);
        keys.push("q", Role::Key);
        keys.push(" quit", Role::Dim);
        assert(keys@ =~= no_playlists()[3]);
        add_line(&mut lines, keys);
        assert(panel::line_views(lines@) =~= no_playlists());
        return ListPanel {
            label: "Playlists".to_owned(),
            status: None,
            focused,
            body: Body::Message(lines),
        };
    }
    let ghost all = app@.lists.map_values(|l: Listing| playlist_row(l));
    let mut rows: Vec<TableRow> = Vec::new();
    let mut i: usize = 0;
    while i < n
        invariant
            i <= n,
            n == lists@.len(),
            all == lists@.map_values(|l: Listing| playlist_row(l)),
            screen::table_views(rows@) =~= all.take(i as int),
        decreases n - i,
    {
        let ghost so_far = screen::table_views(rows@);
        let title = name_of(&lists[i].title, "Untitled");
        let count = text::show(lists[i].songs.len() as u64);
        let row = TableRow {
            left: Line::of(title.as_str(), Role::Primary),
            right: panel::styled(count.as_str(), Role::Dim),
        };
        assert(row@ == all[i as int]);
        rows.push(row);
        assert(screen::table_views(rows@) =~= so_far.push(row@));
        i += 1;
    }
    assert(all.take(n as int) =~= all);
    ListPanel { label: "Playlists".to_owned(), status: None, focused, body: Body::Rows(rows) }
}

/// A panel's title with the query behind it.
pub open spec fn titled(v: jukebox::JukeView, base: Seq<char>) -> Seq<char> {
    if v.filter.len() == 0 {
        base
    } else if v.filter_mode {
        base + "  /"@ + v.filter + "█"@
    } else {
        base + "  /"@ + v.filter
    }
}

/// A panel's title with the query behind it.
pub fn filter_title(app: &Jukebox, base: &str) -> (r: String)
    ensures
        r@ == titled(app@, base@),
{
    let mut r = base.to_owned();
    if app.filter().len() > 0 {
        r.append("  /");
        r.append(text::string_of(app.filter()).as_str());
        if app.filter_mode() {
            r.append("█");
        }
    }
    assert(r@ =~= titled(app@, base@));
    r
}

/// Names separated by a comma and a space.
pub open spec fn names(all: Seq<String>) -> Seq<char> {
    text::joined(text::texts(all), ", "@)
}

/// The length shown for a song.
pub open spec fn length_text(s: Song) -> Option<Seq<char>> {
    match s.duration {
        Some(d) => Some(d@),
        None => match s.duration_seconds {
            Some(n) => Some(cells::minutes(n as nat)),
            None => None,
        },
    }
}

fn song_length(s: &Song) -> (r: Option<String>)
    ensures
        text::opt(r) == length_text(*s),
{
    match &s.duration {
        Some(d) => Some(d.as_str().to_owned()),
        None => match s.duration_seconds {
            Some(n) => Some(cells::fmt_minutes(n)),
            None => None,
        },
    }
}

/// The artists behind a title, where there are any.
pub open spec fn dashed(artists: Seq<char>) -> Seq<panel::SpanView> {
    if artists.len() == 0 {
        Seq::empty()
    } else {
        seq![panel::span("  —  "@, Role::Dim), panel::span(artists, Role::Meta)]
    }
}

/// The text of a song's row: a mark where it plays, its number, title and artists.
pub open spec fn song_spans(s: Option<Song>, number: nat, num_w: nat, playing: bool) -> Seq<
    panel::SpanView,
> {
    seq![
        panel::span(
            if playing {
                "♫ "@
            } else {
                "  "@
            },
            Role::Mark,
        ),
        panel::span(cells::right_aligned(text::decimal(number), num_w) + ". "@, Role::Dim),
        panel::span(
            match s {
                Some(x) => name_or(x.title, "Unknown"@),
                None => "Unknown"@,
            },
            if playing {
                Role::Playing
            } else {
                Role::Primary
            },
        ),
    ] + match s {
        Some(x) => dashed(names(x.artists@)),
        None => Seq::empty(),
    }
}

/// A song that may be missing, as content.
pub open spec fn opt_ref(s: Option<&Song>) -> Option<Song> {
    match s {
        Some(x) => Some(*x),
        None => None,
    }
}

fn song_line(s: Option<&Song>, number: usize, num_w: usize, playing: bool) -> (r: Line)
    ensures
        r@ == song_spans(opt_ref(s), number as nat, num_w as nat, playing),
{
    let mut r = Line::of(
        if playing {
            "♫ "
        } else {
            "  "
        },
        Role::Mark,
    );
    let digits = text::show(number as u64);
    let mut place = cells::align_right(digits.as_str(), num_w);
    place.append(". ");
    r.push(place.as_str(), Role::Dim);
    let role = if playing {
        Role::Playing
    } else {
        Role::Primary
    };
    match s {
        Some(x) => {
            let title = name_of(&x.title, "Unknown");
            r.push(title.as_str(), role);
            let artists = text::join(&x.artists, ", ");
            if !artists.as_str().is_empty() {
                r.push("  —  ", Role::Dim);
                r.push(artists.as_str(), Role::Meta);
            }
        },
        None => r.push("Unknown", role),
    }
    assert(r@ =~= song_spans(opt_ref(s), number as nat, num_w as nat, playing));
    r
}

/// The row of song `i` of playlist `list`.
pub open spec fn song_row(v: jukebox::JukeView, list: usize, i: usize) -> screen::TableRowView {
    let songs = jukebox::songs_at(v, list as int);
    let s = songs[i as int];
    screen::TableRowView {
        left: song_spans(
            Some(s),
            i as nat + 1,
            screen::number_width(songs.len()),
            v.playing_list == Some(list) && v.playing_song == Some(i),
        ),
        right: panel::span(
            match length_text(s) {
                Some(d) => d,
                None => Seq::empty(),
            },
            Role::Dim,
        ),
    }
}

/// The songs of the selected playlist.
pub open spec fn songs_shown(v: jukebox::JukeView) -> screen::ListPanelView {
    let loading = v.list matches Some(list) && list < v.lists.len() && !v.lists[list as int].loaded;
    screen::ListPanelView {
        label: if loading {
            "Songs"@
        } else {
            titled(v, "Songs"@)
        },
        status: None,
        focused: v.panel == Panel::Songs,
        body: if loading {
            screen::BodyView::Loading
        } else {
            match v.list {
                Some(list) => screen::BodyView::Rows(
                    jukebox::songs_shown(v, list).map_values(|i: usize| song_row(v, list, i)),
                ),
                None => screen::BodyView::Rows(Seq::empty()),
            }
        },
    }
}

fn song_rows(app: &Jukebox, list: usize) -> (r: Vec<TableRow>)
    ensures
        screen::table_views(r@) == jukebox::songs_shown(app@, list).map_values(
            |i: usize| song_row(app@, list, i),
        ),
{
    let ghost v = app@;
    let shown = app.filtered_songs(list);
    let ghost all = shown@.map_values(|i: usize| song_row(v, list, i));
    let lists = app.lists();
    let mut rows: Vec<TableRow> = Vec::new();
    if list >= lists.len() {
        assert(shown@.len() == 0) by {
            if shown@.len() > 0 {
                assert(shown@[0] < jukebox::songs_at(v, list as int).len());
            }
        }
        assert(screen::table_views(rows@) =~= all);
        return rows;
    }
    let songs = &lists[list].songs;
    let total: usize = songs.len();
    let digits = text::show(total as u64);
    let num_w: usize = text::chars_of(digits.as_str()).len();
    let (playing_list, playing_song) = app.playing_place();
    let mut k: usize = 0;
    while k < shown.len()
        invariant
            k <= shown@.len(),
            v == app@,
            songs@ == jukebox::songs_at(v, list as int),
            total == songs@.len(),
            num_w == screen::number_width(total as nat),
            playing_list == v.playing_list,
            playing_song == v.playing_song,
            forall|i: int| 0 <= i < shown@.len() ==> #[trigger] shown@[i] < total,
            all == shown@.map_values(|i: usize| song_row(v, list, i)),
            screen::table_views(rows@) =~= all.take(k as int),
        decreases shown@.len() - k,
    {
        let ghost so_far = screen::table_views(rows@);
        let i: usize = shown[k];
        let playing = match (playing_list, playing_song) {
            (Some(l), Some(s)) => l == list && s == i,
            _ => false,
        };
        let length = match song_length(&songs[i]) {
            Some(d) => d,
            None => String::new(),
        };
        let row = TableRow {
            left: song_line(Some(&songs[i]), i + 1, num_w, playing),
            right: panel::styled(length.as_str(), Role::Dim),
        };
        assert(row@.right.text =~= song_row(v, list, i).right.text);
        assert(row@ == all[k as int]);
        rows.push(row);
        assert(screen::table_views(rows@) =~= so_far.push(row@));
        k += 1;
    }
    assert(all.take(k as int) =~= all);
    rows
}

/// The songs panel.
pub fn songs_panel(app: &Jukebox) -> (r: ListPanel)
    ensures
        r@ == songs_shown(app@),
{
    let focused = app.active_panel() == Panel::Songs;
    let lists = app.lists();
    match app.list() {
        Some(list) => {
            if list < lists.len() && !lists[list].loaded {
                return ListPanel {
                    label: "Songs".to_owned(),
                    status: None,
                    focused,
                    body: Body::Loading,
                };
            }
            ListPanel {
                label: filter_title(app, "Songs"),
                status: None,
                focused,
                body: Body::Rows(song_rows(app, list)),
            }
        },
        None => {
            let rows: Vec<TableRow> = Vec::new();
            assert(screen::table_views(rows@) =~= Seq::empty());
            ListPanel {
                label: filter_title(app, "Songs"),
                status: None,
                focused,
                body: Body::Rows(rows),
            }
        },
    }
}

/// The queue's title: where playback is, and the mode unless it is the usual one.
pub open spec fn queue_title(v: jukebox::JukeView) -> Seq<char> {
    let place: nat = match v.pos {
        Some(p) => p as nat + 1,
        None => 0,
    };
    "Queue  ["@ + text::decimal(place) + "/"@ + text::decimal(v.queue.len()) + match v.mode {
        PlayMode::Shuffle => "]  ⇌ Shuffle"@,
        PlayMode::Single => "]  ⊙ Single"@,
        PlayMode::Cycle => "]"@,
    }
}

/// The song of queue entry `q`.
pub open spec fn queued_song(v: jukebox::JukeView, q: usize) -> Option<Song> {
    match v.queue_list {
        Some(list) => jukebox::song_at(v, list as int, v.queue[q as int] as int),
        None => None,
    }
}

/// The line of queue entry `q`.
pub open spec fn entry_spans(v: jukebox::JukeView, q: usize) -> Seq<panel::SpanView> {
    song_spans(queued_song(v, q), q as nat + 1, 3, v.pos == Some(q))
}

/// The queue panel: its title and its lines.
pub fn queue_panel(app: &Jukebox) -> (r: (String, Vec<Line>))
    requires
        app@.wf(),
    ensures
        r.0@ == titled(app@, queue_title(app@)),
        panel::line_views(r.1@) == jukebox::entries_shown(app@).map_values(
            |q: usize| entry_spans(app@, q),
        ),
{
    let ghost v = app@;
    let n: usize = app.queue().len();
    let place: usize = match app.queue_position() {
        Some(p) => p + 1,
        None => 0,
    };
    let mut base = "Queue  [".to_owned();
    base.append(text::show(place as u64).as_str());
    base.append("/");
    base.append(text::show(n as u64).as_str());
    match app.mode() {
        PlayMode::Shuffle => base.append("]  ⇌ Shuffle"),
        PlayMode::Single => base.append("]  ⊙ Single"),
        PlayMode::Cycle => base.append("]"),
    }
    assert(base@ =~= queue_title(v));
    let title = filter_title(app, base.as_str());
    let shown = app.filtered_queue_positions();
    let ghost all = shown@.map_values(|q: usize| entry_spans(v, q));
    let mut lines: Vec<Line> = Vec::new();
    let mut k: usize = 0;
    while k < shown.len()
        invariant
            k <= shown@.len(),
            v == app@,
            n == v.queue.len(),
            forall|i: int| 0 <= i < shown@.len() ==> #[trigger] shown@[i] < n,
            all == shown@.map_values(|q: usize| entry_spans(v, q)),
            panel::line_views(lines@) =~= all.take(k as int),
        decreases shown@.len() - k,
    {
        let ghost so_far = panel::line_views(lines@);
        let q: usize = shown[k];
        let playing = match app.queue_position() {
            Some(p) => p == q,
            None => false,
        };
        let line = song_line(app.queued(q), q + 1, 3, playing);
        assert(line@ == all[k as int]);
        lines.push(line);
        assert(panel::line_views(lines@) =~= so_far.push(line@));
        k += 1;
    }
    assert(all.take(k as int) =~= all);
    (title, lines)
}

// ── what is selected ─────────────────────────────────────────────────────────

/// The selected playlist.
pub open spec fn selected_list(v: jukebox::JukeView) -> Option<Listing> {
    match v.list {
        Some(i) if i < v.lists.len() => Some(v.lists[i as int]),
        _ => None,
    }
}

/// What is said of a playlist: its title and authors, how many songs it has, and
/// how long they take.
pub open spec fn playlist_info_lines(l: Listing) -> Seq<Seq<panel::SpanView>> {
    let title = panel::span(name_or(l.title, "Untitled"@), Role::Primary);
    let head = if names(l.authors@).len() == 0 {
        seq![title]
    } else {
        seq![title, panel::span("  by "@ + names(l.authors@), Role::Faint)]
    };
    let count = seq![panel::span(text::decimal(l.songs@.len()) + " songs"@, Role::Plain)];
    if l.total_secs > 0 {
        seq![head, count, seq![panel::span(cells::hours(l.total_secs as nat), Role::Plain)]]
    } else {
        seq![head, count]
    }
}

/// What is said of the selected playlist.
pub fn playlist_info(app: &Jukebox) -> (r: Option<Vec<Line>>)
    ensures
        match r {
            Some(lines) => selected_list(app@) matches Some(l) && panel::line_views(lines@)
                == playlist_info_lines(l),
            None => selected_list(app@) is None,
        },
{
    let lists = app.lists();
    let i: usize = match app.list() {
        Some(i) => i,
        None => return None,
    };
    if i >= lists.len() {
        return None;
    }
    let l = &lists[i];
    let title = name_of(&l.title, "Untitled");
    let mut head = Line::of(title.as_str(), Role::Primary);
    let authors = text::join(&l.authors, ", ");
    if !authors.as_str().is_empty() {
        let words = text::concat("  by ", authors.as_str());
        head.push(words.as_str(), Role::Faint);
    }
    assert(head@ =~= playlist_info_lines(*l)[0]);
    let mut lines: Vec<Line> = Vec::new();
    assert(panel::line_views(lines@) =~= Seq::empty());
    add_line(&mut lines, head);
    let mut count = text::show(l.songs.len() as u64);
    count.append(" songs");
    assert(count@ == text::decimal(l.songs@.len()) + " songs"@);
    add_line(&mut lines, Line::of(count.as_str(), Role::Plain));
    if l.total_secs > 0 {
        let length = cells::fmt_hours(l.total_secs);
        add_line(&mut lines, Line::of(length.as_str(), Role::Plain));
    }
    assert(panel::line_views(lines@) =~= playlist_info_lines(*l));
    Some(lines)
}

/// The rows of a title, the first of them prominent.
pub open spec fn title_lines(rows: Seq<Seq<char>>) -> Seq<Seq<panel::SpanView>> {
    Seq::new(
        rows.len(),
        |i: int|
            seq![
                panel::span(
                    rows[i],
                    if i == 0 {
                        Role::Primary
                    } else {
                        Role::Plain
                    },
                ),
            ],
    )
}

/// A line of plain text, where there is any.
pub open spec fn plain_line(s: Option<Seq<char>>, w: nat) -> Seq<Seq<panel::SpanView>> {
    match s {
        Some(x) => seq![seq![panel::span(cells::clipped(x, w), Role::Plain)]],
        None => Seq::empty(),
    }
}

/// What is said of a song in `w` columns: its title in at most two rows, its artists
/// and its length.
pub open spec fn song_info_lines(s: Song, w: nat) -> Seq<Seq<panel::SpanView>> {
    let artists = names(s.artists@);
    title_lines(cells::wrapped(name_or(s.title, "Unknown"@), w, 2)) + plain_line(
        if artists.len() == 0 {
            None
        } else {
            Some(artists)
        },
        w,
    ) + plain_line(length_text(s), w)
}

/// What is said of the selected song, in a panel of `width` columns.
pub fn song_info(app: &Jukebox, width: u16) -> (r: Option<Vec<Line>>)
    ensures
        match r {
            Some(lines) => jukebox::chosen_song(app@) matches Some(t) && (jukebox::song_at(
                app@,
                t.0 as int,
                t.1 as int,
            ) matches Some(s) && panel::line_views(lines@) == song_info_lines(
                s,
                if width < 2 {
                    0
                } else {
                    (width - 2) as nat
                },
            )),
            None => jukebox::chosen_song(app@) is None,
        },
{
    let s = match app.selected_song() {
        Some(s) => s,
        None => return None,
    };
    let w: usize = width.saturating_sub(2) as usize;
    let title = name_of(&s.title, "Unknown");
    let rows = cells::wrap_n_lines(title.as_str(), w, 2);
    let ghost texts = text::texts(rows@);
    let mut lines: Vec<Line> = Vec::new();
    let mut i: usize = 0;
    while i < rows.len()
        invariant
            i <= rows@.len(),
            texts == text::texts(rows@),
            panel::line_views(lines@) =~= title_lines(texts).take(i as int),
        decreases rows@.len() - i,
    {
        let role = if i == 0 {
            Role::Primary
        } else {
            Role::Plain
        };
        assert(texts[i as int] == rows@[i as int]@);
        add_line(&mut lines, Line::of(rows[i].as_str(), role));
        i += 1;
    }
    assert(title_lines(texts).take(i as int) =~= title_lines(texts));
    let artists = text::join(&s.artists, ", ");
    if !artists.as_str().is_empty() {
        let words = cells::clip(artists.as_str(), w);
        add_line(&mut lines, Line::of(words.as_str(), Role::Plain));
    }
    match song_length(s) {
        Some(d) => {
            let words = cells::clip(d.as_str(), w);
            add_line(&mut lines, Line::of(words.as_str(), Role::Plain));
        },
        None => {},
    }
    assert(panel::line_views(lines@) =~= song_info_lines(*s, w as nat));
    Some(lines)
}

/// The rows that the playlist's panel needs.
pub open spec fn playlist_rows_needed(v: jukebox::JukeView) -> nat {
    match v.list {
        None => 0,
        Some(i) => if i < v.lists.len() && v.lists[i as int].total_secs > 0 {
            3
        } else {
            2
        },
    }
}

/// The rows that the song's panel needs.
pub open spec fn song_rows_needed(v: jukebox::JukeView, width: u16) -> nat {
    match jukebox::chosen_song(v) {
        None => 0,
        Some(t) => match jukebox::song_at(v, t.0 as int, t.1 as int) {
            None => 0,
            Some(s) => {
                let rows = cells::row_count(name_or(s.title, "Unknown"@), width as nat) % 0x1_0000;
                let title: nat = if rows < 2 {
                    rows
                } else {
                    2
                };
                let artists: nat = if s.artists@.len() > 0 {
                    1
                } else {
                    0
                };
                let length: nat = if s.duration is Some || s.duration_seconds is Some {
                    1
                } else {
                    0
                };
                title + artists + length
            },
        },
    }
}

/// The height of the panels about what is selected: as many rows as they need, at
/// most three, and the borders.
pub open spec fn info_rows(v: jukebox::JukeView, width: u16) -> nat {
    let half: u16 = if width / 2 < 2 {
        0
    } else {
        (width / 2 - 2) as u16
    };
    let list = playlist_rows_needed(v);
    let needed = if v.songs is Some && song_rows_needed(v, half) > list {
        song_rows_needed(v, half)
    } else {
        list
    };
    (if needed < 3 {
        needed
    } else {
        3
    }) + 2
}

/// The height of the panels about what is selected, in an area of `width` columns.
pub fn info_height(app: &Jukebox, width: u16) -> (r: u16)
    ensures
        r == info_rows(app@, width),
{
    let lists = app.lists();
    let list: u16 = match app.list() {
        None => 0,
        Some(i) => if i < lists.len() && lists[i].total_secs > 0 {
            3
        } else {
            2
        },
    };
    let mut needed: u16 = list;
    if app.songs().is_some() {
        let half: u16 = (width / 2).saturating_sub(2);
        match app.selected_song() {
            Some(s) => {
                let title = name_of(&s.title, "Unknown");
                let rows: u16 = cells::text_rows(title.as_str(), half);
                let mut song: u16 = if rows < 2 {
                    rows
                } else {
                    2
                };
                if s.artists.len() > 0 {
                    song = song + 1;
                }
                if s.duration.is_some() || s.duration_seconds.is_some() {
                    song = song + 1;
                }
                assert(song == song_rows_needed(app@, half));
                if song > needed {
                    needed = song;
                }
            },
            None => {},
        }
    }
    if needed < 3 {
        needed + 2
    } else {
        5
    }
}

// ── the player ───────────────────────────────────────────────────────────────

/// The title of the player: whether something is wrong.
pub fn player_title(audio: &AudioState) -> (r: &'static str)
    ensures
        r@ == if audio@.error is Some {
            "Error"@
        } else {
            "Player"@
        },
{
    if audio.error.is_some() {
        "Error"
    } else {
        "Player"
    }
}

/// What goes before the times: whether it is paused or plays.
pub fn state_icon(audio: &AudioState) -> (r: &'static str)
    ensures
        r@ == if audio@.paused {
            "⏸"@
        } else if audio@.total > 0 {
            "▶"@
        } else {
            ""@
        },
{
    if audio.paused {
        "⏸"
    } else if audio.total > 0 {
        "▶"
    } else {
        ""
    }
}

/// What plays: the title and the artists.
pub open spec fn track_line(v: jukebox::JukeView) -> Seq<char> {
    match jukebox::now_playing(v) {
        None => "—  No track playing"@,
        Some(s) => {
            let title = name_or(s.title, "Unknown"@);
            let artists = names(s.artists@);
            if artists.len() == 0 {
                title
            } else {
                title + "  —  "@ + artists
            }
        },
    }
}

/// What plays, in `width` columns.
pub fn now_playing(app: &Jukebox, audio: &AudioState, width: u16) -> (r: Span)
    ensures
        r@ == panel::span(
            cells::clipped(track_line(app@), width as nat),
            if audio@.paused {
                Role::Paused
            } else {
                Role::Primary
            },
        ),
{
    let mut line = String::new();
    match app.playing() {
        None => line.append("—  No track playing"),
        Some(s) => {
            line.append(name_of(&s.title, "Unknown").as_str());
            let artists = text::join(&s.artists, ", ");
            if !artists.as_str().is_empty() {
                line.append("  —  ");
                line.append(artists.as_str());
            }
        },
    }
    assert(line@ =~= track_line(app@));
    let words = cells::clip(line.as_str(), width as usize);
    panel::styled(
        words.as_str(),
        if audio.paused {
            Role::Paused
        } else {
            Role::Primary
        },
    )
}

/// How far the song is, and how long it takes.
pub fn player_times(app: &Jukebox, audio: &AudioState) -> (r: (String, String))
    ensures
        r.0@ == if jukebox::now_playing(app@) is Some {
            cells::minutes(cells::seconds_of(audio@.elapsed))
        } else {
            "0:00"@
        },
        r.1@ == if jukebox::now_playing(app@) is Some {
            cells::minutes(cells::seconds_of(audio@.total))
        } else {
            "0:00"@
        },
{
    if app.playing().is_some() {
        (cells::fmt_clock(audio.elapsed), cells::fmt_clock(audio.total))
    } else {
        ("0:00".to_owned(), "0:00".to_owned())
    }
}

/// How many of eight blocks stand for a volume.
pub open spec fn blocks(volume: u8) -> nat {
    let filled = (volume * 8 + 50) / 100;
    if filled < 8 {
        filled as nat
    } else {
        8
    }
}

/// The volume as a bar.
pub open spec fn volume_bar(v: jukebox::JukeView) -> Seq<char> {
    if v.muted {
        "MUTE"@
    } else {
        cells::repeated('█', blocks(v.volume)) + cells::repeated(
            '░',
            (8 - blocks(v.volume)) as nat,
        ) + " "@ + text::decimal(v.volume as nat) + "%"@
    }
}

/// The volume at the left and the mode at the right of a row.
pub open spec fn extra_spans(v: jukebox::JukeView, width: nat) -> Seq<panel::SpanView> {
    let bar = volume_bar(v);
    let mode = screen::mode_name(v.mode);
    let used = bar.len() + mode.len();
    seq![
        panel::span(
            bar,
            if v.muted {
                Role::Warn
            } else {
                Role::Dim
            },
        ),
        panel::span(
            cells::repeated(
                ' ',
                if used < width {
                    (width - used) as nat
                } else {
                    0
                },
            ),
            Role::Plain,
        ),
        panel::span(mode, Role::Dim),
    ]
}

/// The volume and the mode, in a row of `width` columns.
pub fn extra_line(app: &Jukebox, width: u16) -> (r: Line)
    ensures
        r@ == extra_spans(app@, width as nat),
{
    let volume: u8 = app.volume();
    let mut bar = String::new();
    if app.is_muted() {
        bar.append("MUTE");
    } else {
        let part: usize = (volume as usize * 8 + 50) / 100;
        let filled: usize = if part < 8 {
            part
        } else {
            8
        };
        bar.append(cells::repeat('█', filled).as_str());
        bar.append(cells::repeat('░', 8 - filled).as_str());
        bar.append(" ");
        bar.append(text::show(volume as u64).as_str());
        bar.append("%");
    }
    assert(bar@ =~= volume_bar(app@));
    let mode = app.mode().label();
    let used: u128 = text::chars_of(bar.as_str()).len() as u128 + text::chars_of(mode).len() as u128;
    let pad: usize = if used < width as u128 {
        (width as u128 - used) as usize
    } else {
        0
    };
    let mut r = Line::of(
        bar.as_str(),
        if app.is_muted() {
            Role::Warn
        } else {
            Role::Dim
        },
    );
    r.push(cells::repeat(' ', pad).as_str(), Role::Plain);
    r.push(mode, Role::Dim);
    assert(r@ =~= extra_spans(app@, width as nat));
    r
}

/// The volume and the mode fill the row, where they fit in it.
pub proof fn the_row_is_filled(v: jukebox::JukeView, width: nat)
    requires
        volume_bar(v).len() + screen::mode_name(v.mode).len() <= width,
    ensures
        ({
            let r = extra_spans(v, width);
            r[0].text.len() + r[1].text.len() + r[2].text.len() == width
        }),
{
}

} // verus!
