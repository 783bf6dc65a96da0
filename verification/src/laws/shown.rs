//! What the panels show: lyrics, the list of records, playlists, songs, the queue, and what
//! plays.

use vstd::prelude::*;

use crate::cells;
use crate::config;
use crate::library;
use crate::library::Track;
use crate::lrc;
use crate::lrc::LyricLine;
use crate::lyric_panel;
use crate::lyric_panel::RowView;
use crate::lyrics;
use crate::lyrics::{LyricsKind, TrackLyrics, TrackView};
use crate::panel;
use crate::panel::{Rect, Role, SpanView};
use crate::playback::AudioView;
use crate::player::PlayMode;
use crate::screen;
use crate::screen::{BodyView, LyricsBodyView, PickerBodyView};
use crate::seqs;
use crate::text;
use crate::ui;
use crate::ui::{AppView, LyricsEntry};

verus! {

// ── lyrics ───────────────────────────────────────────────────────────────────

/// Every row of a lyric line says which line it is of; a blank line has one empty row, and
/// another the rows that its words wrap to.
pub proof fn rows_know_their_line(i: int, words: Seq<char>, width: nat, k: int)
    ensures
        ({
            let rows = lyric_panel::pieces(i, words, width);
            let wrapped = cells::wrapped(words, width, usize::MAX as nat);
            &&& text::trimmed(words).len() == 0 ==> rows == seq![
                RowView { lyric: i, text: Seq::empty() },
            ]
            &&& text::trimmed(words).len() > 0 ==> rows.len() == wrapped.len()
            &&& text::trimmed(words).len() > 0 && 0 <= k < rows.len() ==> rows[k] == (RowView {
                lyric: i,
                text: wrapped[k],
            })
        }),
{
}

/// A song's rows come line by line, numbered from the first.
pub proof fn lines_are_laid_out_in_order(lines: Seq<Seq<char>>, l: Seq<char>, width: nat)
    ensures
        lyric_panel::laid_out(Seq::empty(), width).len() == 0,
        lyric_panel::laid_out(lines.push(l), width) == lyric_panel::laid_out(lines, width)
            + lyric_panel::pieces(lines.len() as int, l, width),
{
    assert(lines.push(l).drop_last() =~= lines);
}

/// The line that is sung is bright, with a note where it has no words; its two neighbours
/// are brighter than the rest. Where none is sung, none is.
pub proof fn the_sung_line_stands_out(row: RowView, a: usize)
    ensures
        row.lyric == a && row.text.len() > 0 ==> lyric_panel::row_spans(row, Some(a)) == seq![
            SpanView { text: " "@ + row.text + " "@, role: Role::ActiveLyric },
        ],
        row.lyric == a && row.text.len() == 0 ==> lyric_panel::row_spans(row, Some(a)) == seq![
            SpanView { text: " "@ + "♪ ♪ ♪"@ + " "@, role: Role::ActiveLyric },
        ],
        row.lyric == a + 1 || row.lyric == a - 1 ==> lyric_panel::row_spans(row, Some(a)) == seq![
            SpanView { text: row.text, role: Role::Meta },
        ],
        row.lyric > a + 1 || row.lyric < a - 1 ==> lyric_panel::row_spans(row, Some(a)) == seq![
            SpanView { text: row.text, role: Role::Dim },
        ],
        lyric_panel::row_spans(row, None) == seq![SpanView { text: row.text, role: Role::Dim }],
{
}

/// The panel centres on the first row of the line that is sung, and on the song's first
/// where none is. Scrolling by a row moves every row by one.
pub proof fn scrolling_moves_every_row(
    rows: Seq<RowView>,
    active: Option<usize>,
    height: nat,
    scroll: int,
    i: int,
)
    requires
        0 <= i < height - 1,
    ensures
        lyric_panel::synced_rows(rows, active, height, scroll).len() == height,
        lyric_panel::synced_rows(rows, active, height, scroll + 1)[i]
            == lyric_panel::synced_rows(rows, active, height, scroll)[i + 1],
        active is None ==> lyric_panel::focus(rows, active) == 0,
        active matches Some(a) ==> ({
            let f = lyric_panel::focus(rows, active);
            &&& (exists|k: int| 0 <= k < rows.len() && (#[trigger] rows[k]).lyric == a) ==> 0 <= f
                < rows.len() && rows[f].lyric == a && forall|k: int|
                0 <= k < f ==> (#[trigger] rows[k]).lyric != a
        }),
{
    match active {
        Some(a) => {
            let p = lyric_panel::is_of(a as int);
            seqs::lemma_first_where(rows, p, 0);
            assert forall|k: int| 0 <= k < rows.len() implies #[trigger] p(rows[k]) == (
            rows[k].lyric == a) by {}
            if exists|k: int| 0 <= k < rows.len() && (#[trigger] rows[k]).lyric == a {
                let k = choose|k: int| 0 <= k < rows.len() && (#[trigger] rows[k]).lyric == a;
                assert(p(rows[k]));
                let g = seqs::first_where(rows, p, 0)->0;
                assert(p(rows[g]));
                assert forall|j: int| 0 <= j < g implies (#[trigger] rows[j]).lyric != a by {
                    assert(!p(rows[j]));
                }
            }
        },
        None => {},
    }
    let f = lyric_panel::focus(rows, active);
    let top = f - (height - 1) / 2 + scroll;
    assert(top + 1 + i == top + (i + 1));
}

/// Untimed lyrics start as far down as was scrolled, but the panel stays full as long as
/// there are rows for it: the last row is never left above.
pub proof fn prose_fills_the_panel(rows: Seq<RowView>, height: nat, scroll: int, i: int)
    requires
        height > 0,
    ensures
        ({
            let top = lyric_panel::plain_top(rows.len(), height, scroll);
            let shown = lyric_panel::plain_rows(rows, height, scroll);
            &&& rows.len() <= height ==> top == 0 && shown.len() == rows.len()
            &&& rows.len() > height ==> top + height <= rows.len() && shown.len() == height
            &&& rows.len() > height && 0 <= scroll <= rows.len() - height ==> top == scroll
            &&& rows.len() > height && scroll > rows.len() - height ==> top == rows.len() - height
            &&& scroll <= 0 ==> top == 0
            &&& 0 <= i < shown.len() ==> shown[i] == seq![
                SpanView { text: rows[top + i].text, role: Role::Meta },
            ]
        }),
{
}

/// The line that is sung is the last that has begun.
pub proof fn the_last_line_begun_is_sung(lines: Seq<LyricLine>, t: int, i: int)
    requires
        lrc::timed(lines),
        lines.len() <= usize::MAX,
        0 <= i < lines.len(),
    ensures
        lines[i].at <= t && (i + 1 < lines.len() ==> t < lines[i + 1].at) ==> lyric_panel::sung(
            lines,
            t,
        ) == Some(i as usize),
        t < lines[0].at ==> lyric_panel::sung(lines, t) is None,
{
    if lines[i].at <= t && (i + 1 < lines.len() ==> t < lines[i + 1].at) {
        lyric_panel::sung_is_active(lines, t, i);
    }
    if t < lines[0].at {
        lyric_panel::nothing_is_sung_in_the_intro(lines, t);
    }
}

/// Untimed lyrics say why they are: their times were made for another recording, or there
/// are none.
pub proof fn untimed_lyrics_say_why()
    ensures
        lyric_panel::plain_badge(true).text == "¶ timing differs"@,
        lyric_panel::plain_badge(false).text == "¶ unsynced"@,
{
}

/// The status beside the lyrics says how they are timed, how far they are shifted, whose
/// record they are and which.
pub proof fn the_status_names_the_record(
    badge: SpanView,
    offset: Seq<char>,
    found: TrackView,
)
    ensures
        ({
            let s = lyric_panel::status_spans(Some(badge), Some(offset), found);
            let t = lyric_panel::status_spans(None, None, found);
            &&& s.len() == 6 && s[0] == badge && s[2].text == "offset "@ + offset
            &&& s[4].text == found.track_name + " — "@ + found.artist_name
            &&& s[5].text == "  ·  "@ + "lrclib #"@ + text::decimal(found.id as nat)
            &&& t == s.skip(4)
        }),
{
    assert(lyric_panel::status_spans(None, None, found) =~= lyric_panel::status_spans(
        Some(badge),
        Some(offset),
        found,
    ).skip(4));
}

/// Timed lyrics are centred on what is sung, two columns narrower than their room; untimed
/// ones are scrolled; an instrumental says so.
pub proof fn a_record_is_shown_by_its_kind(
    found: TrackLyrics,
    inner: Rect,
    t: int,
    scroll: int,
    offset: Option<Seq<char>>,
)
    requires
        inner.width > 2,
        inner.height > 0,
    ensures
        ({
            let b = screen::record_shown(found, inner, t, scroll, offset).body;
            let words = lyric_panel::words_of(found@.kind);
            &&& found.kind is Instrumental ==> (b is Message)
            &&& (found.kind matches LyricsKind::Synced(lines) ==> b == LyricsBodyView::Timed(
                lyric_panel::synced_rows(
                    lyric_panel::laid_out(words, (inner.width - 2) as nat),
                    lyric_panel::sung(lines@, t),
                    inner.height as nat,
                    scroll,
                ),
            ))
            &&& found.kind is Plain ==> (b is Prose) && b->lines == lyric_panel::plain_rows(
                lyric_panel::laid_out(words, inner.width as nat),
                inner.height as nat,
                scroll,
            ) && b->total == lyric_panel::laid_out(words, inner.width as nat).len()
        }),
{
}

/// The lyrics panel shows what is known of what plays: nothing where nothing plays, that a
/// search runs, that there are none, what failed, or the record at the shifted time.
pub proof fn the_panel_shows_what_is_known(
    v: AppView,
    id: Seq<char>,
    elapsed: int,
    area: Rect,
    offset: Option<Seq<char>>,
)
    ensures
        ({
            let r = screen::lyrics_shown(v, elapsed, area, offset);
            let known = ui::current_video(v) == Some(id) && v.cache.contains_key(id);
            &&& ui::current_video(v) is None ==> (r.body is Message)
            &&& ui::current_video(v) == Some(id) && !v.cache.contains_key(id) ==> r.body
                == LyricsBodyView::Searching
            &&& known && v.cache[id] is Loading ==> r.body == LyricsBodyView::Searching
            &&& known && v.cache[id] is Missing ==> r.body == LyricsBodyView::Message(
                screen::no_lyrics(),
            )
            &&& known ==> (v.cache[id] matches LyricsEntry::Failed(e) ==> r.body
                == LyricsBodyView::Message(screen::failed_lyrics(e@, area.width)))
            &&& known ==> (v.cache[id] matches LyricsEntry::Ready(found) ==> r
                == screen::record_shown(
                found,
                screen::inset(panel::body_of(area)),
                config::moment(v.config.lyrics.offset, elapsed),
                v.scroll as int,
                offset,
            ))
        }),
{
}

// ── the list of records ──────────────────────────────────────────────────────

/// The list has the best match first and then every record in its order.
pub proof fn records_follow_the_best_match(
    items: Seq<TrackView>,
    current: Option<u64>,
    overridden: bool,
    track: Option<int>,
    name_w: nat,
    i: int,
)
    requires
        0 <= i < items.len(),
    ensures
        ({
            let rows = lyric_panel::listing(items, current, overridden, track, name_w);
            let r = rows[i + 1];
            let c = items[i];
            &&& rows.len() == items.len() + 1
            &&& rows[0].name[0].text == "Automatic (best match)"@
            &&& r.name[1] == (SpanView {
                text: cells::cut(c.track_name, name_w),
                role: Role::Primary,
            })
            &&& c.kind is Synced ==> r.name[0].text == "♪ "@
            &&& c.kind is Plain ==> r.name[0].text == "¶ "@
            &&& c.kind is Instrumental ==> r.name[0].text == "· "@
            &&& c.artist_name.len() > 0 ==> r.name[3].text == c.artist_name
            &&& c.artist_name.len() > 0 && c.album_name.len() > 0 ==> r.name[5].text == c.album_name
            &&& current != Some(c.id) ==> r.badge.text == ""@
            &&& current == Some(c.id) && overridden ==> r.badge.text == "IN USE"@
            &&& current == Some(c.id) && !overridden ==> r.badge.text == "AUTO"@
        }),
{
}

/// A record's length stands out where it is within two seconds of the track's, and warns
/// where its times were made for another recording.
pub proof fn a_fitting_length_stands_out(c: TrackView, d: int, track: int)
    requires
        c.duration == Some(d),
    ensures
        ({
            let s = lyric_panel::length_span(c, Some(track));
            let near = -2_000_000_000 <= d - track <= 2_000_000_000;
            &&& s.text == cells::duration(cells::seconds_of(d))
            &&& near ==> s.role == Role::Playing
            &&& !near && c.timing_mismatch ==> s.role == Role::Warn
            &&& !near && !c.timing_mismatch ==> s.role == Role::Dim
        }),
{
}

/// The list opens on the record that was chosen, behind the best match, and on that where
/// none was.
pub proof fn the_list_opens_on_what_is_in_use(items: Seq<TrackView>, id: u64, i: int)
    requires
        0 <= i < items.len(),
        items[i].id == id,
        forall|k: int| 0 <= k < i ==> (#[trigger] items[k]).id != id,
    ensures
        lyric_panel::opening_row(items, Some(id), true) == i + 1,
        lyric_panel::opening_row(items, Some(id), false) == 0,
        lyric_panel::opening_row(items, None, true) == 0,
{
    let p = lyric_panel::has_id(id);
    seqs::lemma_first_where(items, p, 0);
    assert(p(items[i]));
    let f = seqs::first_where(items, p, 0)->0;
    assert(p(items[f]));
    if f < i {
        assert(items[f].id != id);
    }
}

// ── lists ────────────────────────────────────────────────────────────────────

/// A playlist's row has its title, brighter where its song plays, and how many songs it
/// has.
pub proof fn a_playlist_shows_its_songs(v: AppView, i: int)
    requires
        0 <= i < v.library.len(),
    ensures
        ({
            let r = screen::playlist_row(v, i);
            let plays = v.player.playing matches Some(t) && t.0 == i;
            &&& r.left == seq![
                SpanView {
                    text: v.library[i].playlist.title@,
                    role: if plays {
                        Role::Playing
                    } else {
                        Role::Primary
                    },
                },
            ]
            &&& r.right.text == text::decimal(v.library[i].songs@.len())
            &&& screen::playlists_shown(v).body == BodyView::Rows(
                Seq::new(v.library.len(), |k: int| screen::playlist_row(v, k)),
            )
        }),
{
}

/// A track's row has a note where it plays, its number to the right, its title, its artists
/// behind a separator, and its length as the service wrote it, else from its seconds.
pub proof fn a_track_shows_its_number_and_length(
    t: Track,
    number: nat,
    num_w: nat,
    playing: bool,
)
    ensures
        ({
            let r = screen::row_of_track(Some(t), number, num_w, playing);
            let artists = library::listed(t.artists@);
            &&& r.left[0].text == (if playing {
                "♫ "@
            } else {
                "  "@
            })
            &&& r.left[1].text == cells::right_aligned(text::decimal(number), num_w) + "  "@
            &&& t.title matches Some(s) ==> r.left[2].text == s@
            &&& t.title is None ==> r.left[2].text == "Unknown"@
            &&& r.left[2].role == (if playing {
                Role::Playing
            } else {
                Role::Primary
            })
            &&& artists.len() > 0 ==> r.left.len() == 5 && r.left[4].text == artists
            &&& artists.len() == 0 ==> r.left.len() == 3
            &&& t.duration matches Some(s) ==> r.right.text == s@
            &&& t.duration is None && t.duration_seconds is Some ==> r.right.text
                == cells::duration(t.duration_seconds->0 as nat)
            &&& t.duration is None && t.duration_seconds is None ==> r.right.text.len() == 0
        }),
{
}

/// Songs are numbered from one, and the one that plays is marked; queue entries likewise,
/// marked by the position.
pub proof fn rows_are_numbered_from_one(v: AppView, pl: usize, i: usize)
    requires
        pl < v.library.len(),
        i < v.library[pl as int].songs@.len(),
    ensures
        screen::song_row(v, pl, i) == screen::row_of_track(
            Some(v.library[pl as int].songs@[i as int]),
            i as nat + 1,
            text::decimal(v.library[pl as int].songs@.len()).len(),
            v.player.playing == Some((pl, i)),
        ),
        i < v.player.queue.len() && v.player.queue[i as int] == (pl, i) ==> screen::entry_row(v, i)
            == screen::row_of_track(
            Some(v.library[pl as int].songs@[i as int]),
            i as nat + 1,
            text::decimal(v.player.queue.len()).len(),
            v.player.pos == Some(i),
        ),
{
}

/// A list that is being fetched says so, an empty one that it is empty, and one that a
/// query leaves nothing of that nothing matches; else its rows are shown, in order.
pub proof fn a_list_says_why_it_is_empty(v: AppView, pl: usize)
    requires
        v.list == Some(pl),
        pl < v.library.len(),
    ensures
        ({
            let b = screen::songs_shown(v).body;
            let e = v.library[pl as int];
            let shown = ui::songs_shown(v, pl);
            &&& !e.loaded ==> b == BodyView::Loading
            &&& e.loaded && shown.len() > 0 ==> b == BodyView::Rows(
                Seq::new(shown.len(), |i: int| screen::song_row(v, pl, shown[i])),
            )
            &&& e.loaded && shown.len() == 0 && e.songs@.len() == 0 ==> b == BodyView::Message(
                seq![seq![SpanView { text: "This playlist is empty"@, role: Role::Dim }]],
            )
            &&& e.loaded && shown.len() == 0 && e.songs@.len() > 0 ==> b == BodyView::Message(
                screen::nothing_matches(v.filter),
            )
            &&& screen::songs_shown(v).label == e.playlist.title@
            &&& screen::songs_shown(v).focused == (v.panel == ui::Panel::Songs)
            &&& screen::playlists_shown(v).focused == (v.panel == ui::Panel::Playlists)
        }),
{
}

/// The queue says how far it is, counted from one, how long it is and in which mode it
/// plays.
pub proof fn the_queue_says_how_far_it_is(v: AppView)
    ensures
        ({
            let s = screen::queue_shown(v).status;
            let n = text::decimal(v.player.queue.len());
            &&& v.filter.len() == 0 ==> s is Some && s->0.len() == 3
            &&& v.filter.len() == 0 && v.player.pos is Some ==> s->0[0].text == text::decimal(
                v.player.pos->0 as nat + 1,
            ) + "/"@ + n
            &&& v.filter.len() == 0 && v.player.pos is None ==> s->0[0].text == text::decimal(0)
                + "/"@ + n
            &&& v.filter.len() == 0 ==> s->0[2].text == screen::mode_name(v.player.mode)
            &&& screen::mode_name(PlayMode::Cycle) == "↺ Cycle"@
            &&& screen::mode_name(PlayMode::Single) == "⊙ Single"@
            &&& screen::mode_name(PlayMode::Shuffle) == "⇌ Shuffle"@
            &&& v.player.queue.len() == 0 && ui::entries_shown(v).len() == 0
                ==> screen::queue_shown(v).body == BodyView::Message(screen::empty_queue())
        }),
{
}

/// Under a query a list says how much of it is left, and the caret shows while it is typed.
pub proof fn a_query_says_how_much_is_left(v: AppView, shown: nat, total: nat)
    ensures
        ({
            let s = screen::status_of_list(v, shown, total);
            let left = "  "@ + text::decimal(shown) + "/"@ + text::decimal(total);
            &&& v.filter.len() > 0 ==> s is Some && s->0[0].text == "/"@ && s->0[1].text == v.filter
                && s->0.last().text == left
            &&& v.filter.len() > 0 && v.filter_mode ==> s->0.len() == 4 && s->0[2].text == "█"@
            &&& v.filter.len() > 0 && !v.filter_mode ==> s->0.len() == 3
            &&& v.filter.len() == 0 && total > 0 ==> s is Some && s->0.len() == 1 && s->0[0].text
                == text::decimal(total)
            &&& v.filter.len() == 0 && total == 0 ==> s is None
        }),
{
}

/// A playlist says how many songs it has and, where that is known, how long they take.
pub proof fn a_playlist_says_how_long_it_is(e: library::PlaylistEntry)
    ensures
        ({
            let s = screen::playlist_status(e);
            let n = text::decimal(e.songs@.len()) + " songs"@;
            &&& s.len() == 1
            &&& e.total_duration_secs == 0 ==> s[0].text == n
            &&& e.total_duration_secs > 0 ==> s[0].text == n + "  ·  "@ + cells::hours(
                e.total_duration_secs as nat,
            )
        }),
{
}

// ── the rest of the screen ───────────────────────────────────────────────────

/// Words keep two columns of room at either side.
pub proof fn words_keep_room_at_both_sides(body: Rect)
    requires
        body.width >= 4,
        body.x + body.width <= u16::MAX,
    ensures
        ({
            let r = screen::inset(body);
            &&& r.x == body.x + 2
            &&& r.x + r.width + 2 == body.x + body.width
            &&& r.y == body.y && r.height == body.height
        }),
{
}

/// While a query is typed it stands at the bottom; else what was said does, and else the
/// hints for what is open.
pub proof fn the_bottom_line_shows_the_query_first(v: AppView, width: nat)
    ensures
        ({
            let s = screen::help_spans(v, width);
            &&& v.filter_mode ==> s.len() >= 2 && s[0].text == "/"@ + v.filter
            &&& !v.filter_mode ==> (v.notification matches Some(n) ==> s.len() == 2 && s[1].text
                == n.0)
            &&& !v.filter_mode && v.notification is None ==> s == panel::fitted(
                screen::hints_for(v),
                width,
            )
        }),
{
}

/// The list of records shows that it searches, else that it failed, else the records.
pub proof fn the_list_shows_an_error_before_records(
    v: AppView,
    p: ui::PickerView,
    width: u16,
    room: u16,
)
    ensures
        p.loading ==> screen::picker_shown(v, p, width, room) == PickerBodyView::Searching,
        !p.loading && p.error is Some ==> (screen::picker_shown(v, p, width, room) is Message),
        !p.loading && p.error is None ==> ({
            &&& (screen::picker_shown(v, p, width, room) is Rows)
            &&& screen::picker_shown(v, p, width, room)->Rows_0.len() == p.items.len() + 1
        }),
{
}

/// A size is kept within its bounds, and is itself where it is; the length of what plays is
/// its listed seconds.
pub proof fn sizes_keep_within_bounds(v: AppView, n: int, least: int, most: int)
    requires
        least <= most,
    ensures
        least <= screen::within_bounds(n, least, most) <= most,
        least <= n <= most ==> screen::within_bounds(n, least, most) == n,
        n < least ==> screen::within_bounds(n, least, most) == least,
        n > most ==> screen::within_bounds(n, least, most) == most,
        ui::current_track(v) is None ==> screen::listed_length(v) is None,
        (ui::current_track(v) matches Some(t) ==> (t.duration_seconds matches Some(s)
            ==> screen::listed_length(v) == Some(s * 1_000_000_000))),
        (ui::current_track(v) matches Some(t) ==> t.duration_seconds is None
            ==> screen::listed_length(v) is None),
{
}

/// In the overview a key stands to the right of its column, and its words behind it.
pub proof fn the_overview_lines_keys_up(key: Seq<char>, desc: Seq<char>, key_w: nat)
    ensures
        key.len() > 0 ==> ({
            let l = screen::key_line(key, desc, key_w);
            l.len() == 3 && l[0].text == cells::right_aligned(key, key_w) && l[2].text == desc
        }),
        key.len() == 0 ==> screen::key_line(key, desc, key_w).len() == 0,
        screen::key_lines().len() == screen::all_keys().len(),
{
}

/// The volume is shown as a percentage, and muted as that.
pub proof fn the_volume_is_shown(v: AppView)
    ensures
        ({
            let s = screen::player_status_spans(v);
            &&& s.len() == 3
            &&& s[0].text == screen::mode_name(v.player.mode)
            &&& v.player.muted ==> s[2].text == "muted"@
            &&& !v.player.muted ==> s[2].text == text::decimal(v.player.volume as nat) + "%"@
        }),
{
}

/// What plays is marked: loading before paused, paused before playing, and nothing where
/// nothing does.
pub proof fn the_mark_says_what_audio_does(a: AudioView)
    ensures
        a.loading ==> screen::playing_mark(a) == "⋯ "@,
        !a.loading && a.paused ==> screen::playing_mark(a) == "⏸ "@,
        !a.loading && !a.paused && a.total > 0 ==> screen::playing_mark(a) == "♫ "@,
        !a.loading && !a.paused && a.total == 0 ==> screen::playing_mark(a) == "  "@,
{
}

/// An error takes the place of what plays; else the title is shown, dim while paused, and
/// behind it the artists where more than three columns are left.
pub proof fn an_error_takes_the_place_of_the_title(v: AppView, a: AudioView, width: u16)
    ensures
        ({
            let s = screen::now_playing_spans(v, a, width);
            &&& a.error is Some ==> s.len() == 2 && s[0].text == "✕ "@ && s[0].role == Role::Error
            &&& a.error is Some && width >= 2 ==> s[1].text == cells::cut(
                a.error->0,
                (width - 2) as nat,
            )
            &&& a.error is None ==> s.len() >= 2 && s[0].text == screen::playing_mark(a)
            &&& a.error is None && width >= 2 ==> s[1].text == cells::cut(
                screen::playing_title(v),
                (width - 2) as nat,
            )
            &&& a.error is None && a.paused ==> s[0].role == Role::Dim && s[1].role == Role::Dim
            &&& a.error is None && !a.paused ==> s[0].role == Role::Playing && s[1].role
                == Role::Primary
        }),
{
}

/// The artists take what the title and six columns leave, where that is more than three.
pub proof fn artists_take_what_is_left(artists: Seq<char>, used: nat, budget: nat)
    requires
        artists.len() > 0,
        used <= budget,
    ensures
        ({
            let s = screen::artists_behind(artists, used, budget);
            let rest = budget - used - 6;
            &&& rest > 3 ==> s.len() == 2 && s[0].text == "  ·  "@ && s[1].text == cells::cut(
                artists,
                rest as nat,
            )
            &&& rest <= 3 ==> s.len() == 0
        }),
{
}

} // verus!
