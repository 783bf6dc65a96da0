//! Cover art on the terminal, in the kitty graphics protocol.
//!
//! An image stays on the screen until it is deleted, above whatever is drawn later. So a
//! [`Canvas`] knows what is shown and where, has it sent only when one of them changes,
//! and says when it has to go.

use vstd::prelude::*;

use crate::cover;
use crate::cover::{Cover, CoverView};
use crate::session;
use crate::text;

verus! {

/// The most base64 characters in one escape sequence.
pub const CHUNK: usize = 4096;

/// The size of a terminal in cells and in pixels.
#[derive(Clone, Copy, Debug)]
pub struct WindowSize {
    pub columns: u16,
    pub rows: u16,
    pub width: u16,
    pub height: u16,
}

/// A rectangle of cells.
#[derive(Clone, Copy, Debug, PartialEq, Eq, Structural)]
pub struct Area {
    pub x: u16,
    pub y: u16,
    pub width: u16,
    pub height: u16,
}

/// The pixels of one cell: those of the window divided among its cells, or 10 by 20 where
/// the terminal does not say or says what no font could have.
pub open spec fn cell_of(window: Option<WindowSize>) -> (u32, u32) {
    match window {
        Some(w) => if w.columns == 0 || w.rows == 0 {
            (10, 20)
        } else {
            let x = (w.width / w.columns) as u32;
            let y = (w.height / w.rows) as u32;
            if 4 <= x <= 64 && 8 <= y <= 128 {
                (x, y)
            } else {
                (10, 20)
            }
        },
        None => (10, 20),
    }
}

/// The pixels of one cell of a window. They are always those of a plausible font.
#[must_use]
pub fn cell_size(window: Option<WindowSize>) -> (r: (u32, u32))
    ensures
        r == cell_of(window),
        4 <= r.0 <= 64,
        8 <= r.1 <= 128,
{
    match window {
        Some(w) => {
            if w.columns == 0 || w.rows == 0 {
                return (10, 20);
            }
            let x: u32 = (w.width / w.columns) as u32;
            let y: u32 = (w.height / w.rows) as u32;
            if 4 <= x && x <= 64 && 8 <= y && y <= 128 {
                (x, y)
            } else {
                (10, 20)
            }
        },
        None => (10, 20),
    }
}

/// Whether the environment is that of a terminal that knows the protocol.
pub open spec fn speaks(term: Seq<char>, program: Seq<char>, kitty_window: bool) -> bool {
    kitty_window || text::find_from(term, "kitty"@, 0) is Some || text::find_from(
        term,
        "ghostty"@,
        0,
    ) is Some || session::same_but_case(program, "ghostty"@) || session::same_but_case(
        program,
        "WezTerm"@,
    )
}

fn mentions(s: &str, word: &str) -> (r: bool)
    ensures
        r == (text::find_from(s@, word@, 0) is Some),
{
    let a = text::chars_of(s);
    let b = text::chars_of(word);
    text::find(a.as_slice(), b.as_slice(), 0).is_some()
}

/// Whether the terminal knows the protocol, by its `TERM`, its `TERM_PROGRAM` and whether
/// it names a kitty window. An unknown terminal does not.
#[must_use]
pub fn supported(term: &str, program: &str, kitty_window: bool) -> (r: bool)
    ensures
        r == speaks(term@, program@, kitty_window),
{
    kitty_window || mentions(term, "kitty") || mentions(term, "ghostty") || session::equal_but_case(
        program,
        "ghostty",
    ) || session::equal_but_case(program, "WezTerm")
}

// ── base64 ───────────────────────────────────────────────────────────────────

/// The character of six bits in the standard alphabet.
pub open spec fn letter(v: int) -> char {
    if v < 26 {
        ('A' as int + v) as char
    } else if v < 52 {
        ('a' as int + (v - 26)) as char
    } else if v < 62 {
        ('0' as int + (v - 52)) as char
    } else if v == 62 {
        '+'
    } else {
        '/'
    }
}

/// The six bits that a character of the alphabet stands for.
pub open spec fn letter_value(c: char) -> int {
    if 'A' <= c && c <= 'Z' {
        c as int - 'A' as int
    } else if 'a' <= c && c <= 'z' {
        c as int - 'a' as int + 26
    } else if '0' <= c && c <= '9' {
        c as int - '0' as int + 52
    } else if c == '+' {
        62
    } else {
        63
    }
}

/// The bytes from `i` on, in groups of three as four characters, an unfinished group
/// padded.
pub open spec fn encoded(data: Seq<u8>, i: int) -> Seq<char>
    decreases data.len() + 3 - i,
{
    if i < 0 || i >= data.len() {
        Seq::empty()
    } else {
        let a = data[i] as int;
        let b = if i + 1 < data.len() {
            data[i + 1] as int
        } else {
            0
        };
        let c = if i + 2 < data.len() {
            data[i + 2] as int
        } else {
            0
        };
        seq![
            letter(a / 4),
            letter(a % 4 * 16 + b / 16),
            if i + 1 < data.len() {
                letter(b % 16 * 4 + c / 64)
            } else {
                '='
            },
            if i + 2 < data.len() {
                letter(c % 64)
            } else {
                '='
            },
        ] + encoded(data, i + 3)
    }
}

/// The bytes that base64 text stands for, four characters at a time.
pub open spec fn unencoded(s: Seq<char>) -> Seq<u8>
    decreases s.len(),
{
    if s.len() < 4 {
        Seq::empty()
    } else {
        let a = letter_value(s[0]);
        let b = letter_value(s[1]);
        let c = letter_value(s[2]);
        let d = letter_value(s[3]);
        let first = (a * 4 + b / 16) as u8;
        let second = (b % 16 * 16 + c / 4) as u8;
        let third = (c % 4 * 64 + d) as u8;
        (if s[2] == '=' {
            seq![first]
        } else if s[3] == '=' {
            seq![first, second]
        } else {
            seq![first, second, third]
        }) + unencoded(s.skip(4))
    }
}

proof fn lemma_letter(v: int)
    requires
        0 <= v < 64,
    ensures
        letter_value(letter(v)) == v,
        letter(v) != '=',
        (letter(v) as u32) < 128,
{
}

/// Four characters for each started group of three bytes, all of them ASCII.
pub proof fn base64_is_as_long_as_it_should_be(data: Seq<u8>, i: int)
    requires
        0 <= i <= data.len(),
    ensures
        encoded(data, i).len() == (data.len() - i + 2) / 3 * 4,
        forall|k: int|
            0 <= k < encoded(data, i).len() ==> (#[trigger] encoded(data, i)[k] as u32) < 128,
    decreases data.len() - i,
{
    if i < data.len() {
        if i + 3 <= data.len() {
            base64_is_as_long_as_it_should_be(data, i + 3);
        } else {
            assert(encoded(data, i + 3) =~= Seq::empty());
        }
        let rest = encoded(data, i + 3);
        let a = data[i] as int;
        let b = if i + 1 < data.len() {
            data[i + 1] as int
        } else {
            0
        };
        let c = if i + 2 < data.len() {
            data[i + 2] as int
        } else {
            0
        };
        lemma_letter(a / 4);
        lemma_letter(a % 4 * 16 + b / 16);
        lemma_letter(b % 16 * 4 + c / 64);
        lemma_letter(c % 64);
        assert forall|k: int| 0 <= k < encoded(data, i).len() implies (#[trigger] encoded(
            data,
            i,
        )[k] as u32) < 128 by {
            if k >= 4 {
                assert(encoded(data, i)[k] == rest[k - 4]);
            }
        }
    }
}

/// Base64 text stands for the bytes it was made of.
pub proof fn base64_is_undone(data: Seq<u8>, i: int)
    requires
        0 <= i <= data.len(),
    ensures
        unencoded(encoded(data, i)) == data.skip(i),
    decreases data.len() - i,
{
    if i < data.len() {
        let s = encoded(data, i);
        let a = data[i] as int;
        let b = if i + 1 < data.len() {
            data[i + 1] as int
        } else {
            0
        };
        let c = if i + 2 < data.len() {
            data[i + 2] as int
        } else {
            0
        };
        lemma_letter(a / 4);
        lemma_letter(a % 4 * 16 + b / 16);
        lemma_letter(b % 16 * 4 + c / 64);
        lemma_letter(c % 64);
        assert(s.skip(4) =~= encoded(data, i + 3));
        if i + 3 <= data.len() {
            base64_is_undone(data, i + 3);
        } else {
            assert(encoded(data, i + 3) =~= Seq::empty());
            assert(unencoded(encoded(data, i + 3)) =~= Seq::empty());
        }
        assert(letter_value(s[0]) * 4 + letter_value(s[1]) / 16 == a);
        if i + 1 < data.len() {
            assert(letter_value(s[1]) % 16 * 16 + letter_value(s[2]) / 4 == b);
            if i + 2 < data.len() {
                assert(letter_value(s[2]) % 4 * 64 + letter_value(s[3]) == c);
            }
        }
        assert(unencoded(s) =~= data.skip(i));
    } else {
        assert(unencoded(encoded(data, i)) =~= Seq::empty());
        assert(data.skip(i) =~= Seq::empty());
    }
}

fn letter_of(v: u8) -> (c: char)
    requires
        v < 64,
    ensures
        c == letter(v as int),
{
    if v < 26 {
        (65 + v) as char
    } else if v < 52 {
        (97 + (v - 26)) as char
    } else if v < 62 {
        (48 + (v - 52)) as char
    } else if v == 62 {
        '+'
    } else {
        '/'
    }
}

/// Standard base64 with padding.
pub fn base64(data: &[u8]) -> (r: String)
    ensures
        r@ == encoded(data@, 0),
{
    let n: usize = data.len();
    let mut out = String::new();
    let mut i: usize = 0;
    assert(out@ + encoded(data@, 0) =~= encoded(data@, 0));
    while i < n
        invariant
            n == data@.len(),
            i <= n,
            out@ + encoded(data@, i as int) == encoded(data@, 0),
        decreases n - i,
    {
        let ghost before = out@;
        let left: usize = n - i;
        let a: u8 = data[i];
        let b: u8 = if left > 1 {
            data[i + 1]
        } else {
            0
        };
        let c: u8 = if left > 2 {
            data[i + 2]
        } else {
            0
        };
        out.push(letter_of(a / 4));
        out.push(letter_of(a % 4 * 16 + b / 16));
        out.push(
            if left > 1 {
                letter_of(b % 16 * 4 + c / 64)
            } else {
                '='
            },
        );
        out.push(
            if left > 2 {
                letter_of(c % 64)
            } else {
                '='
            },
        );
        assert(out@ + encoded(data@, i + 3) =~= before + encoded(data@, i as int));
        if left > 3 {
            i += 3;
        } else {
            assert(encoded(data@, i + 3) =~= encoded(data@, n as int));
            i = n;
        }
    }
    assert(out@ + Seq::<char>::empty() =~= out@);
    out
}

// ── what is sent ─────────────────────────────────────────────────────────────

/// Pieces of at most [`CHUNK`] characters, in order.
pub open spec fn chunks(payload: Seq<char>) -> Seq<Seq<char>>
    decreases payload.len(),
{
    if payload.len() == 0 {
        Seq::empty()
    } else if payload.len() <= CHUNK {
        seq![payload]
    } else {
        seq![payload.take(CHUNK as int)] + chunks(payload.skip(CHUNK as int))
    }
}

/// The chunks put together are the payload, none is empty, none is over the limit, and all
/// but the last are full.
pub proof fn chunks_make_the_payload(payload: Seq<char>)
    ensures
        chunks(payload).flatten() == payload,
        forall|i: int|
            0 <= i < chunks(payload).len() ==> 0 < (#[trigger] chunks(payload)[i]).len() <= CHUNK,
        forall|i: int|
            0 <= i < chunks(payload).len() - 1 ==> (#[trigger] chunks(payload)[i]).len() == CHUNK,
    decreases payload.len(),
{
    let c = chunks(payload);
    if payload.len() == 0 {
        assert(c.flatten() =~= payload);
    } else if payload.len() <= CHUNK {
        c.lemma_flatten_one_element();
    } else {
        let rest = chunks(payload.skip(CHUNK as int));
        chunks_make_the_payload(payload.skip(CHUNK as int));
        assert(c.drop_first() =~= rest);
        assert(c.first() == payload.take(CHUNK as int));
        assert(c.flatten() == c.first() + rest.flatten());
        assert(c.flatten() =~= payload);
        assert forall|i: int| 0 <= i < c.len() implies 0 < (#[trigger] c[i]).len() <= CHUNK by {
            if i > 0 {
                assert(c[i] == rest[i - 1]);
            }
        }
        assert forall|i: int| 0 <= i < c.len() - 1 implies (#[trigger] c[i]).len() == CHUNK by {
            if i > 0 {
                assert(c[i] == rest[i - 1]);
            }
        }
    }
}

/// What deletes every image that was placed.
pub open spec fn deletion() -> Seq<char> {
    "\x1b_Ga=d,d=A\x1b\\"@
}

/// The escape sequence of one chunk. The first says what the image is and which cells it
/// goes into; each says whether more follow.
pub open spec fn packet(
    c: CoverView,
    area: Area,
    first: bool,
    more: bool,
    chunk: Seq<char>,
) -> Seq<char> {
    let flag = if more {
        "1"@
    } else {
        "0"@
    };
    if first {
        "\x1b_Ga=T,f=24,s="@ + text::decimal(c.width as nat) + ",v="@ + text::decimal(
            c.height as nat,
        ) + ",c="@ + text::decimal(area.width as nat) + ",r="@ + text::decimal(area.height as nat)
            + ",C=1,q=2,m="@ + flag + ";"@ + chunk + "\x1b\\"@
    } else {
        "\x1b_Gm="@ + flag + ";"@ + chunk + "\x1b\\"@
    }
}

/// The escape sequences of a payload from its first chunk on, or of what is left of it.
pub open spec fn packets(c: CoverView, area: Area, first: bool, payload: Seq<char>) -> Seq<char>
    decreases payload.len(),
{
    if payload.len() == 0 {
        Seq::empty()
    } else if payload.len() <= CHUNK {
        packet(c, area, first, false, payload)
    } else {
        packet(c, area, first, true, payload.take(CHUNK as int)) + packets(
            c,
            area,
            false,
            payload.skip(CHUNK as int),
        )
    }
}

/// What draws a cover into an area: the cursor goes to its corner, then the image.
pub open spec fn transmission(c: CoverView, area: Area) -> Seq<char> {
    "\x1b["@ + text::decimal((area.y + 1) as nat) + ";"@ + text::decimal((area.x + 1) as nat) + "H"@
        + packets(c, area, true, encoded(c.rgb, 0))
}

fn push_packet(
    out: &mut String,
    c: &Cover,
    area: Area,
    first: bool,
    more: bool,
    chunk: &[char],
)
    ensures
        final(out)@ == old(out)@ + packet(c@, area, first, more, chunk@),
{
    let ghost start = out@;
    let flag = if more {
        "1"
    } else {
        "0"
    };
    if first {
        out.append("\x1b_Ga=T,f=24,s=");
        out.append(text::show(c.width as u64).as_str());
        out.append(",v=");
        out.append(text::show(c.height as u64).as_str());
        out.append(",c=");
        out.append(text::show(area.width as u64).as_str());
        out.append(",r=");
        out.append(text::show(area.height as u64).as_str());
        out.append(",C=1,q=2,m=");
    } else {
        out.append("\x1b_Gm=");
    }
    out.append(flag);
    out.append(";");
    out.append(text::string_of(chunk).as_str());
    out.append("\x1b\\");
    assert(out@ =~= start + packet(c@, area, first, more, chunk@));
}

fn transmit(c: &Cover, area: Area) -> (r: String)
    ensures
        r@ == transmission(c@, area),
{
    let mut out = "\x1b[".to_owned();
    out.append(text::show(area.y as u64 + 1).as_str());
    out.append(";");
    out.append(text::show(area.x as u64 + 1).as_str());
    out.append("H");
    let ghost head = out@;
    let payload_text = base64(c.rgb.as_slice());
    let payload = text::chars_of(payload_text.as_str());
    let n: usize = payload.len();
    let mut from: usize = 0;
    let mut first = true;
    assert(payload@.skip(0) == payload@);
    while from < n
        invariant
            from <= n,
            n == payload@.len(),
            out@ + packets(c@, area, first, payload@.skip(from as int)) == head + packets(
                c@,
                area,
                true,
                payload@,
            ),
        decreases n - from,
    {
        let ghost before = out@;
        let ghost rest = payload@.skip(from as int);
        if n - from <= CHUNK {
            assert(rest == payload@.subrange(from as int, n as int));
            push_packet(&mut out, c, area, first, false, &payload.as_slice()[from..n]);
            from = n;
            assert(payload@.skip(n as int) =~= Seq::empty());
            assert(out@ + Seq::<char>::empty() =~= out@);
        } else {
            assert(rest.take(CHUNK as int) == payload@.subrange(from as int, from + CHUNK));
            assert(rest.skip(CHUNK as int) == payload@.skip(from + CHUNK));
            push_packet(&mut out, c, area, first, true, &payload.as_slice()[from..from + CHUNK]);
            assert(out@ + packets(c@, area, false, rest.skip(CHUNK as int)) =~= before + packets(
                c@,
                area,
                first,
                rest,
            ));
            from = from + CHUNK;
        }
        first = false;
    }
    assert(payload@.skip(from as int) =~= Seq::empty());
    assert(out@ + Seq::<char>::empty() =~= out@);
    out
}

// ── the canvas ───────────────────────────────────────────────────────────────

/// What to do to the screen.
pub enum Painting {
    /// It is right as it is.
    Nothing,
    /// Delete what is shown.
    Delete,
    /// Delete what may be shown, then write this.
    Replace(String),
}

/// The mathematical content of a [`Painting`].
pub enum PaintingView {
    Nothing,
    Delete,
    Replace(Seq<char>),
}

impl View for Painting {
    type V = PaintingView;

    open spec fn view(&self) -> PaintingView {
        match self {
            Painting::Nothing => PaintingView::Nothing,
            Painting::Delete => PaintingView::Delete,
            Painting::Replace(s) => PaintingView::Replace(s@),
        }
    }
}

/// The image that is on the screen, and where.
pub struct Canvas {
    pub shown: Option<(String, Area)>,
}

impl View for Canvas {
    type V = Option<(Seq<char>, Area)>;

    open spec fn view(&self) -> Option<(Seq<char>, Area)> {
        match self.shown {
            Some((id, area)) => Some((id@, area)),
            None => None,
        }
    }
}

/// Taking the image off: something to do only where there is one.
pub open spec fn clearing(v: Option<(Seq<char>, Area)>) -> (
    Option<(Seq<char>, Area)>,
    PaintingView,
) {
    (
        None,
        if v is Some {
            PaintingView::Delete
        } else {
            PaintingView::Nothing
        },
    )
}

/// Showing a cover: nothing where it is already there, off with it where the area has no
/// cells, else it is sent at the pixels that the area has.
pub open spec fn showing(
    v: Option<(Seq<char>, Area)>,
    id: Seq<char>,
    c: CoverView,
    area: Area,
    cell: (u32, u32),
) -> (Option<(Seq<char>, Area)>, PaintingView) {
    if area.width == 0 || area.height == 0 {
        clearing(v)
    } else if v == Some((id, area)) {
        (v, PaintingView::Nothing)
    } else {
        (
            Some((id, area)),
            PaintingView::Replace(
                transmission(
                    cover::shrunk(c, (area.width * cell.0) as u32, (area.height * cell.1) as u32),
                    area,
                ),
            ),
        )
    }
}

/// Showing the same cover in the same place again does nothing.
pub proof fn an_image_is_not_drawn_twice(
    v: Option<(Seq<char>, Area)>,
    id: Seq<char>,
    c: CoverView,
    area: Area,
    cell: (u32, u32),
)
    requires
        area.width > 0,
        area.height > 0,
    ensures
        showing(showing(v, id, c, area, cell).0, id, c, area, cell).1 == PaintingView::Nothing,
{
}

impl Canvas {
    /// An empty screen.
    pub fn new() -> (r: Self)
        ensures
            r@ is None,
    {
        Canvas { shown: None }
    }

    /// Shows `cover` for `id` in `area`, whose cells have `cell` pixels.
    pub fn show(&mut self, id: &str, cover: &Cover, area: Area, cell: (u32, u32)) -> (r: Painting)
        requires
            cell.0 <= 64,
            cell.1 <= 128,
        ensures
            (final(self)@, r@) == showing(old(self)@, id@, cover@, area, cell),
    {
        if area.width == 0 || area.height == 0 {
            return self.clear();
        }
        let there = match &self.shown {
            Some((s, a)) => text::same_str(s.as_str(), id) && *a == area,
            None => false,
        };
        if there {
            return Painting::Nothing;
        }
        assert(area.width * cell.0 <= 0xffff * 64) by (nonlinear_arith)
            requires
                area.width <= 0xffff,
                cell.0 <= 64,
        ;
        assert(area.height * cell.1 <= 0xffff * 128) by (nonlinear_arith)
            requires
                area.height <= 0xffff,
                cell.1 <= 128,
        ;
        let sized = cover.scaled(area.width as u32 * cell.0, area.height as u32 * cell.1);
        let out = transmit(&sized, area);
        self.shown = Some((id.to_owned(), area));
        Painting::Replace(out)
    }

    /// Takes whatever is shown off the screen.
    pub fn clear(&mut self) -> (r: Painting)
        ensures
            (final(self)@, r@) == clearing(old(self)@),
    {
        let was = self.shown.is_some();
        self.shown = None;
        if was {
            Painting::Delete
        } else {
            Painting::Nothing
        }
    }

    /// Notes that what was to be written did not reach the screen.
    pub fn forget(&mut self)
        ensures
            final(self)@ is None,
    {
        self.shown = None;
    }
}

/// The escape sequence that deletes every image that was placed.
pub fn delete_all() -> (r: &'static str)
    ensures
        r@ == deletion(),
{
    "\x1b_Ga=d,d=A\x1b\\"
}

} // verus!
