//! Cover art: which copy to ask for, decoding it, and bringing it to size.
//!
//! Only JPEG is decoded: that is what the image service gives. What comes out is plain
//! RGB, which every terminal graphics protocol takes.

use vstd::prelude::*;

use crate::double;
use crate::text;

verus! {

/// The range in which a cover is fetched, whatever size it is drawn at.
pub const MIN_PX: u32 = 480;

pub const MAX_PX: u32 = 1080;

/// The most that a response may weigh.
pub const MAX_BYTES: usize = 8388608;

/// The largest side that is decoded.
pub const MAX_DECODE_PX: u32 = 2048;

/// A decoded cover: three bytes for each pixel, row by row, no padding.
#[derive(Debug)]
pub struct Cover {
    pub width: u32,
    pub height: u32,
    pub rgb: Vec<u8>,
}

/// A finished fetch, under the video it belongs to.
#[derive(Debug)]
pub struct CoverMsg {
    pub video_id: String,
    pub result: Result<Cover, String>,
}

/// The mathematical content of a [`Cover`].
pub struct CoverView {
    pub width: u32,
    pub height: u32,
    pub rgb: Seq<u8>,
}

impl View for Cover {
    type V = CoverView;

    open spec fn view(&self) -> CoverView {
        CoverView { width: self.width, height: self.height, rgb: self.rgb@ }
    }
}

/// The content of a cover or an error.
pub open spec fn cover_view(r: Result<Cover, String>) -> Result<CoverView, Seq<char>> {
    match r {
        Ok(c) => Ok(c@),
        Err(e) => Err(e@),
    }
}

// ── which copy to ask for ────────────────────────────────────────────────────

/// Twice the pixels that are drawn, within bounds.
pub open spec fn wanted_px(draw_px: u32) -> int {
    if 2 * draw_px < MIN_PX {
        MIN_PX as int
    } else if 2 * draw_px > MAX_PX {
        MAX_PX as int
    } else {
        2 * draw_px
    }
}

/// What to ask for, to draw at `draw_px`: twice as much, so that scaling has four pixels
/// to average, within bounds.
pub fn fetch_px(draw_px: u32) -> (r: u32)
    ensures
        r == wanted_px(draw_px),
        MIN_PX <= r <= MAX_PX,
{
    if draw_px > 540 {
        MAX_PX
    } else if draw_px < 240 {
        MIN_PX
    } else {
        2 * draw_px
    }
}

/// The last position that holds `c`.
pub open spec fn last_of(s: Seq<char>, c: char) -> Option<int>
    decreases s.len(),
{
    if s.len() == 0 {
        None
    } else if s.last() == c {
        Some(s.len() - 1)
    } else {
        last_of(s.drop_last(), c)
    }
}

/// Whether everything behind the first character is a digit.
pub open spec fn digits_behind(s: Seq<char>) -> bool {
    forall|i: int| 1 <= i < s.len() ==> '0' <= (#[trigger] s[i]) && s[i] <= '9'
}

/// One resize instruction with its size replaced, where it is a width or a height.
pub open spec fn resized(part: Seq<char>, px: nat) -> Seq<char> {
    if part.len() > 0 && (part[0] == 'w' || part[0] == 'h') && digits_behind(part) {
        seq![part[0]] + text::decimal(px)
    } else {
        part
    }
}

/// An image address that asks for another size. What follows the last `=` are resize
/// instructions, such as `w120-h120-l90-rj`; an address in another shape stays as it is.
pub open spec fn address_at(url: Seq<char>, px: nat) -> Seq<char> {
    match last_of(url, '=') {
        Some(i) => {
            let params = url.skip(i + 1);
            if text::find_from(params, "-h"@, 0) is Some || (params.len() > 0 && params[0] == 'w') {
                url.take(i + 1) + text::joined(
                    text::split_on(params, '-').map_values(|p: Seq<char>| resized(p, px)),
                    seq!['-'],
                )
            } else {
                url
            }
        },
        None => url,
    }
}

fn resize(part: &[char], px: u32) -> (r: Vec<char>)
    ensures
        r@ == resized(part@, px as nat),
{
    let mut sized = part.len() > 0 && (part[0] == 'w' || part[0] == 'h');
    let mut i: usize = 1;
    while i < part.len() && sized
        invariant
            1 <= i,
            sized ==> part@.len() > 0 && (part@[0] == 'w' || part@[0] == 'h') && forall|k: int|
                1 <= k < i && k < part@.len() ==> '0' <= (#[trigger] part@[k]) && part@[k] <= '9',
            !sized ==> !(part@.len() > 0 && (part@[0] == 'w' || part@[0] == 'h') && digits_behind(
                part@,
            )),
        decreases part@.len() - i, sized as int,
    {
        if '0' <= part[i] && part[i] <= '9' {
            i += 1;
        } else {
            assert(!('0' <= part@[i as int] && part@[i as int] <= '9'));
            sized = false;
        }
    }
    if sized {
        let digits = text::show(px as u64);
        let ds = text::chars_of(digits.as_str());
        let mut out: Vec<char> = Vec::new();
        out.push(part[0]);
        let mut more = text::copied(ds.as_slice());
        out.append(&mut more);
        assert(out@ =~= seq![part@[0]] + text::decimal(px as nat));
        out
    } else {
        text::copied(part)
    }
}

/// Asks for a copy of the size `px`.
#[must_use]
pub fn at_size(url: &str, px: u32) -> (r: String)
    ensures
        r@ == address_at(url@, px as nat),
{
    let cs = text::chars_of(url);
    let mut n: usize = cs.len();
    assert(cs@.take(n as int) == cs@);
    while n > 0 && cs[n - 1] != '='
        invariant
            n <= cs@.len(),
            last_of(cs@, '=') == last_of(cs@.take(n as int), '='),
        decreases n,
    {
        assert(cs@.take(n as int).drop_last() == cs@.take(n - 1));
        n -= 1;
    }
    if n == 0 {
        return text::string_of(cs.as_slice());
    }
    assert(last_of(cs@, '=') == Some(n - 1));
    let params = &cs.as_slice()[n..cs.len()];
    assert(params@ == cs@.skip(n as int));
    let high = text::chars_of("-h");
    if text::find(params, high.as_slice(), 0).is_none() && !(params.len() > 0 && params[0] == 'w') {
        return text::string_of(cs.as_slice());
    }
    let parts = text::split(params, '-');
    let ghost ps = text::rows(parts@);
    let ghost want = ps.map_values(|p: Seq<char>| resized(p, px as nat));
    assert(cs@.take(n as int) == cs@.subrange(0, n as int));
    let mut out = text::copied(&cs.as_slice()[0..n]);
    let ghost base = out@;
    let mut i: usize = 0;
    assert(base + text::joined(want.take(0), seq!['-']) =~= base);
    while i < parts.len()
        invariant
            i <= parts@.len(),
            ps == text::rows(parts@),
            want == ps.map_values(|p: Seq<char>| resized(p, px as nat)),
            out@ == base + text::joined(want.take(i as int), seq!['-']),
        decreases parts@.len() - i,
    {
        let ghost before = out@;
        assert(ps[i as int] == parts@[i as int]@);
        if i > 0 {
            out.push('-');
        }
        let mut piece = resize(parts[i].as_slice(), px);
        let ghost p = piece@;
        out.append(&mut piece);
        proof {
            let t = want.take(i + 1);
            assert(t.drop_last() == want.take(i as int));
            assert(t.last() == p);
            if i == 0 {
                assert(out@ =~= base + p);
            } else {
                assert(out@ =~= base + (text::joined(want.take(i as int), seq!['-']) + seq!['-']
                    + p));
            }
        }
        i += 1;
    }
    assert(want.take(want.len() as int) == want);
    text::string_of(out.as_slice())
}

/// What is found last holds the character, and nothing behind it does.
pub proof fn lemma_last_of(s: Seq<char>, c: char)
    ensures
        match last_of(s, c) {
            Some(i) => 0 <= i < s.len() && s[i] == c && forall|j: int|
                i < j < s.len() ==> s[j] != c,
            None => forall|j: int| 0 <= j < s.len() ==> s[j] != c,
        },
    decreases s.len(),
{
    if s.len() > 0 && s.last() != c {
        lemma_last_of(s.drop_last(), c);
        let t = s.drop_last();
        assert forall|j: int| 0 <= j < s.len() - 1 implies s[j] == t[j] by {}
    }
}

proof fn lemma_resized_again(part: Seq<char>, a: nat, b: nat)
    ensures
        resized(resized(part, a), b) == resized(part, b),
        resized(part, a).len() > 0 <==> part.len() > 0,
        part.len() > 0 ==> resized(part, a)[0] == part[0],
        forall|i: int|
            0 <= i < resized(part, a).len() ==> {
                let x = #[trigger] resized(part, a)[i];
                ('0' <= x && x <= '9') || exists|j: int| 0 <= j < part.len() && part[j] == x
            },
{
    let r = resized(part, a);
    text::lemma_decimal_digits(a);
    if part.len() > 0 && (part[0] == 'w' || part[0] == 'h') && digits_behind(part) {
        let d = text::decimal(a);
        assert forall|i: int| 1 <= i < r.len() implies '0' <= (#[trigger] r[i]) && r[i] <= '9' by {
            assert(r[i] == d[i - 1]);
        }
        assert(r[0] == part[0]);
        assert forall|i: int| 0 <= i < r.len() implies {
            let x = #[trigger] r[i];
            ('0' <= x && x <= '9') || exists|j: int| 0 <= j < part.len() && part[j] == x
        } by {
            if i == 0 {
                assert(part[0] == r[0]);
            }
        }
    }
}

proof fn lemma_resized_params(params: Seq<char>, a: nat, b: nat)
    requires
        forall|i: int| 0 <= i < params.len() ==> params[i] != '=',
    ensures
        ({
            let parts = text::split_on(params, '-').map_values(|p: Seq<char>| resized(p, a));
            let all = text::joined(parts, seq!['-']);
            &&& forall|i: int| 0 <= i < all.len() ==> all[i] != '='
            &&& text::split_on(all, '-').map_values(|p: Seq<char>| resized(p, b))
                == text::split_on(params, '-').map_values(|p: Seq<char>| resized(p, b))
            &&& params.len() > 0 && params[0] == 'w' ==> all.len() > 0 && all[0] == 'w'
            &&& text::find_from(params, "-h"@, 0) is Some ==> text::find_from(all, "-h"@, 0) is Some
        }),
{
    let pieces = text::split_on(params, '-');
    let parts = pieces.map_values(|p: Seq<char>| resized(p, a));
    let all = text::joined(parts, seq!['-']);
    text::lemma_split_pieces(params, '-');
    assert forall|k: int, i: int| 0 <= k < parts.len() && 0 <= i < parts[k].len() implies
        #[trigger] parts[k][i] != '-' && parts[k][i] != '=' by {
        lemma_resized_again(pieces[k], a, b);
        assert(parts[k] == resized(pieces[k], a));
        let x = resized(pieces[k], a)[i];
        if !('0' <= x && x <= '9') {
            let j = choose|j: int| 0 <= j < pieces[k].len() && pieces[k][j] == x;
            assert(pieces[k][j] == x);
        }
    }
    text::lemma_joined_lacks(parts, '-', '=');
    text::lemma_split_joined(parts, '-');
    assert(text::split_on(all, '-').map_values(|p: Seq<char>| resized(p, b))
        =~= pieces.map_values(|p: Seq<char>| resized(p, b))) by {
        assert forall|k: int| 0 <= k < pieces.len() implies resized(
            #[trigger] parts[k],
            b,
        ) == resized(pieces[k], b) by {
            lemma_resized_again(pieces[k], a, b);
        }
    }
    if params.len() > 0 && params[0] == 'w' {
        lemma_resized_again(pieces[0], a, b);
        assert(parts[0] == resized(pieces[0], a));
        text::lemma_joined_starts(parts, '-', 0);
    }
    if text::find_from(params, "-h"@, 0) is Some {
        reveal_strlit("-h");
        text::lemma_find_from(params, "-h"@, 0);
        let j = text::find_from(params, "-h"@, 0)->0;
        let w = params.subrange(j, j + 2);
        assert(w == "-h"@);
        assert(params[j] == w[0] && params[j + 1] == w[1]);
        let k = choose|k: int|
            1 <= k < pieces.len() && (#[trigger] pieces[k]).len() > 0 && pieces[k][0] == params[j
                + 1];
        lemma_resized_again(pieces[k], a, b);
        assert(parts[k] == resized(pieces[k], a));
        text::lemma_joined_starts(parts, '-', k);
        let m = choose|m: int|
            0 <= m && m + 1 < all.len() && #[trigger] all[m] == '-' && all[m + 1] == parts[k][0];
        assert(all.subrange(m, m + 2) =~= "-h"@);
        assert(text::occurs(all, "-h"@, m));
        text::lemma_find_from(all, "-h"@, 0);
    }
}

/// Of two sizes that are asked for one after the other, the last is what counts.
pub proof fn the_last_size_counts(url: Seq<char>, a: nat, b: nat)
    ensures
        address_at(address_at(url, a), b) == address_at(url, b),
{
    lemma_last_of(url, '=');
    let once = address_at(url, a);
    match last_of(url, '=') {
        Some(i) => {
            let params = url.skip(i + 1);
            if text::find_from(params, "-h"@, 0) is Some || (params.len() > 0 && params[0] == 'w') {
                assert forall|k: int| 0 <= k < params.len() implies params[k] != '=' by {
                    assert(params[k] == url[i + 1 + k]);
                }
                lemma_resized_params(params, a, b);
                let all = text::joined(
                    text::split_on(params, '-').map_values(|p: Seq<char>| resized(p, a)),
                    seq!['-'],
                );
                assert(once == url.take(i + 1) + all);
                lemma_last_of(once, '=');
                assert(once[i] == '=');
                let k = last_of(once, '=')->0;
                if k > i {
                    assert(once[k] == all[k - i - 1]);
                }
                assert(k == i);
                assert(once.skip(i + 1) =~= all);
                assert(once.take(i + 1) =~= url.take(i + 1));
            }
        },
        None => {},
    }
}

/// An address without resize instructions stays as it is.
pub proof fn an_address_without_instructions_stays(url: Seq<char>, px: nat)
    requires
        forall|i: int| 0 <= i < url.len() ==> url[i] != '=',
    ensures
        address_at(url, px) == url,
{
    lemma_last_of(url, '=');
}

// ── decoding ─────────────────────────────────────────────────────────────────

/// What the decoder reads in the header of a JPEG: width, height and the name of its
/// pixel format.
pub uninterp spec fn jpeg_header(bytes: Seq<u8>) -> Result<
    Option<(u16, u16, Seq<char>)>,
    Seq<char>,
>;

/// The content of a header that was read.
pub open spec fn header_view(r: Result<Option<(u16, u16, String)>, String>) -> Result<
    Option<(u16, u16, Seq<char>)>,
    Seq<char>,
> {
    match r {
        Ok(Some(h)) => Ok(Some((h.0, h.1, h.2@))),
        Ok(None) => Ok(None),
        Err(e) => Err(e@),
    }
}

/// `Decoder::read_info` and `Decoder::info` of the crate `jpeg-decoder` on a new decoder:
/// the width, the height and the pixel format's name, or the message of the error. They
/// depend on the bytes alone.
#[verifier::external_body]
fn read_header(bytes: &[u8]) -> (r: Result<Option<(u16, u16, String)>, String>)
    ensures
        header_view(r) == jpeg_header(bytes@),
{
    let mut decoder = jpeg_decoder::Decoder::new(bytes);
    decoder.read_info().map_err(|e| e.to_string())?;
    let info = decoder.info();
    Ok(info.map(|i| (i.width, i.height, format!("{:?}", i.pixel_format))))
}

/// The content of samples that were decoded.
pub open spec fn samples_view(r: Result<Vec<u8>, String>) -> Result<Seq<u8>, Seq<char>> {
    match r {
        Ok(v) => Ok(v@),
        Err(e) => Err(e@),
    }
}

/// `Decoder::decode` of the crate `jpeg-decoder` on a new decoder whose header was read:
/// the samples, or the message of the error. Nothing is claimed of them: the decoder
/// rounds by the instructions that the processor has, so one file has different samples
/// on different machines. The header must be one of a cover: rows are counted in sixteen
/// bits, which the largest heights overflow.
#[verifier::external_body]
fn read_samples(bytes: &[u8]) -> (r: Result<Vec<u8>, String>)
    requires
        header_fault(jpeg_header(bytes@)) is None,
{
    let mut decoder = jpeg_decoder::Decoder::new(bytes);
    decoder.read_info().map_err(|e| e.to_string())?;
    decoder.decode().map_err(|e| e.to_string())
}

/// How a size is written.
pub open spec fn size_text(width: nat, height: nat) -> Seq<char> {
    text::decimal(width) + "x"@ + text::decimal(height)
}

/// Why a size is refused, where it is.
pub open spec fn size_fault(width: nat, height: nat) -> Option<Seq<char>> {
    if width == 0 || height == 0 {
        Some(size_text(width, height) + " is not an image"@)
    } else if width > MAX_DECODE_PX || height > MAX_DECODE_PX {
        Some(size_text(width, height) + " is past the 2048px a cover may be"@)
    } else {
        None
    }
}

/// Each sample three times: grey as red, green and blue.
pub open spec fn tripled(s: Seq<u8>) -> Seq<u8> {
    Seq::new(3 * s.len(), |i: int| s[i / 3])
}

/// A cover of samples of a named pixel format: RGB as it is, grey tripled. It must have
/// three bytes for each pixel; more are kept.
pub open spec fn laid_out(width: u16, height: u16, format: Seq<char>, samples: Seq<u8>) -> Result<
    CoverView,
    Seq<char>,
> {
    let want = width as nat * height as nat * 3;
    if format != "RGB24"@ && format != "L8"@ {
        Err("unsupported pixel format "@ + format)
    } else {
        let rgb = if format == "RGB24"@ {
            samples
        } else {
            tripled(samples)
        };
        if rgb.len() < want {
            Err(
                "truncated image: "@ + text::decimal(rgb.len()) + " of "@ + text::decimal(want)
                    + " bytes"@,
            )
        } else {
            Ok(CoverView { width: width as u32, height: height as u32, rgb })
        }
    }
}

/// What a header and samples come to. The samples count only where the header is good.
pub open spec fn decoded(
    header: Result<Option<(u16, u16, Seq<char>)>, Seq<char>>,
    samples: Result<Seq<u8>, Seq<char>>,
) -> Result<CoverView, Seq<char>> {
    match header {
        Err(e) => Err(e),
        Ok(None) => Err("no image header"@),
        Ok(Some((width, height, format))) => match size_fault(width as nat, height as nat) {
            Some(e) => Err(e),
            None => match samples {
                Err(e) => Err(e),
                Ok(s) => laid_out(width, height, format, s),
            },
        },
    }
}

fn size_string(width: u16, height: u16) -> (r: String)
    ensures
        r@ == size_text(width as nat, height as nat),
{
    let mut out = text::show(width as u64);
    out.append("x");
    out.append(text::show(height as u64).as_str());
    out
}

/// Why a header's size is refused, where it is.
pub fn refused(width: u16, height: u16) -> (r: Option<String>)
    ensures
        text::opt(r) == size_fault(width as nat, height as nat),
{
    if width == 0 || height == 0 {
        Some(text::concat(size_string(width, height).as_str(), " is not an image"))
    } else if width as u32 > MAX_DECODE_PX || height as u32 > MAX_DECODE_PX {
        Some(
            text::concat(
                size_string(width, height).as_str(),
                " is past the 2048px a cover may be",
            ),
        )
    } else {
        None
    }
}

/// Makes a cover of decoded samples. Sizes are those that a header may have.
pub fn lay_out(width: u16, height: u16, format: &str, samples: Vec<u8>) -> (r: Result<
    Cover,
    String,
>)
    ensures
        cover_view(r) == laid_out(width, height, format@, samples@),
{
    proof {
        reveal_strlit("RGB24");
        reveal_strlit("L8");
    }
    let rgb = if text::same_str(format, "RGB24") {
        samples
    } else if text::same_str(format, "L8") {
        let mut out: Vec<u8> = Vec::new();
        let mut i: usize = 0;
        while i < samples.len()
            invariant
                i <= samples@.len(),
                out@ == tripled(samples@.take(i as int)),
            decreases samples@.len() - i,
        {
            out.push(samples[i]);
            out.push(samples[i]);
            out.push(samples[i]);
            assert(out@ =~= tripled(samples@.take(i + 1)));
            i += 1;
        }
        assert(samples@.take(samples@.len() as int) == samples@);
        out
    } else {
        return Err(text::concat("unsupported pixel format ", format));
    };
    assert(width * height <= 0xffff * 0xffff) by (nonlinear_arith)
        requires
            width <= 0xffff,
            height <= 0xffff,
    ;
    let want: u64 = width as u64 * height as u64 * 3;
    if (rgb.len() as u64) < want {
        let mut out = "truncated image: ".to_owned();
        out.append(text::show(rgb.len() as u64).as_str());
        out.append(" of ");
        out.append(text::show(want).as_str());
        out.append(" bytes");
        return Err(out);
    }
    Ok(Cover { width: width as u32, height: height as u32, rgb })
}

/// Why a header is refused before any pixel is decoded, where it is.
pub open spec fn header_fault(header: Result<Option<(u16, u16, Seq<char>)>, Seq<char>>) -> Option<
    Seq<char>,
> {
    match header {
        Err(e) => Some(e),
        Ok(None) => Some("no image header"@),
        Ok(Some((width, height, _))) => size_fault(width as nat, height as nat),
    }
}

/// Decodes JPEG bytes. The header alone decides whether the size is one for a cover,
/// before any pixel is decoded. Which samples the decoder finds depends on the machine;
/// whatever they are, they are laid out as [`lay_out`] does.
pub fn decode(bytes: &[u8]) -> (r: Result<Cover, String>)
    ensures
        header_fault(jpeg_header(bytes@)) matches Some(e) ==> cover_view(r) == Err::<
            CoverView,
            Seq<char>,
        >(e),
        exists|samples: Result<Seq<u8>, Seq<char>>|
            cover_view(r) == #[trigger] decoded(jpeg_header(bytes@), samples),
{
    let ghost header = jpeg_header(bytes@);
    let ghost none: Result<Seq<u8>, Seq<char>> = Ok(Seq::empty());
    let (width, height, format) = match read_header(bytes) {
        Err(e) => {
            assert(decoded(header, none) == Err::<CoverView, Seq<char>>(e@));
            return Err(e);
        },
        Ok(None) => {
            let e = "no image header".to_owned();
            assert(decoded(header, none) == Err::<CoverView, Seq<char>>(e@));
            return Err(e);
        },
        Ok(Some(h)) => h,
    };
    match refused(width, height) {
        Some(e) => {
            assert(decoded(header, none) == Err::<CoverView, Seq<char>>(e@));
            return Err(e);
        },
        None => {},
    }
    let samples = read_samples(bytes);
    let ghost found = samples_view(samples);
    let r = match samples {
        Err(e) => Err(e),
        Ok(samples) => lay_out(width, height, format.as_str(), samples),
    };
    assert(cover_view(r) == decoded(header, found));
    r
}

/// A decoded cover has pixels, no more than the limit on a side, and bytes for all of
/// them.
pub proof fn a_decoded_cover_is_whole(
    header: Result<Option<(u16, u16, Seq<char>)>, Seq<char>>,
    samples: Result<Seq<u8>, Seq<char>>,
)
    ensures
        decoded(header, samples) matches Ok(c) ==> {
            &&& 0 < c.width <= MAX_DECODE_PX
            &&& 0 < c.height <= MAX_DECODE_PX
            &&& c.width as nat * c.height as nat * 3 <= c.rgb.len()
        },
{
}

// ── bringing to size ─────────────────────────────────────────────────────────

/// The ratio by which a cover fits a box, as a fraction: that of the side which is
/// further over.
pub open spec fn fitting_ratio(width: u32, height: u32, max_w: u32, max_h: u32) -> (u32, u32) {
    if max_w * height <= max_h * width {
        (max_w, width)
    } else {
        (max_h, height)
    }
}

/// A side by a ratio, at least one pixel.
pub open spec fn scaled_side(side: u32, ratio: (u32, u32)) -> u32 {
    let n = double::times_ratio(side as nat, ratio.0 as nat, ratio.1 as nat);
    if n == 0 {
        1
    } else {
        n as u32
    }
}

/// Whether a cover is left as it is: it fits the box, or one of them has no area.
pub open spec fn left_alone(width: u32, height: u32, max_w: u32, max_h: u32) -> bool {
    max_w == 0 || max_h == 0 || width == 0 || height == 0 || (width <= max_w && height <= max_h)
}

/// The size of a cover in a box.
pub open spec fn fitted(width: u32, height: u32, max_w: u32, max_h: u32) -> (u32, u32) {
    if left_alone(width, height, max_w, max_h) {
        (width, height)
    } else {
        let ratio = fitting_ratio(width, height, max_w, max_h);
        (scaled_side(width, ratio), scaled_side(height, ratio))
    }
}

/// `n / d`, rounded up.
pub open spec fn ceiling(n: int, d: int) -> int {
    (n + d - 1) / d
}

/// The first source line of destination line `i`, of `new` lines made of `old`.
pub open spec fn span_start(i: int, old_len: int, new_len: int) -> int {
    i * old_len / new_len
}

/// The source line behind the last one of destination line `i`.
pub open spec fn span_end(i: int, old_len: int, new_len: int) -> int {
    let end = ceiling((i + 1) * old_len, new_len);
    if end < old_len {
        end
    } else {
        old_len
    }
}

/// A sum of bytes, and how many they are.
pub struct Tally {
    pub sum: nat,
    pub count: nat,
}

/// The bytes of channel `c` of the pixels from `x0` up to `x1` in row `y`, as far as they
/// are there.
pub open spec fn row_tally(s: CoverView, y: int, x0: int, x1: int, c: int) -> Tally
    decreases x1 - x0,
{
    if x1 <= x0 {
        Tally { sum: 0, count: 0 }
    } else {
        let t = row_tally(s, y, x0, x1 - 1, c);
        let i = (y * s.width + (x1 - 1)) * 3;
        if i + 2 < s.rgb.len() {
            Tally { sum: t.sum + s.rgb[i + c] as nat, count: t.count + 1 }
        } else {
            t
        }
    }
}

/// The bytes of channel `c` of a box of pixels.
pub open spec fn box_tally(s: CoverView, y0: int, y1: int, x0: int, x1: int, c: int) -> Tally
    decreases y1 - y0,
{
    if y1 <= y0 {
        Tally { sum: 0, count: 0 }
    } else {
        let t = box_tally(s, y0, y1 - 1, x0, x1, c);
        let r = row_tally(s, y1 - 1, x0, x1, c);
        Tally { sum: t.sum + r.sum, count: t.count + r.count }
    }
}

/// The average of a tally, rounded down.
pub open spec fn mean(t: Tally) -> u8 {
    (t.sum / if t.count == 0 {
        1
    } else {
        t.count
    }) as u8
}

/// Channel `c` of pixel `(x, y)` of a cover brought to `width` by `height`: the average of
/// the source box that the pixel covers.
pub open spec fn averaged(s: CoverView, width: u32, height: u32, x: int, y: int, c: int) -> u8 {
    mean(
        box_tally(
            s,
            span_start(y, s.height as int, height as int),
            span_end(y, s.height as int, height as int),
            span_start(x, s.width as int, width as int),
            span_end(x, s.width as int, width as int),
            c,
        ),
    )
}

/// A cover brought to fit a box.
pub open spec fn shrunk(s: CoverView, max_w: u32, max_h: u32) -> CoverView {
    if left_alone(s.width, s.height, max_w, max_h) {
        s
    } else {
        let (width, height) = fitted(s.width, s.height, max_w, max_h);
        CoverView {
            width,
            height,
            rgb: Seq::new(
                (width * height * 3) as nat,
                |k: int| averaged(s, width, height, k / 3 % (width as int), k / 3 / (width as int), k % 3),
            ),
        }
    }
}

/// The ratio of a cover that is scaled is below one, and keeps both sides in the box.
pub proof fn lemma_fitted(width: u32, height: u32, max_w: u32, max_h: u32)
    requires
        !left_alone(width, height, max_w, max_h),
    ensures
        ({
            let ratio = fitting_ratio(width, height, max_w, max_h);
            &&& 0 < ratio.0 < ratio.1
            &&& double::times_ratio(width as nat, ratio.0 as nat, ratio.1 as nat) <= max_w
            &&& double::times_ratio(height as nat, ratio.0 as nat, ratio.1 as nat) <= max_h
        }),
{
    let ratio = fitting_ratio(width, height, max_w, max_h);
    if max_w * height <= max_h * width {
        assert(max_w < width) by (nonlinear_arith)
            requires
                max_w * height <= max_h * width,
                !(width <= max_w && height <= max_h),
                max_w > 0,
                max_h > 0,
                width > 0,
                height > 0,
        ;
        assert(width as nat * max_w as nat <= max_w as nat * width as nat) by (nonlinear_arith);
        double::scaling_stays_within(width as nat, max_w as nat, width as nat, max_w as nat);
        assert(height as nat * max_w as nat <= max_h as nat * width as nat) by (nonlinear_arith)
            requires
                max_w * height <= max_h * width,
        ;
        double::scaling_stays_within(height as nat, max_w as nat, width as nat, max_h as nat);
    } else {
        assert(max_h < height) by (nonlinear_arith)
            requires
                max_w * height > max_h * width,
                !(width <= max_w && height <= max_h),
                max_w > 0,
                max_h > 0,
                width > 0,
                height > 0,
        ;
        assert(height as nat * max_h as nat <= max_h as nat * height as nat) by (nonlinear_arith);
        double::scaling_stays_within(height as nat, max_h as nat, height as nat, max_h as nat);
        assert(width as nat * max_h as nat <= max_w as nat * height as nat) by (nonlinear_arith)
            requires
                max_w * height > max_h * width,
        ;
        double::scaling_stays_within(width as nat, max_h as nat, height as nat, max_w as nat);
    }
}

/// A cover brought to a box that has area is no larger than the box on either side, has
/// at least one pixel where it had one, and three bytes for each.
pub proof fn a_scaled_cover_fits(s: CoverView, max_w: u32, max_h: u32)
    requires
        max_w > 0,
        max_h > 0,
    ensures
        shrunk(s, max_w, max_h).width <= max_w || s.height == 0,
        shrunk(s, max_w, max_h).height <= max_h || s.width == 0,
        s.width > 0 && s.height > 0 ==> shrunk(s, max_w, max_h).width > 0 && shrunk(
            s,
            max_w,
            max_h,
        ).height > 0,
        !left_alone(s.width, s.height, max_w, max_h) ==> shrunk(s, max_w, max_h).rgb.len()
            == shrunk(s, max_w, max_h).width * shrunk(s, max_w, max_h).height * 3,
{
    if !left_alone(s.width, s.height, max_w, max_h) {
        lemma_fitted(s.width, s.height, max_w, max_h);
        let (width, height) = fitted(s.width, s.height, max_w, max_h);
        assert(width * height * 3 >= 0) by (nonlinear_arith)
            requires
                width >= 0,
                height >= 0,
        ;
    }
}

/// Scaling a scaled cover to the same box changes nothing.
pub proof fn scaling_twice_is_scaling_once(s: CoverView, max_w: u32, max_h: u32)
    requires
        max_w > 0,
        max_h > 0,
    ensures
        shrunk(shrunk(s, max_w, max_h), max_w, max_h) == shrunk(s, max_w, max_h),
{
    a_scaled_cover_fits(s, max_w, max_h);
}

proof fn lemma_row_tally_bound(s: CoverView, y: int, x0: int, x1: int, c: int)
    requires
        0 <= c <= 2,
    ensures
        row_tally(s, y, x0, x1, c).sum <= 255 * row_tally(s, y, x0, x1, c).count,
        row_tally(s, y, x0, x1, c).count <= if x1 > x0 {
            x1 - x0
        } else {
            0
        },
        row_tally(s, y, x0, x1, c).count == row_tally(s, y, x0, x1, 0).count,
    decreases x1 - x0,
{
    if x1 > x0 {
        lemma_row_tally_bound(s, y, x0, x1 - 1, c);
    }
}

proof fn lemma_row_between(s: CoverView, y: int, x0: int, x1: int, c: int, lo: u8, hi: u8)
    requires
        within(s, c, lo, hi),
        0 <= y < s.height,
        0 <= x0 <= x1 <= s.width,
    ensures
        ({
            let t = row_tally(s, y, x0, x1, c);
            t.count == x1 - x0 && lo * t.count <= t.sum <= hi * t.count
        }),
    decreases x1 - x0,
{
    if x1 > x0 {
        lemma_row_between(s, y, x0, x1 - 1, c, lo, hi);
        let t = row_tally(s, y, x0, x1 - 1, c);
        let n = t.count as int;
        let p = y * s.width + (x1 - 1);
        assert(0 <= p < s.width * s.height) by (nonlinear_arith)
            requires
                0 <= y < s.height,
                0 < x1 <= s.width,
                p == y * s.width + (x1 - 1),
        ;
        assert(lo <= s.rgb[p * 3 + c] <= hi);
        assert(lo * (n + 1) == lo * n + lo && hi * (n + 1) == hi * n + hi) by (nonlinear_arith);
    } else {
        assert(lo * 0 == 0 && hi * 0 == 0);
    }
}

proof fn lemma_box_between(
    s: CoverView,
    y0: int,
    y1: int,
    x0: int,
    x1: int,
    c: int,
    lo: u8,
    hi: u8,
)
    requires
        within(s, c, lo, hi),
        0 <= y0 <= y1 <= s.height,
        0 <= x0 < x1 <= s.width,
    ensures
        ({
            let t = box_tally(s, y0, y1, x0, x1, c);
            t.count >= y1 - y0 && lo * t.count <= t.sum <= hi * t.count
        }),
    decreases y1 - y0,
{
    if y1 > y0 {
        lemma_box_between(s, y0, y1 - 1, x0, x1, c, lo, hi);
        lemma_row_between(s, y1 - 1, x0, x1, c, lo, hi);
        let a = box_tally(s, y0, y1 - 1, x0, x1, c).count as int;
        let b = row_tally(s, y1 - 1, x0, x1, c).count as int;
        assert(lo * (a + b) == lo * a + lo * b && hi * (a + b) == hi * a + hi * b)
            by (nonlinear_arith);
    } else {
        assert(lo * 0 == 0 && hi * 0 == 0);
    }
}

/// Whether a cover has bytes for all its pixels, and those of channel `c` lie between
/// `lo` and `hi`.
pub open spec fn within(s: CoverView, c: int, lo: u8, hi: u8) -> bool {
    &&& 0 <= c <= 2
    &&& s.width * s.height * 3 <= s.rgb.len()
    &&& forall|p: int|
        0 <= p < s.width * s.height ==> lo <= #[trigger] s.rgb[p * 3 + c] <= hi
}

/// A scaled cover is no darker and no brighter than the cover: what bounds the bytes of a
/// channel bounds them in the scaled cover too.
pub proof fn scaling_stays_between(s: CoverView, max_w: u32, max_h: u32, c: int, lo: u8, hi: u8)
    requires
        within(s, c, lo, hi),
    ensures
        within(shrunk(s, max_w, max_h), c, lo, hi),
{
    let r = shrunk(s, max_w, max_h);
    if !left_alone(s.width, s.height, max_w, max_h) {
        let (width, height) = fitted(s.width, s.height, max_w, max_h);
        assert(width * height * 3 >= 0) by (nonlinear_arith)
            requires
                width >= 0,
                height >= 0,
        ;
        lemma_fitted(s.width, s.height, max_w, max_h);
        assert forall|p: int| 0 <= p < width * height implies lo <= #[trigger] r.rgb[p * 3 + c]
            <= hi by {
            let w = width as int;
            let x = p % w;
            let y = p / w;
            assert(0 <= x < w && 0 <= y < height) by (nonlinear_arith)
                requires
                    0 <= p < w * height,
                    w > 0,
                    x == p % w,
                    y == p / w,
            ;
            lemma_spans(y, s.height as int, height as int);
            lemma_spans(x, s.width as int, w);
            let k = p * 3 + c;
            assert(k / 3 == p && k % 3 == c);
            let t = box_tally(
                s,
                span_start(y, s.height as int, height as int),
                span_end(y, s.height as int, height as int),
                span_start(x, s.width as int, w),
                span_end(x, s.width as int, w),
                c,
            );
            lemma_box_between(
                s,
                span_start(y, s.height as int, height as int),
                span_end(y, s.height as int, height as int),
                span_start(x, s.width as int, w),
                span_end(x, s.width as int, w),
                c,
                lo,
                hi,
            );
            lemma_mean_between(t.sum as int, t.count as int, lo as int, hi as int);
            assert(r.rgb[k] == averaged(s, width, height, k / 3 % w, k / 3 / w, k % 3));
        }
    }
}

/// A cover of one colour keeps it when it is scaled.
pub proof fn one_colour_stays(
    s: CoverView,
    max_w: u32,
    max_h: u32,
    red: u8,
    green: u8,
    blue: u8,
)
    requires
        within(s, 0, red, red),
        within(s, 1, green, green),
        within(s, 2, blue, blue),
    ensures
        within(shrunk(s, max_w, max_h), 0, red, red),
        within(shrunk(s, max_w, max_h), 1, green, green),
        within(shrunk(s, max_w, max_h), 2, blue, blue),
{
    scaling_stays_between(s, max_w, max_h, 0, red, red);
    scaling_stays_between(s, max_w, max_h, 1, green, green);
    scaling_stays_between(s, max_w, max_h, 2, blue, blue);
}

proof fn lemma_mean_between(sum: int, count: int, lo: int, hi: int)
    requires
        count > 0,
        lo * count <= sum <= hi * count,
    ensures
        lo <= sum / count <= hi,
{
    assert(lo <= sum / count <= hi) by (nonlinear_arith)
        requires
            count > 0,
            lo * count <= sum <= hi * count,
    ;
}

/// A destination line covers a source line at least, and none that is not there.
pub proof fn lemma_spans(i: int, old_len: int, new_len: int)
    requires
        0 <= i < new_len,
        0 < old_len <= u32::MAX,
        new_len <= u32::MAX,
    ensures
        0 <= span_start(i, old_len, new_len) < span_end(i, old_len, new_len) <= old_len,
{
    let a = i * old_len;
    assert(0 <= a) by (nonlinear_arith)
        requires
            0 <= i,
            0 < old_len,
            a == i * old_len,
    ;
    assert(a + old_len == (i + 1) * old_len) by (nonlinear_arith)
        requires
            a == i * old_len,
    ;
    assert((i + 1) * old_len <= new_len * old_len) by (nonlinear_arith)
        requires
            i + 1 <= new_len,
            0 < old_len,
    ;
    vstd::arithmetic::div_mod::lemma_fundamental_div_mod(a, new_len);
    let q = a / new_len;
    let up = a + old_len + new_len - 1;
    vstd::arithmetic::div_mod::lemma_fundamental_div_mod(up, new_len);
    let e = up / new_len;
    assert(0 <= q) by (nonlinear_arith)
        requires
            q == a / new_len,
            0 <= a,
            new_len > 0,
    ;
    assert(q < old_len) by (nonlinear_arith)
        requires
            a == new_len * q + a % new_len,
            0 <= a % new_len,
            a < new_len * old_len,
            new_len > 0,
    ;
    assert(e > q) by (nonlinear_arith)
        requires
            a == new_len * q + a % new_len,
            0 <= a % new_len,
            up == new_len * e + up % new_len,
            0 <= up % new_len < new_len,
            up >= a + new_len,
            new_len > 0,
    ;
}

fn copy_of(c: &Cover) -> (r: Cover)
    ensures
        r@ == c@,
{
    let mut rgb: Vec<u8> = Vec::new();
    let mut i: usize = 0;
    while i < c.rgb.len()
        invariant
            i <= c.rgb@.len(),
            rgb@ == c.rgb@.take(i as int),
        decreases c.rgb@.len() - i,
    {
        rgb.push(c.rgb[i]);
        i += 1;
    }
    assert(c.rgb@.take(c.rgb@.len() as int) == c.rgb@);
    Cover { width: c.width, height: c.height, rgb }
}

impl Cover {
    fn tally_row(&self, y: u64, x0: u64, x1: u64) -> (r: (u128, u128, u128, u128))
        requires
            y < self.height,
            x0 <= x1 <= self.width,
        ensures
            r.0 == row_tally(self@, y as int, x0 as int, x1 as int, 0).sum,
            r.1 == row_tally(self@, y as int, x0 as int, x1 as int, 1).sum,
            r.2 == row_tally(self@, y as int, x0 as int, x1 as int, 2).sum,
            r.3 == row_tally(self@, y as int, x0 as int, x1 as int, 0).count,
            r.3 <= x1 - x0,
    {
        let mut red: u128 = 0;
        let mut green: u128 = 0;
        let mut blue: u128 = 0;
        let mut n: u128 = 0;
        let mut x: u64 = x0;
        let len: usize = self.rgb.len();
        assert(y * self.width <= 0xffff_ffff * 0xffff_ffff) by (nonlinear_arith)
            requires
                y <= 0xffff_ffff,
                self.width <= 0xffff_ffff,
        ;
        let base: u128 = y as u128 * self.width as u128;
        while x < x1
            invariant
                x0 <= x <= x1 <= self.width,
                len == self.rgb@.len(),
                base == y * self.width,
                base <= 0xffff_ffff * 0xffff_ffff,
                red == row_tally(self@, y as int, x0 as int, x as int, 0).sum,
                green == row_tally(self@, y as int, x0 as int, x as int, 1).sum,
                blue == row_tally(self@, y as int, x0 as int, x as int, 2).sum,
                n == row_tally(self@, y as int, x0 as int, x as int, 0).count,
                n <= x - x0,
                red <= 255 * n,
                green <= 255 * n,
                blue <= 255 * n,
            decreases x1 - x,
        {
            let i: u128 = (base + x as u128) * 3;
            if i + 2 < len as u128 {
                let at: usize = i as usize;
                red = red + self.rgb[at] as u128;
                green = green + self.rgb[at + 1] as u128;
                blue = blue + self.rgb[at + 2] as u128;
                n = n + 1;
            }
            x += 1;
        }
        (red, green, blue, n)
    }

    fn average(&self, y0: u64, y1: u64, x0: u64, x1: u64) -> (r: (u8, u8, u8))
        requires
            y0 <= y1 <= self.height,
            x0 <= x1 <= self.width,
        ensures
            r.0 == mean(box_tally(self@, y0 as int, y1 as int, x0 as int, x1 as int, 0)),
            r.1 == mean(box_tally(self@, y0 as int, y1 as int, x0 as int, x1 as int, 1)),
            r.2 == mean(box_tally(self@, y0 as int, y1 as int, x0 as int, x1 as int, 2)),
    {
        let mut red: u128 = 0;
        let mut green: u128 = 0;
        let mut blue: u128 = 0;
        let mut n: u128 = 0;
        let mut y: u64 = y0;
        while y < y1
            invariant
                y0 <= y <= y1 <= self.height,
                x0 <= x1 <= self.width,
                red == box_tally(self@, y0 as int, y as int, x0 as int, x1 as int, 0).sum,
                green == box_tally(self@, y0 as int, y as int, x0 as int, x1 as int, 1).sum,
                blue == box_tally(self@, y0 as int, y as int, x0 as int, x1 as int, 2).sum,
                n == box_tally(self@, y0 as int, y as int, x0 as int, x1 as int, 0).count,
                n == box_tally(self@, y0 as int, y as int, x0 as int, x1 as int, 1).count,
                n == box_tally(self@, y0 as int, y as int, x0 as int, x1 as int, 2).count,
                n <= 0xffff_ffff * (y - y0),
                red <= 255 * n,
                green <= 255 * n,
                blue <= 255 * n,
            decreases y1 - y,
        {
            let (r, g, b, k) = self.tally_row(y, x0, x1);
            proof {
                lemma_row_tally_bound(self@, y as int, x0 as int, x1 as int, 0);
                lemma_row_tally_bound(self@, y as int, x0 as int, x1 as int, 1);
                lemma_row_tally_bound(self@, y as int, x0 as int, x1 as int, 2);
            }
            red = red + r;
            green = green + g;
            blue = blue + b;
            n = n + k;
            y += 1;
        }
        let d: u128 = if n == 0 {
            1
        } else {
            n
        };
        proof {
            lemma_small_quotient(red as int, d as int);
            lemma_small_quotient(green as int, d as int);
            lemma_small_quotient(blue as int, d as int);
        }
        ((red / d) as u8, (green / d) as u8, (blue / d) as u8)
    }

    /// A copy no larger than `max_w` by `max_h`, with the sides in the same ratio. Each
    /// pixel is the average of the source box it covers.
    #[must_use]
    pub fn scaled(&self, max_w: u32, max_h: u32) -> (r: Cover)
        ensures
            r@ == shrunk(self@, max_w, max_h),
    {
        if max_w == 0 || max_h == 0 || self.width == 0 || self.height == 0 {
            return copy_of(self);
        }
        if self.width <= max_w && self.height <= max_h {
            return copy_of(self);
        }
        proof {
            lemma_fitted(self.width, self.height, max_w, max_h);
        }
        let ghost s = self@;
        assert(max_w * self.height <= 0xffff_ffff * 0xffff_ffff && max_h * self.width <= 0xffff_ffff
            * 0xffff_ffff) by (nonlinear_arith)
            requires
                max_w <= 0xffff_ffff,
                max_h <= 0xffff_ffff,
                self.width <= 0xffff_ffff,
                self.height <= 0xffff_ffff,
        ;
        let (a, b): (u32, u32) = if max_w as u64 * self.height as u64 <= max_h as u64
            * self.width as u64 {
            (max_w, self.width)
        } else {
            (max_h, self.height)
        };
        let w: u128 = double::scale(self.width, a, b);
        let h: u128 = double::scale(self.height, a, b);
        let width: u32 = if w == 0 {
            1
        } else {
            w as u32
        };
        let height: u32 = if h == 0 {
            1
        } else {
            h as u32
        };
        assert((width, height) == fitted(s.width, s.height, max_w, max_h));
        let mut rgb: Vec<u8> = Vec::new();
        let ghost f = |k: int|
            averaged(s, width, height, k / 3 % (width as int), k / 3 / (width as int), k % 3);
        let mut y: u32 = 0;
        assert(rgb@ =~= Seq::new(0, f));
        while y < height
            invariant
                y <= height,
                0 < width,
                0 < self.width,
                0 < self.height,
                s == self@,
                f == (|k: int|
                    averaged(
                        s,
                        width,
                        height,
                        k / 3 % (width as int),
                        k / 3 / (width as int),
                        k % 3,
                    )),
                rgb@ == Seq::new((y * width * 3) as nat, f),
            decreases height - y,
        {
            proof {
                lemma_spans(y as int, s.height as int, height as int);
            }
            let (y0, y1) = span(y, self.height, height);
            let mut x: u32 = 0;
            while x < width
                invariant
                    x <= width,
                    y < height,
                    0 < width,
                    0 < self.width,
                    s == self@,
                    y0 == span_start(y as int, s.height as int, height as int),
                    y1 == span_end(y as int, s.height as int, height as int),
                    y0 <= y1 <= self.height,
                    f == (|k: int|
                        averaged(
                            s,
                            width,
                            height,
                            k / 3 % (width as int),
                            k / 3 / (width as int),
                            k % 3,
                        )),
                    rgb@ == Seq::new(((y * width + x) * 3) as nat, f),
                decreases width - x,
            {
                proof {
                    lemma_spans(x as int, s.width as int, width as int);
                }
                let (x0, x1) = span(x, self.width, width);
                let (red, green, blue) = self.average(y0, y1, x0, x1);
                let ghost n = (y * width + x) * 3;
                proof {
                    lemma_pixel_index(x as int, y as int, width as int);
                }
                let ghost before = rgb@;
                rgb.push(red);
                rgb.push(green);
                rgb.push(blue);
                proof {
                    assert(red == f(n) && green == f(n + 1) && blue == f(n + 2));
                    assert((y * width + (x + 1)) * 3 == n + 3);
                    assert(rgb@ =~= Seq::new((n + 3) as nat, f));
                }
                x += 1;
            }
            proof {
                assert((y + 1) * width == y * width + width) by (nonlinear_arith);
            }
            y += 1;
        }
        proof {
            assert(height * width == width * height) by (nonlinear_arith);
            assert(rgb@ =~= shrunk(s, max_w, max_h).rgb);
        }
        Cover { width, height, rgb }
    }
}

proof fn lemma_small_quotient(n: int, d: int)
    requires
        0 <= n <= 255 * d,
        d > 0,
    ensures
        0 <= n / d <= 255,
{
    assert(0 <= n / d <= 255) by (nonlinear_arith)
        requires
            0 <= n <= 255 * d,
            d > 0,
    ;
}

/// Where the three bytes of a pixel stand.
pub proof fn lemma_pixel_index(x: int, y: int, width: int)
    requires
        0 <= x < width,
        0 <= y,
    ensures
        ({
            let n = (y * width + x) * 3;
            &&& 0 <= n
            &&& n / 3 % width == x && n / 3 / width == y && n % 3 == 0
            &&& (n + 1) / 3 % width == x && (n + 1) / 3 / width == y && (n + 1) % 3 == 1
            &&& (n + 2) / 3 % width == x && (n + 2) / 3 / width == y && (n + 2) % 3 == 2
        }),
{
    let p = y * width + x;
    assert(0 <= p) by (nonlinear_arith)
        requires
            0 <= x,
            0 <= y,
            0 < width,
            p == y * width + x,
    ;
    vstd::arithmetic::div_mod::lemma_fundamental_div_mod_converse(p, width, y, x);
    assert(p * 3 / 3 == p && (p * 3 + 1) / 3 == p && (p * 3 + 2) / 3 == p);
}

fn span(i: u32, old_len: u32, new_len: u32) -> (r: (u64, u64))
    requires
        i < new_len,
        0 < old_len,
    ensures
        r.0 == span_start(i as int, old_len as int, new_len as int),
        r.1 == span_end(i as int, old_len as int, new_len as int),
{
    assert(i * old_len <= 0xffff_fffe * 0xffff_ffff && (i + 1) * old_len <= 0xffff_ffff
        * 0xffff_ffff) by (nonlinear_arith)
        requires
            i <= 0xffff_fffe,
            old_len <= 0xffff_ffff,
    ;
    let start: u64 = i as u64 * old_len as u64 / new_len as u64;
    let end: u64 = ((i as u64 + 1) * old_len as u64 + (new_len as u64 - 1)) / new_len as u64;
    if end < old_len as u64 {
        (start, end)
    } else {
        (start, old_len as u64)
    }
}

// ── receiving ────────────────────────────────────────────────────────────────

/// What is said of a response that weighs too much.
pub open spec fn too_large() -> Seq<char> {
    "cover is larger than 8388608 bytes"@
}

/// The bytes of a response as they come in, never more than the limit.
pub struct CoverBody {
    bytes: Vec<u8>,
}

impl View for CoverBody {
    type V = Seq<u8>;

    closed spec fn view(&self) -> Seq<u8> {
        self.bytes@
    }
}

impl CoverBody {
    /// Starts on a response; one that says it weighs too much is refused unread.
    pub fn start(content_length: Option<u64>) -> (r: Result<Self, String>)
        ensures
            match r {
                Ok(b) => b@.len() == 0 && (content_length matches Some(n) ==> n <= MAX_BYTES),
                Err(e) => e@ == too_large() && content_length is Some && content_length->0
                    > MAX_BYTES,
            },
    {
        match content_length {
            Some(n) => {
                if n > MAX_BYTES as u64 {
                    return Err("cover is larger than 8388608 bytes".to_owned());
                }
            },
            None => {},
        }
        Ok(CoverBody { bytes: Vec::new() })
    }

    /// Takes in a chunk; one that would go over the limit is refused.
    pub fn push(&mut self, chunk: &[u8]) -> (r: Result<(), String>)
        requires
            old(self)@.len() <= MAX_BYTES,
        ensures
            final(self)@.len() <= MAX_BYTES,
            match r {
                Ok(_) => final(self)@ == old(self)@ + chunk@,
                Err(e) => e@ == too_large() && final(self)@ == old(self)@ && old(self)@.len()
                    + chunk@.len() > MAX_BYTES,
            },
    {
        if chunk.len() > MAX_BYTES - self.bytes.len() {
            return Err("cover is larger than 8388608 bytes".to_owned());
        }
        let mut i: usize = 0;
        let ghost before = self.bytes@;
        while i < chunk.len()
            invariant
                i <= chunk@.len(),
                self.bytes@ =~= before + chunk@.take(i as int),
            decreases chunk@.len() - i,
        {
            self.bytes.push(chunk[i]);
            i += 1;
        }
        assert(chunk@.take(chunk@.len() as int) == chunk@);
        Ok(())
    }

    /// Decodes what came, brought down to the size it is drawn at.
    pub fn finish(&self, draw_px: u32) -> (r: Result<Cover, String>)
        ensures
            header_fault(jpeg_header(self@)) matches Some(e) ==> cover_view(r) == Err::<
                CoverView,
                Seq<char>,
            >(e),
            exists|samples: Result<Seq<u8>, Seq<char>>|
                match (r, #[trigger] decoded(jpeg_header(self@), samples)) {
                    (Ok(c), Ok(d)) => c@ == shrunk(d, draw_px, draw_px),
                    (Err(e), Err(f)) => e@ == f,
                    _ => false,
                },
    {
        match decode(self.bytes.as_slice()) {
            Ok(c) => Ok(c.scaled(draw_px, draw_px)),
            Err(e) => Err(e),
        }
    }
}

} // verus!
