//! Covers: which size is fetched, how one is scaled, and how it is drawn on a terminal.

use vstd::prelude::*;

use crate::cover;
use crate::cover::{CoverView, Tally};
use crate::double;
use crate::kitty;
use crate::kitty::{Area, PaintingView, WindowSize};
use crate::session;
use crate::text;

verus! {

// ── fetching ─────────────────────────────────────────────────────────────────

/// A cover is fetched at twice the size it is drawn at, but never below 480 or above 1080
/// pixels.
pub proof fn twice_the_pixels_are_fetched(draw_px: u32)
    ensures
        480 <= cover::wanted_px(draw_px) <= 1080,
        240 <= draw_px <= 540 ==> cover::wanted_px(draw_px) == 2 * draw_px,
        draw_px < 240 ==> cover::wanted_px(draw_px) == 480,
        draw_px > 540 ==> cover::wanted_px(draw_px) == 1080,
{
}

/// Of the resize instructions, a width and a height get the new size, and any other stays.
pub proof fn only_widths_and_heights_change(c: char, size: Seq<char>, part: Seq<char>, px: nat)
    requires
        forall|i: int| 0 <= i < size.len() ==> '0' <= (#[trigger] size[i]) && size[i] <= '9',
    ensures
        c == 'w' || c == 'h' ==> cover::resized(seq![c] + size, px) == seq![c] + text::decimal(px),
        c != 'w' && c != 'h' ==> cover::resized(seq![c] + size, px) == seq![c] + size,
        (exists|i: int| 1 <= i < part.len() && !('0' <= (#[trigger] part[i]) && part[i] <= '9'))
            ==> cover::resized(part, px) == part,
{
    let p = seq![c] + size;
    assert forall|i: int| 1 <= i < p.len() implies '0' <= (#[trigger] p[i]) && p[i] <= '9' by {
        assert(p[i] == size[i - 1]);
    }
    assert(p[0] == c);
    if exists|i: int| 1 <= i < part.len() && !('0' <= (#[trigger] part[i]) && part[i] <= '9') {
        let i = choose|i: int|
            1 <= i < part.len() && !('0' <= (#[trigger] part[i]) && part[i] <= '9');
        assert(!('0' <= part[i] && part[i] <= '9'));
    }
}

/// The address before its last equals sign stays, and behind it each instruction changes
/// for itself.
pub proof fn instructions_stand_behind_the_last_sign(
    base: Seq<char>,
    parts: Seq<Seq<char>>,
    px: nat,
)
    requires
        parts.len() > 0,
        parts[0].len() > 0,
        parts[0][0] == 'w',
        forall|k: int, i: int|
            0 <= k < parts.len() && 0 <= i < parts[k].len() ==> #[trigger] parts[k][i] != '-'
                && parts[k][i] != '=',
    ensures
        cover::address_at(base + seq!['='] + text::joined(parts, seq!['-']), px) == base + seq!['=']
            + text::joined(
            parts.map_values(|p: Seq<char>| cover::resized(p, px)),
            seq!['-'],
        ),
{
    let params = text::joined(parts, seq!['-']);
    let url = base + seq!['='] + params;
    let n = base.len() as int;
    text::lemma_joined_lacks(parts, '-', '=');
    text::lemma_joined_starts(parts, '-', 0);
    text::lemma_split_joined(parts, '-');
    cover::lemma_last_of(url, '=');
    assert(url[n] == '=');
    let i = cover::last_of(url, '=')->0;
    if i > n {
        assert(url[i] == params[i - n - 1]);
    }
    assert(i == n);
    assert(url.skip(n + 1) =~= params);
    assert(url.take(n + 1) =~= base + seq!['=']);
}

/// A size is refused exactly where a side is nothing or over 2048 pixels.
pub proof fn sizes_up_to_2048_are_taken(width: nat, height: nat)
    ensures
        (cover::size_fault(width, height) is None) == (1 <= width <= 2048 && 1 <= height <= 2048),
{
}

/// A grey pixel has its one sample as red, green and blue.
pub proof fn grey_is_three_equal_bytes(s: Seq<u8>, i: int, c: int)
    requires
        0 <= i < s.len(),
        0 <= c < 3,
    ensures
        cover::tripled(s).len() == 3 * s.len(),
        cover::tripled(s)[3 * i + c] == s[i],
{
    assert((3 * i + c) / 3 == i);
}

/// Samples of RGB make a cover as they are and grey ones tripled, where there are enough
/// for every pixel; too few are an error, and so is another format.
pub proof fn samples_make_a_cover(width: u16, height: u16, format: Seq<char>, samples: Seq<u8>)
    ensures
        ({
            let r = cover::laid_out(width, height, format, samples);
            let n = width as int * height as int;
            &&& format == "RGB24"@ && samples.len() >= n * 3 ==> r == Ok::<CoverView, Seq<char>>(
                CoverView { width: width as u32, height: height as u32, rgb: samples },
            )
            &&& format == "RGB24"@ && samples.len() < n * 3 ==> r is Err
            &&& format == "L8"@ && samples.len() >= n ==> r == Ok::<CoverView, Seq<char>>(
                CoverView {
                    width: width as u32,
                    height: height as u32,
                    rgb: cover::tripled(samples),
                },
            )
            &&& format == "L8"@ && samples.len() < n ==> r is Err
            &&& format != "RGB24"@ && format != "L8"@ ==> r == Err::<CoverView, Seq<char>>(
                "unsupported pixel format "@ + format,
            )
        }),
{
    reveal_strlit("RGB24");
    reveal_strlit("L8");
    assert("RGB24"@.len() != "L8"@.len());
}

/// What is wrong with a header counts first, then the size it gives, then the samples; with
/// nothing wrong these make the cover.
pub proof fn a_header_counts_before_samples(
    width: u16,
    height: u16,
    format: Seq<char>,
    samples: Seq<u8>,
    fault: Seq<char>,
    other: Result<Seq<u8>, Seq<char>>,
)
    ensures
        ({
            let good = Ok::<Option<(u16, u16, Seq<char>)>, Seq<char>>(
                Some((width, height, format)),
            );
            let fits = 1 <= width <= 2048 && 1 <= height <= 2048;
            &&& cover::decoded(Err(fault), other) == Err::<CoverView, Seq<char>>(fault)
            &&& cover::decoded(Ok(None), other) is Err
            &&& !fits ==> cover::decoded(good, other) is Err
            &&& fits ==> cover::decoded(good, Err(fault)) == Err::<CoverView, Seq<char>>(fault)
            &&& fits ==> cover::decoded(good, Ok(samples)) == cover::laid_out(
                width,
                height,
                format,
                samples,
            )
            &&& cover::header_fault(Err(fault)) == Some(fault)
            &&& cover::header_fault(Ok(None)) is Some
            &&& (cover::header_fault(good) is None) == fits
        }),
        width == 0 ==> cover::size_fault(width as nat, height as nat) == Some(
            text::decimal(width as nat) + "x"@ + text::decimal(height as nat)
                + " is not an image"@,
        ),
        cover::MAX_BYTES == 8 * 1024 * 1024,
{
}

// ── scaling ──────────────────────────────────────────────────────────────────

/// A cover within its box stays as it is; a larger one fills the box on the side that is
/// further over, and the other side keeps the proportion to within a pixel.
pub proof fn a_scaled_cover_fills_its_box(width: u32, height: u32, max_w: u32, max_h: u32)
    requires
        width > 0,
        height > 0,
        max_w > 0,
        max_h > 0,
    ensures
        ({
            let (w, h) = cover::fitted(width, height, max_w, max_h);
            let over = width > max_w || height > max_h;
            &&& !over ==> w == width && h == height
            &&& over && max_w * height <= max_h * width ==> {
                &&& w == max_w
                &&& h * width < height * max_w + width
                &&& height * max_w < (h + 1) * width
            }
            &&& over && max_w * height > max_h * width ==> {
                &&& h == max_h
                &&& w * height < width * max_h + height
                &&& width * max_h < (w + 1) * height
            }
        }),
{
    if width > max_w || height > max_h {
        cover::lemma_fitted(width, height, max_w, max_h);
        if max_w * height <= max_h * width {
            lemma_side(width as nat, max_w as nat, width as nat);
            lemma_side(height as nat, max_w as nat, width as nat);
            assert(width as nat * max_w as nat >= max_w as nat * width as nat)
                by (nonlinear_arith);
            double::scaling_reaches(width as nat, max_w as nat, width as nat, max_w as nat);
        } else {
            lemma_side(height as nat, max_h as nat, height as nat);
            lemma_side(width as nat, max_h as nat, height as nat);
            assert(height as nat * max_h as nat >= max_h as nat * height as nat)
                by (nonlinear_arith);
            double::scaling_reaches(height as nat, max_h as nat, height as nat, max_h as nat);
        }
    }
}

proof fn lemma_side(x: nat, a: nat, b: nat)
    requires
        0 < a < b < 0x1_0000_0000,
        0 < x < 0x1_0000_0000,
    ensures
        ({
            let n = double::times_ratio(x, a, b);
            let side = if n == 0 {
                1
            } else {
                n
            };
            &&& side * b < x * a + b
            &&& x * a < (side + 1) * b
        }),
{
    let p = x * a;
    let n = double::times_ratio(x, a, b);
    let low = p / b;
    let high = (p + b - 1) / b as int;
    vstd::arithmetic::div_mod::lemma_fundamental_div_mod(p as int, b as int);
    vstd::arithmetic::div_mod::lemma_fundamental_div_mod(p + b - 1, b as int);
    assert(0 < p <= 0xffff_ffff * b) by (nonlinear_arith)
        requires
            p == x * a,
            0 < a < b,
            0 < x <= 0xffff_ffff,
    ;
    let r = (p + b - 1) % b as int;
    assert(0 <= high <= 0xffff_ffff && p <= high * b && high * b < p + b) by (nonlinear_arith)
        requires
            p + b - 1 == b * high + r,
            0 <= r < b,
            0 < p <= 0xffff_ffff * b,
            b > 0,
    ;
    let t = p % b;
    assert(low <= 0xffff_ffff && low * b <= p && p < (low + 1) * b) by (nonlinear_arith)
        requires
            p == b * low + t,
            0 <= t < b,
            0 < p <= 0xffff_ffff * b,
            b > 0,
    ;
    double::scaling_stays_within(x, a, b, high as nat);
    double::scaling_reaches(x, a, b, low);
    let side = if n == 0 {
        1
    } else {
        n
    };
    assert(side * b < p + b) by (nonlinear_arith)
        requires
            side == n || side == 1,
            n <= high,
            high * b < p + b,
            0 < p,
            b > 0,
    ;
    assert(p < (side + 1) * b) by (nonlinear_arith)
        requires
            side >= n,
            n >= low,
            p < (low + 1) * b,
            b > 0,
    ;
}

/// A quotient is rounded to the nearest whole number, and to the even one of two that are
/// equally near.
pub proof fn a_quotient_is_rounded_to_the_nearest(n: nat, d: nat)
    requires
        d > 0,
    ensures
        ({
            let m = double::nearest_even(n, d);
            &&& 2 * (m * d) <= 2 * n + d
            &&& 2 * n <= 2 * (m * d) + d
            &&& 2 * (m * d) == 2 * n + d || 2 * n == 2 * (m * d) + d ==> m % 2 == 0
        }),
{
    let q = n / d;
    let r = n % d;
    vstd::arithmetic::div_mod::lemma_fundamental_div_mod(n as int, d as int);
    assert(n == q * d + r) by (nonlinear_arith)
        requires
            n == d * q + r,
    ;
    assert((q + 1) * d == q * d + d) by (nonlinear_arith);
}

/// A destination line covers the source lines that it lies over, whole or in part, and no
/// others: together they cover all of them.
pub proof fn a_line_covers_what_it_lies_over(i: int, old_len: int, new_len: int)
    requires
        0 <= i < new_len <= u32::MAX,
        0 < old_len <= u32::MAX,
    ensures
        ({
            let a = cover::span_start(i, old_len, new_len);
            let b = cover::span_end(i, old_len, new_len);
            &&& 0 <= a < b <= old_len
            &&& a * new_len <= i * old_len < (a + 1) * new_len
            &&& (b - 1) * new_len < (i + 1) * old_len <= b * new_len
        }),
        cover::span_start(0, old_len, new_len) == 0,
        cover::span_end(new_len - 1, old_len, new_len) == old_len,
{
    cover::lemma_spans(i, old_len, new_len);
    lemma_span(i, old_len, new_len);
    lemma_span(0, old_len, new_len);
    lemma_span(new_len - 1, old_len, new_len);
    let z = cover::span_start(0, old_len, new_len);
    let b = cover::span_end(new_len - 1, old_len, new_len);
    cover::lemma_spans(0, old_len, new_len);
    cover::lemma_spans(new_len - 1, old_len, new_len);
    assert(z == 0) by (nonlinear_arith)
        requires
            z * new_len <= 0 * old_len,
            0 <= z,
            new_len > 0,
    ;
    assert(b == old_len) by (nonlinear_arith)
        requires
            ((new_len - 1) + 1) * old_len <= b * new_len,
            b <= old_len,
            new_len > 0,
    ;
}

proof fn lemma_span(i: int, old_len: int, new_len: int)
    requires
        0 <= i < new_len <= u32::MAX,
        0 < old_len <= u32::MAX,
    ensures
        ({
            let a = cover::span_start(i, old_len, new_len);
            let b = cover::span_end(i, old_len, new_len);
            &&& a * new_len <= i * old_len < (a + 1) * new_len
            &&& (b - 1) * new_len < (i + 1) * old_len <= b * new_len
        }),
{
    let n = i * old_len;
    let m = (i + 1) * old_len;
    let a = n / new_len;
    let e = (m + new_len - 1) / new_len;
    vstd::arithmetic::div_mod::lemma_fundamental_div_mod(n, new_len);
    vstd::arithmetic::div_mod::lemma_fundamental_div_mod(m + new_len - 1, new_len);
    let t = n % new_len;
    let r = (m + new_len - 1) % new_len;
    assert(a * new_len <= n < (a + 1) * new_len) by (nonlinear_arith)
        requires
            n == new_len * a + t,
            0 <= t < new_len,
    ;
    assert((e - 1) * new_len < m <= e * new_len) by (nonlinear_arith)
        requires
            m + new_len - 1 == new_len * e + r,
            0 <= r < new_len,
    ;
    assert(m <= old_len * new_len) by (nonlinear_arith)
        requires
            m == (i + 1) * old_len,
            i + 1 <= new_len,
            0 < old_len,
    ;
    if e >= old_len {
        assert((old_len - 1) * new_len < m) by (nonlinear_arith)
            requires
                (e - 1) * new_len < m,
                e >= old_len,
                new_len > 0,
        ;
    }
}

/// Every byte of a scaled cover is the average of the bytes of its channel in the box that
/// its pixel covers.
pub proof fn a_scaled_pixel_is_an_average(s: CoverView, max_w: u32, max_h: u32, x: int, y: int, c: int)
    requires
        !cover::left_alone(s.width, s.height, max_w, max_h),
        0 <= x < cover::fitted(s.width, s.height, max_w, max_h).0,
        0 <= y < cover::fitted(s.width, s.height, max_w, max_h).1,
        0 <= c < 3,
    ensures
        ({
            let (w, h) = cover::fitted(s.width, s.height, max_w, max_h);
            let t = cover::box_tally(
                s,
                cover::span_start(y, s.height as int, h as int),
                cover::span_end(y, s.height as int, h as int),
                cover::span_start(x, s.width as int, w as int),
                cover::span_end(x, s.width as int, w as int),
                c,
            );
            cover::shrunk(s, max_w, max_h).rgb[(y * w + x) * 3 + c] == cover::mean(t)
        }),
{
    let (w, h) = cover::fitted(s.width, s.height, max_w, max_h);
    cover::lemma_pixel_index(x, y, w as int);
    let k = (y * w + x) * 3 + c;
    assert(0 <= k < w * h * 3) by (nonlinear_arith)
        requires
            0 <= x < w,
            0 <= y < h,
            0 <= c < 3,
            k == (y * w + x) * 3 + c,
    {
        assert(y * w + x < (y + 1) * w);
        assert((y + 1) * w <= h * w);
        assert(0 <= y * w);
    }
}

/// The average of bytes, rounded down, is what their number goes into their sum.
pub proof fn a_mean_is_sum_by_number(t: Tally)
    requires
        t.count > 0,
        t.sum <= 255 * t.count,
    ensures
        cover::mean(t) * t.count <= t.sum < (cover::mean(t) + 1) * t.count,
{
    let q = t.sum / t.count;
    vstd::arithmetic::div_mod::lemma_fundamental_div_mod(t.sum as int, t.count as int);
    let r = t.sum % t.count;
    assert(q <= 255 && q * t.count <= t.sum < (q + 1) * t.count) by (nonlinear_arith)
        requires
            t.sum == t.count * q + r,
            0 <= r < t.count,
            t.sum <= 255 * t.count,
            t.count > 0,
    ;
}

/// A box of pixels is counted pixel by pixel: one more column or row adds its bytes, and a
/// pixel is its byte in its channel, where it is there.
pub proof fn a_box_is_counted_pixel_by_pixel(
    s: CoverView,
    y: int,
    y1: int,
    x: int,
    x1: int,
    c: int,
)
    requires
        x <= x1,
        y <= y1,
    ensures
        ({
            let i = (y * s.width + x1) * 3;
            let before = cover::row_tally(s, y, x, x1, c);
            let after = cover::row_tally(s, y, x, x1 + 1, c);
            &&& i + 2 < s.rgb.len() ==> after.sum == before.sum + s.rgb[i + c] && after.count
                == before.count + 1
            &&& i + 2 >= s.rgb.len() ==> after == before
        }),
        cover::row_tally(s, y, x, x, c).count == 0 && cover::row_tally(s, y, x, x, c).sum == 0,
        ({
            let before = cover::box_tally(s, y, y1, x, x1, c);
            let row = cover::row_tally(s, y1, x, x1, c);
            let after = cover::box_tally(s, y, y1 + 1, x, x1, c);
            after.sum == before.sum + row.sum && after.count == before.count + row.count
        }),
        cover::box_tally(s, y, y, x, x1, c).count == 0 && cover::box_tally(s, y, y, x, x1, c).sum
            == 0,
{
}

// ── drawing ──────────────────────────────────────────────────────────────────

/// A cell has its share of the window's pixels where that is a size a font could have, and
/// else 10 by 20.
pub proof fn a_cell_is_its_share_of_the_window(w: WindowSize)
    requires
        w.columns > 0,
        w.rows > 0,
    ensures
        ({
            let x = w.width as int / w.columns as int;
            let y = w.height as int / w.rows as int;
            &&& 4 <= x <= 64 && 8 <= y <= 128 ==> kitty::cell_of(Some(w)) == (x as u32, y as u32)
            &&& !(4 <= x <= 64 && 8 <= y <= 128) ==> kitty::cell_of(Some(w)) == (10u32, 20u32)
            &&& kitty::cell_of(None) == (10u32, 20u32)
        }),
{
}

/// A terminal is known by its window's variable, by its kind or by its program's name.
pub proof fn a_terminal_is_known_by_its_name(term: Seq<char>, program: Seq<char>, i: int)
    ensures
        kitty::speaks(term, program, true),
        text::occurs(term, "kitty"@, i) ==> kitty::speaks(term, program, false),
        text::occurs(term, "ghostty"@, i) ==> kitty::speaks(term, program, false),
        session::same_but_case(program, "ghostty"@) ==> kitty::speaks(term, program, false),
        session::same_but_case(program, "WezTerm"@) ==> kitty::speaks(term, program, false),
        term.len() == 0 && program.len() == 0 ==> !kitty::speaks(term, program, false),
{
    text::lemma_find_from(term, "kitty"@, 0);
    text::lemma_find_from(term, "ghostty"@, 0);
    reveal_strlit("kitty");
    reveal_strlit("ghostty");
    reveal_strlit("WezTerm");
}

/// The letters of base64, in order.
pub open spec fn alphabet() -> Seq<char> {
    "ABCDEFGHIJKLMNOPQRSTUVWXYZabcdefghijklmnopqrstuvwxyz0123456789+/"@
}

/// Six bits are written as the letter with their number.
pub proof fn six_bits_are_a_letter(v: int)
    requires
        0 <= v < 64,
    ensures
        kitty::letter(v) == alphabet()[v],
{
    reveal_strlit("ABCDEFGHIJKLMNOPQRSTUVWXYZabcdefghijklmnopqrstuvwxyz0123456789+/");
    assert(v == 0 || v == 1 || v == 2 || v == 3 || v == 4 || v == 5 || v == 6 || v == 7
        || v == 8 || v == 9 || v == 10 || v == 11 || v == 12 || v == 13 || v == 14 || v == 15
        || v == 16 || v == 17 || v == 18 || v == 19 || v == 20 || v == 21 || v == 22 || v == 23
        || v == 24 || v == 25 || v == 26 || v == 27 || v == 28 || v == 29 || v == 30 || v == 31
        || v == 32 || v == 33 || v == 34 || v == 35 || v == 36 || v == 37 || v == 38 || v == 39
        || v == 40 || v == 41 || v == 42 || v == 43 || v == 44 || v == 45 || v == 46 || v == 47
        || v == 48 || v == 49 || v == 50 || v == 51 || v == 52 || v == 53 || v == 54 || v == 55
        || v == 56 || v == 57 || v == 58 || v == 59 || v == 60 || v == 61 || v == 62 || v == 63);
}

proof fn lemma_sextets(a: int, b: int, c: int)
    requires
        0 <= a < 256,
        0 <= b < 256,
        0 <= c < 256,
    ensures
        ({
            let n = 65536 * a + 256 * b + c;
            &&& n / 262144 == a / 4
            &&& n / 4096 % 64 == a % 4 * 16 + b / 16
            &&& n / 64 % 64 == b % 16 * 4 + c / 64
            &&& n % 64 == c % 64
            &&& 0 <= a / 4 < 64
            &&& 0 <= a % 4 * 16 + b / 16 < 64
            &&& 0 <= b % 16 * 4 + c / 64 < 64
        }),
{
    lemma_shares(a / 4, a % 4 * 16 + b / 16, b % 16 * 4 + c / 64, c % 64);
}

proof fn lemma_shares(p: int, q: int, r: int, u: int)
    requires
        0 <= p < 64,
        0 <= q < 64,
        0 <= r < 64,
        0 <= u < 64,
    ensures
        ({
            let n = 262144 * p + 4096 * q + 64 * r + u;
            &&& n / 262144 == p
            &&& n / 4096 % 64 == q
            &&& n / 64 % 64 == r
            &&& n % 64 == u
        }),
{
    let n = 262144 * p + 4096 * q + 64 * r + u;
    let x = 4096 * p + 64 * q + r;
    let y = 64 * p + q;
    vstd::arithmetic::div_mod::lemma_fundamental_div_mod_converse(n, 64, x, u);
    vstd::arithmetic::div_mod::lemma_fundamental_div_mod_converse(x, 64, y, r);
    vstd::arithmetic::div_mod::lemma_fundamental_div_mod_converse(n, 4096, y, 64 * r + u);
    vstd::arithmetic::div_mod::lemma_fundamental_div_mod_converse(y, 64, p, q);
    vstd::arithmetic::div_mod::lemma_fundamental_div_mod_converse(
        n,
        262144,
        p,
        4096 * q + 64 * r + u,
    );
}

/// Three bytes are a number of 24 bits, written six at a time from the top; one byte or two
/// at the end are padded.
#[verifier::rlimit(40)]
pub proof fn three_bytes_are_four_letters(data: Seq<u8>, i: int)
    requires
        0 <= i < data.len(),
    ensures
        ({
            let a = data[i] as int;
            let b = if i + 1 < data.len() {
                data[i + 1] as int
            } else {
                0
            };
            let c = if i + 2 < data.len() {
                data[i + 2] as int
            } else {
                0
            };
            let n = 65536 * a + 256 * b + c;
            let group = kitty::encoded(data, i).take(4);
            &&& kitty::encoded(data, i) == group + kitty::encoded(data, i + 3)
            &&& group.len() == 4
            &&& group[0] == alphabet()[n / 262144]
            &&& group[1] == alphabet()[n / 4096 % 64]
            &&& i + 1 < data.len() ==> group[2] == alphabet()[n / 64 % 64]
            &&& i + 2 < data.len() ==> group[3] == alphabet()[n % 64]
            &&& i + 1 >= data.len() ==> group[2] == '='
            &&& i + 2 >= data.len() ==> group[3] == '='
        }),
        kitty::encoded(data, data.len() as int).len() == 0,
{
    let a = data[i] as int;
    let b = if i + 1 < data.len() {
        data[i + 1] as int
    } else {
        0
    };
    let c = if i + 2 < data.len() {
        data[i + 2] as int
    } else {
        0
    };
    lemma_sextets(a, b, c);
    six_bits_are_a_letter(a / 4);
    six_bits_are_a_letter(a % 4 * 16 + b / 16);
    six_bits_are_a_letter(b % 16 * 4 + c / 64);
    six_bits_are_a_letter(c % 64);
    let e = kitty::encoded(data, i);
    let group = e.take(4);
    assert(e =~= group + kitty::encoded(data, i + 3));
}

/// An image goes to the corner of its area, counted from one, and says its size in pixels
/// and in cells; up to 4096 characters of it go at once, and only the first part says what
/// it is. All but the last say that more follow.
pub proof fn an_image_says_where_and_what_it_is(
    c: CoverView,
    area: Area,
    payload: Seq<char>,
)
    requires
        payload.len() > 0,
    ensures
        kitty::transmission(c, area) == "\x1b["@ + text::decimal((area.y + 1) as nat) + ";"@
            + text::decimal((area.x + 1) as nat) + "H"@ + kitty::packets(
            c,
            area,
            true,
            kitty::encoded(c.rgb, 0),
        ),
        ({
            let head = "\x1b_Ga=T,f=24,s="@ + text::decimal(c.width as nat) + ",v="@
                + text::decimal(c.height as nat) + ",c="@ + text::decimal(area.width as nat)
                + ",r="@ + text::decimal(area.height as nat) + ",C=1,q=2,m="@;
            &&& payload.len() <= 4096 ==> kitty::packets(c, area, true, payload) == head + "0"@
                + ";"@ + payload + "\x1b\\"@
            &&& payload.len() <= 4096 ==> kitty::packets(c, area, false, payload) == "\x1b_Gm="@
                + "0"@ + ";"@ + payload + "\x1b\\"@
            &&& payload.len() > 4096 ==> kitty::packets(c, area, true, payload) == head + "1"@
                + ";"@ + payload.take(4096) + "\x1b\\"@ + kitty::packets(
                c,
                area,
                false,
                payload.skip(4096),
            )
            &&& payload.len() > 4096 ==> kitty::packets(c, area, false, payload) == "\x1b_Gm="@
                + "1"@ + ";"@ + payload.take(4096) + "\x1b\\"@ + kitty::packets(
                c,
                area,
                false,
                payload.skip(4096),
            )
        }),
{
}

/// A cover that is not there yet is sent at the pixels its area has, one that is there is
/// left, and an area without cells has none.
pub proof fn a_cover_is_shown_once(
    v: Option<(Seq<char>, Area)>,
    id: Seq<char>,
    c: CoverView,
    area: Area,
    cell: (u32, u32),
)
    requires
        area.width * cell.0 <= u32::MAX,
        area.height * cell.1 <= u32::MAX,
    ensures
        ({
            let (after, paint) = kitty::showing(v, id, c, area, cell);
            let fitting = cover::shrunk(
                c,
                (area.width * cell.0) as u32,
                (area.height * cell.1) as u32,
            );
            let room = area.width > 0 && area.height > 0;
            &&& !room ==> after is None
            &&& !room && v is Some ==> paint == PaintingView::Delete
            &&& !room && v is None ==> paint == PaintingView::Nothing
            &&& room ==> after == Some((id, area))
            &&& room && v == Some((id, area)) ==> paint == PaintingView::Nothing
            &&& room && v != Some((id, area)) ==> paint == PaintingView::Replace(
                kitty::transmission(fitting, area),
            )
        }),
        kitty::clearing(v).0 is None,
        v is Some ==> kitty::clearing(v).1 == PaintingView::Delete,
        v is None ==> kitty::clearing(v).1 == PaintingView::Nothing,
{
}

} // verus!
