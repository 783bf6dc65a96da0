use ytm_core::cover::{
    at_size, decode, fetch_px, lay_out, refused, Cover, CoverBody, MAX_BYTES, MAX_PX, MIN_PX,
};

#[test]
fn a_bigger_copy_is_asked_for_by_rewriting_the_size() {
    assert_eq!(
        at_size(
            "https://yt3.googleusercontent.com/abc=w120-h120-l90-rj",
            480
        ),
        "https://yt3.googleusercontent.com/abc=w480-h480-l90-rj"
    );
    // The quality and format instructions are not ours to change.
    assert!(at_size("https://x/abc=w60-h60-l90-rj", 480).ends_with("-l90-rj"));
}

#[test]
fn a_url_in_another_shape_is_left_exactly_as_it_is() {
    for url in [
        "https://i.ytimg.com/vi/abc/maxresdefault.jpg",
        "https://example.com/cover.jpg",
        "https://example.com/a=b",
    ] {
        assert_eq!(at_size(url, 480), url, "{url}");
    }
}

#[test]
fn a_size_that_is_not_a_number_is_not_rewritten() {
    // `w` here is part of a word, not a width.
    let url = "https://x/abc=wide-hd-rj";
    assert_eq!(at_size(url, 480), url);
}

/// A `w`×`h` image whose pixels encode their own position, so a resize can
/// be checked for having actually averaged rather than just returned.
fn ramp(w: u32, h: u32) -> Cover {
    let mut rgb = Vec::new();
    for y in 0..h {
        for x in 0..w {
            rgb.push((x % 256) as u8);
            rgb.push((y % 256) as u8);
            rgb.push(0);
        }
    }
    Cover {
        width: w,
        height: h,
        rgb,
    }
}

#[test]
fn scaling_down_keeps_the_shape_and_the_pixel_count() {
    let small = ramp(480, 480).scaled(160, 160);
    assert_eq!((small.width, small.height), (160, 160));
    assert_eq!(small.rgb.len(), 160 * 160 * 3);
}

#[test]
fn a_wide_cover_is_not_stretched_to_fit() {
    // 16:9 into a square box comes out 16:9, bounded by the width.
    let small = ramp(1600, 900).scaled(160, 160);
    assert_eq!(small.width, 160);
    assert_eq!(small.height, 90);
}

#[test]
fn an_image_smaller_than_the_box_is_left_alone() {
    let source = ramp(64, 64);
    let same = source.scaled(160, 160);
    assert_eq!((same.width, same.height), (64, 64));
    assert_eq!(same.rgb, source.rgb);
}

#[test]
fn scaling_averages_rather_than_dropping_pixels() {
    // Two source columns, 0 and 1, averaging to 0 (integer) — and a wider
    // ramp where the average of 0..4 is 1, which point-sampling could not
    // produce from the first pixel alone.
    let small = ramp(8, 1).scaled(2, 1);
    assert_eq!(small.width, 2);
    // First destination pixel spans source x 0..4 → red = (0+1+2+3)/4 = 1.
    assert_eq!(small.rgb[0], 1);
    // Second spans 4..8 → (4+5+6+7)/4 = 5.
    assert_eq!(small.rgb[3], 5);
}

#[test]
fn a_degenerate_box_does_not_divide_by_zero() {
    let source = ramp(8, 8);
    assert_eq!(source.scaled(0, 10).width, 8, "returns the original");
    assert_eq!(source.scaled(10, 0).width, 8);
    // And a box of one cell still produces one pixel rather than none.
    let tiny = source.scaled(1, 1);
    assert_eq!((tiny.width, tiny.height), (1, 1));
    assert_eq!(tiny.rgb.len(), 3);
}

/// A JPEG header and nothing behind it, claiming to be `w`×`h`.
fn header(w: u16, h: u16) -> Vec<u8> {
    let mut out = vec![0xFF, 0xD8, 0xFF, 0xC0, 0x00, 0x11, 0x08];
    out.extend_from_slice(&h.to_be_bytes());
    out.extend_from_slice(&w.to_be_bytes());
    // Three components, each with its sampling factors and table ids.
    out.extend_from_slice(&[0x03, 0x01, 0x11, 0x00, 0x02, 0x11, 0x01, 0x03, 0x11, 0x01]);
    out.extend_from_slice(&[0xFF, 0xD9]);
    out
}

#[test]
fn an_image_too_large_to_be_a_cover_is_refused_before_it_is_decoded() {
    // The header is all that is read to decide this — the point is that
    // `width × height × 3` is never allocated on the strength of a number
    // that came from the network.
    let err = decode(&header(5000, 5000)).expect_err("should be refused");
    assert!(err.contains("2048px"), "{err}");
    // The size actually asked for is well inside it, so nothing real is
    // caught by this: what fails here is the missing image data, later.
    let err = decode(&header(1080, 1080)).expect_err("no pixels behind it");
    assert!(!err.contains("2048px"), "{err}");
}

#[test]
fn a_zero_sized_image_is_not_an_image() {
    // The decoder gets there first — a zero height is JPEG's "defined
    // later", which it refuses outright — so this only pins that nothing
    // downstream is ever handed a zero to divide by.
    assert!(decode(&header(0, 0)).is_err());
}

#[test]
fn nonsense_bytes_are_an_error_rather_than_a_panic() {
    assert!(decode(b"not a jpeg at all").is_err());
    assert!(decode(&[]).is_err());
    // A valid header with nothing behind it.
    assert!(decode(&[0xFF, 0xD8, 0xFF, 0xE0]).is_err());
}

#[test]
fn what_is_fetched_is_twice_what_is_drawn_within_bounds() {
    // Twice the drawn size, so the box-average has 2×2 to work with.
    assert_eq!(fetch_px(300), 600);
    assert_eq!(fetch_px(540), MAX_PX);
    // An ordinary terminal draws a 240px card, and asks for the 480 it
    // always did rather than dropping to a thumbnail's worth of pixels.
    assert_eq!(fetch_px(240), MIN_PX);
    assert_eq!(fetch_px(0), MIN_PX);
    // A wildly big request is capped rather than fetching a poster.
    assert_eq!(fetch_px(u32::MAX), MAX_PX);
}

#[test]
fn a_size_no_cover_has_is_refused() {
    assert!(refused(0, 5).unwrap().contains("is not an image"));
    assert!(refused(2049, 5).unwrap().contains("2048px"));
    assert_eq!(refused(2048, 1), None);
}

#[test]
fn grey_samples_become_three_channels() {
    let c = lay_out(2, 1, "L8", vec![7, 9]).unwrap();
    assert_eq!(c.rgb, [7, 7, 7, 9, 9, 9]);
    let c = lay_out(1, 1, "RGB24", vec![1, 2, 3]).unwrap();
    assert_eq!(c.rgb, [1, 2, 3]);
    assert!(lay_out(1, 1, "CMYK32", vec![1, 2, 3, 4]).is_err());
}

#[test]
fn a_scaled_cover_fits_its_box() {
    for (w, h) in [(300, 200), (200, 300), (1000, 3), (7, 999)] {
        let small = ramp(w, h).scaled(64, 48);
        assert!(small.width <= 64 && small.height <= 48, "{w}x{h}");
        assert_eq!(small.rgb.len() as u32, small.width * small.height * 3);
        let again = small.scaled(64, 48);
        assert_eq!(again.rgb, small.rgb);
    }
}

#[test]
fn scaling_agrees_with_floating_point() {
    for (w, h, max_w, max_h) in [
        (1600, 900, 160, 160),
        (641, 480, 97, 53),
        (999, 1001, 333, 10),
        (1, 5000, 7, 49),
    ] {
        let ratio = f64::min(max_w as f64 / w as f64, max_h as f64 / h as f64);
        let want = (
            ((w as f64 * ratio).round() as u32).max(1),
            ((h as f64 * ratio).round() as u32).max(1),
        );
        let small = ramp(w, h).scaled(max_w, max_h);
        assert_eq!((small.width, small.height), want, "{w}x{h} in {max_w}x{max_h}");
    }
}

#[test]
fn a_response_may_not_grow_without_end() {
    assert!(CoverBody::start(Some(MAX_BYTES as u64 + 1)).is_err());
    let mut body = CoverBody::start(None).unwrap();
    assert!(body.push(&vec![0; MAX_BYTES]).is_ok());
    assert!(body.push(&[]).is_ok());
    assert!(body.push(&[1]).is_err());
    assert!(CoverBody::start(Some(4)).unwrap().finish(100).is_err());
}

#[test]
fn the_last_size_asked_for_counts() {
    for url in [
        "https://x/y=w120-h120-l90-rj",
        "https://x/y=s40-h40",
        "https://x/y=w-hx-h5",
        "https://x/a=b=w1",
        "https://x/y",
    ] {
        assert_eq!(at_size(&at_size(url, 480), 90), at_size(url, 90));
    }
    assert_eq!(at_size(&at_size("https://x/y=w120-h120-l90-rj", 480), 90), "https://x/y=w90-h90-l90-rj");
    assert_eq!(at_size("https://x/y", 480), "https://x/y");
}

#[test]
fn scaling_stays_between_the_darkest_and_the_brightest() {
    let cover = ramp(37, 23);
    let small = cover.scaled(10, 10);
    for c in 0..3 {
        let channel = |i: &Cover| i.rgb.iter().skip(c).step_by(3).copied().collect::<Vec<u8>>();
        let (before, after) = (channel(&cover), channel(&small));
        assert!(after.iter().min() >= before.iter().min());
        assert!(after.iter().max() <= before.iter().max());
    }
    let plain = Cover { width: 30, height: 20, rgb: [9, 80, 255].repeat(600) };
    let small = plain.scaled(7, 7);
    assert_eq!((small.width, small.height), (7, 5));
    assert_eq!(small.rgb, [9, 80, 255].repeat(35));
}
