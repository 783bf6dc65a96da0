use ytm_core::cover::Cover;
use ytm_core::kitty::{
    base64, cell_size, delete_all, supported, Area, Canvas, Painting, WindowSize,
};

fn area(x: u16, y: u16, width: u16, height: u16) -> Area {
    Area { x, y, width, height }
}

#[test]
fn base64_matches_the_standard_alphabet_and_padding() {
    assert_eq!(base64(b""), "");
    assert_eq!(base64(b"f"), "Zg==");
    assert_eq!(base64(b"fo"), "Zm8=");
    assert_eq!(base64(b"foo"), "Zm9v");
    assert_eq!(base64(b"foob"), "Zm9vYg==");
    assert_eq!(base64(b"fooba"), "Zm9vYmE=");
    assert_eq!(base64(b"foobar"), "Zm9vYmFy");
}

#[test]
fn base64_covers_the_whole_byte_range() {
    // The two characters that distinguish the standard alphabet from the
    // URL-safe one are `+` and `/`; a wrong table shows up here.
    assert_eq!(base64(&[0xFB, 0xFF]), "+/8=");
    assert_eq!(base64(&[0x00, 0x00, 0x00]), "AAAA");
    assert_eq!(base64(&[0xFF, 0xFF, 0xFF]), "////");
    // Every length remainder, at size.
    for n in 1..=9 {
        let data: Vec<u8> = (0..n).map(|i| i as u8).collect();
        let encoded = base64(&data);
        assert_eq!(encoded.len(), data.len().div_ceil(3) * 4, "n={n}");
        assert!(encoded.is_ascii());
    }
}

#[test]
fn an_image_is_not_redrawn_where_it_already_is() {
    let mut canvas = Canvas::new();
    let place = area(1, 1, 10, 5);
    canvas.shown = Some(("abc".to_string(), place));
    assert!(canvas
        .shown
        .as_ref()
        .is_some_and(|(s, r)| s == "abc" && *r == place));

    // A move counts as a change, not just a different id.
    let moved = area(2, 1, 10, 5);
    assert!(!canvas.shown.as_ref().is_some_and(|(_, r)| *r == moved));

    let cover = Cover { width: 2, height: 2, rgb: vec![0; 12] };
    assert!(matches!(canvas.show("abc", &cover, place, (10, 20)), Painting::Nothing));
    assert!(matches!(canvas.show("abc", &cover, moved, (10, 20)), Painting::Replace(_)));
    assert!(matches!(canvas.show("abc", &cover, moved, (10, 20)), Painting::Nothing));
}

#[test]
fn a_cell_is_always_a_plausible_size() {
    // Where there is no tty to ask, a zero here would ask the CDN for a
    // zero-pixel cover and send the terminal an empty image.
    let (w, h) = cell_size(None);
    assert!((4..=64).contains(&w), "{w}px wide");
    assert!((8..=128).contains(&h), "{h}px tall");
}

#[test]
fn a_zero_sized_area_shows_nothing() {
    let mut canvas = Canvas::new();
    canvas.shown = Some(("abc".to_string(), area(0, 0, 4, 4)));
    let cover = Cover {
        width: 2,
        height: 2,
        rgb: vec![0; 12],
    };
    // A panel collapsed to nothing must drop the image, not draw into it.
    let painting = canvas.show("abc", &cover, area(0, 0, 0, 0), cell_size(None));
    assert!(canvas.shown.is_none());
    assert!(matches!(painting, Painting::Delete));
}

#[test]
fn the_window_is_divided_among_its_cells() {
    let window = |columns, rows, width, height| Some(WindowSize { columns, rows, width, height });
    assert_eq!(cell_size(window(100, 50, 900, 900)), (9, 18));
    assert_eq!(cell_size(window(0, 50, 900, 900)), (10, 20));
    assert_eq!(cell_size(window(100, 50, 300, 900)), (10, 20));
    assert_eq!(cell_size(window(1, 1, 65, 100)), (10, 20));
}

#[test]
fn only_known_terminals_are_sent_images() {
    assert!(supported("xterm-kitty", "", false));
    assert!(supported("xterm-ghostty", "", false));
    assert!(supported("xterm", "wezterm", false));
    assert!(supported("xterm", "GHOSTTY", false));
    assert!(supported("", "", true));
    assert!(!supported("xterm-256color", "iTerm.app", false));
}

#[test]
fn an_image_is_sent_in_chunks() {
    let mut canvas = Canvas::new();
    let cover = Cover { width: 1, height: 1, rgb: vec![1, 2, 3] };
    match canvas.show("a", &cover, area(4, 2, 3, 1), (10, 20)) {
        Painting::Replace(s) => assert_eq!(
            s,
            "\x1b[3;5H\x1b_Ga=T,f=24,s=1,v=1,c=3,r=1,C=1,q=2,m=0;AQID\x1b\\"
        ),
        _ => panic!("nothing was sent"),
    }
    // 64 by 64 pixels are 12288 bytes, 16384 characters: four chunks.
    let cover = Cover { width: 64, height: 64, rgb: vec![0; 12288] };
    match canvas.show("b", &cover, area(4, 2, 30, 30), (10, 20)) {
        Painting::Replace(s) => {
            assert_eq!(s.matches("m=1;").count(), 3);
            assert_eq!(s.matches("m=0;").count(), 1);
            assert!(s.ends_with("\x1b\\"));
        }
        _ => panic!("nothing was sent"),
    }
    canvas.forget();
    assert!(matches!(canvas.clear(), Painting::Nothing));
    assert_eq!(delete_all(), "\x1b_Ga=d,d=A\x1b\\");
}
