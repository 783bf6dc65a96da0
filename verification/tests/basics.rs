use ytm_core::assoc::TextMap;
use ytm_core::double::scale;
use ytm_core::error::{playlists_error, Error, ServiceFault};
use ytm_core::media::{is_seek, NowPlaying, PlayState, TrackInfo, SEEK_JUMP};
use ytm_core::session::Browser;
use ytm_core::text;
use ytm_core::text::{
    bytes_before, char_at_byte, chars_of, collapse, find, is_before, is_white, join,
    lines, show, split, starts_with, string_of, to_ascii_lower, trim,
};

#[test]
fn white_space_is_that_of_unicode() {
    for n in 0..=0x10_FFFFu32 {
        if let Some(c) = char::from_u32(n) {
            assert_eq!(is_white(c), c.is_whitespace(), "{n:x}");
        }
    }
}

#[test]
fn texts_are_cut_as_strings_are() {
    for s in ["", " a ", "a\r\nb\n", "\n", "a\n\nb", "x\ry", "\u{3000}日本\u{a0}", "a,b,,c"] {
        let cs = chars_of(s);
        assert_eq!(string_of(&cs), s);
        assert_eq!(string_of(trim(&cs)), s.trim());
        let rows: Vec<String> = lines(&cs).iter().map(|l| string_of(l)).collect();
        assert_eq!(rows, s.lines().collect::<Vec<_>>());
        let parts: Vec<String> = split(&cs, ',').iter().map(|l| string_of(l)).collect();
        assert_eq!(parts, s.split(',').collect::<Vec<_>>());
        let words: Vec<&str> = s.split_whitespace().collect();
        assert_eq!(string_of(&collapse(&cs)), words.join(" "));
    }
}

#[test]
fn texts_are_found_and_ordered_as_strings_are() {
    let hay = chars_of("日本語の歌 abc abc");
    assert_eq!(find(&hay, &chars_of("abc"), 0), Some(6));
    assert_eq!(find(&hay, &chars_of("abc"), 7), Some(10));
    assert_eq!(find(&hay, &chars_of("x"), 0), None);
    assert!(starts_with(&hay, &chars_of("日本")));
    assert_eq!(bytes_before(&hay, 2), 6);
    assert_eq!(char_at_byte(&hay, 6), Some(2));
    assert_eq!(char_at_byte(&hay, 7), None);
    for (a, b) in [("a", "b"), ("", "a"), ("a", "a"), ("ab", "a"), ("日", "z")] {
        assert_eq!(is_before(&chars_of(a), &chars_of(b)), a < b, "{a} {b}");
    }
    assert_eq!(to_ascii_lower('Ä'), 'Ä');
    assert_eq!(to_ascii_lower('Q'), 'q');
    assert_eq!(text::concat("a", "b"), "ab");
    assert_eq!(join(&vec!["a".to_string(), "b".to_string()], ", "), "a, b");
    for n in [0, 9, 10, u64::MAX] {
        assert_eq!(show(n), n.to_string());
    }
}

#[test]
fn scaling_is_that_of_doubles() {
    let mut x: u64 = 12345;
    for _ in 0..2000 {
        x = x.wrapping_mul(6364136223846793005).wrapping_add(1442695040888963407);
        let side = (x >> 33) as u32;
        let b = ((x >> 11) as u32 % 5000) + 1;
        let a = ((x >> 40) as u32 % b) + 1;
        let want = (f64::from(side) * (f64::from(a) / f64::from(b))).round() as u128;
        assert_eq!(scale(side, a, b), want, "{side} * {a} / {b}");
    }
}

#[test]
fn a_map_keeps_one_value_per_key() {
    let mut m: TextMap<u32> = TextMap::new();
    m.insert("a".to_string(), 1);
    m.insert("b".to_string(), 2);
    m.insert("a".to_string(), 3);
    assert_eq!((m.len(), m.get("a"), m.get("c")), (2, Some(&3), None));
    assert!(m.remove("a"));
    assert!(!m.remove("a"));
    assert!(!m.contains_key("a"));
    assert!(m.contains_key("b"));
}

#[test]
fn errors_say_what_to_do() {
    let says = |e: Error| e.message("brew install yt-dlp");
    assert_eq!(says(Error::SessionExpired), "YouTube Music session expired — re-authenticate");
    assert_eq!(
        says(Error::YtDlpNotInstalled),
        "yt-dlp not found — install it with: brew install yt-dlp"
    );
    assert_eq!(
        says(Error::BrowserNotSignedIn { browser: Browser::Firefox, diagnosis: "!".to_string() }),
        "yt-dlp wrote no cookie file — make sure you're signed in to YouTube Music in Firefox!"
    );
    assert_eq!(
        says(Error::NoCookiesFound { browser: Browser::Edge }),
        "no youtube.com cookies found in Edge — are you signed in to YouTube Music?"
    );
    assert_eq!(
        says(Error::CurlEmpty),
        "no headers found — make sure the input is a 'Copy as cURL (bash)' export"
    );
    let missing = Error::CurlMissingHeaders(vec!["cookie".to_string(), "x\"y".to_string()]);
    assert_eq!(
        says(missing),
        "required headers missing: [\"cookie\", \"x\\\"y\"] — copy a request from \
         music.youtube.com while logged in"
    );
    assert_eq!(says(Error::Mpv("x".to_string())), "libmpv init failed: x");
    assert_eq!(says(Error::Lyrics("x".to_string())), "lyrics lookup failed: x");
    for e in [
        Error::Ytmusicapi("x".to_string()),
        Error::Io("x".to_string()),
        Error::Json("x".to_string()),
        Error::Prompt("x".to_string()),
        Error::Other("x".to_string()),
    ] {
        assert_eq!(says(e), "x");
    }
}

#[test]
fn an_ended_session_is_told_apart() {
    let server = |status| ServiceFault::Server { status, message: "no".to_string() };
    assert!(matches!(playlists_error(ServiceFault::AuthRequired), Error::SessionExpired));
    assert!(matches!(playlists_error(server(401)), Error::SessionExpired));
    assert!(matches!(playlists_error(server(500)), Error::Ytmusicapi(m) if m == "no"));
    let other = ServiceFault::Other("odd".to_string());
    assert!(matches!(playlists_error(other), Error::Ytmusicapi(m) if m == "odd"));
}

#[test]
fn a_jump_within_a_track_is_a_seek() {
    let mut now = NowPlaying {
        state: PlayState::Playing,
        track: Some(TrackInfo { id: "a".to_string(), ..Default::default() }),
        position: 5 * SEEK_JUMP,
        ..Default::default()
    };
    assert!(is_seek(&now, Some("a"), 0));
    assert!(!is_seek(&now, Some("a"), 4 * SEEK_JUMP));
    assert!(!is_seek(&now, Some("b"), 0));
    assert!(!is_seek(&now, None, 0));
    now.state = PlayState::Stopped;
    assert!(!is_seek(&now, Some("a"), 0));
}
