//! The session's cookies and headers: reading what the browser tools give, and deciding
//! when to renew it.

use vstd::prelude::*;

use crate::assoc::TextMap;
use crate::json;
use crate::text;
use crate::title;

verus! {

/// A browser that cookies can be extracted from.
#[derive(Clone, Copy, Debug, PartialEq, Eq, Structural)]
pub enum Browser {
    Chrome,
    Firefox,
    Edge,
    Brave,
    Opera,
    Chromium,
    Vivaldi,
    Safari,
}

/// The lower-case name of a browser.
pub open spec fn browser_arg(b: Browser) -> Seq<char> {
    match b {
        Browser::Chrome => "chrome"@,
        Browser::Firefox => "firefox"@,
        Browser::Edge => "edge"@,
        Browser::Brave => "brave"@,
        Browser::Opera => "opera"@,
        Browser::Chromium => "chromium"@,
        Browser::Vivaldi => "vivaldi"@,
        Browser::Safari => "safari"@,
    }
}

/// Whether two texts are equal but for the case of ASCII letters.
pub open spec fn same_but_case(a: Seq<char>, b: Seq<char>) -> bool {
    a.len() == b.len() && forall|i: int|
        0 <= i < a.len() ==> text::ascii_lower(#[trigger] a[i]) == text::ascii_lower(b[i])
}

/// Compares two texts regardless of the case of ASCII letters.
pub fn equal_but_case(a: &str, b: &str) -> (r: bool)
    ensures
        r == same_but_case(a@, b@),
{
    let x = text::chars_of(a);
    let y = text::chars_of(b);
    if x.len() != y.len() {
        return false;
    }
    let mut i: usize = 0;
    while i < x.len()
        invariant
            x@ == a@,
            y@ == b@,
            x@.len() == y@.len(),
            forall|k: int| 0 <= k < i ==> text::ascii_lower(#[trigger] a@[k]) == text::ascii_lower(b@[k]),
        decreases x@.len() - i,
    {
        if text::to_ascii_lower(x[i]) != text::to_ascii_lower(y[i]) {
            return false;
        }
        i += 1;
    }
    true
}

proof fn lemma_names_differ(b: Browser, c: Browser)
    ensures
        same_but_case(browser_arg(b), browser_arg(c)) ==> b == c,
        same_but_case(browser_arg(b), browser_arg(b)),
{
    reveal_strlit("chrome");
    reveal_strlit("firefox");
    reveal_strlit("edge");
    reveal_strlit("brave");
    reveal_strlit("opera");
    reveal_strlit("chromium");
    reveal_strlit("vivaldi");
    reveal_strlit("safari");
    let x = browser_arg(b);
    let y = browser_arg(c);
    if same_but_case(x, y) && b != c {
        assert(text::ascii_lower(x[0]) == text::ascii_lower(y[0]));
        assert(text::ascii_lower(x[1]) == text::ascii_lower(y[1]));
    }
}

/// Two names that are alike but for case are one name.
proof fn lemma_same_but_case_chains(a: Seq<char>, b: Seq<char>, s: Seq<char>)
    requires
        same_but_case(a, s),
        same_but_case(b, s),
    ensures
        same_but_case(a, b),
{
    assert forall|i: int| 0 <= i < a.len() implies text::ascii_lower(#[trigger] a[i]) == text::ascii_lower(
        b[i],
    ) by {
        assert(text::ascii_lower(a[i]) == text::ascii_lower(s[i]));
        assert(text::ascii_lower(b[i]) == text::ascii_lower(s[i]));
    }
}

/// How a browser is shown.
pub open spec fn label_of(b: Browser) -> Seq<char> {
    match b {
        Browser::Chrome => "Chrome"@,
        Browser::Firefox => "Firefox"@,
        Browser::Edge => "Edge"@,
        Browser::Brave => "Brave"@,
        Browser::Opera => "Opera"@,
        Browser::Chromium => "Chromium"@,
        Browser::Vivaldi => "Vivaldi"@,
        Browser::Safari => "Safari"@,
    }
}

impl Browser {
    /// Every browser, in the order in which they are offered.
    pub fn all() -> (r: Vec<Browser>)
        ensures
            r@ == seq![
                Browser::Chrome,
                Browser::Firefox,
                Browser::Edge,
                Browser::Brave,
                Browser::Opera,
                Browser::Chromium,
                Browser::Vivaldi,
                Browser::Safari,
            ],
    {
        vec![
            Browser::Chrome,
            Browser::Firefox,
            Browser::Edge,
            Browser::Brave,
            Browser::Opera,
            Browser::Chromium,
            Browser::Vivaldi,
            Browser::Safari,
        ]
    }

    /// How the browser is shown.
    pub fn label(self) -> (r: &'static str)
        ensures
            r@ == label_of(self),
    {
        match self {
            Browser::Chrome => "Chrome",
            Browser::Firefox => "Firefox",
            Browser::Edge => "Edge",
            Browser::Brave => "Brave",
            Browser::Opera => "Opera",
            Browser::Chromium => "Chromium",
            Browser::Vivaldi => "Vivaldi",
            Browser::Safari => "Safari",
        }
    }

    /// The name that the extraction tool takes, and that the marker file holds.
    pub fn as_ytdlp_arg(self) -> (r: &'static str)
        ensures
            r@ == browser_arg(self),
    {
        match self {
            Browser::Chrome => "chrome",
            Browser::Firefox => "firefox",
            Browser::Edge => "edge",
            Browser::Brave => "brave",
            Browser::Opera => "opera",
            Browser::Chromium => "chromium",
            Browser::Vivaldi => "vivaldi",
            Browser::Safari => "safari",
        }
    }

    /// Reads the name that [`Browser::as_ytdlp_arg`] writes, in any case.
    pub fn parse(s: &str) -> (r: Option<Browser>)
        ensures
            match r {
                Some(b) => same_but_case(browser_arg(b), s@),
                None => forall|b: Browser| !same_but_case(#[trigger] browser_arg(b), s@),
            },
            forall|b: Browser| same_but_case(#[trigger] browser_arg(b), s@) ==> r == Some(b),
    {
        let all = Browser::all();
        let mut i: usize = 0;
        while i < all.len()
            invariant
                all@ == seq![
                    Browser::Chrome,
                    Browser::Firefox,
                    Browser::Edge,
                    Browser::Brave,
                    Browser::Opera,
                    Browser::Chromium,
                    Browser::Vivaldi,
                    Browser::Safari,
                ],
                forall|k: int| 0 <= k < i ==> !same_but_case(browser_arg(#[trigger] all@[k]), s@),
            decreases all@.len() - i,
        {
            let b = all[i];
            if equal_but_case(b.as_ytdlp_arg(), s) {
                assert forall|c: Browser| same_but_case(#[trigger] browser_arg(c), s@) implies b
                    == c by {
                    lemma_same_but_case_chains(browser_arg(b), browser_arg(c), s@);
                    lemma_names_differ(b, c);
                }
                return Some(b);
            }
            i += 1;
        }
        assert forall|b: Browser| !same_but_case(#[trigger] browser_arg(b), s@) by {
            let k = match b {
                Browser::Chrome => 0int,
                Browser::Firefox => 1,
                Browser::Edge => 2,
                Browser::Brave => 3,
                Browser::Opera => 4,
                Browser::Chromium => 5,
                Browser::Vivaldi => 6,
                Browser::Safari => 7,
            };
            assert(all@[k] == b);
        }
        None
    }
}

/// The name that a browser is written as is read as that browser.
pub proof fn a_written_browser_is_read_back(b: Browser, c: Browser)
    requires
        same_but_case(browser_arg(c), browser_arg(b)),
    ensures
        b == c,
        same_but_case(browser_arg(b), browser_arg(b)),
{
    lemma_names_differ(c, b);
    lemma_names_differ(b, b);
}

// ── cookies ──────────────────────────────────────────────────────────────────

/// The first `n` tab-separated fields of a line, the last with all that is left.
pub open spec fn fields(s: Seq<char>, n: nat) -> Seq<Seq<char>>
    decreases n,
{
    if n == 0 {
        Seq::empty()
    } else {
        match text::first_of(s, '\t', 0) {
            Some(i) if n > 1 => seq![s.take(i)] + fields(s.skip(i + 1), (n - 1) as nat),
            _ => seq![s],
        }
    }
}

/// The cookie on a line of a Netscape cookie file: its name and value, where the line is
/// no comment, has all seven fields, and its domain is one of the video service.
pub open spec fn cookie_on(line: Seq<char>) -> Option<Seq<char>> {
    let f = fields(line, 7);
    if line.len() == 0 || line[0] == '#' || f.len() < 7 || title::without_suffix(
        f[0],
        "youtube.com"@,
    ) is None {
        None
    } else {
        Some(f[5] + "="@ + f[6])
    }
}

/// The cookies on lines.
pub open spec fn cookies_on(ls: Seq<Seq<char>>) -> Seq<Seq<char>>
    decreases ls.len(),
{
    if ls.len() == 0 {
        Seq::empty()
    } else {
        let front = cookies_on(ls.drop_last());
        match cookie_on(ls.last()) {
            Some(c) => front.push(c),
            None => front,
        }
    }
}

/// The cookie header that a cookie file makes.
pub open spec fn cookie_header(content: Seq<char>) -> Seq<char> {
    text::joined(cookies_on(text::lines_of(content)), "; "@)
}

fn split_fields(line: &[char]) -> (r: Vec<Vec<char>>)
    ensures
        text::rows(r@) == fields(line@, 7),
{
    let mut out: Vec<Vec<char>> = Vec::new();
    let mut from: usize = 0;
    let mut left: usize = 7;
    let n: usize = line.len();
    assert(line@.skip(0) == line@);
    assert(text::rows(out@) + fields(line@, 7) =~= fields(line@, 7));
    loop
        invariant
            from <= n,
            n == line@.len(),
            1 <= left <= 7,
            text::rows(out@) + fields(line@.skip(from as int), left as nat) == fields(line@, 7),
        decreases left,
    {
        let rest = &line[from..n];
        assert(rest@ == line@.skip(from as int));
        let ghost before = text::rows(out@);
        let tab = if left > 1 {
            text::position(rest, '\t', 0)
        } else {
            None
        };
        match tab {
            Some(i) => {
                let piece = text::copied(&rest[0..i]);
                assert(piece@ == rest@.take(i as int));
                out.push(piece);
                assert(text::rows(out@) =~= before.push(piece@));
                assert(rest@.skip(i + 1) == line@.skip(from + i + 1));
                assert(text::rows(out@) + fields(rest@.skip(i + 1), (left - 1) as nat) =~= before
                    + (seq![piece@] + fields(rest@.skip(i + 1), (left - 1) as nat)));
                from = from + i + 1;
                left -= 1;
            },
            None => {
                let piece = text::copied(rest);
                out.push(piece);
                assert(text::rows(out@) =~= before.push(piece@));
                assert(text::rows(out@) =~= before + seq![rest@]);
                return out;
            },
        }
    }
}

fn ends_with(s: &[char], suffix: &str) -> (r: bool)
    ensures
        r == (title::without_suffix(s@, suffix@) is Some),
{
    let w = text::chars_of(suffix);
    if w.len() > s.len() {
        return false;
    }
    let at: usize = s.len() - w.len();
    assert(s@.skip(at as int) =~= s@.subrange(at as int, at + w@.len()));
    text::occurs_at(s, w.as_slice(), at)
}

fn read_cookie(line: &[char]) -> (r: Option<String>)
    ensures
        text::opt(r) == cookie_on(line@),
{
    if line.len() == 0 || line[0] == '#' {
        return None;
    }
    let f = split_fields(line);
    let ghost fs = text::rows(f@);
    assert(fs.len() == f@.len());
    if f.len() < 7 {
        return None;
    }
    assert(fs[0] == f@[0]@ && fs[5] == f@[5]@ && fs[6] == f@[6]@);
    if !ends_with(f[0].as_slice(), "youtube.com") {
        return None;
    }
    let mut out = text::string_of(f[5].as_slice());
    out.append("=");
    out.append(text::string_of(f[6].as_slice()).as_str());
    Some(out)
}

/// Makes a cookie header of a Netscape cookie file.
pub fn parse_netscape_cookies(content: &str) -> (r: String)
    ensures
        r@ == cookie_header(content@),
{
    let cs = text::chars_of(content);
    let ls = text::lines(cs.as_slice());
    let ghost rows = text::rows(ls@);
    let ghost mut done: Seq<Seq<char>> = Seq::empty();
    let mut out = String::new();
    let mut any = false;
    let mut i: usize = 0;
    while i < ls.len()
        invariant
            i <= ls@.len(),
            rows == text::rows(ls@),
            done == cookies_on(rows.take(i as int)),
            any == (done.len() > 0),
            out@ == text::joined(done, "; "@),
        decreases ls@.len() - i,
    {
        assert(rows[i as int] == ls@[i as int]@);
        assert(rows.take(i + 1).drop_last() == rows.take(i as int));
        let ghost before = done;
        match read_cookie(ls[i].as_slice()) {
            Some(c) => {
                let ghost sofar = out@;
                if any {
                    out.append("; ");
                }
                out.append(c.as_str());
                any = true;
                proof {
                    done = before.push(c@);
                    assert(done.drop_last() =~= before);
                    if before.len() > 0 {
                        assert(out@ =~= sofar + "; "@ + c@);
                    } else {
                        assert(out@ =~= c@);
                    }
                }
            },
            None => {},
        }
        i += 1;
    }
    assert(rows.take(rows.len() as int) == rows);
    out
}

/// What extracting cookies came to.
#[derive(Clone, Copy, Debug, PartialEq, Eq, Structural)]
pub enum CookieFault {
    /// No cookie file was written.
    NotSignedIn,
    /// None of the cookies are for the video service.
    NoCookies,
}

/// The cookie header of an extracted cookie file, or why there is none.
pub fn extracted_cookies(content: Option<&str>) -> (r: Result<String, CookieFault>)
    ensures
        match r {
            Ok(h) => content is Some && h@ == cookie_header(content->0@) && h@.len() > 0,
            Err(CookieFault::NotSignedIn) => content is None,
            Err(CookieFault::NoCookies) => content is Some && cookie_header(content->0@).len() == 0,
        },
{
    match content {
        Some(c) => {
            let h = parse_netscape_cookies(c);
            if h.as_str().is_empty() {
                Err(CookieFault::NoCookies)
            } else {
                Ok(h)
            }
        },
        None => Err(CookieFault::NotSignedIn),
    }
}

/// Cookies older than this are renewed: six hours, in seconds.
pub const REFRESH_AFTER_SECS: u64 = 21600;

/// Whether to renew the cookies, and from which browser: from the one that the marker
/// file names, once they are old enough or their age is not known.
pub fn refresh_from(marker: Option<&str>, age_secs: Option<u64>) -> (r: Option<Browser>)
    ensures
        match r {
            Some(b) => {
                &&& marker is Some
                &&& same_but_case(browser_arg(b), text::trimmed(marker->0@))
                &&& age_secs is None || age_secs->0 >= REFRESH_AFTER_SECS
            },
            None => {
                ||| marker is None
                ||| forall|b: Browser|
                    !same_but_case(#[trigger] browser_arg(b), text::trimmed(marker->0@))
                ||| age_secs is Some && age_secs->0 < REFRESH_AFTER_SECS
            },
        },
{
    match marker {
        Some(raw) => {
            let cs = text::chars_of(raw);
            let name = text::string_of(text::trim(cs.as_slice()));
            match Browser::parse(name.as_str()) {
                Some(b) => match age_secs {
                    Some(age) => if age < REFRESH_AFTER_SECS {
                        None
                    } else {
                        Some(b)
                    },
                    None => Some(b),
                },
                None => None,
            }
        },
        None => None,
    }
}

/// The browser to renew an ended session from without asking: the one that the settings
/// name, where they allow it.
pub fn renew_from(auto_reauth: bool, cookie_browser: &str) -> (r: Option<Browser>)
    ensures
        match r {
            Some(b) => auto_reauth && same_but_case(browser_arg(b), cookie_browser@),
            None => !auto_reauth || forall|b: Browser|
                !same_but_case(#[trigger] browser_arg(b), cookie_browser@),
        },
{
    if auto_reauth {
        Browser::parse(cookie_browser)
    } else {
        None
    }
}

/// What the session file becomes with a new cookie: an error where it is no JSON, nothing
/// where it is neither an object nor `null`.
pub open spec fn with_cookie(doc: Seq<char>, cookie: Seq<char>) -> Result<
    Option<Seq<char>>,
    Seq<char>,
> {
    match json::json_fault(doc) {
        Some(e) => Err(e),
        None => if json::json_keyed(doc) {
            Ok(Some(json::json_with(doc, "cookie"@, cookie)))
        } else {
            Ok(None)
        },
    }
}

/// Puts a new cookie into the session file. The cookie is read back from what comes out.
pub fn refreshed_json(doc: &str, cookie: &str) -> (r: Result<Option<String>, String>)
    ensures
        match r {
            Ok(t) => with_cookie(doc@, cookie@) == Ok::<Option<Seq<char>>, Seq<char>>(
                text::opt(t),
            ),
            Err(e) => with_cookie(doc@, cookie@) == Err::<Option<Seq<char>>, Seq<char>>(e@),
        },
        r matches Ok(Some(t)) ==> json::json_text(t@, "/cookie"@) == Some(cookie@),
{
    match json::json_fault_in(doc) {
        Some(e) => {
            return Err(e);
        },
        None => {},
    }
    if json::json_takes_keys(doc) {
        proof {
            reveal_strlit("cookie");
            reveal_strlit("/");
            reveal_strlit("/cookie");
            assert("/"@ + "cookie"@ =~= "/cookie"@);
            assert(!"cookie"@.contains('/') && !"cookie"@.contains('~'));
        }
        Ok(Some(json::json_put(doc, "cookie", cookie)))
    } else {
        Ok(None)
    }
}

// ── headers ──────────────────────────────────────────────────────────────────

/// The headers of a map.
pub open spec fn header_texts(m: Map<Seq<char>, String>) -> Map<Seq<char>, Seq<char>> {
    m.map_values(|s: String| s@)
}

/// The headers that go with a cookie.
pub open spec fn default_headers(cookie: Seq<char>) -> Map<Seq<char>, Seq<char>> {
    Map::empty().insert("cookie"@, cookie).insert("x-goog-authuser"@, "0"@).insert(
        "x-origin"@,
        "https://music.youtube.com"@,
    ).insert(
        "user-agent"@,
        "Mozilla/5.0 (X11; Linux x86_64) AppleWebKit/537.36 (KHTML, like Gecko) Chrome/120.0.0.0 Safari/537.36"@,
    ).insert("accept"@, "*/*"@).insert("accept-language"@, "en-US,en;q=0.9"@).insert(
        "content-type"@,
        "application/json"@,
    )
}

fn put(h: &mut TextMap<String>, name: &str, value: &str)
    ensures
        header_texts(final(h)@) == header_texts(old(h)@).insert(name@, value@),
{
    h.insert(name.to_owned(), value.to_owned());
    assert(header_texts(h@) =~= header_texts(old(h)@).insert(name@, value@));
}

/// The headers that go with a cookie.
pub fn build_default_headers(cookie: String) -> (r: TextMap<String>)
    ensures
        header_texts(r@) == default_headers(cookie@),
{
    let mut h: TextMap<String> = TextMap::new();
    assert(header_texts(h@) =~= Map::empty());
    put(&mut h, "cookie", cookie.as_str());
    put(&mut h, "x-goog-authuser", "0");
    put(&mut h, "x-origin", "https://music.youtube.com");
    put(
        &mut h,
        "user-agent",
        "Mozilla/5.0 (X11; Linux x86_64) AppleWebKit/537.36 (KHTML, like Gecko) Chrome/120.0.0.0 Safari/537.36",
    );
    put(&mut h, "accept", "*/*");
    put(&mut h, "accept-language", "en-US,en;q=0.9");
    put(&mut h, "content-type", "application/json");
    h
}

/// What stands in single quotes behind a flag, each time it does. A quote that is not
/// closed ends the search.
pub open spec fn quoted_after(s: Seq<char>, needle: Seq<char>) -> Seq<Seq<char>>
    decreases s.len(),
{
    match text::find_from(s, needle, 0) {
        Some(i) if 0 <= i && i + needle.len() <= s.len() => {
            let rest = s.skip(i + needle.len());
            match text::first_of(rest, '\'', 0) {
                Some(j) if 0 <= j < rest.len() => seq![rest.take(j)] + quoted_after(
                    rest.skip(j + 1),
                    needle,
                ),
                _ => Seq::empty(),
            }
        },
        _ => Seq::empty(),
    }
}

/// What stands in single quotes behind `flag` in a command line.
pub fn extract_single_quoted(line: &str, flag: &str) -> (r: Vec<String>)
    ensures
        text::texts(r@) == quoted_after(line@, flag@ + " '"@),
{
    let cs = text::chars_of(line);
    let needle_text = text::concat(flag, " '");
    let needle = text::chars_of(needle_text.as_str());
    let n: usize = cs.len();
    let mut out: Vec<String> = Vec::new();
    let mut from: usize = 0;
    assert(cs@.skip(0) == cs@);
    assert(text::texts(out@) + quoted_after(cs@, needle@) =~= quoted_after(cs@, needle@));
    loop
        invariant
            from <= n,
            n == cs@.len(),
            cs@ == line@,
            needle@ == flag@ + " '"@,
            text::texts(out@) + quoted_after(cs@.skip(from as int), needle@) == quoted_after(
                cs@,
                needle@,
            ),
        decreases n - from,
    {
        let rest = &cs.as_slice()[from..n];
        assert(rest@ == cs@.skip(from as int));
        let m: usize = rest.len();
        match text::find(rest, needle.as_slice(), 0) {
            Some(i) => {
                proof {
                    text::lemma_find_from(rest@, needle@, 0);
                }
                let start: usize = i + needle.len();
                let tail = &rest[start..m];
                assert(tail@ == rest@.skip(i + needle@.len()));
                match text::position(tail, '\'', 0) {
                    Some(j) => {
                        let ghost before = text::texts(out@);
                        let piece = text::string_of(&tail[0..j]);
                        assert(piece@ == tail@.take(j as int));
                        out.push(piece);
                        assert(text::texts(out@) =~= before.push(piece@));
                        assert(tail@.skip(j + 1) == cs@.skip(from + start + j + 1));
                        assert(text::texts(out@) + quoted_after(tail@.skip(j + 1), needle@)
                            =~= before + (seq![piece@] + quoted_after(tail@.skip(j + 1), needle@)));
                        from = from + start + j + 1;
                    },
                    None => {
                        assert(text::texts(out@) + Seq::<Seq<char>>::empty() =~= text::texts(out@));
                        return out;
                    },
                }
            },
            None => {
                assert(text::texts(out@) + Seq::<Seq<char>>::empty() =~= text::texts(out@));
                return out;
            },
        }
    }
}

/// The headers that a list of `Name: value` makes; the last of a name counts, and names
/// are in lower case.
pub open spec fn headers_of(values: Seq<Seq<char>>) -> Map<Seq<char>, Seq<char>>
    decreases values.len(),
{
    if values.len() == 0 {
        Map::empty()
    } else {
        let front = headers_of(values.drop_last());
        let v = values.last();
        match text::find_from(v, ": "@, 0) {
            Some(i) => front.insert(title::lowercase(v.take(i)), v.skip(i + 2)),
            None => front,
        }
    }
}

/// The headers of a cURL command line: those of `-H`, with the cookie of `-b`.
pub open spec fn curl_headers(line: Seq<char>) -> Map<Seq<char>, Seq<char>> {
    let h = headers_of(quoted_after(line, "-H"@ + " '"@));
    let b = quoted_after(line, "-b"@ + " '"@);
    if b.len() > 0 {
        h.insert("cookie"@, b[0])
    } else {
        h
    }
}

/// Why a cURL command line is refused.
#[derive(Debug)]
pub enum CurlFault {
    /// It has no headers at all.
    Empty,
    /// It lacks these.
    Missing(Vec<&'static str>),
}

/// The required headers that are missing.
pub open spec fn missing_of(h: Map<Seq<char>, Seq<char>>) -> Seq<Seq<char>> {
    (if h.contains_key("cookie"@) {
        Seq::empty()
    } else {
        seq!["cookie"@]
    }) + (if h.contains_key("x-goog-authuser"@) {
        Seq::empty()
    } else {
        seq!["x-goog-authuser"@]
    })
}

/// Reads the headers of a "copy as cURL" command line.
pub fn parse_curl(line: &str) -> (r: Result<TextMap<String>, CurlFault>)
    ensures
        match r {
            Ok(h) => header_texts(h@) == curl_headers(line@) && missing_of(curl_headers(line@)).len()
                == 0,
            Err(CurlFault::Empty) => curl_headers(line@).len() == 0,
            Err(CurlFault::Missing(m)) => curl_headers(line@).len() > 0 && title::strs(m@)
                == missing_of(curl_headers(line@)) && m@.len() > 0,
        },
{
    let mut headers: TextMap<String> = TextMap::new();
    let values = extract_single_quoted(line, "-H");
    let ghost vs = text::texts(values@);
    let colon = text::chars_of(": ");
    proof {
        reveal_strlit(": ");
    }
    let mut i: usize = 0;
    assert(header_texts(headers@) =~= headers_of(vs.take(0)));
    while i < values.len()
        invariant
            i <= values@.len(),
            vs == text::texts(values@),
            colon@ == ": "@,
            colon@.len() == 2,
            header_texts(headers@) == headers_of(vs.take(i as int)),
        decreases values@.len() - i,
    {
        assert(vs[i as int] == values@[i as int]@);
        assert(vs.take(i + 1).drop_last() == vs.take(i as int));
        let cs = text::chars_of(values[i].as_str());
        let n: usize = cs.len();
        match text::find(cs.as_slice(), colon.as_slice(), 0) {
            Some(at) => {
                proof {
                    text::lemma_find_from(cs@, colon@, 0);
                }
                assert(cs@.take(at as int) == cs@.subrange(0, at as int));
                assert(cs@.skip(at + 2) == cs@.subrange(at + 2, n as int));
                let name = text::string_of(&cs.as_slice()[0..at]).as_str().to_lowercase();
                let value = text::string_of(&cs.as_slice()[at + 2..n]);
                put(&mut headers, name.as_str(), value.as_str());
            },
            None => {},
        }
        i += 1;
    }
    assert(vs.take(vs.len() as int) == vs);
    let cookies = extract_single_quoted(line, "-b");
    let ghost bs = text::texts(cookies@);
    if cookies.len() > 0 {
        assert(bs[0] == cookies@[0]@);
        put(&mut headers, "cookie", cookies[0].as_str());
    }
    let count: usize = headers.len();
    assert(header_texts(headers@).dom() =~= headers@.dom());
    if count == 0 {
        return Err(CurlFault::Empty);
    }
    let mut missing: Vec<&'static str> = Vec::new();
    if !headers.contains_key("cookie") {
        missing.push("cookie");
    }
    if !headers.contains_key("x-goog-authuser") {
        missing.push("x-goog-authuser");
    }
    assert(title::strs(missing@) =~= missing_of(curl_headers(line@)));
    if missing.len() > 0 {
        return Err(CurlFault::Missing(missing));
    }
    Ok(headers)
}

} // verus!
