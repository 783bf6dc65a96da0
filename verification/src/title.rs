//! Bringing titles and artists into the form in which lyrics are filed.
//!
//! Titles carry decoration such as `(Official Video)`, cover uploads carry the
//! coverer's credit, and artists come joined or with a channel suffix. Lyrics are
//! filed under none of that.

use vstd::prelude::*;

use crate::seqs;
use crate::spacing;
use crate::text;

verus! {

/// The lower case of a text, as the standard library has it.
pub uninterp spec fn lowercase(s: Seq<char>) -> Seq<char>;

/// `str::to_lowercase`: the lower case of the text by Unicode's rules. It depends on
/// the text alone. Of an ASCII text it is the text with `A` to `Z` as `a` to `z`.
pub assume_specification[ str::to_lowercase ](s: &str) -> (r: String)
    ensures
        r@ == lowercase(s@),
        is_ascii(s@) ==> r@ == s@.map_values(|c: char| text::ascii_lower(c)),
;

/// Whether a character is a letter or a numeral, as the standard library has it.
pub uninterp spec fn alphanumeric(c: char) -> bool;

/// `char::is_alphanumeric`: whether the character is alphabetic or numeric by
/// Unicode's properties. It depends on the character alone. In ASCII these are the
/// letters and the digits.
pub assume_specification[ char::is_alphanumeric ](c: char) -> (r: bool)
    ensures
        r == alphanumeric(c),
        (c as u32) < 128 ==> r == ascii_word_char(c),
;

/// The texts of a list.
pub open spec fn strs(v: Seq<&str>) -> Seq<Seq<char>> {
    v.map_values(|s: &str| s@)
}

/// Words that mark a bracketed group as decoration. A remix or a self cover is
/// another recording, so neither is among them.
pub open spec fn noise_words() -> Seq<Seq<char>> {
    seq![
        "official"@,
        "video"@,
        "audio"@,
        "mv"@,
        "m/v"@,
        "lyric"@,
        "lyrics"@,
        "visualizer"@,
        "visualiser"@,
        "remaster"@,
        "remastered"@,
        "hd"@,
        "hq"@,
        "4k"@,
        "full version"@,
        "explicit"@,
        "clean"@,
        "feat"@,
        "feat."@,
        "ft"@,
        "ft."@,
        "featuring"@,
    ]
}

/// Words that mark a cover. A cover has the original's lyrics.
pub open spec fn cover_words() -> Seq<Seq<char>> {
    seq!["歌ってみた"@, "唄ってみた"@, "うたってみた"@, "カバー"@, "cover"@, "covered"@]
}

/// Phrases that introduce whoever performs this rendition.
pub open spec fn rendition_credits() -> Seq<Seq<char>> {
    seq!["covered by"@, "cover by"@, "cover:"@, "covered:"@, "ver."@, "ver:"@]
}

/// Phrases that introduce a guest on the same recording.
pub open spec fn guest_credits() -> Seq<Seq<char>> {
    seq!["feat."@, "feat "@, "ft."@, "featuring "@]
}

/// What stands between a song's name and an alias or a credit.
pub open spec fn field_separators() -> Seq<Seq<char>> {
    seq![" - "@, " – "@, " — "@, " / "@, "／"@, " ・ "@]
}

fn noise() -> (r: Vec<&'static str>)
    ensures
        strs(r@) == noise_words(),
{
    let r: Vec<&'static str> = vec![
        "official",
        "video",
        "audio",
        "mv",
        "m/v",
        "lyric",
        "lyrics",
        "visualizer",
        "visualiser",
        "remaster",
        "remastered",
        "hd",
        "hq",
        "4k",
        "full version",
        "explicit",
        "clean",
        "feat",
        "feat.",
        "ft",
        "ft.",
        "featuring",
    ];
    assert(strs(r@) =~= noise_words());
    r
}

fn covers() -> (r: Vec<&'static str>)
    ensures
        strs(r@) == cover_words(),
{
    let r: Vec<&'static str> = vec![
        "歌ってみた",
        "唄ってみた",
        "うたってみた",
        "カバー",
        "cover",
        "covered",
    ];
    assert(strs(r@) =~= cover_words());
    r
}

fn renditions() -> (r: Vec<&'static str>)
    ensures
        strs(r@) == rendition_credits(),
{
    let r: Vec<&'static str> = vec![
        "covered by",
        "cover by",
        "cover:",
        "covered:",
        "ver.",
        "ver:",
    ];
    assert(strs(r@) =~= rendition_credits());
    r
}

fn guests() -> (r: Vec<&'static str>)
    ensures
        strs(r@) == guest_credits(),
{
    let r: Vec<&'static str> = vec!["feat.", "feat ", "ft.", "featuring "];
    assert(strs(r@) =~= guest_credits());
    r
}

fn separators() -> (r: Vec<&'static str>)
    ensures
        strs(r@) == field_separators(),
{
    let r: Vec<&'static str> = vec![" - ", " – ", " — ", " / ", "／", " ・ "];
    assert(strs(r@) =~= field_separators());
    r
}

// ── finding markers ──────────────────────────────────────────────────────────

/// An ASCII letter or digit.
pub open spec fn ascii_word_char(c: char) -> bool {
    ('0' <= c && c <= '9') || ('A' <= c && c <= 'Z') || ('a' <= c && c <= 'z')
}

/// Nothing but ASCII.
pub open spec fn is_ascii(s: Seq<char>) -> bool {
    forall|i: int| 0 <= i < s.len() ==> (#[trigger] s[i] as u32) < 128
}

/// The first place at or after `from` where `needle` begins at a word boundary of
/// `hay`. A needle that starts with something else than an ASCII letter or digit
/// carries its own boundary. The search goes on behind a place that does not count.
pub open spec fn bounded_find(hay: Seq<char>, needle: Seq<char>, from: int) -> Option<int>
    decreases hay.len() - from,
{
    match text::find_from(hay, needle, from) {
        Some(at) if from <= at && at + needle.len() <= hay.len() && needle.len() > 0 && ascii_word_char(needle[0])
            && at > 0 && ascii_word_char(hay[at - 1]) => bounded_find(
            hay,
            needle,
            at + needle.len(),
        ),
        r => r,
    }
}

/// Whether a lowercased text mentions a word: at a word boundary where the word is
/// ASCII, anywhere where it is not, since such scripts have no boundaries.
pub open spec fn mentioned(hay: Seq<char>, word: Seq<char>) -> bool {
    if is_ascii(word) {
        bounded_find(hay, word, 0) is Some
    } else {
        text::find_from(hay, word, 0) is Some
    }
}

/// Whether a lowercased text mentions one of the words.
pub open spec fn mentions_any(hay: Seq<char>, words: Seq<Seq<char>>) -> bool {
    exists|i: int| 0 <= i < words.len() && mentioned(hay, #[trigger] words[i])
}

/// Whether a title says that it is a cover or another rendition.
pub open spec fn is_cover(title: Seq<char>) -> bool {
    mentions_any(lowercase(title), cover_words()) || mentions_any(
        lowercase(title),
        rendition_credits(),
    )
}

fn is_ascii_word_char(c: char) -> (r: bool)
    ensures
        r == ascii_word_char(c),
{
    ('0' <= c && c <= '9') || ('A' <= c && c <= 'Z') || ('a' <= c && c <= 'z')
}

fn only_ascii(s: &[char]) -> (r: bool)
    ensures
        r == is_ascii(s@),
{
    let mut i: usize = 0;
    while i < s.len()
        invariant
            forall|k: int| 0 <= k < i ==> (#[trigger] s@[k] as u32) < 128,
        decreases s@.len() - i,
    {
        if s[i] as u32 >= 128 {
            assert(!((s@[i as int] as u32) < 128));
            return false;
        }
        i += 1;
    }
    true
}

fn find_marker(hay: &[char], needle: &[char]) -> (r: Option<usize>)
    ensures
        match r {
            Some(i) => bounded_find(hay@, needle@, 0) == Some(i as int) && i <= hay@.len(),
            None => bounded_find(hay@, needle@, 0) is None,
        },
{
    let check = needle.len() > 0 && is_ascii_word_char(needle[0]);
    let n: usize = hay.len();
    let mut from: usize = 0;
    loop
        invariant
            from <= n,
            n == hay@.len(),
            check == (needle@.len() > 0 && ascii_word_char(needle@[0])),
            bounded_find(hay@, needle@, 0) == bounded_find(hay@, needle@, from as int),
        decreases n - from,
    {
        match text::find(hay, needle, from) {
            Some(at) => {
                proof {
                    text::lemma_find_from(hay@, needle@, from as int);
                }
                if !check || at == 0 || !is_ascii_word_char(hay[at - 1]) {
                    return Some(at);
                }
                from = at + needle.len();
            },
            None => {
                return None;
            },
        }
    }
}

/// Finds `needle` in `hay`, both in lower case, where it begins at a word boundary:
/// `ver.` in `ダーリンver.` but not in `Cover.`. The place is counted in characters.
pub fn find_at_boundary(hay: &str, needle: &str) -> (r: Option<usize>)
    ensures
        match r {
            Some(i) => bounded_find(hay@, needle@, 0) == Some(i as int) && i <= hay@.len(),
            None => bounded_find(hay@, needle@, 0) is None,
        },
{
    let h = text::chars_of(hay);
    let n = text::chars_of(needle);
    find_marker(h.as_slice(), n.as_slice())
}

/// A place that was found holds the needle, at a boundary.
pub proof fn a_found_marker_stands_at_a_boundary(hay: Seq<char>, needle: Seq<char>, from: int)
    requires
        0 <= from,
        needle.len() > 0,
        ascii_word_char(needle[0]),
    ensures
        bounded_find(hay, needle, from) matches Some(i) ==> text::occurs(hay, needle, i) && (i == 0
            || !ascii_word_char(hay[i - 1])),
    decreases hay.len() - from,
{
    text::lemma_find_from(hay, needle, from);
    match text::find_from(hay, needle, from) {
        Some(at) => {
            if at > 0 && ascii_word_char(hay[at - 1]) {
                a_found_marker_stands_at_a_boundary(hay, needle, at + needle.len());
            }
        },
        None => {},
    }
}

fn has_word(hay: &[char], word: &str) -> (r: bool)
    ensures
        r == mentioned(hay@, word@),
{
    let w = text::chars_of(word);
    if only_ascii(w.as_slice()) {
        find_marker(hay, w.as_slice()).is_some()
    } else {
        text::find(hay, w.as_slice(), 0).is_some()
    }
}

/// Whether `haystack_lower`, in lower case, mentions `word`.
pub fn mentions(haystack_lower: &str, word: &str) -> (r: bool)
    ensures
        r == mentioned(haystack_lower@, word@),
{
    let h = text::chars_of(haystack_lower);
    has_word(h.as_slice(), word)
}

fn has_any_word(hay: &[char], words: &Vec<&'static str>) -> (r: bool)
    ensures
        r == mentions_any(hay@, strs(words@)),
{
    let mut i: usize = 0;
    while i < words.len()
        invariant
            forall|k: int| 0 <= k < i ==> !mentioned(hay@, #[trigger] strs(words@)[k]),
        decreases words@.len() - i,
    {
        if has_word(hay, words[i]) {
            assert(mentioned(hay@, strs(words@)[i as int]));
            return true;
        }
        i += 1;
    }
    false
}

/// Whether the title says that it is a cover or another rendition. A guest credit
/// does not make one.
pub fn has_cover_marker(title: &str) -> (r: bool)
    ensures
        r == is_cover(title@),
{
    let lower = title.to_lowercase();
    let cs = text::chars_of(lower.as_str());
    has_any_word(cs.as_slice(), &covers()) || has_any_word(cs.as_slice(), &renditions())
}

// ── bracketed groups ─────────────────────────────────────────────────────────

/// What opens a group.
pub open spec fn opens() -> spec_fn(char) -> bool {
    |c: char| c == '(' || c == '[' || c == '【' || c == '「' || c == '『'
}

/// What closes the group that `c` opens.
pub open spec fn closer(c: char) -> char {
    if c == '(' {
        ')'
    } else if c == '[' {
        ']'
    } else if c == '【' {
        '】'
    } else if c == '「' {
        '」'
    } else {
        '』'
    }
}

/// What separates tokens: anything but letters, numerals, dots and slashes.
pub open spec fn separates(c: char) -> bool {
    !alphanumeric(c) && c != '.' && c != '/'
}

/// The length of the token that `s` starts with.
pub open spec fn token_len(s: Seq<char>) -> nat
    decreases s.len(),
{
    if s.len() == 0 || separates(s[0]) {
        0
    } else {
        1 + token_len(s.skip(1))
    }
}

/// The tokens of `s`.
pub open spec fn tokens_of(s: Seq<char>) -> Seq<Seq<char>>
    decreases s.len(),
{
    let n = token_len(s);
    let rest = if n < s.len() {
        tokens_of(s.skip(n + 1int))
    } else {
        Seq::empty()
    };
    if n > 0 {
        seq![s.take(n as int)] + rest
    } else {
        rest
    }
}

/// Whether `words` stand among `tokens` one after another.
pub open spec fn in_a_row(tokens: Seq<Seq<char>>, words: Seq<Seq<char>>) -> bool {
    exists|i: int|
        0 <= i && i + words.len() <= tokens.len() && #[trigger] tokens.subrange(
            i,
            i + words.len(),
        ) == words
}

/// Whether what stands in brackets, in lower case, holds a keyword: word by word
/// among its tokens where the keyword is ASCII, so that `hd` is not found in `shd`,
/// anywhere where it is not.
pub open spec fn holds(inner: Seq<char>, keyword: Seq<char>) -> bool {
    if is_ascii(keyword) {
        in_a_row(tokens_of(inner), text::split_on(keyword, ' '))
    } else {
        text::find_from(inner, keyword, 0) is Some
    }
}

/// Whether what stands in brackets, in lower case, holds one of the keywords.
pub open spec fn holds_keyword(inner: Seq<char>, keywords: Seq<Seq<char>>) -> bool {
    exists|i: int| 0 <= i < keywords.len() && holds(inner, #[trigger] keywords[i])
}

/// A title without the bracketed groups that hold a keyword. An unclosed bracket
/// ends the search.
pub open spec fn stripped(s: Seq<char>, keywords: Seq<Seq<char>>) -> Seq<char>
    decreases s.len(),
{
    match seqs::first_where(s, opens(), 0) {
        Some(o) if 0 <= o < s.len() => match text::first_of(s, closer(s[o]), o) {
            Some(c) if o <= c < s.len() => s.take(o) + (if holds_keyword(
                lowercase(s.subrange(o + 1, c)),
                keywords,
            ) {
                Seq::empty()
            } else {
                s.subrange(o, c + 1)
            }) + stripped(s.skip(c + 1), keywords),
            _ => s,
        },
        _ => s,
    }
}

/// A title without such groups, with one space in place of every run of white
/// space. A run separates tokens whatever it is made of.
pub open spec fn bared(title: Seq<char>, keywords: Seq<Seq<char>>) -> Seq<char> {
    text::collapsed(stripped(text::collapsed(title), keywords))
}

/// The title without its decoration.
pub open spec fn clean_title(title: Seq<char>) -> Seq<char> {
    bared(title, noise_words())
}

fn token_run(s: &[char]) -> (n: usize)
    ensures
        n == token_len(s@),
        n <= s@.len(),
{
    let mut i: usize = 0;
    assert(s@.skip(0) == s@);
    while i < s.len() && (s[i].is_alphanumeric() || s[i] == '.' || s[i] == '/')
        invariant
            i <= s@.len(),
            token_len(s@) == i + token_len(s@.skip(i as int)),
        decreases s@.len() - i,
    {
        assert(s@.skip(i as int).skip(1) == s@.skip(i + 1));
        i += 1;
    }
    i
}

fn tokens(s: &[char]) -> (r: Vec<Vec<char>>)
    ensures
        text::rows(r@) == tokens_of(s@),
{
    let mut out: Vec<Vec<char>> = Vec::new();
    let mut from: usize = 0;
    let n: usize = s.len();
    assert(s@.skip(0) == s@);
    assert(text::rows(out@) + tokens_of(s@) =~= tokens_of(s@));
    loop
        invariant
            from <= n,
            n == s@.len(),
            text::rows(out@) + tokens_of(s@.skip(from as int)) == tokens_of(s@),
        decreases n - from,
    {
        let rest = &s[from..n];
        assert(rest@ == s@.skip(from as int));
        let k: usize = token_run(rest);
        let ghost before = text::rows(out@);
        if k > 0 {
            let token = text::copied(&rest[0..k]);
            assert(token@ == rest@.take(k as int));
            out.push(token);
            assert(text::rows(out@) =~= before.push(token@));
        }
        if k == rest.len() {
            assert(text::rows(out@) =~= before + tokens_of(rest@));
            return out;
        }
        assert(rest@.skip(k + 1) == s@.skip(from + k + 1));
        assert(text::rows(out@) + tokens_of(rest@.skip(k + 1)) =~= before + tokens_of(rest@));
        from = from + k + 1;
    }
}

fn row_at(tokens: &Vec<Vec<char>>, words: &Vec<Vec<char>>, i: usize) -> (r: bool)
    requires
        i + words@.len() <= tokens@.len(),
    ensures
        r == (text::rows(tokens@).subrange(i as int, i + words@.len()) == text::rows(words@)),
{
    let ghost ts = text::rows(tokens@).subrange(i as int, i + words@.len());
    let ghost ws = text::rows(words@);
    let n: usize = tokens.len();
    let mut k: usize = 0;
    while k < words.len()
        invariant
            i + words@.len() <= n,
            n == tokens@.len(),
            ts == text::rows(tokens@).subrange(i as int, i + words@.len()),
            ws == text::rows(words@),
            forall|j: int| 0 <= j < k ==> ts[j] == ws[j],
        decreases words@.len() - k,
    {
        if !text::same(tokens[i + k].as_slice(), words[k].as_slice()) {
            assert(ts[k as int] != ws[k as int]);
            return false;
        }
        k += 1;
    }
    assert(ts =~= ws);
    true
}

fn stand_in_a_row(tokens: &Vec<Vec<char>>, words: &Vec<Vec<char>>) -> (r: bool)
    ensures
        r == in_a_row(text::rows(tokens@), text::rows(words@)),
{
    if words.len() > tokens.len() {
        return false;
    }
    let last: usize = tokens.len() - words.len();
    let ghost ts = text::rows(tokens@);
    let ghost ws = text::rows(words@);
    let mut i: usize = 0;
    loop
        invariant
            i <= last,
            last + words@.len() == tokens@.len(),
            ts == text::rows(tokens@),
            ws == text::rows(words@),
            forall|k: int| 0 <= k < i ==> #[trigger] ts.subrange(k, k + ws.len()) != ws,
        decreases last - i,
    {
        if row_at(tokens, words, i) {
            assert(ts.subrange(i as int, i + ws.len()) == ws);
            return true;
        }
        if i == last {
            return false;
        }
        i += 1;
    }
}

fn holds_any(inner: &[char], keywords: &Vec<&'static str>) -> (r: bool)
    ensures
        r == holds_keyword(inner@, strs(keywords@)),
{
    let mut i: usize = 0;
    let ghost ks = strs(keywords@);
    let inner_tokens = tokens(inner);
    while i < keywords.len()
        invariant
            ks == strs(keywords@),
            text::rows(inner_tokens@) == tokens_of(inner@),
            forall|k: int| 0 <= k < i ==> !holds(inner@, #[trigger] ks[k]),
        decreases keywords@.len() - i,
    {
        let w = text::chars_of(keywords[i]);
        assert(w@ == ks[i as int]);
        let hit = if only_ascii(w.as_slice()) {
            stand_in_a_row(&inner_tokens, &text::split(w.as_slice(), ' '))
        } else {
            text::find(inner, w.as_slice(), 0).is_some()
        };
        if hit {
            return true;
        }
        i += 1;
    }
    false
}

fn find_open(s: &[char]) -> (r: Option<usize>)
    ensures
        match r {
            Some(i) => seqs::first_where(s@, opens(), 0) == Some(i as int) && i < s@.len(),
            None => seqs::first_where(s@, opens(), 0) is None,
        },
{
    let mut i: usize = 0;
    while i < s.len()
        invariant
            seqs::first_where(s@, opens(), 0) == seqs::first_where(s@, opens(), i as int),
        decreases s@.len() - i,
    {
        let c = s[i];
        if c == '(' || c == '[' || c == '【' || c == '「' || c == '『' {
            return Some(i);
        }
        i += 1;
    }
    None
}

fn push_all(out: &mut Vec<char>, s: &[char])
    ensures
        final(out)@ == old(out)@ + s@,
{
    let mut more = text::copied(s);
    out.append(&mut more);
}

fn strip(title: &[char], keywords: &Vec<&'static str>) -> (r: Vec<char>)
    ensures
        r@ == stripped(title@, strs(keywords@)),
{
    let mut out: Vec<char> = Vec::new();
    let mut from: usize = 0;
    let n: usize = title.len();
    let ghost ks = strs(keywords@);
    assert(title@.skip(0) == title@);
    assert(out@ + stripped(title@, ks) =~= stripped(title@, ks));
    loop
        invariant
            from <= n,
            n == title@.len(),
            ks == strs(keywords@),
            out@ + stripped(title@.skip(from as int), ks) == stripped(title@, ks),
        decreases n - from,
    {
        let rest = &title[from..n];
        assert(rest@ == title@.skip(from as int));
        let open: usize = match find_open(rest) {
            Some(o) => o,
            None => {
                push_all(&mut out, rest);
                return out;
            },
        };
        let oc = rest[open];
        let cc = if oc == '(' {
            ')'
        } else if oc == '[' {
            ']'
        } else if oc == '【' {
            '】'
        } else if oc == '「' {
            '」'
        } else {
            '』'
        };
        let close: usize = match text::position(rest, cc, open) {
            Some(c) => c,
            None => {
                push_all(&mut out, rest);
                return out;
            },
        };
        proof {
            seqs::lemma_first_where(rest@, opens(), 0);
            assert(opens()(rest@[open as int]));
            assert(rest@[close as int] == cc);
            assert(close != open);
        }
        let inner = text::string_of(&rest[open + 1..close]);
        assert(inner@ == rest@.subrange(open + 1, close as int));
        let lower = inner.as_str().to_lowercase();
        let lower_cs = text::chars_of(lower.as_str());
        let hit = holds_any(lower_cs.as_slice(), keywords);
        let ghost before = out@;
        push_all(&mut out, &rest[0..open]);
        assert(rest@.take(open as int) == rest@.subrange(0, open as int));
        if !hit {
            push_all(&mut out, &rest[open..close + 1]);
        }
        assert(rest@.skip(close + 1) == title@.skip(from + close + 1));
        assert(out@ + stripped(rest@.skip(close + 1), ks) =~= before + stripped(rest@, ks));
        from = from + close + 1;
    }
}

/// The title without its decoration: groups in brackets that hold a word such as
/// `official` or `mv`. Groups that say which recording it is stay.
pub fn strip_title_noise(title: &str) -> (r: String)
    ensures
        r@ == clean_title(title@),
{
    let cs = text::chars_of(title);
    let tidied = text::collapse(cs.as_slice());
    let kept = strip(tidied.as_slice(), &noise());
    text::string_of(text::collapse(kept.as_slice()).as_slice())
}

/// A title without brackets is only tidied.
pub proof fn a_title_without_brackets_stays(title: Seq<char>)
    requires
        forall|i: int| 0 <= i < title.len() ==> !opens()(#[trigger] title[i]),
    ensures
        clean_title(title) == text::collapsed(title),
{
    let t = text::collapsed(title);
    spacing::lemma_collapsed(title);
    assert forall|i: int| 0 <= i < t.len() implies !opens()(#[trigger] t[i]) by {
        if t[i] != ' ' {
            let j = choose|j: int| 0 <= j < title.len() && title[j] == t[i];
            assert(!opens()(title[j]));
        }
    }
    seqs::lemma_first_where(t, opens(), 0);
    spacing::lemma_collapsed_tidy(t);
}

proof fn lemma_past_plain(a: Seq<char>, x: Seq<char>, keywords: Seq<Seq<char>>)
    requires
        forall|i: int| 0 <= i < a.len() ==> !opens()(#[trigger] a[i]),
    ensures
        stripped(a + x, keywords) == a + stripped(x, keywords),
{
    let s = a + x;
    let n = a.len() as int;
    seqs::lemma_first_where(x, opens(), 0);
    seqs::lemma_first_where(s, opens(), 0);
    match seqs::first_where(x, opens(), 0) {
        Some(o) => {
            assert(opens()(s[n + o]));
            let so = seqs::first_where(s, opens(), 0)->0;
            assert(opens()(s[so]));
            if so < n {
                assert(!opens()(a[so]));
            }
            if so < n + o {
                assert(!opens()(x[so - n]));
            }
            assert(so == n + o);
            let k = closer(x[o]);
            text::lemma_first_of(x, k, o);
            text::lemma_first_of(s, k, so);
            match text::first_of(x, k, o) {
                Some(c) => {
                    assert(s[n + c] == k);
                    let sc = text::first_of(s, k, so)->0;
                    assert(s[sc] == k);
                    if sc < n + c {
                        assert(x[sc - n] != k);
                    }
                    assert(sc == n + c);
                    assert(s.subrange(so + 1, sc) =~= x.subrange(o + 1, c));
                    assert(s.subrange(so, sc + 1) =~= x.subrange(o, c + 1));
                    assert(s.skip(sc + 1) =~= x.skip(c + 1));
                    assert(s.take(so) =~= a + x.take(o));
                    assert(stripped(s, keywords) =~= a + stripped(x, keywords));
                },
                None => {
                    if text::first_of(s, k, so) is Some {
                        let sc = text::first_of(s, k, so)->0;
                        assert(x[sc - n] == k);
                    }
                },
            }
        },
        None => {
            if seqs::first_where(s, opens(), 0) is Some {
                let so = seqs::first_where(s, opens(), 0)->0;
                assert(opens()(s[so]));
                if so < n {
                    assert(!opens()(a[so]));
                } else {
                    assert(!opens()(x[so - n]));
                }
            }
        },
    }
}

/// Whether `g` is a group: an opening bracket, the one that closes it at the end,
/// and none of those in between.
pub open spec fn is_group(g: Seq<char>) -> bool {
    &&& g.len() >= 2
    &&& opens()(g[0])
    &&& g.last() == closer(g[0])
    &&& forall|i: int| 0 <= i < g.len() - 1 ==> #[trigger] g[i] != closer(g[0])
}

proof fn lemma_past_group(g: Seq<char>, x: Seq<char>, keywords: Seq<Seq<char>>)
    requires
        is_group(g),
        !holds_keyword(lowercase(g.subrange(1, g.len() - 1)), keywords),
    ensures
        stripped(g + x, keywords) == g + stripped(x, keywords),
{
    let s = g + x;
    let k = closer(g[0]);
    let c = g.len() - 1;
    assert(s[0] == g[0]);
    assert(seqs::first_where(s, opens(), 0) == Some(0int));
    text::lemma_first_of(s, k, 0);
    assert(s[c] == k);
    let sc = text::first_of(s, k, 0)->0;
    if sc < c {
        assert(g[sc] != k);
    }
    assert(sc == c);
    assert(s.subrange(1, c) =~= g.subrange(1, c));
    assert(s.subrange(0, c + 1) =~= g);
    assert(s.skip(c + 1) =~= x);
    assert(s.take(0) + g + stripped(x, keywords) =~= g + stripped(x, keywords));
}

proof fn lemma_unclosed(x: Seq<char>, keywords: Seq<Seq<char>>)
    requires
        x.len() > 0,
        opens()(x[0]),
        forall|i: int| 0 <= i < x.len() ==> #[trigger] x[i] != closer(x[0]),
    ensures
        stripped(x, keywords) == x,
{
    assert(seqs::first_where(x, opens(), 0) == Some(0int));
    text::lemma_first_of(x, closer(x[0]), 0);
}

proof fn lemma_squeezed_plain(a: Seq<char>, started: bool, pending: bool)
    requires
        forall|i: int| 0 <= i < a.len() ==> !opens()(#[trigger] a[i]),
    ensures
        forall|i: int|
            0 <= i < spacing::squeezed(a, started, pending).len() ==> !opens()(
                #[trigger] spacing::squeezed(a, started, pending)[i],
            ),
{
    let q = spacing::squeezed(a, started, pending);
    spacing::lemma_squeezed_chars(a, started, pending);
    assert forall|i: int| 0 <= i < q.len() implies !opens()(#[trigger] q[i]) by {
        if q[i] != ' ' {
            let j = choose|j: int| 0 <= j < a.len() && a[j] == q[i];
            assert(!opens()(a[j]));
        }
    }
}

proof fn lemma_lead_plain(a: Seq<char>, started: bool, pending: bool)
    requires
        forall|i: int| 0 <= i < a.len() ==> !opens()(#[trigger] a[i]),
    ensures
        ({
            let q = spacing::squeezed(a, started, pending) + spacing::lead(
                spacing::state(a, started, pending).1,
            );
            forall|i: int| 0 <= i < q.len() ==> !opens()(#[trigger] q[i])
        }),
{
    let qa = spacing::squeezed(a, started, pending);
    let q = qa + spacing::lead(spacing::state(a, started, pending).1);
    lemma_squeezed_plain(a, started, pending);
    assert forall|i: int| 0 <= i < q.len() implies !opens()(#[trigger] q[i]) by {
        if i < qa.len() {
            assert(!opens()(qa[i]));
        }
    }
}

proof fn lemma_is_group(s: Seq<char>, o: int, c: int)
    requires
        0 <= o < s.len(),
        opens()(s[o]),
        text::first_of(s, closer(s[o]), o) == Some(c),
    ensures
        o < c < s.len(),
        is_group(s.subrange(o, c + 1)),
{
    let g = s.subrange(o, c + 1);
    text::lemma_first_of(s, closer(s[o]), o);
    assert(g[0] == s[o]);
    assert(g.last() == s[c]);
    assert forall|i: int| 0 <= i < g.len() - 1 implies #[trigger] g[i] != closer(g[0]) by {
        assert(g[i] == s[o + i]);
    }
}

proof fn lemma_kept_group_stays(
    a: Seq<char>,
    g: Seq<char>,
    rest: Seq<char>,
    started: bool,
    pending: bool,
    keywords: Seq<Seq<char>>,
)
    requires
        forall|i: int| 0 <= i < a.len() ==> !opens()(#[trigger] a[i]),
        is_group(g),
        spacing::spaced(g),
        !holds_keyword(lowercase(g.subrange(1, g.len() - 1)), keywords),
        ({
            let q = spacing::squeezed(rest, true, false);
            stripped(q, keywords) == q
        }),
    ensures
        ({
            let q = spacing::squeezed(a + (g + rest), started, pending);
            stripped(q, keywords) == q
        }),
{
    let q = spacing::squeezed(a + (g + rest), started, pending);
    let (st, pe) = spacing::state(a, started, pending);
    let front = spacing::squeezed(a, started, pending) + spacing::lead(pe);
    let qr = spacing::squeezed(rest, true, false);
    spacing::lemma_squeezed_parts(a, g + rest, started, pending);
    spacing::lemma_squeezed_parts(g, rest, st, pe);
    spacing::lemma_squeezed_spaced(g, st, pe);
    assert(q =~= front + (g + qr));
    lemma_lead_plain(a, started, pending);
    lemma_past_plain(front, g + qr, keywords);
    lemma_past_group(g, qr, keywords);
}

proof fn lemma_unclosed_stays(
    a: Seq<char>,
    b: Seq<char>,
    started: bool,
    pending: bool,
    keywords: Seq<Seq<char>>,
)
    requires
        forall|i: int| 0 <= i < a.len() ==> !opens()(#[trigger] a[i]),
        b.len() > 0,
        opens()(b[0]),
        forall|i: int| 0 <= i < b.len() ==> #[trigger] b[i] != closer(b[0]),
    ensures
        ({
            let q = spacing::squeezed(a + b, started, pending);
            stripped(q, keywords) == q
        }),
{
    let q = spacing::squeezed(a + b, started, pending);
    let (st, pe) = spacing::state(a, started, pending);
    let front = spacing::squeezed(a, started, pending) + spacing::lead(pe);
    let t = b.skip(1);
    let x = seq![b[0]] + spacing::squeezed(t, true, false);
    spacing::lemma_squeezed_parts(a, b, started, pending);
    assert(q =~= front + x);
    spacing::lemma_squeezed_chars(t, true, false);
    assert forall|i: int| 0 <= i < x.len() implies #[trigger] x[i] != closer(x[0]) by {
        if i == 0 {
            assert(b[0] != closer(b[0]));
        } else {
            assert(x[i] == spacing::squeezed(t, true, false)[i - 1]);
            if x[i] != ' ' {
                let j = choose|j: int| 0 <= j < t.len() && t[j] == x[i];
                assert(b[j + 1] == x[i]);
            }
        }
    }
    lemma_lead_plain(a, started, pending);
    lemma_past_plain(front, x, keywords);
    lemma_unclosed(x, keywords);
}

proof fn lemma_stripped_stays(s: Seq<char>, started: bool, pending: bool, keywords: Seq<Seq<char>>)
    requires
        spacing::spaced(s),
    ensures
        ({
            let q = spacing::squeezed(stripped(s, keywords), started, pending);
            stripped(q, keywords) == q
        }),
    decreases s.len(),
{
    let u = stripped(s, keywords);
    let q = spacing::squeezed(u, started, pending);
    seqs::lemma_first_where(s, opens(), 0);
    match seqs::first_where(s, opens(), 0) {
        Some(o) => {
            let a = s.take(o);
            assert(opens()(s[o]));
            assert forall|i: int| 0 <= i < a.len() implies !opens()(#[trigger] a[i]) by {
                assert(!opens()(s[i]));
            }
            text::lemma_first_of(s, closer(s[o]), o);
            match text::first_of(s, closer(s[o]), o) {
                Some(c) => {
                    lemma_is_group(s, o, c);
                    let g = s.subrange(o, c + 1);
                    let tail = s.skip(c + 1);
                    let rest = stripped(tail, keywords);
                    spacing::lemma_spaced_part(s, o, c + 1);
                    spacing::lemma_spaced_part(s, c + 1, s.len() as int);
                    assert(tail =~= s.subrange(c + 1, s.len() as int));
                    assert(g.subrange(1, g.len() - 1) =~= s.subrange(o + 1, c));
                    if holds_keyword(lowercase(s.subrange(o + 1, c)), keywords) {
                        assert(u =~= a + rest);
                        let (st, pe) = spacing::state(a, started, pending);
                        lemma_stripped_stays(tail, st, pe, keywords);
                        spacing::lemma_squeezed_parts(a, rest, started, pending);
                        lemma_squeezed_plain(a, started, pending);
                        lemma_past_plain(
                            spacing::squeezed(a, started, pending),
                            spacing::squeezed(rest, st, pe),
                            keywords,
                        );
                    } else {
                        assert(u =~= a + (g + rest));
                        lemma_stripped_stays(tail, true, false, keywords);
                        lemma_kept_group_stays(a, g, rest, started, pending, keywords);
                    }
                },
                None => {
                    let b = s.skip(o);
                    assert(u =~= a + b);
                    assert forall|i: int| 0 <= i < b.len() implies #[trigger] b[i] != closer(
                        b[0],
                    ) by {
                        assert(b[i] == s[o + i]);
                    }
                    lemma_unclosed_stays(a, b, started, pending, keywords);
                },
            }
        },
        None => {
            assert forall|i: int| 0 <= i < s.len() implies !opens()(#[trigger] s[i]) by {}
            lemma_squeezed_plain(s, started, pending);
            seqs::lemma_first_where(q, opens(), 0);
            if seqs::first_where(q, opens(), 0) is Some {
                assert(opens()(q[seqs::first_where(q, opens(), 0)->0]));
            }
        },
    }
}

/// A cleaned title is tidy, and cleaning it again changes nothing.
pub proof fn cleaning_twice_is_cleaning_once(title: Seq<char>)
    ensures
        text::tidy(clean_title(title)),
        clean_title(clean_title(title)) == clean_title(title),
{
    let t = text::collapsed(title);
    let u = stripped(t, noise_words());
    let r = clean_title(title);
    spacing::lemma_collapsed(title);
    spacing::lemma_collapsed(u);
    lemma_stripped_stays(t, false, false, noise_words());
    spacing::lemma_collapsed_tidy(r);
}

// ── the song's name ──────────────────────────────────────────────────────────

/// The smaller of two places.
pub open spec fn earlier(a: Option<int>, b: Option<int>) -> Option<int> {
    match (a, b) {
        (Some(x), Some(y)) => Some(
            if x <= y {
                x
            } else {
                y
            },
        ),
        (Some(x), None) => Some(x),
        (None, y) => y,
    }
}

/// The first place where one of the phrases begins at a word boundary.
pub open spec fn first_marker(hay: Seq<char>, phrases: Seq<Seq<char>>) -> Option<int>
    decreases phrases.len(),
{
    if phrases.len() == 0 {
        None
    } else {
        earlier(
            first_marker(hay, phrases.drop_last()),
            bounded_find(hay, phrases.last(), 0),
        )
    }
}

/// The first place where one of the texts stands.
pub open spec fn first_any(hay: Seq<char>, needles: Seq<Seq<char>>) -> Option<int>
    decreases needles.len(),
{
    if needles.len() == 0 {
        None
    } else {
        earlier(first_any(hay, needles.drop_last()), text::find_from(hay, needles.last(), 0))
    }
}

/// What may stand between a name and its credit.
pub open spec fn dangles(c: char) -> bool {
    c == ' ' || c == '/' || c == '／' || c == '-' || c == '–' || c == '—' || c == '・'
}

/// `s` without what dangles at its end.
pub open spec fn undangled(s: Seq<char>) -> Seq<char>
    decreases s.len(),
{
    if s.len() > 0 && dangles(s.last()) {
        undangled(s.drop_last())
    } else {
        s
    }
}

/// The phrases that start a credit in this title. A bare `by` is one only on a
/// cover: `Stand By Me` is a name.
pub open spec fn credits(title: Seq<char>) -> Seq<Seq<char>> {
    if is_cover(title) {
        rendition_credits() + guest_credits() + seq![" by "@]
    } else {
        rendition_credits() + guest_credits()
    }
}

/// A text cut where its lower case has the first of the phrases. The place is a
/// byte of the lower case, and is used where a character of the text starts there.
pub open spec fn uncredited(s: Seq<char>, phrases: Seq<Seq<char>>) -> Seq<char> {
    match first_marker(lowercase(s), phrases) {
        Some(i) => match text::at_byte(s, text::byte_len(lowercase(s).take(i))) {
            Some(k) => undangled(s.take(k)),
            None => s,
        },
        None => s,
    }
}

/// A text up to the first field separator.
pub open spec fn first_field(s: Seq<char>) -> Seq<char> {
    match first_any(s, field_separators()) {
        Some(i) => s.take(i),
        None => s,
    }
}

/// The song's name alone.
pub open spec fn song_name(title: Seq<char>) -> Seq<char> {
    text::trimmed(
        first_field(
            uncredited(
                bared(title, noise_words() + cover_words()),
                credits(title),
            ),
        ),
    )
}

fn sooner(a: Option<usize>, b: Option<usize>) -> (r: Option<usize>)
    ensures
        r == match (a, b) {
            (Some(x), Some(y)) => Some(
                if x <= y {
                    x
                } else {
                    y
                },
            ),
            (Some(x), None) => Some(x),
            (None, y) => y,
        },
{
    match (a, b) {
        (Some(x), Some(y)) => Some(
            if x <= y {
                x
            } else {
                y
            },
        ),
        (Some(x), None) => Some(x),
        (None, y) => y,
    }
}

fn find_first_marker(hay: &[char], phrases: &Vec<&'static str>) -> (r: Option<usize>)
    ensures
        match r {
            Some(i) => first_marker(hay@, strs(phrases@)) == Some(i as int) && i <= hay@.len(),
            None => first_marker(hay@, strs(phrases@)) is None,
        },
{
    let ghost ps = strs(phrases@);
    let mut best: Option<usize> = None;
    let mut i: usize = 0;
    while i < phrases.len()
        invariant
            i <= phrases@.len(),
            ps == strs(phrases@),
            match best {
                Some(k) => first_marker(hay@, ps.take(i as int)) == Some(k as int) && k
                    <= hay@.len(),
                None => first_marker(hay@, ps.take(i as int)) is None,
            },
        decreases phrases@.len() - i,
    {
        assert(ps.take(i + 1).drop_last() == ps.take(i as int));
        let w = text::chars_of(phrases[i]);
        assert(w@ == ps[i as int]);
        best = sooner(best, find_marker(hay, w.as_slice()));
        i += 1;
    }
    assert(ps.take(ps.len() as int) == ps);
    best
}

fn find_first_any(hay: &[char], needles: &Vec<&'static str>) -> (r: Option<usize>)
    ensures
        match r {
            Some(i) => first_any(hay@, strs(needles@)) == Some(i as int) && i <= hay@.len(),
            None => first_any(hay@, strs(needles@)) is None,
        },
{
    let ghost ps = strs(needles@);
    let mut best: Option<usize> = None;
    let mut i: usize = 0;
    while i < needles.len()
        invariant
            i <= needles@.len(),
            ps == strs(needles@),
            match best {
                Some(k) => first_any(hay@, ps.take(i as int)) == Some(k as int) && k <= hay@.len(),
                None => first_any(hay@, ps.take(i as int)) is None,
            },
        decreases needles@.len() - i,
    {
        assert(ps.take(i + 1).drop_last() == ps.take(i as int));
        let w = text::chars_of(needles[i]);
        assert(w@ == ps[i as int]);
        best = sooner(best, text::find(hay, w.as_slice(), 0));
        i += 1;
    }
    assert(ps.take(ps.len() as int) == ps);
    best
}

fn undangle(s: &[char]) -> (r: &[char])
    ensures
        r@ == undangled(s@),
{
    let mut n: usize = s.len();
    assert(s@.take(n as int) == s@);
    while n > 0 && (s[n - 1] == ' ' || s[n - 1] == '/' || s[n - 1] == '／' || s[n - 1] == '-'
        || s[n - 1] == '–' || s[n - 1] == '—' || s[n - 1] == '・')
        invariant
            n <= s@.len(),
            undangled(s@) == undangled(s@.take(n as int)),
        decreases n,
    {
        assert(s@.take(n as int).drop_last() == s@.take(n as int - 1));
        n -= 1;
    }
    assert(s@.take(n as int) == s@.subrange(0, n as int));
    &s[0..n]
}

/// The song's name alone, without decoration, cover credits, guests and aliases:
/// what the original of a cover is filed under.
pub fn song_title_only(title: &str) -> (r: String)
    ensures
        r@ == song_name(title@),
{
    let mut phrases = renditions();
    let mut more = guests();
    phrases.append(&mut more);
    assert(strs(phrases@) =~= rendition_credits() + guest_credits());
    if has_cover_marker(title) {
        phrases.push(" by ");
        assert(strs(phrases@) =~= rendition_credits() + guest_credits() + seq![" by "@]);
    }
    let mut keywords = noise();
    let mut cover_list = covers();
    keywords.append(&mut cover_list);
    assert(strs(keywords@) =~= noise_words() + cover_words());
    let cs = text::chars_of(title);
    let tidied = text::collapse(cs.as_slice());
    let kept = strip(tidied.as_slice(), &keywords);
    let out = text::collapse(kept.as_slice());
    let lower = text::string_of(out.as_slice()).as_str().to_lowercase();
    let lower_cs = text::chars_of(lower.as_str());
    let cut = match find_first_marker(lower_cs.as_slice(), &phrases) {
        Some(i) => text::char_at_byte(out.as_slice(), text::bytes_before(lower_cs.as_slice(), i)),
        None => None,
    };
    let named: &[char] = match cut {
        Some(k) => {
            let head = &out.as_slice()[0..k];
            assert(head@ == out@.take(k as int));
            undangle(head)
        },
        None => out.as_slice(),
    };
    assert(named@ == uncredited(out@, credits(title@)));
    let field: &[char] = match find_first_any(named, &separators()) {
        Some(i) => {
            assert(named@.take(i as int) == named@.subrange(0, i as int));
            &named[0..i]
        },
        None => named,
    };
    text::string_of(text::trim(field))
}

/// The first place where one of several texts stands is before all their places.
pub proof fn lemma_first_any(hay: Seq<char>, needles: Seq<Seq<char>>)
    ensures
        match first_any(hay, needles) {
            Some(i) => 0 <= i <= hay.len(),
            None => true,
        },
        forall|k: int, j: int|
            #![trigger text::occurs(hay, needles[k], j)]
            0 <= k < needles.len() && 0 <= j && text::occurs(hay, needles[k], j) ==> (first_any(
                hay,
                needles,
            ) matches Some(i) && i <= j),
    decreases needles.len(),
{
    if needles.len() > 0 {
        let front = needles.drop_last();
        lemma_first_any(hay, front);
        text::lemma_find_from(hay, needles.last(), 0);
        assert forall|k: int, j: int|
            #![trigger text::occurs(hay, needles[k], j)]
            0 <= k < needles.len() && 0 <= j && text::occurs(hay, needles[k], j) implies (first_any(
            hay,
            needles,
        ) matches Some(i) && i <= j) by {
            if k < front.len() {
                assert(text::occurs(hay, front[k], j));
            }
        }
    }
}

proof fn lemma_undangled(s: Seq<char>)
    ensures
        undangled(s).len() <= s.len(),
        undangled(s) == s.take(undangled(s).len() as int),
    decreases s.len(),
{
    if s.len() > 0 && dangles(s.last()) {
        lemma_undangled(s.drop_last());
        let n = undangled(s).len() as int;
        assert(s.drop_last().take(n) =~= s.take(n));
    } else {
        assert(s.take(s.len() as int) =~= s);
    }
}

proof fn lemma_uncredited(s: Seq<char>, phrases: Seq<Seq<char>>)
    ensures
        uncredited(s, phrases).len() <= s.len(),
        uncredited(s, phrases) == s.take(uncredited(s, phrases).len() as int),
{
    assert(s.take(s.len() as int) =~= s);
    match first_marker(lowercase(s), phrases) {
        Some(i) => {
            let b = text::byte_len(lowercase(s).take(i));
            text::lemma_at_byte(s, b);
            match text::at_byte(s, b) {
                Some(k) => {
                    lemma_undangled(s.take(k));
                    let n = undangled(s.take(k)).len() as int;
                    assert(s.take(k).take(n) =~= s.take(n));
                },
                None => {},
            }
        },
        None => {},
    }
}

/// A song's name is the start of the bare title. No white space stands at its ends,
/// and no field separator in it.
pub proof fn a_song_name_is_a_start_of_the_bare_title(title: Seq<char>)
    ensures
        ({
            let bare = bared(title, noise_words() + cover_words());
            &&& song_name(title).len() <= bare.len()
            &&& song_name(title) == bare.take(song_name(title).len() as int)
        }),
        text::trimmed(song_name(title)) == song_name(title),
        forall|k: int, j: int|
            0 <= k < field_separators().len() && 0 <= j ==> !#[trigger] text::occurs(
                song_name(title),
                field_separators()[k],
                j,
            ),
{
    let keywords = noise_words() + cover_words();
    let bare = bared(title, keywords);
    let named = uncredited(bare, credits(title));
    let field = first_field(named);
    let name = song_name(title);
    spacing::lemma_collapsed(stripped(text::collapsed(title), keywords));
    lemma_uncredited(bare, credits(title));
    lemma_first_any(named, field_separators());
    assert(field.len() <= named.len());
    assert(field =~= bare.take(field.len() as int));
    assert(field.len() > 0 ==> field[0] == bare[0]);
    assert(text::trimmed_start(field) == field);
    text::lemma_trimmed_end(field);
    assert(name =~= bare.take(name.len() as int));
    assert(name.len() > 0 ==> name[0] == bare[0]);
    assert(text::trimmed(name) == name);
    assert forall|k: int, j: int|
        0 <= k < field_separators().len() && 0 <= j implies !#[trigger] text::occurs(
        name,
        field_separators()[k],
        j,
    ) by {
        let w = field_separators()[k];
        reveal_strlit(" - ");
        reveal_strlit(" – ");
        reveal_strlit(" — ");
        reveal_strlit(" / ");
        reveal_strlit("／");
        reveal_strlit(" ・ ");
        assert(w.len() > 0);
        if text::occurs(name, w, j) {
            assert(name.subrange(j, j + w.len()) =~= named.subrange(j, j + w.len()));
            assert(text::occurs(named, w, j));
        }
    }
}

// ── artists ──────────────────────────────────────────────────────────────────

/// `s` without `suffix`, where it ends with it.
pub open spec fn without_suffix(s: Seq<char>, suffix: Seq<char>) -> Option<Seq<char>> {
    if suffix.len() <= s.len() && s.skip(s.len() - suffix.len()) == suffix {
        Some(s.take(s.len() - suffix.len()))
    } else {
        None
    }
}

/// An artist without the suffix of automatic channels.
pub open spec fn without_topic(artist: Seq<char>) -> Seq<char> {
    match without_suffix(artist, " - Topic"@) {
        Some(s) => s,
        None => match without_suffix(artist, " - topic"@) {
            Some(s) => s,
            None => artist,
        },
    }
}

/// What separates credited artists.
pub open spec fn lists() -> spec_fn(char) -> bool {
    |c: char| c == ',' || c == ';'
}

/// The first credited artist.
pub open spec fn first_artist(artist: Seq<char>) -> Seq<char> {
    let a = without_topic(artist);
    text::trimmed(
        match seqs::first_where(a, lists(), 0) {
            Some(i) => a.take(i),
            None => a,
        },
    )
}

fn strip_suffix<'a>(s: &'a [char], suffix: &str) -> (r: Option<&'a [char]>)
    ensures
        match r {
            Some(t) => without_suffix(s@, suffix@) == Some(t@),
            None => without_suffix(s@, suffix@) is None,
        },
{
    let w = text::chars_of(suffix);
    if w.len() > s.len() {
        return None;
    }
    let at: usize = s.len() - w.len();
    assert(s@.skip(at as int) =~= s@.subrange(at as int, at + w@.len()));
    if text::occurs_at(s, w.as_slice(), at) {
        assert(s@.take(at as int) == s@.subrange(0, at as int));
        Some(&s[0..at])
    } else {
        None
    }
}

/// The artist to search for: without the `- Topic` of automatic channels, and only
/// the first of those credited.
pub fn primary_artist(artist: &str) -> (r: String)
    ensures
        r@ == first_artist(artist@),
{
    let cs = text::chars_of(artist);
    let a: &[char] = match strip_suffix(cs.as_slice(), " - Topic") {
        Some(s) => s,
        None => match strip_suffix(cs.as_slice(), " - topic") {
            Some(s) => s,
            None => cs.as_slice(),
        },
    };
    assert(a@ == without_topic(artist@));
    let mut i: usize = 0;
    while i < a.len() && a[i] != ',' && a[i] != ';'
        invariant
            i <= a@.len(),
            seqs::first_where(a@, lists(), 0) == seqs::first_where(a@, lists(), i as int),
        decreases a@.len() - i,
    {
        i += 1;
    }
    assert(a@.take(i as int) == a@.subrange(0, i as int));
    assert(a@.take(a@.len() as int) == a@);
    text::string_of(text::trim(&a[0..i]))
}

/// The first artist is one artist: it has no separator in it.
pub proof fn the_first_artist_stands_alone(artist: Seq<char>, i: int)
    requires
        0 <= i < first_artist(artist).len(),
    ensures
        !lists()(first_artist(artist)[i]),
{
    let a = without_topic(artist);
    seqs::lemma_first_where(a, lists(), 0);
    let head = match seqs::first_where(a, lists(), 0) {
        Some(k) => a.take(k),
        None => a,
    };
    assert forall|k: int| 0 <= k < head.len() implies !lists()(#[trigger] head[k]) by {
        assert(head[k] == a[k]);
    }
    text::lemma_trimmed_start_is_suffix(head);
    let t = text::trimmed_start(head);
    lemma_trimmed_end_is_prefix(t);
    assert(text::trimmed_end(t)[i] == t[i]);
    assert(t[i] == head[head.len() - t.len() + i]);
}

proof fn lemma_trimmed_end_is_prefix(s: Seq<char>)
    ensures
        text::trimmed_end(s).len() <= s.len(),
        text::trimmed_end(s) == s.take(text::trimmed_end(s).len() as int),
    decreases s.len(),
{
    if s.len() > 0 && text::white(s.last()) {
        lemma_trimmed_end_is_prefix(s.drop_last());
        let n = text::trimmed_end(s.drop_last()).len() as int;
        assert(s.drop_last().take(n) =~= s.take(n));
    } else {
        assert(s.take(s.len() as int) =~= s);
    }
}

} // verus!
