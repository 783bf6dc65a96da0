//! The settings that a user edits by hand.
//!
//! Everything has a working default, and a value that cannot be used is replaced by one
//! that can. Times are nanoseconds.

use vstd::prelude::*;

use crate::lrc;
use crate::seqs;
use crate::session;
use crate::text;
use crate::translate::Ai;

verus! {

/// The furthest that lyrics may be shifted: thirty seconds.
pub const MAX_LYRICS_OFFSET: i64 = 30_000_000_000;

/// What a first run writes. Every setting stands in it, commented out at its default.
pub const TEMPLATE: &'static str = "# yt-music-tui configuration

[lyrics]
# Shift every lyric line, in seconds, against the timings the lrclib record
# carries. Negative switches lines *early*, positive switches them *late*.
# Applies to every song. Fractions are the useful range — try -0.3 if lines
# consistently arrive a moment after they are sung.
#offset = 0.0
# Show a translation under each lyric, in this language: \"zh\", \"fr\", \"en\".
# Press `i` in the lyrics panel to turn it on and off. Empty means the key
# does nothing, which is the default — translation is never fetched unasked.
#translate-to = \"\"
# Translate with a model instead of the free endpoint. The whole song goes in
# one request, so a sentence spanning several lyric lines is read as a sentence
# — the free endpoint splits on newlines and cannot. Costs roughly a cent per
# song, charged to your own API key. false (the default) is the free translator,
# which costs nothing and sends nothing to any API.
#ai-translation = false
# Which model, when the above is on. Without one the free translator is used.
#ai-model = \"\"
# Environment variable holding the Anthropic API key. The key itself is never
# read from this file, so config.toml stays safe to copy around.
#ai-key-env = \"ANTHROPIC_API_KEY\"

[auth]
# Renew an expired session by re-running yt-dlp against the browser below,
# instead of asking which method to use. Set false to always be asked.
#auto-reauth = true
# The browser yt-dlp reads cookies from. Filled in for you the first time you
# set up with one; edit it if you switch browsers.
#cookie-browser = \"firefox\"
";

/// The one line that a bare file holds; such a file may be replaced.
pub const LEGACY_STUB: &'static str = "# yt-music-tui configuration\n";

/// A number of seconds as a user wrote it.
#[derive(Clone, Copy, Debug)]
pub enum Shift {
    Nanos(i64),
    /// Infinite, or no number.
    NotFinite,
}

/// All settings.
#[derive(Debug)]
pub struct Config {
    pub lyrics: Lyrics,
    pub auth: Auth,
}

/// How sessions are renewed.
#[derive(Debug)]
pub struct Auth {
    /// Renew without asking, once a browser is known.
    pub auto_reauth: bool,
    /// The browser to read cookies from, in lower case; empty where none is known.
    pub cookie_browser: String,
}

/// How lyrics are shown.
#[derive(Debug)]
pub struct Lyrics {
    /// How far to shift every line. Negative is early, positive late.
    pub offset: Shift,
    /// The language to translate into; empty where translation is off.
    pub translate_to: String,
    /// Translate with a model instead of the free service.
    pub ai_translation: bool,
    pub ai_model: String,
    /// The environment variable that holds the key.
    pub ai_key_env: String,
}

/// What translates.
#[derive(Debug)]
pub struct Backend {
    pub to: String,
    /// The model, or none for the free service.
    pub ai: Option<Ai>,
}

impl Default for Auth {
    fn default() -> (r: Self)
        ensures
            r.auto_reauth,
            r.cookie_browser@.len() == 0,
    {
        Auth { auto_reauth: true, cookie_browser: String::new() }
    }
}

impl Default for Lyrics {
    fn default() -> (r: Self)
        ensures
            r.offset == Shift::Nanos(0),
            r.translate_to@.len() == 0,
            !r.ai_translation,
            r.ai_model@.len() == 0,
            r.ai_key_env@ == "ANTHROPIC_API_KEY"@,
    {
        Lyrics {
            offset: Shift::Nanos(0),
            translate_to: String::new(),
            ai_translation: false,
            ai_model: String::new(),
            ai_key_env: "ANTHROPIC_API_KEY".to_owned(),
        }
    }
}

impl Default for Config {
    fn default() -> (r: Self)
        ensures
            r.lyrics.offset == Shift::Nanos(0),
            r.lyrics.translate_to@.len() == 0,
            !r.lyrics.ai_translation,
            r.lyrics.ai_model@.len() == 0,
            r.lyrics.ai_key_env@ == "ANTHROPIC_API_KEY"@,
            r.auth.auto_reauth,
            r.auth.cookie_browser@.len() == 0,
    {
        Config { lyrics: Lyrics::default(), auth: Auth::default() }
    }
}

/// A usable shift: none for what is no number, else at most thirty seconds either way.
pub open spec fn usable_shift(s: Shift) -> int {
    match s {
        Shift::Nanos(n) => if n > MAX_LYRICS_OFFSET {
            MAX_LYRICS_OFFSET as int
        } else if n < -MAX_LYRICS_OFFSET {
            -MAX_LYRICS_OFFSET
        } else {
            n as int
        },
        Shift::NotFinite => 0,
    }
}

/// A shift in nanoseconds, none where it is no number.
pub open spec fn shift_nanos(s: Shift) -> int {
    match s {
        Shift::Nanos(n) => n as int,
        Shift::NotFinite => 0,
    }
}

fn trimmed(s: &str) -> (r: String)
    ensures
        r@ == text::trimmed(s@),
{
    let cs = text::chars_of(s);
    text::string_of(text::trim(cs.as_slice()))
}

/// The time in the lyrics when so much of a track has passed: a positive shift holds lines
/// back.
pub open spec fn moment(s: Shift, elapsed: int) -> int {
    lrc::clamped(elapsed - shift_nanos(s))
}

/// A key that was found, where it says something.
pub open spec fn usable_key(value: Option<Seq<char>>) -> Option<Seq<char>> {
    match value {
        Some(k) if text::trimmed(k).len() > 0 => Some(k),
        _ => None,
    }
}

/// Whether settings translate with a model: asked for, a model is named and a key found.
pub open spec fn uses_model(l: Lyrics, key: Option<Seq<char>>) -> bool {
    l.ai_translation && l.ai_model@.len() > 0 && key is Some
}

impl Lyrics {
    /// The environment variable to look the key up in, where one is named.
    #[must_use]
    pub fn key_variable(&self) -> (r: Option<String>)
        ensures
            text::opt(r) == if text::trimmed(self.ai_key_env@).len() > 0 {
                Some(text::trimmed(self.ai_key_env@))
            } else {
                None
            },
    {
        let name = trimmed(self.ai_key_env.as_str());
        if name.as_str().is_empty() {
            None
        } else {
            Some(name)
        }
    }

    /// The key, from what the variable holds. `None` where it is unset or blank.
    #[must_use]
    pub fn ai_key(&self, value: Option<String>) -> (r: Option<String>)
        ensures
            text::opt(r) == if text::trimmed(self.ai_key_env@).len() > 0 {
                usable_key(text::opt(value))
            } else {
                None
            },
    {
        if self.key_variable().is_none() {
            return None;
        }
        match value {
            Some(k) => {
                let t = trimmed(k.as_str());
                if t.as_str().is_empty() {
                    None
                } else {
                    Some(k)
                }
            },
            None => None,
        }
    }

    /// What translates with these settings and this key. A partial setup is the free
    /// service, not a failure on every song.
    #[must_use]
    pub fn backend(&self, key: Option<String>) -> (r: Backend)
        ensures
            r.to@ == self.translate_to@,
            match r.ai {
                Some(ai) => uses_model(*self, text::opt(key)) && ai.model@ == self.ai_model@
                    && ai.api_key@ == text::opt(key)->0,
                None => !uses_model(*self, text::opt(key)),
            },
    {
        let ai = match key {
            Some(api_key) => if self.ai_translation && !self.ai_model.as_str().is_empty() {
                Some(Ai { model: self.ai_model.clone(), api_key })
            } else {
                None
            },
            None => None,
        };
        Backend { to: self.translate_to.clone(), ai }
    }

    /// The position to look lyrics up at. A negative offset runs ahead of playback, so
    /// lines come early; a positive one holds them back.
    pub fn lyric_time(&self, elapsed: i64) -> (r: i64)
        ensures
            r == moment(self.offset, elapsed as int),
    {
        let offset: i64 = match self.offset {
            Shift::Nanos(n) => n,
            Shift::NotFinite => 0,
        };
        let t: i128 = elapsed as i128 - offset as i128;
        if t > 0x7fff_ffff_ffff_ffff {
            0x7fff_ffff_ffff_ffff
        } else if t < -0x8000_0000_0000_0000 {
            -0x8000_0000_0000_0000
        } else {
            t as i64
        }
    }
}

impl Config {
    /// The defaults, with the model that is used where a user names none. With one the flag
    /// alone turns the model on.
    pub fn with_model(model: &str) -> (r: Self)
        ensures
            r.lyrics.offset == Shift::Nanos(0),
            r.lyrics.translate_to@.len() == 0,
            !r.lyrics.ai_translation,
            r.lyrics.ai_model@ == model@,
            r.lyrics.ai_key_env@ == "ANTHROPIC_API_KEY"@,
            r.auth.auto_reauth,
            r.auth.cookie_browser@.len() == 0,
    {
        Config {
            lyrics: Lyrics { ai_model: model.to_owned(), ..Lyrics::default() },
            auth: Auth::default(),
        }
    }

    /// The language that is asked for, without white space around it.
    pub fn wanted_language(&self) -> (r: String)
        ensures
            r@ == text::trimmed(self.lyrics.translate_to@),
    {
        trimmed(self.lyrics.translate_to.as_str())
    }

    /// Replaces values that cannot be used. `known` are the codes of the languages that can
    /// be translated into, and `has_key` says whether a key for the model was found.
    pub fn validated(self, known: &[String], has_key: bool) -> (r: Self)
        ensures
            r.lyrics.offset == Shift::Nanos(usable_shift(self.lyrics.offset) as i64),
            -MAX_LYRICS_OFFSET <= shift_nanos(r.lyrics.offset) <= MAX_LYRICS_OFFSET,
            r.lyrics.translate_to@ == match known_spelling(
                text::texts(known@),
                text::trimmed(self.lyrics.translate_to@),
            ) {
                Some(code) => code,
                None => Seq::empty(),
            },
            r.lyrics.ai_model@ == text::trimmed(self.lyrics.ai_model@),
            r.lyrics.ai_translation == (self.lyrics.ai_translation && text::trimmed(
                self.lyrics.ai_model@,
            ).len() > 0 && has_key),
            r.lyrics.ai_key_env == self.lyrics.ai_key_env,
            r.auth == self.auth,
    {
        let offset: i64 = match self.lyrics.offset {
            Shift::Nanos(n) => if n > MAX_LYRICS_OFFSET {
                MAX_LYRICS_OFFSET
            } else if n < -MAX_LYRICS_OFFSET {
                -MAX_LYRICS_OFFSET
            } else {
                n
            },
            Shift::NotFinite => 0,
        };
        let wish = self.wanted_language();
        let translate_to = match find_language(known, wish.as_str()) {
            Some(code) => code,
            None => String::new(),
        };
        let ai_model = trimmed(self.lyrics.ai_model.as_str());
        let ai_translation = self.lyrics.ai_translation && !ai_model.as_str().is_empty() && has_key;
        assert(translate_to@ =~= match known_spelling(text::texts(known@), wish@) {
            Some(code) => code,
            None => Seq::empty(),
        });
        Config {
            lyrics: Lyrics {
                offset: Shift::Nanos(offset),
                translate_to,
                ai_translation,
                ai_model,
                ai_key_env: self.lyrics.ai_key_env,
            },
            auth: self.auth,
        }
    }
}

/// Validating settings twice is validating them once: what comes out is in range.
pub proof fn a_usable_shift_stays(s: Shift)
    ensures
        usable_shift(Shift::Nanos(usable_shift(s) as i64)) == usable_shift(s),
{
}

// ── languages ────────────────────────────────────────────────────────────────

/// Being a spelling of `want`, whatever the case of its letters.
pub open spec fn spells(want: Seq<char>) -> spec_fn(Seq<char>) -> bool {
    |code: Seq<char>| session::same_but_case(code, want)
}

/// The spelling of a wanted language: the first known code that is the same but for case.
/// `None` where no language of that code is known.
pub open spec fn known_spelling(known: Seq<Seq<char>>, want: Seq<char>) -> Option<Seq<char>> {
    match seqs::first_where(known, spells(want), 0) {
        Some(i) => Some(known[i]),
        None => None,
    }
}

fn find_language(known: &[String], want: &str) -> (r: Option<String>)
    ensures
        text::opt(r) == known_spelling(text::texts(known@), want@),
{
    let ghost codes = text::texts(known@);
    let mut i: usize = 0;
    while i < known.len()
        invariant
            codes == text::texts(known@),
            seqs::first_where(codes, spells(want@), 0) == seqs::first_where(
                codes,
                spells(want@),
                i as int,
            ),
        decreases known@.len() - i,
    {
        assert(codes[i as int] == known@[i as int]@);
        if session::equal_but_case(known[i].as_str(), want) {
            assert(spells(want@)(codes[i as int]));
            return Some(known[i].as_str().to_owned());
        }
        assert(!spells(want@)(codes[i as int]));
        i += 1;
    }
    None
}

/// A known spelling is its own spelling, so settings that were validated stay.
pub proof fn a_known_spelling_stays(known: Seq<Seq<char>>, want: Seq<char>)
    ensures
        known_spelling(known, want) matches Some(code) ==> known_spelling(known, code) == Some(
            code,
        ),
{
    seqs::lemma_first_where(known, spells(want), 0);
    match seqs::first_where(known, spells(want), 0) {
        Some(i) => {
            let code = known[i];
            assert(spells(want)(code));
            seqs::lemma_first_where(known, spells(code), 0);
            assert(spells(code)(known[i]));
            let j = seqs::first_where(known, spells(code), 0)->0;
            assert(spells(code)(known[j]));
            if j < i {
                let k = known[j];
                assert(session::same_but_case(k, want)) by {
                    assert forall|n: int| 0 <= n < k.len() implies text::ascii_lower(#[trigger] k[n])
                        == text::ascii_lower(want[n]) by {
                        assert(text::ascii_lower(code[n]) == text::ascii_lower(want[n]));
                    }
                }
                assert(spells(want)(known[j]));
            }
        },
        None => {},
    }
}

// ── recording the browser ────────────────────────────────────────────────────

/// What `toml_edit` has against a text, where it is no TOML.
pub uninterp spec fn toml_fault(raw: Seq<char>) -> Option<Seq<char>>;

/// Parsing into a `DocumentMut` of the crate `toml_edit`: the message of the error, `None`
/// where the text is TOML. It depends on the text alone.
#[verifier::external_body]
fn toml_fault_in(raw: &str) -> (r: Option<String>)
    ensures
        text::opt(r) == toml_fault(raw@),
{
    raw.parse::<toml_edit::DocumentMut>().err().map(|e| e.to_string())
}

/// The string under a key of a table of a TOML text.
pub uninterp spec fn toml_text(raw: Seq<char>, table: Seq<char>, key: Seq<char>) -> Option<
    Seq<char>,
>;

/// `DocumentMut::get`, `Item::get` and `Item::as_str` of the crate `toml_edit`: the string
/// under the key. `None` where the text is no TOML, nothing stands there, or it is no
/// string. It depends on the three texts alone.
#[verifier::external_body]
fn toml_text_at(raw: &str, table: &str, key: &str) -> (r: Option<String>)
    ensures
        text::opt(r) == toml_text(raw@, table@, key@),
{
    let doc = raw.parse::<toml_edit::DocumentMut>().ok()?;
    doc.get(table)?.get(key)?.as_str().map(str::to_string)
}

/// Whether a TOML text has a table of this name.
pub uninterp spec fn toml_has_table(raw: Seq<char>, table: Seq<char>) -> bool;

/// `DocumentMut::get` and `Item::is_table` of the crate `toml_edit`. They depend on the two
/// texts alone, and a text that is no TOML has no table.
#[verifier::external_body]
fn toml_has_table_in(raw: &str, table: &str) -> (r: bool)
    ensures
        r == toml_has_table(raw@, table@),
{
    raw.parse::<toml_edit::DocumentMut>().is_ok_and(|d| d.get(table).is_some_and(|t| t.is_table()))
}

/// A TOML text with a string put under a key of one of its tables.
pub uninterp spec fn toml_with(
    raw: Seq<char>,
    table: Seq<char>,
    key: Seq<char>,
    value: Seq<char>,
) -> Seq<char>;

/// An assignment of `toml_edit::value` through `IndexMut` of a `DocumentMut`, then its
/// `to_string`. The table must be there. The result depends on the four texts alone, and
/// where it parses, the string is read back from it.
#[verifier::external_body]
fn toml_put(raw: &str, table: &str, key: &str, value: &str) -> (r: String)
    requires
        toml_fault(raw@) is None,
        toml_has_table(raw@, table@),
    ensures
        r@ == toml_with(raw@, table@, key@, value@),
        toml_fault(r@) is None ==> toml_text(r@, table@, key@) == Some(value@),
{
    let mut doc = raw.parse::<toml_edit::DocumentMut>().unwrap_or_default();
    doc[table][key] = toml_edit::value(value);
    doc.to_string()
}

/// A TOML text with a new table that has a string under a key.
pub uninterp spec fn toml_with_table(
    raw: Seq<char>,
    table: Seq<char>,
    key: Seq<char>,
    value: Seq<char>,
) -> Seq<char>;

/// An assignment of a new `toml_edit::Table` through `IndexMut` of a `DocumentMut`, then one
/// of `toml_edit::value` into it, then `to_string`. The result depends on the four texts
/// alone, and where it parses, the string is read back from it.
#[verifier::external_body]
fn toml_put_table(raw: &str, table: &str, key: &str, value: &str) -> (r: String)
    requires
        toml_fault(raw@) is None,
    ensures
        r@ == toml_with_table(raw@, table@, key@, value@),
        toml_fault(r@) is None ==> toml_text(r@, table@, key@) == Some(value@),
{
    let mut doc = raw.parse::<toml_edit::DocumentMut>().unwrap_or_default();
    doc[table] = toml_edit::Item::Table(toml_edit::Table::new());
    doc[table][key] = toml_edit::value(value);
    doc.to_string()
}

/// What the settings file becomes when the browser is recorded: an error where it is no
/// TOML, nothing where it says so already. The rest of the file stays, and a section that
/// is missing is made.
pub open spec fn recorded(raw: Seq<char>, browser: Seq<char>) -> Result<
    Option<Seq<char>>,
    Seq<char>,
> {
    match toml_fault(raw) {
        Some(e) => Err(e),
        None => if toml_text(raw, "auth"@, "cookie-browser"@) == Some(browser) {
            Ok(None)
        } else if toml_has_table(raw, "auth"@) {
            Ok(Some(toml_with(raw, "auth"@, "cookie-browser"@, browser)))
        } else {
            Ok(Some(toml_with_table(raw, "auth"@, "cookie-browser"@, browser)))
        },
    }
}

/// Records the browser that cookies were read from in the text of the settings file.
pub fn record_browser(raw: &str, browser: &str) -> (r: Result<Option<String>, String>)
    ensures
        match r {
            Ok(t) => recorded(raw@, browser@) == Ok::<Option<Seq<char>>, Seq<char>>(text::opt(t)),
            Err(e) => recorded(raw@, browser@) == Err::<Option<Seq<char>>, Seq<char>>(e@),
        },
        r matches Ok(Some(t)) ==> (toml_fault(t@) is None ==> toml_text(
            t@,
            "auth"@,
            "cookie-browser"@,
        ) == Some(browser@)),
{
    match toml_fault_in(raw) {
        Some(e) => {
            return Err(e);
        },
        None => {},
    }
    match toml_text_at(raw, "auth", "cookie-browser") {
        Some(b) => {
            if text::same_str(b.as_str(), browser) {
                return Ok(None);
            }
        },
        None => {},
    }
    if toml_has_table_in(raw, "auth") {
        Ok(Some(toml_put(raw, "auth", "cookie-browser", browser)))
    } else {
        Ok(Some(toml_put_table(raw, "auth", "cookie-browser", browser)))
    }
}

/// A browser that is recorded is not recorded again: the file stays as it is.
pub proof fn a_recorded_browser_stays(raw: Seq<char>, browser: Seq<char>)
    ensures
        toml_fault(raw) is None && toml_text(raw, "auth"@, "cookie-browser"@) == Some(browser)
            ==> recorded(raw, browser) == Ok::<Option<Seq<char>>, Seq<char>>(None),
{
}

} // verus!
