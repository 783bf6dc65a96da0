//! What can go wrong, and how it is said.

use crate::session::Browser;
use crate::text;
use crate::translate;
use vstd::prelude::*;

verus! {

/// What can go wrong. Errors of the outside are kept as their words.
#[derive(Debug)]
pub enum Error {
    /// The session has ended; the user has to sign in again.
    SessionExpired,
    /// The music service.
    Ytmusicapi(String),
    Io(String),
    Json(String),
    Prompt(String),
    /// The downloader is not installed.
    YtDlpNotInstalled,
    /// No cookie file was written.
    BrowserNotSignedIn { browser: Browser, diagnosis: String },
    /// None of the browser's cookies are for the video service.
    NoCookiesFound { browser: Browser },
    /// The pasted command has no headers.
    CurlEmpty,
    /// The pasted command lacks these headers.
    CurlMissingHeaders(Vec<String>),
    Mpv(String),
    Lyrics(String),
    Other(String),
}

/// How the music service refused.
#[derive(Debug)]
pub enum ServiceFault {
    /// It wants a session.
    AuthRequired,
    Server { status: u16, message: String },
    Other(String),
}

/// Whether a refusal means that the session has ended.
pub open spec fn session_ended(f: ServiceFault) -> bool {
    match f {
        ServiceFault::AuthRequired => true,
        ServiceFault::Server { status, message } => status == 401,
        ServiceFault::Other(_) => false,
    }
}

/// What a refusal of the playlists comes to: only an ended session is told apart.
pub fn playlists_error(f: ServiceFault) -> (r: Error)
    ensures
        (r is SessionExpired) == session_ended(f),
        match f {
            ServiceFault::Server { status, message } => status != 401 ==> r == Error::Ytmusicapi(
                message,
            ),
            ServiceFault::Other(message) => r == Error::Ytmusicapi(message),
            ServiceFault::AuthRequired => true,
        },
{
    match f {
        ServiceFault::AuthRequired => Error::SessionExpired,
        ServiceFault::Server { status, message } => if status == 401 {
            Error::SessionExpired
        } else {
            Error::Ytmusicapi(message)
        },
        ServiceFault::Other(message) => Error::Ytmusicapi(message),
    }
}

/// Quoted names, separated by commas.
pub open spec fn quoted_list(names: Seq<Seq<char>>) -> Seq<char>
    decreases names.len(),
{
    if names.len() == 0 {
        Seq::empty()
    } else if names.len() == 1 {
        translate::quoted(names[0])
    } else {
        quoted_list(names.drop_last()) + ", "@ + translate::quoted(names.last())
    }
}

/// An error in words. `install` says how the downloader is installed.
pub open spec fn in_words(e: Error, install: Seq<char>) -> Seq<char> {
    match e {
        Error::SessionExpired => "YouTube Music session expired — re-authenticate"@,
        Error::Ytmusicapi(s) => s@,
        Error::Io(s) => s@,
        Error::Json(s) => s@,
        Error::Prompt(s) => s@,
        Error::YtDlpNotInstalled => "yt-dlp not found — install it with: "@ + install,
        Error::BrowserNotSignedIn { browser, diagnosis } =>
        "yt-dlp wrote no cookie file — make sure you're signed in to YouTube Music in "@
            + crate::session::label_of(browser) + diagnosis@,
        Error::NoCookiesFound { browser } => "no youtube.com cookies found in "@
            + crate::session::label_of(browser) + " — are you signed in to YouTube Music?"@,
        Error::CurlEmpty =>
        "no headers found — make sure the input is a 'Copy as cURL (bash)' export"@,
        Error::CurlMissingHeaders(names) => "required headers missing: ["@ + quoted_list(
            text::texts(names@),
        ) + "] — copy a request from music.youtube.com while logged in"@,
        Error::Mpv(s) => "libmpv init failed: "@ + s@,
        Error::Lyrics(s) => "lyrics lookup failed: "@ + s@,
        Error::Other(s) => s@,
    }
}

fn quote_all(names: &Vec<String>) -> (r: String)
    ensures
        r@ == quoted_list(text::texts(names@)),
{
    let ghost all = text::texts(names@);
    let mut out = String::new();
    let mut i: usize = 0;
    assert(all.take(0) =~= Seq::empty());
    while i < names.len()
        invariant
            i <= names@.len(),
            all == text::texts(names@),
            out@ == quoted_list(all.take(i as int)),
        decreases names@.len() - i,
    {
        assert(all.take(i + 1).drop_last() =~= all.take(i as int));
        assert(all.take(i + 1).last() == names@[i as int]@);
        if i > 0 {
            out.append(", ");
        }
        out.append(translate::quote(names[i].as_str()).as_str());
        assert(out@ =~= quoted_list(all.take(i + 1)));
        i += 1;
    }
    assert(all.take(i as int) =~= all);
    out
}

impl Error {
    /// The error in words. `install` says how the downloader is installed.
    pub fn message(&self, install: &str) -> (r: String)
        ensures
            r@ == in_words(*self, install@),
    {
        let mut out = String::new();
        match self {
            Error::SessionExpired => out.append("YouTube Music session expired — re-authenticate"),
            Error::Ytmusicapi(s) => out.append(s.as_str()),
            Error::Io(s) => out.append(s.as_str()),
            Error::Json(s) => out.append(s.as_str()),
            Error::Prompt(s) => out.append(s.as_str()),
            Error::YtDlpNotInstalled => {
                out.append("yt-dlp not found — install it with: ");
                out.append(install);
            },
            Error::BrowserNotSignedIn { browser, diagnosis } => {
                out.append(
                    "yt-dlp wrote no cookie file — make sure you're signed in to YouTube Music in ",
                );
                out.append((*browser).label());
                out.append(diagnosis.as_str());
            },
            Error::NoCookiesFound { browser } => {
                out.append("no youtube.com cookies found in ");
                out.append((*browser).label());
                out.append(" — are you signed in to YouTube Music?");
            },
            Error::CurlEmpty => out.append(
                "no headers found — make sure the input is a 'Copy as cURL (bash)' export",
            ),
            Error::CurlMissingHeaders(names) => {
                out.append("required headers missing: [");
                out.append(quote_all(names).as_str());
                out.append("] — copy a request from music.youtube.com while logged in");
            },
            Error::Mpv(s) => {
                out.append("libmpv init failed: ");
                out.append(s.as_str());
            },
            Error::Lyrics(s) => {
                out.append("lyrics lookup failed: ");
                out.append(s.as_str());
            },
            Error::Other(s) => out.append(s.as_str()),
        }
        assert(out@ =~= in_words(*self, install@));
        out
    }
}

} // verus!
