//! What the desktop's media controls are told.

use crate::player::PlayMode;
use crate::text;
use vstd::prelude::*;

verus! {

/// What the media controls ask for. Times are nanoseconds.
#[derive(Clone, Copy, Debug, PartialEq, Eq)]
pub enum MediaCmd {
    Play,
    Pause,
    PlayPause,
    Stop,
    Next,
    Previous,
    /// Move by so much.
    Seek(i64),
    /// Move to this position.
    SeekTo(i64),
    Volume(u8),
    Mode(PlayMode),
    Quit,
}

/// Whether something plays.
#[derive(Clone, Copy, Debug, PartialEq, Eq, Structural)]
pub enum PlayState {
    Stopped,
    Playing,
    Paused,
}

/// The track that plays.
#[derive(Debug)]
pub struct TrackInfo {
    pub id: String,
    pub title: String,
    pub artists: Vec<String>,
    pub album: String,
    pub length: i64,
    pub art_url: String,
}

/// What plays, and what can be done with it.
#[derive(Debug)]
pub struct NowPlaying {
    pub state: PlayState,
    pub track: Option<TrackInfo>,
    pub mode: PlayMode,
    pub volume: u8,
    pub can_go_next: bool,
    pub can_go_previous: bool,
    pub can_play: bool,
    pub can_seek: bool,
    pub position: i64,
}

impl Default for PlayState {
    fn default() -> (r: Self)
        ensures
            r == PlayState::Stopped,
    {
        PlayState::Stopped
    }
}

impl Default for TrackInfo {
    fn default() -> (r: Self)
        ensures
            r.id@.len() == 0,
            r.title@.len() == 0,
            r.artists@.len() == 0,
            r.album@.len() == 0,
            r.length == 0,
            r.art_url@.len() == 0,
    {
        TrackInfo {
            id: String::new(),
            title: String::new(),
            artists: Vec::new(),
            album: String::new(),
            length: 0,
            art_url: String::new(),
        }
    }
}

impl Default for NowPlaying {
    fn default() -> (r: Self)
        ensures
            r == (NowPlaying {
                state: PlayState::Stopped,
                track: None,
                mode: PlayMode::Cycle,
                volume: 0,
                can_go_next: false,
                can_go_previous: false,
                can_play: false,
                can_seek: false,
                position: 0,
            }),
    {
        NowPlaying {
            state: PlayState::Stopped,
            track: None,
            mode: PlayMode::Cycle,
            volume: 0,
            can_go_next: false,
            can_go_previous: false,
            can_play: false,
            can_seek: false,
            position: 0,
        }
    }
}

/// How far a position may be from the last one before it counts as a seek: a second.
pub const SEEK_JUMP: i64 = 1_000_000_000;

/// The track's id.
pub open spec fn track_id(now: NowPlaying) -> Option<Seq<char>> {
    match now.track {
        Some(t) => Some(t.id@),
        None => None,
    }
}

/// How far apart two positions are.
pub open spec fn apart(a: int, b: int) -> int {
    if a < b {
        b - a
    } else {
        a - b
    }
}

/// Whether a position is a jump within the same track, while something plays or is
/// paused.
pub open spec fn jumped(now: NowPlaying, previous: Option<Seq<char>>, position: int) -> bool {
    &&& track_id(now) == previous
    &&& now.state != PlayState::Stopped
    &&& apart(now.position as int, position) > SEEK_JUMP
}

/// Whether the position jumped within the same track.
pub fn is_seek(now: &NowPlaying, previous_track: Option<&str>, previous_position: i64) -> (r: bool)
    ensures
        r == jumped(
            *now,
            match previous_track {
                Some(s) => Some(s@),
                None => None,
            },
            previous_position as int,
        ),
{
    let same = match (&now.track, previous_track) {
        (Some(t), Some(id)) => text::same_str(t.id.as_str(), id),
        (None, None) => true,
        _ => false,
    };
    let distance: i128 = now.position as i128 - previous_position as i128;
    same && now.state != PlayState::Stopped && (distance > SEEK_JUMP as i128 || -distance
        > SEEK_JUMP as i128)
}

/// Another track never reads as a seek, however far its position is.
pub proof fn another_track_is_no_seek(now: NowPlaying, previous: Option<Seq<char>>, position: int)
    requires
        track_id(now) != previous,
    ensures
        !jumped(now, previous, position),
{
}

} // verus!
