//! The verified core of a YouTube Music terminal player.

pub mod assoc;
pub mod cells;
pub mod config;
pub mod cover;
pub mod deck;
pub mod double;
pub mod error;
pub mod filter;
pub mod json;
pub mod jukebox;
pub mod jukebox_screen;
pub mod kitty;
pub mod laws;
pub mod library;
pub mod lrc;
pub mod lyric_panel;
pub mod lyrics;
pub mod media;
pub mod panel;
pub mod persistence;
pub mod playback;
pub mod player;
pub mod screen;
pub mod search;
pub mod seqs;
pub mod session;
pub mod spacing;
pub mod text;
pub mod title;
pub mod translate;
pub mod ui;
