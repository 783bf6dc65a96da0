//! What may be relied on: how results relate to what went in, and to each other.

pub mod audio;
pub mod drawing;
pub mod images;
pub mod jukebox;
pub mod keeping;
pub mod keys;
pub mod lookup;
pub mod queue;
pub mod shown;
pub mod timing;
pub mod translation;
pub mod words;
