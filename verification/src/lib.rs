//! The logic of a music player: tracks and their filtering, the playlist and
//! its navigation, genre filters and statistics, playback control decisions,
//! and what is saved between runs.
pub mod browser;
pub mod control;
pub mod genres;
pub mod laws;
pub mod playlist;
pub mod state;
pub mod text;
pub mod track;
