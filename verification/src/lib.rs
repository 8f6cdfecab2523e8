//! Verified core of a karaoke library: UltraStar song-file parsing,
//! recording file naming, media-server request handling, analysis queue
//! bookkeeping, lyric sidecar selection and vendor setup planning.

pub mod text;
pub mod usdx;
pub mod recording;
pub mod config;
pub mod media_server;
pub mod analyzer;
pub mod analysis_job;
pub mod vendor;
pub mod lyrics;
pub mod song;
pub mod scanner;
pub mod player_analyzer;
pub mod startup;
