//! Core engine of a batch video-transcoding tool.
//!
//! The crate covers the pure, verifiable heart of the system: the
//! encoder-output progress parser, the in-memory job store with its
//! submission-ordered queue, the dispatch policy of the scheduler, and the
//! computations of the conversion runner (argument construction, progress
//! percentages, diagnostic retention). Process spawning, the event loop and
//! persistence live outside and talk to this crate through plain values.

pub mod ffmpeg;
pub mod ffmpeg_parser;
pub mod ffmpeg_version;
pub mod runner;
pub mod scheduler;
pub mod state;
pub mod text;
pub mod trusted;
