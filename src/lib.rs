//! Timeline reconciliation for spoken-word video editing: silence intervals
//! become keep ranges, original timestamps map onto the edited timeline, and
//! revised transcript text is spread back over the original segment spans.
//!
//! All times are whole microseconds.
pub mod interval;
pub mod keep;
pub mod reconcile;
pub mod text;
pub mod transcript;
pub mod ffmpeg;
pub mod command;
pub mod pipeline;
pub mod recognize;
