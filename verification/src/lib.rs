//! Verified core of the Stella desktop host.
//!
//! - `text`: UTF-8 lengths, character boundaries and grapheme clusters.
//! - `editor`: the single-line text editor behind the account fields.
//! - `account`: the account form state machine (sign-in, registration,
//!   password reset), with `validation` timers and `registration` pickers.
//! - `layout`: registration picker rows and link targets.
//! - `strings`: `.lproj` string tables and the language plan that picks one.
//! - `platform`: close requests, display-link timing, the touch vector and
//!   platform-action documents.
//! - `rating`: input state of the app-rating alert.
//! - `label`: system-font label hashing, anchors and the FIFO label pool.
//! - `raster`: decoding the system font's embedded glyph bitmaps.
//! - `capture`: framebuffer capture targets and their generations.
//! - `clip`: PCM clip readers and an instance's read of one block.
//! - `mixer` and `playback`: the integer PCM mixer and its instance lifecycle.
//! - `output`: which mixed block each output sample comes from, and when
//!   the worker mixes more.
pub mod account;
pub mod capture;
pub mod clip;
pub mod editor;
pub mod label;
pub mod layout;
pub mod mixer;
pub mod output;
pub mod platform;
pub mod playback;
pub mod rating;
pub mod raster;
pub mod strings;
pub mod text;
