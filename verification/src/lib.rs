//! Core engine of a floating, always-on-top application dock: the ordered
//! collection of pinned launch targets, key-based two-column layout
//! reconciliation, drag-to-reorder gesture detection, drop-animation
//! commits, and the frameless-window geometry controller.
//!
//! All values the engine reasons about are plain: paths and argument
//! strings as byte strings, pixel coordinates as integers, times as
//! milliseconds. Platform concerns (rendering, shell calls, persistence
//! I/O) live outside this crate and hand plain values in and out.

pub mod anim;
pub mod events;
pub mod geometry;
pub mod icons;
pub mod keys;
pub mod layout;
pub mod migrate;
pub mod pins;
pub mod reorder;
