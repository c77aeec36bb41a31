//! Game logic for a small tile platformer with a scripted intro.
//!
//! Two parts carry the weight. The cue sequencer compiles a flat script of
//! timed cues into curve tracks and samples them as playback advances; the
//! physics solver moves one actor's box in fixed ticks and pushes it off the
//! tiles it runs into, by rules that depend on each tile's shape.
//!
//! All quantities are integers in fixed-point units that the caller chooses:
//! time, lengths, angles and volumes alike. Fractions of the way between two
//! keyframes are exact ratios, and the comparison of a push along an axis
//! with one along a diagonal is made on squares, so no result depends on
//! rounding other than where a contract says so. Nothing here touches
//! rendering, audio or input devices.

pub mod track;
pub mod cue;
pub mod sequencer;
pub mod geometry;
pub mod collide;
pub mod solver;
pub mod tilemap;
pub mod sprite;
pub mod camera;
pub mod actor;
