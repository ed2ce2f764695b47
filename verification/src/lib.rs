//! A verified star-rating engine for rhythm-game maps.
//!
//! The engine rates the intrinsic difficulty of a map — an ordered sequence
//! of timed hit objects — by decomposing it into an aim (spatial) and a speed
//! (temporal) skill component, each accumulated through a strain-decay model,
//! and combining the two into a single star value.
//!
//! All quantities are fixed-point integers scaled by [`fx::FP`]; every
//! computation is specified exactly by a spec-level mirror, so equal inputs
//! provably give equal attributes.

pub mod fx;
pub mod geom;
pub mod curve;
pub mod map;
pub mod attributes;
pub mod object;
pub mod transition;
pub mod skill;
pub mod stars;

pub use attributes::{OsuDifficultyAttributes, OsuPerformanceAttributes};
pub use stars::{stars, ModAttributes, VersionConfig};
