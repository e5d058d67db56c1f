//! Visual detection pipeline for a game client: turns captured pixel
//! buffers into geometric and semantic facts (player, mobs, portals,
//! rune arrows, minimap boundary, health values, active buffs).
//!
//! The library holds the verified logic of the pipeline: geometry,
//! template-match suppression over correlation score maps, decoding of
//! neural bounding-box output, the minimap locator, the text-region
//! extractor, the coordinate transform and the calibration state.
//! Image acquisition, colour conversion, network inference and
//! correlation itself live outside, in the surrounding application;
//! they hand this library plain values (pixel grids, score maps,
//! decoded rows) and take plain values back.
//!
//! Fractional quantities (correlation scores, network confidences,
//! resize ratios) are carried as fixed-point integers in
//! ten-thousandths, so a score of `0.75` is the value `7500`.

pub mod array;
pub mod buff;
pub mod calibration;
pub mod decode;
pub mod detect;
pub mod error;
pub mod geometry;
pub mod health;
pub mod image;
pub mod minimap;
pub mod template;
pub mod text;
pub mod transform;
