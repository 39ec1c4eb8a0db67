//! Detection, tracking and identification of a single trading card seen by a
//! camera.
//!
//! The pipeline turns a camera frame into at most one tracked card region,
//! rectifies that region into an upright rectangle, and resolves it to a
//! catalog identifier by perceptual-hash nearest-neighbour search, or
//! alternatively by token search over extracted text.
//!
//! All geometry is carried out in exact integer arithmetic: distances are
//! compared through their squares and polygon areas are kept doubled, so that
//! every comparison the camera pipeline makes is stated and proved precisely.
//! Image decoding, warping, hashing of pixels, text recognition and the
//! network layer live outside this crate; they hand plain values (points,
//! hashes, strings) in and take plain values back.

pub mod card;
pub mod card_database;
pub mod detect;
pub mod geometry;
pub mod image_hash;
pub mod rectify;
pub mod search;
pub mod text;
