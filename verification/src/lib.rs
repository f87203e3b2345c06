//! A live, command-driven audio engine: voices that play decoded tracks,
//! groups and tempo contexts that give them a shared sense of time, and a
//! command language that edits the running engine from a second thread.
//!
//! Every function in this crate carries a contract and is proved against it.
//! Real quantities (positions, velocities, gains, intervals) are held in
//! fixed point, see [`audio_processing::fixed`], so that the mixer's
//! arithmetic is exact and can be stated over the integers.

pub mod audio_processing;
pub mod file_parsing;
