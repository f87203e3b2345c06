//! Decoded audio and the readers of the file formats that hold it.

pub mod decode_helpers;
pub mod helpers;
pub mod wav;
pub mod aiff;
pub mod mpeg;
