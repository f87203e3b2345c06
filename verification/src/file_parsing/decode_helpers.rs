//! What a decoder hands to the engine, and how decoding can fail.

use vstd::prelude::*;

verus! {

/// Why a file could not be decoded.
#[derive(Debug, Clone, PartialEq)]
pub enum DecodeError {
    /// The file could not be read; the text says why.
    Io(String),
    UnsupportedFormat(String),
    UnexpectedEof,
    InvalidData(String),
}

/// An error as a value: character sequences in place of strings.
pub enum DecodeFault {
    Io(Seq<char>),
    UnsupportedFormat(Seq<char>),
    UnexpectedEof,
    InvalidData(Seq<char>),
}

impl View for DecodeError {
    type V = DecodeFault;

    open spec fn view(&self) -> DecodeFault {
        match *self {
            DecodeError::Io(s) => DecodeFault::Io(s@),
            DecodeError::UnsupportedFormat(s) => DecodeFault::UnsupportedFormat(s@),
            DecodeError::UnexpectedEof => DecodeFault::UnexpectedEof,
            DecodeError::InvalidData(s) => DecodeFault::InvalidData(s@),
        }
    }
}

/// What a decoder gives.
pub type DecodeResult<T> = Result<T, DecodeError>;

/// A decoded track: interleaved 16-bit samples with their layout.
#[derive(Debug, Clone, PartialEq)]
pub struct AudioFile {
    pub file_name: String,
    pub format: String,
    pub sample_rate: u32,
    pub num_channels: u32,
    pub bits_per_sample: u32,
    pub samples: Vec<i16>,
}

/// A decoded track as a value.
pub struct AudioModel {
    pub file_name: Seq<char>,
    pub format: Seq<char>,
    pub sample_rate: u32,
    pub num_channels: u32,
    pub bits_per_sample: u32,
    pub samples: Seq<i16>,
}

impl View for AudioFile {
    type V = AudioModel;

    open spec fn view(&self) -> AudioModel {
        AudioModel {
            file_name: self.file_name@,
            format: self.format@,
            sample_rate: self.sample_rate,
            num_channels: self.num_channels,
            bits_per_sample: self.bits_per_sample,
            samples: self.samples@,
        }
    }
}

impl AudioFile {
    /// A track of these properties.
    pub fn new(
        file_name: &str,
        format: &str,
        sample_rate: u32,
        num_channels: u32,
        bits_per_sample: u32,
        samples: Vec<i16>,
    ) -> (r: AudioFile)
        ensures
            r.file_name@ == file_name@,
            r.format@ == format@,
            r.sample_rate == sample_rate,
            r.num_channels == num_channels,
            r.bits_per_sample == bits_per_sample,
            r.samples == samples,
    {
        AudioFile {
            file_name: file_name.to_owned(),
            format: format.to_owned(),
            sample_rate,
            num_channels,
            bits_per_sample,
            samples,
        }
    }
}

} // verus!
