//! Headers and frames of MPEG audio.
//!
//! A frame starts with four bytes: eleven sync bits, then the version, the
//! layer, the protection bit, the bitrate index, the sampling rate, the
//! padding bit and the channel mode.

use vstd::prelude::*;
use vstd::string::*;
use crate::file_parsing::decode_helpers::{DecodeError, DecodeFault, DecodeResult};

verus! {

/// The bitrate in kbit/s in row `row` and column `col` of the table of
/// bitrates; 0 outside the table.
pub open spec fn spec_bitrate(row: u8, col: u8) -> u32 {
    if col == 0 {
        if row < 14 {
            (32 * (row + 1)) as u32
        } else {
            0
        }
    } else if col == 1 {
        if row == 0 { 32 } else if row == 1 { 48 } else if row == 2 { 56 } else if row == 3 { 64 }
        else if row == 4 { 80 } else if row == 5 { 96 } else if row == 6 { 112 } else if row == 7 {
            128
        } else if row == 8 { 160 } else if row == 9 { 192 } else if row == 10 { 224 } else if row
            == 11 { 256 } else if row == 12 { 320 } else if row == 13 { 384 } else { 0 }
    } else if col == 2 {
        if row == 0 { 32 } else if row == 1 { 40 } else if row == 2 { 48 } else if row == 3 { 56 }
        else if row == 4 { 64 } else if row == 5 { 80 } else if row == 6 { 96 } else if row == 7 {
            112
        } else if row == 8 { 128 } else if row == 9 { 160 } else if row == 10 { 192 } else if row
            == 11 { 224 } else if row == 12 { 256 } else if row == 13 { 320 } else { 0 }
    } else if col == 3 {
        if row == 0 { 32 } else if row == 1 { 48 } else if row == 2 { 56 } else if row == 3 { 64 }
        else if row == 4 { 80 } else if row == 5 { 96 } else if row == 6 { 112 } else if row == 7 {
            128
        } else if row == 8 { 144 } else if row == 9 { 160 } else if row == 10 { 176 } else if row
            == 11 { 192 } else if row == 12 { 224 } else if row == 13 { 256 } else { 0 }
    } else {
        if row == 0 { 8 } else if row == 1 { 16 } else if row == 2 { 24 } else if row == 3 { 32 }
        else if row == 4 { 40 } else if row == 5 { 48 } else if row == 6 { 56 } else if row == 7 {
            64
        } else if row == 8 { 80 } else if row == 9 { 96 } else if row == 10 { 112 } else if row
            == 11 { 128 } else if row == 12 { 144 } else if row == 13 { 160 } else { 0 }
    }
}

/// The column of the table that a version and a layer select.
pub open spec fn spec_column(version: u8, layer: u8) -> u8 {
    let both = (version << 2u8) & layer;
    if both == 0xF {
        0
    } else if both == 0xE {
        1
    } else if both == 0xD {
        2
    } else if both == 0xB {
        3
    } else {
        4
    }
}

/// An entry of the table of bitrates.
fn bitrate(row: u8, col: u8) -> (r: u32)
    ensures
        r == spec_bitrate(row, col),
{
    if row >= 14 {
        return 0;
    }
    match col {
        0 => 32 * (row as u32 + 1),
        1 => match row {
            0 => 32,
            1 => 48,
            2 => 56,
            3 => 64,
            4 => 80,
            5 => 96,
            6 => 112,
            7 => 128,
            8 => 160,
            9 => 192,
            10 => 224,
            11 => 256,
            12 => 320,
            _ => 384,
        },
        2 => match row {
            0 => 32,
            1 => 40,
            2 => 48,
            3 => 56,
            4 => 64,
            5 => 80,
            6 => 96,
            7 => 112,
            8 => 128,
            9 => 160,
            10 => 192,
            11 => 224,
            12 => 256,
            _ => 320,
        },
        3 => match row {
            0 => 32,
            1 => 48,
            2 => 56,
            3 => 64,
            4 => 80,
            5 => 96,
            6 => 112,
            7 => 128,
            8 => 144,
            9 => 160,
            10 => 176,
            11 => 192,
            12 => 224,
            _ => 256,
        },
        _ => match row {
            0 => 8,
            1 => 16,
            2 => 24,
            3 => 32,
            4 => 40,
            5 => 48,
            6 => 56,
            7 => 64,
            8 => 80,
            9 => 96,
            10 => 112,
            11 => 128,
            12 => 144,
            _ => 160,
        },
    }
}

/// The bitrate in kbit/s that the bitrate index less one, `row`, stands for
/// with this version and layer.
pub fn match_bitrate(row: u8, version: u8, layer: u8) -> (r: u32)
    ensures
        r == spec_bitrate(row, spec_column(version, layer)),
{
    let both = (version << 2u8) & layer;
    let col: u8 = match both {
        0xF => 0,
        0xE => 1,
        0xD => 2,
        0xB => 3,
        _ => 4,
    };
    bitrate(row, col)
}

/// The sampling rate in Hz that the rate bits of `ffgh` stand for in the
/// version `v_id`: 44100, 48000 or 32000 Hz in version 1, a half of that in
/// version 2 and a quarter in version 2.5; 0 for reserved bits.
pub open spec fn spec_sr(ffgh: u8, v_id: u8) -> u32 {
    let base: u32 = if v_id == 3 {
        32000
    } else if v_id == 2 {
        16000
    } else if v_id == 0 {
        8000
    } else {
        0
    };
    let ff = ffgh >> 2u8;
    if ff == 0 {
        (base * 441 / 320) as u32
    } else if ff == 1 {
        (base * 3 / 2) as u32
    } else if ff == 2 {
        base
    } else {
        0
    }
}

/// The sampling rate in Hz that the rate bits stand for.
pub fn match_sr(ffgh: u8, v_id: u8) -> (r: u32)
    ensures
        r == spec_sr(ffgh, v_id),
{
    let base: u32 = match v_id {
        3 => 32000,
        2 => 16000,
        0 => 8000,
        _ => 0,
    };
    let ff = ffgh >> 2u8;
    match ff {
        0 => base * 441 / 320,
        1 => base * 3 / 2,
        2 => base,
        _ => 0,
    }
}

/// The version of MPEG audio.
#[derive(Debug, Clone, Copy, PartialEq, Eq, Structural)]
pub enum Version {
    V25,
    V2,
    V1,
    Unknown,
}

/// What the four bytes of a frame header say.
#[derive(Debug, Clone, Copy)]
pub struct Header {
    pub version: Version,
    pub layer: u8,
    pub protected: bool,
    pub bitrate: u32,
    pub sr: u32,
    pub padded: bool,
    pub channel_mode: u8,
}

impl Header {
    /// The header that raw fields stand for.
    pub open spec fn spec_format(
        version: u8,
        layer: u8,
        not_protected: u8,
        bitrate: u32,
        sr: u32,
        padded: u8,
        channel_mode: u8,
    ) -> Header {
        Header {
            version: if version == 0 {
                Version::V25
            } else if version == 2 {
                Version::V2
            } else if version == 3 {
                Version::V1
            } else {
                Version::Unknown
            },
            layer: if layer == 1 {
                3
            } else if layer == 2 {
                2
            } else if layer == 3 {
                1
            } else {
                0
            },
            protected: not_protected == 0,
            bitrate,
            sr,
            padded: padded == 1,
            channel_mode,
        }
    }

    /// Length in bytes of a frame's data: 144000 times the bitrate over the
    /// sampling rate in layers 2 and 3 and 48000 times in layer 1, less the
    /// header and the checksum, plus the padding. An error where the frame
    /// would be shorter than 20 bytes, the sampling rate is 0, or the length
    /// is no `usize`.
    pub open spec fn spec_frame_len(self) -> Result<usize, DecodeFault> {
        let scale: int = if self.layer == 1 {
            48000
        } else {
            144000
        };
        if self.layer < 1 || self.layer > 3 {
            Ok((20 - self.spec_overhead() + self.spec_padding()) as usize)
        } else if self.sr == 0 || scale * self.bitrate < 20 * self.sr {
            Err(DecodeFault::InvalidData("Frame length too small"@))
        } else if scale * self.bitrate / self.sr as int - self.spec_overhead()
            + self.spec_padding() > usize::MAX {
            Err(DecodeFault::InvalidData("Frame length too large"@))
        } else {
            Ok(
                (scale * self.bitrate / self.sr as int - self.spec_overhead()
                    + self.spec_padding()) as usize,
            )
        }
    }

    /// Bytes of header and checksum that do not count as data.
    pub open spec fn spec_overhead(self) -> int {
        if self.protected {
            20
        } else {
            4
        }
    }

    /// The byte of padding, where there is one.
    pub open spec fn spec_padding(self) -> int {
        if self.padded {
            1
        } else {
            0
        }
    }

    /// Whether two headers are of one stream.
    pub open spec fn spec_match_ref(self, other: Header) -> bool {
        &&& self.version == other.version
        &&& self.layer == other.layer
        &&& self.sr == other.sr
        &&& self.channel_mode == other.channel_mode
        &&& self.protected == other.protected
    }

    pub fn new() -> (r: Header)
        ensures
            r == (Header {
                version: Version::Unknown,
                layer: 0,
                protected: false,
                bitrate: 0,
                sr: 0,
                padded: false,
                channel_mode: 0,
            }),
    {
        Header {
            version: Version::Unknown,
            layer: 0,
            protected: false,
            bitrate: 0,
            sr: 0,
            padded: false,
            channel_mode: 0,
        }
    }

    /// The header that raw fields stand for.
    pub fn format(
        version: u8,
        layer: u8,
        not_protected: u8,
        bitrate: u32,
        sr: u32,
        padded: u8,
        channel_mode: u8,
    ) -> (r: Header)
        ensures
            r == Self::spec_format(
                version,
                layer,
                not_protected,
                bitrate,
                sr,
                padded,
                channel_mode,
            ),
    {
        let version = match version {
            0x0 => Version::V25,
            0x2 => Version::V2,
            0x3 => Version::V1,
            _ => Version::Unknown,
        };
        let layer: u8 = match layer {
            0x1 => 3,
            0x2 => 2,
            0x3 => 1,
            _ => 0,
        };
        Header {
            version,
            layer,
            protected: not_protected == 0,
            bitrate,
            sr,
            padded: padded == 1,
            channel_mode,
        }
    }

    /// The header's fields as a tuple.
    pub fn barf(&self) -> (r: (Version, u8, bool, u32, u32, bool, u8))
        ensures
            r == (
                self.version,
                self.layer,
                self.protected,
                self.bitrate,
                self.sr,
                self.padded,
                self.channel_mode,
            ),
    {
        (
            self.version,
            self.layer,
            self.protected,
            self.bitrate,
            self.sr,
            self.padded,
            self.channel_mode,
        )
    }

    /// Whether two headers are of one stream.
    pub fn match_ref(&self, other: &Header) -> (r: bool)
        ensures
            r == self.spec_match_ref(*other),
    {
        self.version == other.version && self.layer == other.layer && self.sr == other.sr
            && self.channel_mode == other.channel_mode && self.protected == other.protected
    }

    /// Length in bytes of the data of a frame with this header.
    pub fn compute_frame_len(&self) -> (r: DecodeResult<usize>)
        ensures
            match r {
                Ok(n) => self.spec_frame_len() == Ok::<usize, DecodeFault>(n),
                Err(e) => self.spec_frame_len() == Err::<usize, DecodeFault>(e@),
            },
    {
        let overhead: u64 = if self.protected { 20 } else { 4 };
        let padding: u64 = if self.padded { 1 } else { 0 };
        let frame_len: u64 = if self.layer >= 1 && self.layer <= 3 {
            let scale: u64 = if self.layer == 1 { 48000 } else { 144000 };
            if self.sr == 0 || scale * (self.bitrate as u64) < 20 * (self.sr as u64) {
                return Err(DecodeError::InvalidData(String::from_str("Frame length too small")));
            }
            let n = scale * (self.bitrate as u64) / (self.sr as u64);
            assert(n >= 20) by (nonlinear_arith)
                requires
                    n == (scale * (self.bitrate as u64)) as int / (self.sr as int),
                    scale * self.bitrate >= 20 * self.sr,
                    self.sr > 0,
            ;
            assert(n <= scale * self.bitrate) by (nonlinear_arith)
                requires
                    n == (scale * (self.bitrate as u64)) as int / (self.sr as int),
                    self.sr > 0,
                    scale * self.bitrate >= 0,
            ;
            n
        } else {
            20
        };
        let len = frame_len - overhead + padding;
        if len > usize::MAX as u64 {
            return Err(DecodeError::InvalidData(String::from_str("Frame length too large")));
        }
        Ok(len as usize)
    }
}

/// The data of one frame and where the frame stood in the file.
pub struct Frame {
    pub file_pos: usize,
    pub data: Vec<u8>,
}

impl Frame {
    pub fn new(file_pos: usize, data: Vec<u8>) -> (r: Frame)
        ensures
            r.file_pos == file_pos,
            r.data == data,
    {
        Frame { file_pos, data }
    }

    /// Puts the frame's data behind what `bank` holds.
    pub fn give_data(&self, bank: &mut Vec<u8>)
        ensures
            final(bank)@ == old(bank)@ + self.data@,
    {
        let mut i: usize = 0;
        while i < self.data.len()
            invariant
                i <= self.data.len(),
                bank@ == old(bank)@ + self.data@.take(i as int),
            decreases self.data.len() - i,
        {
            bank.push(self.data[i]);
            assert(bank@ =~= old(bank)@ + self.data@.take(i + 1));
            i += 1;
        }
        assert(self.data@.take(self.data.len() as int) =~= self.data@);
    }
}

/// The fields of a header, as they stand in its bytes.
#[derive(Debug, Clone, Copy)]
pub struct RawHeader {
    pub version: u8,
    pub layer: u8,
    pub not_protected: u8,
    pub bitrate: u32,
    pub sr: u32,
    pub padded: u8,
    pub channel_mode: u8,
}

/// The version bits as the reader takes them: bit 20 of the header and its
/// protection bit.
pub open spec fn spec_version(second: u8) -> u8 {
    (((second >> 4u8) & 0x1) << 1u8) | ((second & 0x0F) & 0x1)
}

/// The fields of the header whose second, third and fourth byte are
/// `second`, `third` and `fourth`. Version 1 of the bits, the reserved
/// layer, and the bitrate indices 0 and 15 are not supported; a sampling
/// rate of 0 is invalid.
pub open spec fn spec_parse_header(second: u8, third: u8, fourth: u8) -> Result<
    RawHeader,
    DecodeFault,
> {
    let version = spec_version(second);
    let layer = ((second & 0x0F) >> 1u8) & 0x3;
    let index = third >> 4u8;
    if version == 1 {
        Err(DecodeFault::UnsupportedFormat("Unsupported audio version"@))
    } else if version > 3 {
        Err(DecodeFault::InvalidData("Invalid audio version id"@))
    } else if layer == 0 {
        Err(DecodeFault::UnsupportedFormat("Cannot parse reserved layer"@))
    } else if layer > 3 {
        Err(DecodeFault::InvalidData("Invalid layer description"@))
    } else if index == 0 || index >= 0xF {
        Err(
            DecodeFault::UnsupportedFormat(
                "This application does not support 'free' or 'bad' bitrates"@,
            ),
        )
    } else if spec_sr(third & 0x0F, version) == 0 {
        Err(DecodeFault::InvalidData("Sample rate cannot be zero"@))
    } else if ((fourth >> 4u8) >> 2u8) > 3 {
        Err(DecodeFault::InvalidData("Invalid channel mode"@))
    } else {
        Ok(
            RawHeader {
                version,
                layer,
                not_protected: (second & 0x0F) & 0x1,
                bitrate: spec_bitrate((index - 1) as u8, spec_column(version, layer)),
                sr: spec_sr(third & 0x0F, version),
                padded: ((third & 0x0F) >> 1u8) & 0x1,
                channel_mode: (fourth >> 4u8) >> 2u8,
            },
        )
    }
}

/// Reads the fields of a header from its second, third and fourth byte.
pub fn parse_header(second: u8, third: u8, fourth: u8) -> (r: DecodeResult<RawHeader>)
    ensures
        match r {
            Ok(h) => spec_parse_header(second, third, fourth) == Ok::<RawHeader, DecodeFault>(h),
            Err(e) => spec_parse_header(second, third, fourth) == Err::<RawHeader, DecodeFault>(
                e@,
            ),
        },
{
    let low = second & 0x0F;
    let version: u8 = (((second >> 4u8) & 0x1) << 1u8) | (low & 0x1);
    match version {
        0x0 => {},
        0x1 => {
            return Err(
                DecodeError::UnsupportedFormat(String::from_str("Unsupported audio version")),
            );
        },
        0x2 => {},
        0x3 => {},
        _ => {
            return Err(DecodeError::InvalidData(String::from_str("Invalid audio version id")));
        },
    }
    let layer: u8 = (low >> 1u8) & 0x3;
    match layer {
        0x0 => {
            return Err(
                DecodeError::UnsupportedFormat(String::from_str("Cannot parse reserved layer")),
            );
        },
        0x1 => {},
        0x2 => {},
        0x3 => {},
        _ => {
            return Err(DecodeError::InvalidData(String::from_str("Invalid layer description")));
        },
    }
    let not_protected: u8 = low & 0x1;
    let index = third >> 4u8;
    if index == 0 || index >= 0xF {
        return Err(
            DecodeError::UnsupportedFormat(
                String::from_str("This application does not support 'free' or 'bad' bitrates"),
            ),
        );
    }
    let bitrate = match_bitrate(index - 1, version, layer);
    let ffgh = third & 0x0F;
    let sr = match_sr(ffgh, version);
    if sr == 0 {
        return Err(DecodeError::InvalidData(String::from_str("Sample rate cannot be zero")));
    }
    let padded: u8 = (ffgh >> 1u8) & 0x1;
    let channel_mode = (fourth >> 4u8) >> 2u8;
    if channel_mode > 3 {
        return Err(DecodeError::InvalidData(String::from_str("Invalid channel mode")));
    }
    Ok(RawHeader { version, layer, not_protected, bitrate, sr, padded, channel_mode })
}

/// Whether a frame could start at place `at` of `bytes`: four bytes are
/// there, and the first eleven bits are set.
pub open spec fn spec_sync(bytes: Seq<u8>, at: int) -> bool {
    &&& 0 <= at
    &&& at + 3 < bytes.len()
    &&& bytes[at] == 0xFF
    &&& bytes[at + 1] & 0xE0 == 0xE0
}

/// The places from `from` on where a frame could start, lowest first. Behind
/// such a place the search goes on four bytes further, behind any other
/// place one byte further.
pub open spec fn spec_scan(bytes: Seq<u8>, from: int) -> Seq<usize>
    decreases bytes.len() - from,
{
    if from < 0 || from + 3 >= bytes.len() {
        Seq::empty()
    } else if spec_sync(bytes, from) {
        seq![from as usize] + spec_scan(bytes, from + 4)
    } else {
        spec_scan(bytes, from + 1)
    }
}

/// The places of `bytes` where a frame could start, lowest first.
pub fn scan(bytes: &Vec<u8>) -> (r: Vec<usize>)
    ensures
        r@ == spec_scan(bytes@, 0),
{
    let mut found: Vec<usize> = Vec::new();
    let mut cur: usize = 0;
    while cur < bytes.len() && 3 < bytes.len() - cur
        invariant
            cur <= bytes.len() + 3,
            spec_scan(bytes@, 0) == found@ + spec_scan(bytes@, cur as int),
        decreases bytes.len() + 3 - cur,
    {
        if bytes[cur] == 0xFF && bytes[cur + 1] & 0xE0 == 0xE0 {
            assert(spec_sync(bytes@, cur as int));
            assert(found@.push(cur) + spec_scan(bytes@, cur + 4) =~= found@ + (seq![cur]
                + spec_scan(bytes@, cur + 4)));
            found.push(cur);
            cur += 4;
        } else {
            assert(!spec_sync(bytes@, cur as int));
            cur += 1;
        }
    }
    assert(spec_scan(bytes@, cur as int) =~= Seq::<usize>::empty());
    assert(found@ + Seq::<usize>::empty() =~= found@);
    found
}

/// The header that the four bytes at place `at` spell.
pub open spec fn spec_header_at(bytes: Seq<u8>, at: int) -> Result<Header, DecodeFault> {
    match spec_parse_header(bytes[at + 1], bytes[at + 2], bytes[at + 3]) {
        Ok(raw) => Ok(
            Header::spec_format(
                raw.version,
                raw.layer,
                raw.not_protected,
                raw.bitrate,
                raw.sr,
                raw.padded,
                raw.channel_mode,
            ),
        ),
        Err(e) => Err(e),
    }
}

/// Reads the header at place `at`.
pub fn header_at(bytes: &Vec<u8>, at: usize) -> (r: DecodeResult<Header>)
    requires
        at + 3 < bytes.len(),
    ensures
        match r {
            Ok(h) => spec_header_at(bytes@, at as int) == Ok::<Header, DecodeFault>(h),
            Err(e) => spec_header_at(bytes@, at as int) == Err::<Header, DecodeFault>(e@),
        },
{
    match parse_header(bytes[at + 1], bytes[at + 2], bytes[at + 3]) {
        Ok(raw) => Ok(
            Header::format(
                raw.version,
                raw.layer,
                raw.not_protected,
                raw.bitrate,
                raw.sr,
                raw.padded,
                raw.channel_mode,
            ),
        ),
        Err(e) => Err(e),
    }
}

/// The header of the first place of `candidates` that spells one: the
/// reference that the other headers of a file are held against.
pub open spec fn spec_reference(bytes: Seq<u8>, candidates: Seq<usize>) -> Option<Header>
    decreases candidates.len(),
{
    if candidates.len() == 0 {
        None
    } else if candidates[0] + 3 < bytes.len() && spec_header_at(bytes, candidates[0] as int) is Ok {
        Some(spec_header_at(bytes, candidates[0] as int)->Ok_0)
    } else {
        spec_reference(bytes, candidates.drop_first())
    }
}

/// The reference header among `candidates`, which are places of `bytes` in
/// the order in which they are to be tried.
pub fn reference(bytes: &Vec<u8>, candidates: &Vec<usize>) -> (r: Option<Header>)
    ensures
        r == spec_reference(bytes@, candidates@),
{
    let mut i: usize = 0;
    assert(candidates@.skip(0) =~= candidates@);
    while i < candidates.len()
        invariant
            i <= candidates.len(),
            spec_reference(bytes@, candidates@) == spec_reference(bytes@, candidates@.skip(i as int)),
        decreases candidates.len() - i,
    {
        let at = candidates[i];
        assert(candidates@.skip(i as int)[0] == at);
        assert(candidates@.skip(i as int).drop_first() =~= candidates@.skip(i + 1));
        if at < bytes.len() && 3 < bytes.len() - at {
            match header_at(bytes, at) {
                Ok(h) => {
                    return Some(h);
                },
                Err(_) => {},
            }
        }
        i += 1;
    }
    assert(candidates@.skip(i as int).len() == 0);
    None
}

/// Where the data of the frame at place `at` starts and ends, for a frame of
/// the stream of `reference`: its header spells out, matches the reference
/// and gives a length. The data starts behind the header and, in a protected
/// frame, behind the checksum.
pub open spec fn spec_span(bytes: Seq<u8>, reference: Header, at: int) -> Option<(int, int)> {
    if at < 0 || at + 3 >= bytes.len() {
        None
    } else {
        match spec_header_at(bytes, at) {
            Err(_) => None,
            Ok(h) => if !reference.spec_match_ref(h) {
                None
            } else {
                match h.spec_frame_len() {
                    Err(_) => None,
                    Ok(n) => {
                        let start = at + if h.protected { 6int } else { 4int };
                        Some((start, start + n))
                    },
                }
            },
        }
    }
}

/// The frame at place `at`, if one of the stream of `reference` stands there.
/// A frame that runs past the end of `bytes` is an error.
pub fn frame_at(bytes: &Vec<u8>, reference: &Header, at: usize) -> (r: DecodeResult<Option<Frame>>)
    ensures
        match spec_span(bytes@, *reference, at as int) {
            None => r matches Ok(None),
            Some((start, end)) => if end > bytes@.len() {
                r matches Err(e) && e@ == DecodeFault::UnexpectedEof
            } else {
                r matches Ok(Some(frame)) && frame.file_pos == at && frame.data@
                    == bytes@.subrange(start, end)
            },
        },
{
    if !(at < bytes.len() && 3 < bytes.len() - at) {
        return Ok(None);
    }
    let header = match header_at(bytes, at) {
        Ok(h) => h,
        Err(_) => {
            return Ok(None);
        },
    };
    if !reference.match_ref(&header) {
        return Ok(None);
    }
    let n = match header.compute_frame_len() {
        Ok(n) => n,
        Err(_) => {
            return Ok(None);
        },
    };
    let skip: usize = if header.protected { 6 } else { 4 };
    if skip > bytes.len() - at {
        return Err(DecodeError::UnexpectedEof);
    }
    let start = at + skip;
    if n > bytes.len() - start {
        return Err(DecodeError::UnexpectedEof);
    }
    let mut data: Vec<u8> = Vec::new();
    let mut i: usize = 0;
    while i < n
        invariant
            i <= n,
            start + n <= bytes.len(),
            data@ == bytes@.subrange(start as int, start + i),
        decreases n - i,
    {
        data.push(bytes[start + i]);
        assert(data@ =~= bytes@.subrange(start as int, start + i + 1));
        i += 1;
    }
    Ok(Some(Frame::new(at, data)))
}

/// The data of the frames of the stream of `reference` that stand at
/// `places`, one behind the other in the order of `places`. The first frame
/// that runs past the end of `bytes` makes the whole an error.
pub open spec fn spec_gather(bytes: Seq<u8>, reference: Header, places: Seq<usize>) -> Result<
    Seq<u8>,
    DecodeFault,
>
    decreases places.len(),
{
    if places.len() == 0 {
        Ok(Seq::empty())
    } else {
        match spec_gather(bytes, reference, places.drop_last()) {
            Err(e) => Err(e),
            Ok(data) => match spec_span(bytes, reference, places.last() as int) {
                None => Ok(data),
                Some((start, end)) => if end > bytes.len() {
                    Err(DecodeFault::UnexpectedEof)
                } else {
                    Ok(data + bytes.subrange(start, end))
                },
            },
        }
    }
}

/// Gathers the data of the frames at `places`.
pub fn gather(bytes: &Vec<u8>, reference: &Header, places: &Vec<usize>) -> (r: DecodeResult<
    Vec<u8>,
>)
    ensures
        match r {
            Ok(data) => spec_gather(bytes@, *reference, places@) == Ok::<Seq<u8>, DecodeFault>(
                data@,
            ),
            Err(e) => spec_gather(bytes@, *reference, places@) == Err::<Seq<u8>, DecodeFault>(e@),
        },
{
    let mut data: Vec<u8> = Vec::new();
    let mut i: usize = 0;
    while i < places.len()
        invariant
            i <= places.len(),
            spec_gather(bytes@, *reference, places@.take(i as int)) == Ok::<Seq<u8>, DecodeFault>(
                data@,
            ),
        decreases places.len() - i,
    {
        proof {
            assert(places@.take(i + 1).drop_last() =~= places@.take(i as int));
            assert(places@.take(i + 1).last() == places@[i as int]);
        }
        match frame_at(bytes, reference, places[i]) {
            Ok(None) => {},
            Ok(Some(frame)) => {
                frame.give_data(&mut data);
            },
            Err(e) => {
                proof {
                    lemma_gather_fails(bytes@, *reference, places@, i + 1);
                }
                return Err(e);
            },
        }
        i += 1;
    }
    assert(places@.take(i as int) =~= places@);
    Ok(data)
}

/// Once the frames at the first `n` places have failed, those at all the
/// places fail.
proof fn lemma_gather_fails(bytes: Seq<u8>, reference: Header, places: Seq<usize>, n: int)
    requires
        0 <= n <= places.len(),
        spec_gather(bytes, reference, places.take(n)) is Err,
    ensures
        spec_gather(bytes, reference, places) == spec_gather(bytes, reference, places.take(n)),
    decreases places.len() - n,
{
    if n < places.len() {
        assert(places.take(n + 1).drop_last() =~= places.take(n));
        lemma_gather_fails(bytes, reference, places, n + 1);
    } else {
        assert(places.take(n) =~= places);
    }
}

/// The data of an MPEG audio file: the frames of the stream of the reference
/// header, in the order in which they stand in the file. `candidates` are the
/// places where the reference is looked for, the likeliest first. Without a
/// reference the file holds no stream.
pub open spec fn spec_decode(bytes: Seq<u8>, candidates: Seq<usize>) -> Result<
    Seq<u8>,
    DecodeFault,
> {
    match spec_reference(bytes, candidates) {
        None => Err(DecodeFault::InvalidData("No frame header found"@)),
        Some(reference) => spec_gather(bytes, reference, spec_scan(bytes, 0)),
    }
}

/// Reads the data of an MPEG audio file from its bytes.
pub fn decode(bytes: &Vec<u8>, candidates: &Vec<usize>) -> (r: DecodeResult<Vec<u8>>)
    ensures
        match r {
            Ok(data) => spec_decode(bytes@, candidates@) == Ok::<Seq<u8>, DecodeFault>(data@),
            Err(e) => spec_decode(bytes@, candidates@) == Err::<Seq<u8>, DecodeFault>(e@),
        },
{
    match reference(bytes, candidates) {
        None => Err(DecodeError::InvalidData(String::from_str("No frame header found"))),
        Some(header) => {
            let places = scan(bytes);
            gather(bytes, &header, &places)
        },
    }
}


} // verus!
