//! The RIFF/WAVE format: a format chunk that says how the samples lie, and
//! a data chunk of little-endian 16-bit samples.

use vstd::prelude::*;
use vstd::string::*;
use crate::file_parsing::decode_helpers::{AudioFile, DecodeError, DecodeFault, DecodeResult};
use crate::file_parsing::helpers::{
    file_name,
    le_value,
    lemma_le_bound,
    lemma_pow256,
    name_error,
    parse_bytes,
    spec_file_name,
    spec_name_error,
};

verus! {

/// The sample codings that a format chunk can name.
#[derive(Debug, Clone, Copy, PartialEq, Eq, Structural)]
pub enum FormatCode {
    WaveFormatPcm,
    WaveFormatIeeeFloat,
    WaveFormatAlaw,
    WaveFormatMulaw,
    WaveFormatExtensible,
}

impl FormatCode {
    /// The coding that a format tag stands for.
    pub open spec fn spec_from_u16(value: u16) -> Option<FormatCode> {
        if value == 0x0001 {
            Some(FormatCode::WaveFormatPcm)
        } else if value == 0x0003 {
            Some(FormatCode::WaveFormatIeeeFloat)
        } else if value == 0x0006 {
            Some(FormatCode::WaveFormatAlaw)
        } else if value == 0x0007 {
            Some(FormatCode::WaveFormatMulaw)
        } else if value == 0xFFFE {
            Some(FormatCode::WaveFormatExtensible)
        } else {
            None
        }
    }

    /// The coding that a format tag stands for.
    pub fn from_u16(value: u16) -> (r: Option<FormatCode>)
        ensures
            r == Self::spec_from_u16(value),
    {
        match value {
            0x0001 => Some(FormatCode::WaveFormatPcm),
            0x0003 => Some(FormatCode::WaveFormatIeeeFloat),
            0x0006 => Some(FormatCode::WaveFormatAlaw),
            0x0007 => Some(FormatCode::WaveFormatMulaw),
            0xFFFE => Some(FormatCode::WaveFormatExtensible),
            _ => None,
        }
    }
}

/// Steps over a four-byte chunk name: moves `*end` on by four and `*start`
/// up to it, where the bytes between the two are all there.
pub fn print_id(vec: &Vec<u8>, start: &mut usize, end: &mut usize) -> (r: DecodeResult<()>)
    requires
        *old(end) + 4 <= usize::MAX,
    ensures
        *final(end) == *old(end) + 4,
        *old(start) >= *old(end) + 4 || *old(end) + 4 <= vec.len() ==> r.is_ok() && *final(start)
            == *old(end) + 4,
        *old(start) < *old(end) + 4 && *old(end) + 4 > vec.len() ==> r == Err::<(), DecodeError>(
            DecodeError::UnexpectedEof,
        ) && *final(start) == *old(start),
{
    *end = *end + 4;
    if *start < *end && *end > vec.len() {
        return Err(DecodeError::UnexpectedEof);
    }
    *start = *end;
    Ok(())
}

/// The 16-bit sample whose low byte stands at `at`.
pub open spec fn le_sample(b: Seq<u8>, at: int) -> i16 {
    let v = b[at] as int + 256 * b[at + 1] as int;
    if v >= 32768 {
        (v - 65536) as i16
    } else {
        v as i16
    }
}

/// How a WAVE file lies: its channels, rate and sample size, where its
/// samples start and how many bytes of them there are.
pub struct WavLayout {
    pub channels: u32,
    pub rate: u32,
    pub bits: u32,
    pub data_at: int,
    pub data_size: nat,
}

/// Where the data chunk starts: behind the 36 bytes up to the end of the
/// plain format chunk, behind two more where the format chunk says that it
/// has an extension, and behind 99 more where the extension is not empty.
pub open spec fn data_chunk_at(b: Seq<u8>) -> int {
    if le_value(b, 16, 4) >= 18 {
        if le_value(b, 36, 2) > 0 {
            137
        } else {
            38
        }
    } else {
        36
    }
}

/// The least length of a file whose format chunk can be read.
pub open spec fn format_end(b: Seq<u8>) -> int {
    if le_value(b, 16, 4) >= 18 {
        if b.len() >= 38 && le_value(b, 36, 2) > 0 {
            46
        } else {
            38
        }
    } else {
        36
    }
}

/// The layout of the file with the bytes `b`.
pub open spec fn spec_layout(b: Seq<u8>) -> Result<WavLayout, DecodeFault> {
    if b.len() < 22 {
        Err(DecodeFault::UnexpectedEof)
    } else if FormatCode::spec_from_u16(le_value(b, 20, 2) as u16).is_none() {
        Err(DecodeFault::UnsupportedFormat("Unrecognized format tag"@))
    } else if b.len() < format_end(b) || b.len() < data_chunk_at(b) + 8 {
        Err(DecodeFault::UnexpectedEof)
    } else {
        let size = le_value(b, data_chunk_at(b) + 4, 4);
        if b.len() < data_chunk_at(b) + 8 + 2 * ((size + 1) / 2) {
            Err(DecodeFault::UnexpectedEof)
        } else {
            Ok(
                WavLayout {
                    channels: le_value(b, 22, 2) as u32,
                    rate: le_value(b, 24, 4) as u32,
                    bits: le_value(b, 34, 2) as u32,
                    data_at: data_chunk_at(b) + 8,
                    data_size: size,
                },
            )
        }
    }
}

/// The samples of a file that lies as `layout` says.
pub open spec fn spec_samples(b: Seq<u8>, layout: WavLayout) -> Seq<i16> {
    Seq::new((layout.data_size + 1) / 2, |i: int| le_sample(b, layout.data_at + 2 * i))
}

/// Reads a number of `inc` bytes, least significant byte first, and moves
/// both cursors behind it.
fn parse_number(bytes: &Vec<u8>, start: &mut usize, end: &mut usize, inc: usize) -> (r: DecodeResult<
    u32,
>)
    requires
        inc <= 4,
        *old(start) == *old(end),
    ensures
        *old(start) + inc <= bytes.len() ==> r == Ok::<u32, DecodeError>(
            le_value(bytes@, *old(start) as int, inc as int) as u32,
        ) && *final(start) == *old(start) + inc && *final(end) == *final(start) && r.unwrap()
            == le_value(bytes@, *old(start) as int, inc as int),
        *old(start) + inc > bytes.len() ==> r == Err::<u32, DecodeError>(
            DecodeError::UnexpectedEof,
        ),
{
    proof {
        lemma_le_bound(bytes@, *start as int, inc as int);
        lemma_pow256(inc as int);
    }
    match parse_bytes(bytes, start, inc, true) {
        Ok(v) => {
            *end = *start;
            Ok(v as u32)
        },
        Err(e) => Err(e),
    }
}

/// Reads the `count` samples that start at `from`.
pub fn read_samples(reader: &Vec<u8>, from: usize, count: usize) -> (r: Vec<i16>)
    requires
        from + 2 * count <= reader.len(),
    ensures
        r@ == Seq::new(count as nat, |i: int| le_sample(reader@, from + 2 * i)),
{
    let mut samples: Vec<i16> = Vec::new();
    let mut k: usize = 0;
    while k < count
        invariant
            k <= count,
            from + 2 * count <= reader.len(),
            samples@ == Seq::new(k as nat, |i: int| le_sample(reader@, from + 2 * i)),
        decreases count - k,
    {
        let i: usize = from + 2 * k;
        let v: u32 = reader[i] as u32 + 256 * (reader[i + 1] as u32);
        let s: i16 = if v >= 32768 {
            (v as i32 - 65536) as i16
        } else {
            v as i16
        };
        samples.push(s);
        assert(samples@ =~= Seq::new((k + 1) as nat, |i: int| le_sample(reader@, from + 2 * i)));
        k += 1;
    }
    samples
}

/// Reads the layout of a WAVE file.
fn layout(reader: &Vec<u8>) -> (r: Result<(u32, u32, u32, usize, u32), DecodeError>)
    ensures
        match r {
            Ok(l) => spec_layout(reader@).is_ok() && spec_layout(reader@)->Ok_0 == (WavLayout {
                channels: l.0,
                rate: l.1,
                bits: l.2,
                data_at: l.3 as int,
                data_size: l.4 as nat,
            }) && l.3 + 2 * ((l.4 + 1) / 2) <= reader.len(),
            Err(e) => spec_layout(reader@) == Err::<WavLayout, DecodeFault>(e@),
        },
{
    let mut start: usize = 0;
    let mut end: usize = 0;
    // "RIFF", the size of the rest, "WAVE", "fmt " and the size of the
    // format chunk
    print_id(reader, &mut start, &mut end)?;
    let _riff_size = parse_number(reader, &mut start, &mut end, 4)?;
    print_id(reader, &mut start, &mut end)?;
    print_id(reader, &mut start, &mut end)?;
    let fmt_size = parse_number(reader, &mut start, &mut end, 4)?;
    let tag = parse_number(reader, &mut start, &mut end, 2)?;
    proof {
        lemma_le_bound(reader@, 20, 2);
        lemma_pow256(2);
    }
    if FormatCode::from_u16(tag as u16).is_none() {
        return Err(
            DecodeError::UnsupportedFormat(String::from_str("Unrecognized format tag")),
        );
    }
    let num_channels = parse_number(reader, &mut start, &mut end, 2)?;
    let sample_rate = parse_number(reader, &mut start, &mut end, 4)?;
    let _data_rate = parse_number(reader, &mut start, &mut end, 4)?;
    let _block_size = parse_number(reader, &mut start, &mut end, 2)?;
    let bits_per_sample = parse_number(reader, &mut start, &mut end, 2)?;
    if fmt_size >= 18 {
        let cb_size = parse_number(reader, &mut start, &mut end, 2)?;
        if cb_size > 0 {
            let _valid_bits = parse_number(reader, &mut start, &mut end, 2)?;
            let _channel_mask = parse_number(reader, &mut start, &mut end, 4)?;
            let _old_format = parse_number(reader, &mut start, &mut end, 2)?;
            // the rest of the extension is stepped over
            end = end + 91;
            start = end;
        }
    }
    // "data" and the size of the samples
    print_id(reader, &mut start, &mut end)?;
    let data_size = parse_number(reader, &mut start, &mut end, 4)?;
    proof {
        lemma_le_bound(reader@, data_chunk_at(reader@) + 4, 4);
        lemma_pow256(4);
    }
    let need: u64 = start as u64 + 2 * ((data_size as u64 + 1) / 2);
    if need > reader.len() as u64 {
        return Err(DecodeError::UnexpectedEof);
    }
    Ok((num_channels, sample_rate, bits_per_sample, start, data_size))
}

/// Decodes the bytes of the WAVE file at `path`. The track's name is the
/// file's name without directory and extension.
pub fn decode(path: &str, reader: &Vec<u8>) -> (r: DecodeResult<AudioFile>)
    ensures
        match r {
            Ok(af) => spec_layout(reader@).is_ok() && spec_file_name(path@).is_ok() && ({
                let l = spec_layout(reader@)->Ok_0;
                &&& af.file_name@ == spec_file_name(path@)->Ok_0
                &&& af.format@ == "wav"@
                &&& af.sample_rate == l.rate
                &&& af.num_channels == l.channels
                &&& af.bits_per_sample == l.bits
                &&& af.samples@ == spec_samples(reader@, l)
            }),
            Err(e) => match spec_layout(reader@) {
                Err(fault) => e@ == fault,
                Ok(_) => spec_file_name(path@).is_err() && e@ == spec_name_error(
                    spec_file_name(path@)->Err_0,
                ),
            },
        },
{
    let (channels, rate, bits, at, size) = match layout(reader) {
        Ok(l) => l,
        Err(e) => {
            return Err(e);
        },
    };
    let count: usize = ((size as u64 + 1) / 2) as usize;
    let samples = read_samples(reader, at, count);
    let name = match file_name(path) {
        Ok(name) => name,
        Err(e) => {
            return Err(name_error(e));
        },
    };
    Ok(AudioFile::new(name.as_str(), "wav", rate, channels, bits, samples))
}

} // verus!
