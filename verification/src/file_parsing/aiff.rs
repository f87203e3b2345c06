//! The AIFF format: a common chunk that says how the samples lie, and a
//! sound chunk of big-endian 16-bit samples.

use vstd::prelude::*;
use vstd::string::*;
use vstd::arithmetic::div_mod::lemma_div_denominator;
use crate::file_parsing::decode_helpers::{AudioFile, DecodeError, DecodeFault, DecodeResult};
use crate::file_parsing::helpers::{
    be_value,
    file_name,
    lemma_be_bound,
    lemma_pow256,
    name_error,
    parse_bytes,
    spec_file_name,
    spec_name_error,
};

verus! {

/// Two to the power `n`.
pub open spec fn pow2(n: nat) -> nat
    decreases n,
{
    if n == 0 {
        1
    } else {
        2 * pow2((n - 1) as nat)
    }
}

/// A power of two is positive.
pub proof fn lemma_pow2_positive(n: nat)
    ensures
        pow2(n) >= 1,
    decreases n,
{
    if n > 0 {
        lemma_pow2_positive((n - 1) as nat);
    }
}

/// `n` kept within the range of `u32`.
pub open spec fn clamp_u32(n: nat) -> u32 {
    if n > u32::MAX {
        u32::MAX
    } else {
        n as u32
    }
}

/// The whole part, kept within the range of `u32`, of the 80-bit extended
/// number at `at`: a sign bit, fifteen bits of exponent and 64 bits of
/// mantissa, which stand for `mantissa * 2^(exponent - 16446)`. Numbers
/// below one, and what is not a number, give 0; infinity gives the largest
/// value.
pub open spec fn spec_extended(b: Seq<u8>, at: int) -> u32 {
    let negative = b[at] >= 128;
    let exponent = (b[at] % 128) as int * 256 + b[at + 1] as int;
    let mantissa = be_value(b, at + 2, 8);
    if exponent == 0x7FFF {
        if mantissa == 0 && !negative {
            u32::MAX
        } else {
            0
        }
    } else if negative {
        0
    } else if exponent >= 16446 {
        clamp_u32(mantissa * pow2((exponent - 16446) as nat))
    } else {
        clamp_u32(mantissa / pow2((16446 - exponent) as nat))
    }
}

/// `mantissa * 2^up`, kept within the range of `u32`.
fn scale_up(mantissa: u64, up: u32) -> (r: u32)
    ensures
        r == clamp_u32(mantissa as nat * pow2(up as nat)),
{
    if mantissa > 0xffff_ffff {
        proof {
            lemma_pow2_positive(up as nat);
            assert(mantissa as nat * pow2(up as nat) >= mantissa) by (nonlinear_arith)
                requires
                    pow2(up as nat) >= 1,
            ;
        }
        return 0xffff_ffff;
    }
    let mut x: u64 = mantissa;
    let mut k: u32 = 0;
    assert(pow2(0) == 1);
    assert(mantissa as nat * pow2(0) == mantissa);
    while k < up && x <= 0xffff_ffff
        invariant
            k <= up,
            x <= 0x1_ffff_fffe,
            x == mantissa as nat * pow2(k as nat),
        decreases up - k,
    {
        assert(mantissa as nat * pow2((k + 1) as nat) == 2 * (mantissa as nat * pow2(k as nat)))
            by (nonlinear_arith)
            requires
                pow2((k + 1) as nat) == 2 * pow2(k as nat),
        ;
        x = x * 2;
        k += 1;
    }
    if x > 0xffff_ffff {
        proof {
            lemma_pow2_grows(k as nat, up as nat);
            assert(mantissa as nat * pow2(up as nat) >= mantissa as nat * pow2(k as nat))
                by (nonlinear_arith)
                requires
                    pow2(up as nat) >= pow2(k as nat),
            ;
        }
        0xffff_ffff
    } else {
        x as u32
    }
}

/// Powers of two grow with the exponent.
pub proof fn lemma_pow2_grows(a: nat, b: nat)
    requires
        a <= b,
    ensures
        pow2(a) <= pow2(b),
    decreases b,
{
    if a < b {
        lemma_pow2_grows(a, (b - 1) as nat);
    }
}

/// `mantissa / 2^down`, kept within the range of `u32`.
fn scale_down(mantissa: u64, down: u32) -> (r: u32)
    ensures
        r == clamp_u32(mantissa as nat / pow2(down as nat)),
{
    let mut x: u64 = mantissa;
    let mut k: u32 = 0;
    assert(pow2(0) == 1);
    assert(mantissa as nat / pow2(0) == mantissa);
    while k < down
        invariant
            k <= down,
            x == mantissa as nat / pow2(k as nat),
        decreases down - k,
    {
        proof {
            lemma_pow2_positive(k as nat);
            lemma_div_denominator(mantissa as int, pow2(k as nat) as int, 2);
            assert(pow2((k + 1) as nat) == pow2(k as nat) * 2);
        }
        x = x / 2;
        k += 1;
    }
    if x > 0xffff_ffff {
        0xffff_ffff
    } else {
        x as u32
    }
}

/// Reads the 80-bit extended number at `*at` as a whole number and moves
/// `*at` behind it.
pub fn parse_ieee_extended(reader: &Vec<u8>, at: &mut usize) -> (r: DecodeResult<u32>)
    ensures
        *old(at) + 10 <= reader.len() ==> r == Ok::<u32, DecodeError>(
            spec_extended(reader@, *old(at) as int),
        ) && *final(at) == *old(at) + 10,
        *old(at) + 10 > reader.len() ==> r == Err::<u32, DecodeError>(DecodeError::UnexpectedEof),
{
    let start = *at;
    if start > reader.len() || 10 > reader.len() - start {
        return Err(DecodeError::UnexpectedEof);
    }
    let negative = reader[start] >= 128;
    let exponent: u32 = (reader[start] % 128) as u32 * 256 + reader[start + 1] as u32;
    let mut cursor = start + 2;
    let mantissa = match parse_bytes(reader, &mut cursor, 8, false) {
        Ok(m) => m,
        Err(e) => {
            return Err(e);
        },
    };
    proof {
        lemma_be_bound(reader@, start + 2, 8);
        lemma_pow256(8);
    }
    *at = start + 10;
    if exponent == 0x7FFF {
        return Ok(if mantissa == 0 && !negative { 0xffff_ffff } else { 0 });
    }
    if negative {
        return Ok(0);
    }
    if exponent >= 16446 {
        Ok(scale_up(mantissa, exponent - 16446))
    } else {
        Ok(scale_down(mantissa, 16446 - exponent))
    }
}

/// The 16-bit sample whose high byte stands at `at`.
pub open spec fn be_sample(b: Seq<u8>, at: int) -> i16 {
    let v = 256 * b[at] as int + b[at + 1] as int;
    if v >= 32768 {
        (v - 65536) as i16
    } else {
        v as i16
    }
}

/// How an AIFF file lies.
pub struct AiffLayout {
    pub channels: u32,
    pub rate: u32,
    pub bits: u32,
    pub data_size: nat,
}

/// The layout of the file with the bytes `b`: a common chunk of 18 bytes at
/// 12 and a sound chunk at 38, whose samples start at 54.
pub open spec fn spec_layout(b: Seq<u8>) -> Result<AiffLayout, DecodeFault> {
    if b.len() < 20 {
        Err(DecodeFault::UnexpectedEof)
    } else if be_value(b, 16, 4) != 18 {
        Err(DecodeFault::InvalidData("Comm size should be 18"@))
    } else if b.len() < 46 {
        Err(DecodeFault::UnexpectedEof)
    } else if be_value(b, 42, 4) < 8 {
        Err(DecodeFault::InvalidData("Sound chunk is too short"@))
    } else if b.len() < 54 || b.len() < 54 + 2 * (((be_value(b, 42, 4) - 8) + 1) / 2) {
        Err(DecodeFault::UnexpectedEof)
    } else {
        Ok(
            AiffLayout {
                channels: be_value(b, 20, 2) as u32,
                rate: spec_extended(b, 28),
                bits: be_value(b, 26, 2) as u32,
                data_size: (be_value(b, 42, 4) - 8) as nat,
            },
        )
    }
}

/// The samples of a file that lies as `layout` says.
pub open spec fn spec_samples(b: Seq<u8>, layout: AiffLayout) -> Seq<i16> {
    Seq::new((layout.data_size + 1) / 2, |i: int| be_sample(b, 54 + 2 * i))
}

/// Steps over a four-byte chunk name.
fn print_id(reader: &Vec<u8>, at: &mut usize) -> (r: DecodeResult<()>)
    ensures
        *old(at) + 4 <= reader.len() ==> r.is_ok() && *final(at) == *old(at) + 4,
        *old(at) + 4 > reader.len() ==> r == Err::<(), DecodeError>(DecodeError::UnexpectedEof),
{
    if *at > reader.len() || 4 > reader.len() - *at {
        return Err(DecodeError::UnexpectedEof);
    }
    *at = *at + 4;
    Ok(())
}

/// Reads a number of `inc` bytes, most significant byte first.
fn parse_number(reader: &Vec<u8>, at: &mut usize, inc: usize) -> (r: DecodeResult<u32>)
    requires
        inc <= 4,
    ensures
        *old(at) + inc <= reader.len() ==> r.is_ok() && r.unwrap() == be_value(
            reader@,
            *old(at) as int,
            inc as int,
        ) && *final(at) == *old(at) + inc,
        *old(at) + inc > reader.len() ==> r == Err::<u32, DecodeError>(DecodeError::UnexpectedEof),
{
    proof {
        lemma_be_bound(reader@, *at as int, inc as int);
        lemma_pow256(inc as int);
    }
    match parse_bytes(reader, at, inc, false) {
        Ok(v) => Ok(v as u32),
        Err(e) => Err(e),
    }
}

/// Reads the `count` samples that start at `from`.
pub fn read_samples(reader: &Vec<u8>, from: usize, count: usize) -> (r: Vec<i16>)
    requires
        from + 2 * count <= reader.len(),
    ensures
        r@ == Seq::new(count as nat, |i: int| be_sample(reader@, from + 2 * i)),
{
    let mut samples: Vec<i16> = Vec::new();
    let mut k: usize = 0;
    while k < count
        invariant
            k <= count,
            from + 2 * count <= reader.len(),
            samples@ == Seq::new(k as nat, |i: int| be_sample(reader@, from + 2 * i)),
        decreases count - k,
    {
        let i: usize = from + 2 * k;
        let v: u32 = 256 * (reader[i] as u32) + reader[i + 1] as u32;
        let s: i16 = if v >= 32768 {
            (v as i32 - 65536) as i16
        } else {
            v as i16
        };
        samples.push(s);
        assert(samples@ =~= Seq::new((k + 1) as nat, |i: int| be_sample(reader@, from + 2 * i)));
        k += 1;
    }
    samples
}

/// Reads the layout of an AIFF file.
fn layout(reader: &Vec<u8>) -> (r: Result<(u32, u32, u32, u32), DecodeError>)
    ensures
        match r {
            Ok(l) => spec_layout(reader@).is_ok() && spec_layout(reader@)->Ok_0 == (AiffLayout {
                channels: l.0,
                rate: l.1,
                bits: l.2,
                data_size: l.3 as nat,
            }) && 54 + 2 * ((l.3 + 1) / 2) <= reader.len(),
            Err(e) => spec_layout(reader@) == Err::<AiffLayout, DecodeFault>(e@),
        },
{
    let mut at: usize = 0;
    // "FORM", the size of the rest, "AIFF", "COMM" and the size of the
    // common chunk
    print_id(reader, &mut at)?;
    let _form_size = parse_number(reader, &mut at, 4)?;
    print_id(reader, &mut at)?;
    print_id(reader, &mut at)?;
    let comm_size = parse_number(reader, &mut at, 4)?;
    if comm_size != 18 {
        return Err(DecodeError::InvalidData(String::from_str("Comm size should be 18")));
    }
    let num_channels = parse_number(reader, &mut at, 2)?;
    let _num_frames = parse_number(reader, &mut at, 4)?;
    let sample_size = parse_number(reader, &mut at, 2)?;
    let sample_rate = parse_ieee_extended(reader, &mut at)?;
    // "SSND", the size of the sound chunk, the offset and the block size
    print_id(reader, &mut at)?;
    let chunk_size = parse_number(reader, &mut at, 4)?;
    if chunk_size < 8 {
        return Err(DecodeError::InvalidData(String::from_str("Sound chunk is too short")));
    }
    let ssnd_size = chunk_size - 8;
    let _offset = parse_number(reader, &mut at, 4)?;
    let _block_size = parse_number(reader, &mut at, 4)?;
    let need: u64 = 54 + 2 * ((ssnd_size as u64 + 1) / 2);
    if need > reader.len() as u64 {
        return Err(DecodeError::UnexpectedEof);
    }
    Ok((num_channels, sample_rate, sample_size, ssnd_size))
}

/// Decodes the bytes of the AIFF file at `path`. The track's name is the
/// file's name without directory and extension.
pub fn decode(path: &str, reader: &Vec<u8>) -> (r: DecodeResult<AudioFile>)
    ensures
        match r {
            Ok(af) => spec_layout(reader@).is_ok() && spec_file_name(path@).is_ok() && ({
                let l = spec_layout(reader@)->Ok_0;
                &&& af.file_name@ == spec_file_name(path@)->Ok_0
                &&& af.format@ == "aiff"@
                &&& af.sample_rate == l.rate
                &&& af.num_channels == l.channels
                &&& af.bits_per_sample == l.bits
                &&& af.samples@ == spec_samples(reader@, l)
            }),
            Err(e) => match spec_layout(reader@) {
                Err(fault) => e@ == fault,
                Ok(_) => spec_file_name(path@).is_err() && e@ == spec_name_error(
                    spec_file_name(path@)->Err_0,
                ),
            },
        },
{
    let (channels, rate, bits, size) = match layout(reader) {
        Ok(l) => l,
        Err(e) => {
            return Err(e);
        },
    };
    let count: usize = ((size as u64 + 1) / 2) as usize;
    let samples = read_samples(reader, 54, count);
    let name = match file_name(path) {
        Ok(name) => name,
        Err(e) => {
            return Err(name_error(e));
        },
    };
    Ok(AudioFile::new(name.as_str(), "aiff", rate, channels, bits, samples))
}

} // verus!
