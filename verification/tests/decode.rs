use blast::file_parsing::aiff;
use blast::file_parsing::decode_helpers::{AudioFile, DecodeError};
use blast::file_parsing::helpers::{file_name, parse_bytes, NameError};
use blast::file_parsing::mpeg::{match_bitrate, match_sr, parse_header, Frame, Header, Version};
use blast::file_parsing::mpeg;
use blast::file_parsing::wav;
use blast::file_parsing::wav::FormatCode;

fn wav_bytes(fmt_size: u32, extension: &[u8], channels: u16, rate: u32, data: &[u8]) -> Vec<u8> {
    let mut b = Vec::new();
    b.extend_from_slice(b"RIFF");
    b.extend_from_slice(&0u32.to_le_bytes());
    b.extend_from_slice(b"WAVE");
    b.extend_from_slice(b"fmt ");
    b.extend_from_slice(&fmt_size.to_le_bytes());
    b.extend_from_slice(&1u16.to_le_bytes());
    b.extend_from_slice(&channels.to_le_bytes());
    b.extend_from_slice(&rate.to_le_bytes());
    b.extend_from_slice(&(rate * 2 * channels as u32).to_le_bytes());
    b.extend_from_slice(&(2 * channels).to_le_bytes());
    b.extend_from_slice(&16u16.to_le_bytes());
    b.extend_from_slice(extension);
    b.extend_from_slice(b"data");
    b.extend_from_slice(&(data.len() as u32).to_le_bytes());
    b.extend_from_slice(data);
    b
}

#[test]
fn wav_is_decoded() {
    let bytes = wav_bytes(16, &[], 2, 44100, &[1, 0, 0xff, 0xff, 0x00, 0x80, 0xff, 0x7f]);
    let af: AudioFile = wav::decode("assets/fairies.wav", &bytes).unwrap();
    assert_eq!(af.file_name, "fairies");
    assert_eq!(af.format, "wav");
    assert_eq!(af.sample_rate, 44100);
    assert_eq!(af.num_channels, 2);
    assert_eq!(af.bits_per_sample, 16);
    assert_eq!(af.samples, vec![1, -1, -32768, 32767]);
}

#[test]
fn wav_with_an_extension_is_decoded() {
    let empty = wav_bytes(18, &[0, 0], 1, 48000, &[2, 0]);
    assert_eq!(wav::decode("a/b.wav", &empty).unwrap().samples, vec![2]);
    let mut extension = vec![22, 0];
    extension.extend_from_slice(&[0u8; 8 + 91]);
    let full = wav_bytes(40, &extension, 1, 48000, &[3, 0, 4, 0]);
    let af = wav::decode("a/b.wav", &full).unwrap();
    assert_eq!(af.samples, vec![3, 4]);
    assert_eq!(af.sample_rate, 48000);
}

#[test]
fn wav_that_ends_early_is_refused() {
    let bytes = wav_bytes(16, &[], 2, 44100, &[1, 0, 2, 0]);
    for cut in [0, 3, 21, 35, 40, 43, 45, 47] {
        assert!(matches!(
            wav::decode("a/b.wav", &bytes[..cut].to_vec()),
            Err(DecodeError::UnexpectedEof)
        ));
    }
    assert!(wav::decode("a/b.wav", &bytes).is_ok());
    // an odd number of bytes of data needs the byte behind them
    let odd = wav_bytes(16, &[], 1, 44100, &[1, 0, 2]);
    assert!(matches!(wav::decode("a/b.wav", &odd), Err(DecodeError::UnexpectedEof)));
}

#[test]
fn wav_of_unknown_coding_is_refused() {
    let mut bytes = wav_bytes(16, &[], 2, 44100, &[1, 0]);
    bytes[20] = 2;
    assert!(matches!(wav::decode("a/b.wav", &bytes), Err(DecodeError::UnsupportedFormat(_))));
}

#[test]
fn wav_needs_a_name() {
    let bytes = wav_bytes(16, &[], 2, 44100, &[1, 0]);
    assert!(matches!(wav::decode("fairies.wav", &bytes), Err(DecodeError::InvalidData(_))));
    assert!(matches!(wav::decode("assets/fairies", &bytes), Err(DecodeError::InvalidData(_))));
}

#[test]
fn format_codes() {
    assert_eq!(FormatCode::from_u16(1), Some(FormatCode::WaveFormatPcm));
    assert_eq!(FormatCode::from_u16(3), Some(FormatCode::WaveFormatIeeeFloat));
    assert_eq!(FormatCode::from_u16(6), Some(FormatCode::WaveFormatAlaw));
    assert_eq!(FormatCode::from_u16(7), Some(FormatCode::WaveFormatMulaw));
    assert_eq!(FormatCode::from_u16(0xFFFE), Some(FormatCode::WaveFormatExtensible));
    assert_eq!(FormatCode::from_u16(2), None);
}

#[test]
fn chunk_names_are_stepped_over() {
    let bytes = b"RIFFxx".to_vec();
    let (mut start, mut end) = (0, 0);
    assert!(wav::print_id(&bytes, &mut start, &mut end).is_ok());
    assert_eq!((start, end), (4, 4));
    assert!(matches!(
        wav::print_id(&bytes, &mut start, &mut end),
        Err(DecodeError::UnexpectedEof)
    ));
    assert_eq!((start, end), (4, 8));
}

#[test]
fn numbers_are_read_both_ways() {
    let bytes = vec![0x12, 0x34, 0x56, 0x78, 0x9a];
    let mut at = 0;
    assert_eq!(parse_bytes(&bytes, &mut at, 4, true).unwrap(), 0x78563412);
    assert_eq!(at, 4);
    at = 1;
    assert_eq!(parse_bytes(&bytes, &mut at, 2, false).unwrap(), 0x3456);
    assert_eq!(at, 3);
    assert!(matches!(parse_bytes(&bytes, &mut at, 4, true), Err(DecodeError::UnexpectedEof)));
    assert_eq!(at, 3);
    assert_eq!(parse_bytes(&bytes, &mut at, 0, true).unwrap(), 0);
    let eight = vec![1, 2, 3, 4, 5, 6, 7, 8];
    at = 0;
    assert_eq!(parse_bytes(&eight, &mut at, 8, false).unwrap(), 0x0102030405060708);
    at = 0;
    assert_eq!(parse_bytes(&eight, &mut at, 8, true).unwrap(), 0x0807060504030201);
}

#[test]
fn names_come_from_paths() {
    assert_eq!(file_name("assets/winterly.aif").unwrap(), "winterly");
    assert_eq!(file_name("a/b/c.d.wav").unwrap(), "c.d");
    assert_eq!(file_name("a/.wav").unwrap(), "");
    assert!(matches!(file_name("winterly.aif"), Err(NameError::NotNested)));
    assert!(matches!(file_name("assets/winterly"), Err(NameError::NoName)));
    assert!(matches!(file_name("assets/winterly."), Err(NameError::NoName)));
    assert!(matches!(file_name(".aif"), Err(NameError::NoName)));
    assert!(matches!(file_name("a.b/c"), Err(NameError::NotNested)));
}

fn extended(rate: u32) -> [u8; 10] {
    let mut out = [0u8; 10];
    if rate == 0 {
        return out;
    }
    let top = 31 - rate.leading_zeros();
    let exponent = 16383 + top;
    let mantissa = (rate as u64) << (63 - top);
    out[0] = (exponent >> 8) as u8;
    out[1] = exponent as u8;
    out[2..].copy_from_slice(&mantissa.to_be_bytes());
    out
}

fn aiff_bytes(comm_size: u32, rate: [u8; 10], chunk_size: u32, data: &[u8]) -> Vec<u8> {
    let mut b = Vec::new();
    b.extend_from_slice(b"FORM");
    b.extend_from_slice(&0u32.to_be_bytes());
    b.extend_from_slice(b"AIFF");
    b.extend_from_slice(b"COMM");
    b.extend_from_slice(&comm_size.to_be_bytes());
    b.extend_from_slice(&2u16.to_be_bytes());
    b.extend_from_slice(&((data.len() / 4) as u32).to_be_bytes());
    b.extend_from_slice(&16u16.to_be_bytes());
    b.extend_from_slice(&rate);
    b.extend_from_slice(b"SSND");
    b.extend_from_slice(&chunk_size.to_be_bytes());
    b.extend_from_slice(&0u32.to_be_bytes());
    b.extend_from_slice(&0u32.to_be_bytes());
    b.extend_from_slice(data);
    b
}

#[test]
fn aiff_is_decoded() {
    let data = [0, 1, 0xff, 0xff, 0x80, 0x00, 0x7f, 0xff];
    let bytes = aiff_bytes(18, extended(44100), 8 + data.len() as u32, &data);
    let af = aiff::decode("assets/winterly.aif", &bytes).unwrap();
    assert_eq!(af.file_name, "winterly");
    assert_eq!(af.format, "aiff");
    assert_eq!(af.sample_rate, 44100);
    assert_eq!(af.num_channels, 2);
    assert_eq!(af.bits_per_sample, 16);
    assert_eq!(af.samples, vec![1, -1, -32768, 32767]);
}

#[test]
fn aiff_that_is_wrong_is_refused() {
    let data = [0, 1, 0, 2];
    let good = aiff_bytes(18, extended(48000), 12, &data);
    assert!(aiff::decode("a/b.aif", &good).is_ok());
    for cut in [0, 19, 30, 45, 53, 57] {
        assert!(matches!(
            aiff::decode("a/b.aif", &good[..cut].to_vec()),
            Err(DecodeError::UnexpectedEof)
        ));
    }
    let comm = aiff_bytes(20, extended(48000), 12, &data);
    assert!(matches!(aiff::decode("a/b.aif", &comm), Err(DecodeError::InvalidData(_))));
    let short = aiff_bytes(18, extended(48000), 7, &data);
    assert!(matches!(aiff::decode("a/b.aif", &short), Err(DecodeError::InvalidData(_))));
    assert!(matches!(aiff::decode("b.aif", &good), Err(DecodeError::InvalidData(_))));
}

fn read_extended(bytes: [u8; 10]) -> u32 {
    let mut at = 0;
    let v = aiff::parse_ieee_extended(&bytes.to_vec(), &mut at).unwrap();
    assert_eq!(at, 10);
    v
}

#[test]
fn extended_numbers_are_read() {
    for rate in [1, 2, 3, 8000, 11025, 22050, 44100, 48000, 96000, 192000, u32::MAX] {
        assert_eq!(read_extended(extended(rate)), rate);
    }
    assert_eq!(read_extended([0; 10]), 0);
    // 44100.5 and 0.75 lose their fraction
    let mut half = extended(44100);
    let mantissa = ((44100u64 << 1) | 1) << (63 - 16);
    half[2..].copy_from_slice(&mantissa.to_be_bytes());
    assert_eq!(read_extended(half), 44100);
    let mut small = [0u8; 10];
    small[0] = 0x3f;
    small[1] = 0xfe;
    small[2] = 0xc0;
    assert_eq!(read_extended(small), 0);
    // negative numbers, infinities and what is no number
    let mut negative = extended(48000);
    negative[0] |= 0x80;
    assert_eq!(read_extended(negative), 0);
    let mut infinite = [0u8; 10];
    infinite[0] = 0x7f;
    infinite[1] = 0xff;
    assert_eq!(read_extended(infinite), u32::MAX);
    infinite[0] = 0xff;
    assert_eq!(read_extended(infinite), 0);
    infinite[0] = 0x7f;
    infinite[9] = 1;
    assert_eq!(read_extended(infinite), 0);
    // too large for 32 bits
    let mut large = extended(1);
    large[0] = 0x40;
    large[1] = 0x3f;
    assert_eq!(read_extended(large), u32::MAX);
    let mut at = 3;
    assert!(matches!(
        aiff::parse_ieee_extended(&vec![0u8; 12], &mut at),
        Err(DecodeError::UnexpectedEof)
    ));
}

#[test]
fn mpeg_tables() {
    // the version bits shifted by two never meet the two layer bits
    assert_eq!(match_bitrate(0, 3, 3), 8);
    assert_eq!(match_bitrate(13, 3, 1), 160);
    assert_eq!(match_bitrate(8, 2, 2), 80);
    assert_eq!(match_bitrate(14, 3, 3), 0);
    assert_eq!(match_sr(0b0000, 3), 44100);
    assert_eq!(match_sr(0b0100, 3), 48000);
    assert_eq!(match_sr(0b1000, 3), 32000);
    assert_eq!(match_sr(0b0011, 2), 22050);
    assert_eq!(match_sr(0b0100, 2), 24000);
    assert_eq!(match_sr(0b0000, 0), 11025);
    assert_eq!(match_sr(0b1000, 0), 8000);
    assert_eq!(match_sr(0b1100, 3), 0);
    assert_eq!(match_sr(0b0000, 1), 0);
}

#[test]
fn mpeg_header_is_read() {
    // 0xFFFB9064: bit 20 set, layer bits 01, not protected
    let raw = parse_header(0xFB, 0x90, 0x64).unwrap();
    assert_eq!(raw.version, 3);
    assert_eq!(raw.layer, 1);
    assert_eq!(raw.not_protected, 1);
    assert_eq!(raw.bitrate, 80);
    assert_eq!(raw.sr, 44100);
    assert_eq!(raw.padded, 0);
    assert_eq!(raw.channel_mode, 1);
    let header = Header::format(
        raw.version,
        raw.layer,
        raw.not_protected,
        raw.bitrate,
        raw.sr,
        raw.padded,
        raw.channel_mode,
    );
    assert_eq!(header.version, Version::V1);
    assert_eq!(header.layer, 3);
    assert!(!header.protected);
    assert!(!header.padded);
    assert_eq!(header.compute_frame_len().unwrap(), 144000 * 80 / 44100 - 4);
    assert_eq!(header.barf().3, 80);
    assert!(header.match_ref(&header));
    assert!(!header.match_ref(&Header::new()));
    assert!(matches!(parse_header(0xE3, 0x90, 0x64), Err(DecodeError::UnsupportedFormat(_))));
    assert!(matches!(parse_header(0xF9, 0x90, 0x64), Err(DecodeError::UnsupportedFormat(_))));
    assert!(matches!(parse_header(0xFB, 0x00, 0x64), Err(DecodeError::UnsupportedFormat(_))));
    assert!(matches!(parse_header(0xFB, 0xF0, 0x64), Err(DecodeError::UnsupportedFormat(_))));
    assert!(matches!(parse_header(0xFB, 0x9C, 0x64), Err(DecodeError::InvalidData(_))));
}

#[test]
fn mpeg_frame_lengths() {
    let mut h = Header::format(3, 3, 0, 128, 44100, 1, 0);
    assert_eq!(h.layer, 1);
    assert_eq!(h.compute_frame_len().unwrap(), 48000 * 128 / 44100 - 20 + 1);
    h.bitrate = 0;
    assert!(matches!(h.compute_frame_len(), Err(DecodeError::InvalidData(_))));
    h.bitrate = 128;
    h.sr = 0;
    assert!(matches!(h.compute_frame_len(), Err(DecodeError::InvalidData(_))));
    assert_eq!(Header::new().compute_frame_len().unwrap(), 16);
}

#[test]
fn mpeg_frames_give_their_data() {
    let frame = Frame::new(12, vec![1, 2, 3]);
    assert_eq!(frame.file_pos, 12);
    let mut bank = vec![9];
    frame.give_data(&mut bank);
    frame.give_data(&mut bank);
    assert_eq!(bank, vec![9, 1, 2, 3, 1, 2, 3]);
}

/// One frame of 80 kbit/s at 44100 Hz: four bytes of header and 257 of data,
/// each of them `fill`.
fn mpeg_frame(third: u8, fill: u8) -> Vec<u8> {
    let mut frame = vec![0xFF, 0xFB, third, 0x64];
    frame.extend(std::iter::repeat(fill).take(257));
    frame
}

#[test]
fn mpeg_scan_finds_where_frames_could_start() {
    let bytes = vec![0, 0xFF, 0xFB, 0x90, 0x64, 1, 0xFF, 0x7F, 0xFF, 0xE0, 0, 0, 0xFF, 0xFF, 0xFF];
    assert_eq!(mpeg::scan(&bytes), vec![1, 8]);
    assert_eq!(mpeg::scan(&vec![0xFF, 0xFB, 0x90]), Vec::<usize>::new());
    assert_eq!(mpeg::scan(&vec![0xFF, 0xFB, 0x90, 0x64]), vec![0]);
    // behind a start the search goes on four bytes further
    assert_eq!(mpeg::scan(&vec![0xFF, 0xFF, 0xFF, 0xFF, 0xFF, 0xFF, 0xFF, 0xFF, 0xFF]), vec![0, 4]);
    assert_eq!(mpeg::scan(&Vec::new()), Vec::<usize>::new());
}

#[test]
fn mpeg_reference_is_the_first_candidate_that_spells_a_header() {
    let mut bytes = vec![0xFF, 0xE0, 0, 0];
    bytes.extend(mpeg_frame(0x90, 7));
    let header = mpeg::reference(&bytes, &vec![0, 4]).unwrap();
    assert_eq!(header.version, Version::V1);
    assert_eq!(header.bitrate, 80);
    assert_eq!(header.sr, 44100);
    assert!(mpeg::reference(&bytes, &vec![0]).is_none());
    assert!(mpeg::reference(&bytes, &vec![]).is_none());
    assert!(mpeg::reference(&bytes, &vec![bytes.len() - 3, usize::MAX]).is_none());
}

#[test]
fn mpeg_frames_are_taken_from_their_places() {
    let bytes = mpeg_frame(0x90, 7);
    let header = mpeg::reference(&bytes, &vec![0]).unwrap();
    let frame = mpeg::frame_at(&bytes, &header, 0).unwrap().unwrap();
    assert_eq!(frame.file_pos, 0);
    assert_eq!(frame.data, vec![7u8; 257]);
    // no header at the place, or none at all
    assert!(mpeg::frame_at(&bytes, &header, 4).unwrap().is_none());
    assert!(mpeg::frame_at(&bytes, &header, 259).unwrap().is_none());
    // a frame of another sampling rate is of another stream
    let other = mpeg_frame(0x94, 7);
    assert!(mpeg::frame_at(&other, &header, 0).unwrap().is_none());
    // a frame that is cut short
    let short = bytes[..260].to_vec();
    assert!(matches!(mpeg::frame_at(&short, &header, 0), Err(DecodeError::UnexpectedEof)));
}

#[test]
fn mpeg_data_comes_in_the_order_of_the_file() {
    let mut bytes = vec![1, 2, 3];
    bytes.extend(mpeg_frame(0x90, 7));
    bytes.extend(mpeg_frame(0x94, 8));
    bytes.extend(mpeg_frame(0x90, 9));
    assert_eq!(mpeg::scan(&bytes), vec![3, 264, 525]);
    let mut expected = vec![7u8; 257];
    expected.extend(vec![9u8; 257]);
    assert_eq!(mpeg::decode(&bytes, &vec![3, 264]).unwrap(), expected);
    // with the other stream as the reference, its one frame is the data:
    // at 48000 Hz a frame holds 144000 * 80 / 48000 - 4 bytes
    assert_eq!(mpeg::decode(&bytes, &vec![264, 3]).unwrap(), vec![8u8; 236]);
    let header = mpeg::reference(&bytes, &vec![3]).unwrap();
    assert_eq!(mpeg::gather(&bytes, &header, &vec![525, 3]).unwrap().len(), 514);
    assert_eq!(mpeg::gather(&bytes, &header, &vec![525]).unwrap(), vec![9u8; 257]);
    assert_eq!(mpeg::gather(&bytes, &header, &vec![]).unwrap(), Vec::<u8>::new());
}

#[test]
fn mpeg_files_without_a_stream_or_cut_short_are_refused() {
    assert!(matches!(mpeg::decode(&vec![1, 2, 3, 4, 5], &vec![]), Err(DecodeError::InvalidData(_))));
    assert!(matches!(
        mpeg::decode(&vec![0xFF, 0xE0, 0, 0], &vec![0]),
        Err(DecodeError::InvalidData(_))
    ));
    let mut bytes = mpeg_frame(0x90, 7);
    bytes.extend(mpeg_frame(0x90, 9));
    bytes.truncate(500);
    assert!(matches!(mpeg::decode(&bytes, &vec![0]), Err(DecodeError::UnexpectedEof)));
}
