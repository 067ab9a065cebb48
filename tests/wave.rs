use wavefile::{Frame, WavError, WaveFile, FORMAT_IEE_FLOAT, FORMAT_PCM};

fn push_u16(b: &mut Vec<u8>, v: u16) {
    b.extend_from_slice(&v.to_le_bytes());
}

fn push_u32(b: &mut Vec<u8>, v: u32) {
    b.extend_from_slice(&v.to_le_bytes());
}

fn push_fmt(b: &mut Vec<u8>, format: u16, channels: u16, rate: u32, bits: u16) {
    let align = channels * (bits / 8);
    b.extend_from_slice(b"fmt ");
    push_u32(b, 16);
    push_u16(b, format);
    push_u16(b, channels);
    push_u32(b, rate);
    push_u32(b, rate * align as u32);
    push_u16(b, align);
    push_u16(b, bits);
}

fn riff_header() -> Vec<u8> {
    let mut b = Vec::new();
    b.extend_from_slice(b"RIFF");
    push_u32(&mut b, 0);
    b.extend_from_slice(b"WAVE");
    b
}

/// A container with one format chunk and a data chunk holding `data`.
fn wav(format: u16, channels: u16, rate: u32, bits: u16, data: &[u8]) -> Vec<u8> {
    let mut b = riff_header();
    push_fmt(&mut b, format, channels, rate, bits);
    b.extend_from_slice(b"data");
    push_u32(&mut b, data.len() as u32);
    b.extend_from_slice(data);
    b
}

fn push_u24(b: &mut Vec<u8>, v: u32) {
    b.extend_from_slice(&v.to_le_bytes()[..3]);
}

/// Stereo, 48000 Hz, 24 bits, 501888 frames of six bytes that start with the
/// frames (19581, 19581) and (24337, 24337).
fn stereo_fixture() -> Vec<u8> {
    let mut data = Vec::with_capacity(501_888 * 6);
    for v in [19581u32, 19581, 24337, 24337] {
        push_u24(&mut data, v);
    }
    data.resize(501_888 * 6, 0);
    wav(FORMAT_PCM, 2, 48000, 24, &data)
}

fn open(bytes: Vec<u8>) -> WaveFile {
    match WaveFile::from_bytes(bytes) {
        Ok(f) => f,
        Err(e) => panic!("Error: {:?}", e),
    }
}

#[test]
fn test_parse_file_info() {
    let file = open(stereo_fixture());
    let info = file.info();
    assert_eq!(info.audio_format, FORMAT_PCM);
    assert_eq!(info.channels, 2);
    assert_eq!(info.samples_rate, 48000);
    assert_eq!(info.byte_rate, 288000);
    assert_eq!(info.block_align, 6);
    assert_eq!(info.bits_per_sample, 24);
    assert_eq!(info.total_frames, 501888);
}

#[test]
fn test_read_frame_values() {
    let mut file = open(stereo_fixture());
    let frames = vec![file.next_frame().unwrap(), file.next_frame().unwrap()];
    let expected = vec![Frame::Stereo(19581, 19581), Frame::Stereo(24337, 24337)];
    for i in 0..expected.len() {
        assert_eq!(frames[i], expected[i]);
    }
}

#[test]
fn test_read_all_frames() {
    let mut file = open(stereo_fixture());
    let frames = file.collect_frames();
    assert_eq!(frames.len(), 501888);
}

fn parse_error(bytes: Vec<u8>) -> &'static str {
    match WaveFile::from_bytes(bytes) {
        Err(WavError::ParseError(m)) => m,
        other => panic!("expected a parse error, got {:?}", other.map(|f| f.info())),
    }
}

#[test]
fn not_riff_is_parse_error() {
    let mut b = wav(FORMAT_PCM, 1, 8000, 8, &[1, 2, 3]);
    b[0] = b'X';
    assert_eq!(parse_error(b), "Not a Wavefile");
    let mut b = wav(FORMAT_PCM, 1, 8000, 8, &[1, 2, 3]);
    b[8..12].copy_from_slice(b"AVI ");
    assert_eq!(parse_error(b), "Not a Wavefile");
}

#[test]
fn short_input_is_parse_error() {
    assert_eq!(parse_error(Vec::new()), "Unexpected EOF");
    assert_eq!(parse_error(b"RIFF\0\0\0\0WAV".to_vec()), "Unexpected EOF");
    assert_eq!(parse_error(riff_header()), "Unexpected EOF");
    let mut b = riff_header();
    b.extend_from_slice(b"fmt ");
    push_u32(&mut b, 16);
    push_u16(&mut b, 1);
    assert_eq!(parse_error(b), "Unexpected EOF");
}

#[test]
fn non_pcm_is_unsupported() {
    let b = wav(FORMAT_IEE_FLOAT, 2, 44100, 32, &[0; 16]);
    assert!(matches!(
        WaveFile::from_bytes(b),
        Err(WavError::Unsupported("Non-PCM Format"))
    ));
}

#[test]
fn zero_channels_is_parse_error() {
    let b = wav(FORMAT_PCM, 0, 44100, 16, &[0; 16]);
    assert_eq!(parse_error(b), "Invalid channel or bits per sample value found");
}

#[test]
fn narrow_samples_are_parse_error() {
    let b = wav(FORMAT_PCM, 1, 44100, 4, &[0; 16]);
    assert_eq!(parse_error(b), "Invalid channel or bits per sample value found");
}

#[test]
fn missing_format_chunk() {
    let mut b = riff_header();
    b.extend_from_slice(b"data");
    push_u32(&mut b, 4);
    b.extend_from_slice(&[0; 4]);
    assert_eq!(parse_error(b), "Format Chunk not found");
}

#[test]
fn unknown_chunk_is_parse_error() {
    let mut b = riff_header();
    push_fmt(&mut b, FORMAT_PCM, 1, 8000, 8);
    b.extend_from_slice(b"junk");
    push_u32(&mut b, 0);
    assert_eq!(parse_error(b), "Unexpected Chunk ID");
}

#[test]
fn list_chunk_is_skipped() {
    let mut b = riff_header();
    b.extend_from_slice(b"LIST");
    push_u32(&mut b, 6);
    b.extend_from_slice(b"INFOab");
    push_fmt(&mut b, FORMAT_PCM, 1, 8000, 16);
    b.extend_from_slice(b"data");
    push_u32(&mut b, 4);
    b.extend_from_slice(&[0x34, 0x12, 0xff, 0xff]);
    let mut f = open(b);
    assert_eq!(f.info().total_frames, 2);
    assert_eq!(f.next_frame(), Some(Frame::Mono(0x1234)));
    assert_eq!(f.next_frame(), Some(Frame::Mono(0xffff)));
    assert_eq!(f.next_frame(), None);
}

#[test]
fn extended_format_chunk_is_skipped_whole() {
    let mut b = riff_header();
    b.extend_from_slice(b"fmt ");
    push_u32(&mut b, 18);
    push_u16(&mut b, FORMAT_PCM);
    push_u16(&mut b, 1);
    push_u32(&mut b, 8000);
    push_u32(&mut b, 8000);
    push_u16(&mut b, 1);
    push_u16(&mut b, 8);
    push_u16(&mut b, 0);
    b.extend_from_slice(b"data");
    push_u32(&mut b, 2);
    b.extend_from_slice(&[7, 9]);
    let mut f = open(b);
    assert_eq!(f.collect_frames(), vec![Frame::Mono(7), Frame::Mono(9)]);
}

#[test]
fn total_frames_rounds_down() {
    // 3 channels of 16 bits: 6 bytes a frame; 20 bytes hold 3 whole frames.
    let f = open(wav(FORMAT_PCM, 3, 8000, 16, &[0; 20]));
    assert_eq!(f.info().total_frames, 3);
    // 12 bits: the divisor is 2 * 12 / 8 = 3.
    let f = open(wav(FORMAT_PCM, 2, 8000, 12, &[0; 10]));
    assert_eq!(f.info().total_frames, 3);
}

#[test]
fn multi_channel_frames() {
    let data = [1, 0, 2, 0, 3, 0, 4, 0, 5, 0, 6, 0];
    let mut f = open(wav(FORMAT_PCM, 3, 8000, 16, &data));
    assert_eq!(
        f.collect_frames(),
        vec![Frame::Multi(vec![1, 2, 3]), Frame::Multi(vec![4, 5, 6])]
    );
}

#[test]
fn wide_samples_are_little_endian() {
    let data = [0xff, 0xff, 0xff, 0xff, 0x01, 0x02, 0x03, 0x04];
    let mut f = open(wav(FORMAT_PCM, 2, 8000, 32, &data));
    assert_eq!(f.next_frame(), Some(Frame::Stereo(0xffff_ffff, 0x0403_0201)));
}

#[test]
fn eight_bit_samples_stay_in_range() {
    let mut f = open(wav(FORMAT_PCM, 1, 8000, 8, &[0, 128, 255]));
    assert_eq!(
        f.collect_frames(),
        vec![Frame::Mono(0), Frame::Mono(128), Frame::Mono(255)]
    );
}

#[test]
fn exhaustion_is_idempotent() {
    let mut f = open(wav(FORMAT_PCM, 2, 8000, 8, &[1, 2, 3, 4]));
    assert_eq!(f.collect_frames().len(), 2);
    assert_eq!(f.current_frame(), 2);
    assert_eq!(f.next_frame(), None);
    assert_eq!(f.next_frame(), None);
    assert_eq!(f.collect_frames().len(), 0);
    assert_eq!(f.current_frame(), 2);
}

#[test]
fn truncated_data_ends_early() {
    let mut b = riff_header();
    push_fmt(&mut b, FORMAT_PCM, 2, 8000, 16);
    b.extend_from_slice(b"data");
    push_u32(&mut b, 400);
    b.extend_from_slice(&[1, 0, 2, 0, 3, 0, 4, 0, 5, 0]);
    let mut f = open(b);
    assert_eq!(f.info().total_frames, 100);
    assert_eq!(
        f.collect_frames(),
        vec![Frame::Stereo(1, 2), Frame::Stereo(3, 4)]
    );
    assert_eq!(f.next_frame(), None);
}

#[test]
fn io_error_converts() {
    let e = std::io::Error::new(std::io::ErrorKind::NotFound, "gone");
    assert!(matches!(WavError::from(e), WavError::IoError(_)));
}
