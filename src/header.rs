use vstd::prelude::*;

use crate::le::{lemma_le_uint_bound, le_at, read_u16_at, read_u32_at};
use vstd::arithmetic::power2::lemma2_to64;

verus! {

/// The `RIFF` tag, as a little-endian 32-bit value.
pub const RIFF: u32 = 0x46464952;
/// The `WAVE` form type.
pub const WAVE: u32 = 0x45564157;
/// The tag of the format chunk, `fmt `.
pub const FMT_: u32 = 0x20746d66;
/// The tag of the data chunk, `data`.
pub const DATA: u32 = 0x61746164;
/// The tag of a `LIST` chunk, which is skipped.
pub const LIST: u32 = 0x5453494c;

/// Format code of integer PCM, the only one that is decoded.
pub const FORMAT_PCM: u16 = 1;
/// Format code of IEEE floating-point samples (recognised, not decoded).
pub const FORMAT_IEE_FLOAT: u16 = 3;
/// Format code of WAVE_FORMAT_EXTENSIBLE (recognised, not decoded).
pub const FORMAT_WAV_EXTENDED: u16 = 0xfffe;

/// Length of the fields of a format chunk that are read.
pub const FMT_LEN: u32 = 16;

pub const MSG_EOF: &'static str = "Unexpected EOF";
pub const MSG_NOT_WAVE: &'static str = "Not a Wavefile";
pub const MSG_BAD_CHUNK: &'static str = "Unexpected Chunk ID";
pub const MSG_NO_FMT: &'static str = "Format Chunk not found";
pub const MSG_NON_PCM: &'static str = "Non-PCM Format";
pub const MSG_BAD_SHAPE: &'static str = "Invalid channel or bits per sample value found";

#[verifier::external_type_specification]
#[verifier::external_body]
pub struct ExIoError(std::io::Error);

/// Why a container could not be opened.
#[derive(Debug)]
pub enum WavError {
    /// The byte source itself failed.
    IoError(std::io::Error),
    /// A valid container whose audio encoding is not decoded here.
    Unsupported(&'static str),
    /// The bytes do not form the expected container structure.
    ParseError(&'static str),
}

impl From<std::io::Error> for WavError {
    fn from(e: std::io::Error) -> (r: WavError)
        ensures
            r == WavError::IoError(e),
    {
        WavError::IoError(e)
    }
}

impl vstd::std_specs::convert::FromSpecImpl<std::io::Error> for WavError {
    open spec fn obeys_from_spec() -> bool {
        true
    }

    open spec fn from_spec(e: std::io::Error) -> WavError {
        WavError::IoError(e)
    }
}

/// The descriptor of a PCM stream, as declared by its format and data chunks.
#[derive(Clone, Copy, Debug)]
pub struct WaveInfo {
    pub audio_format: u16,
    pub channels: u16,
    pub samples_rate: u32,
    pub byte_rate: u32,
    pub block_align: u16,
    pub bits_per_sample: u16,
    /// Whole frames in the data chunk; a trailing partial frame is not counted.
    pub total_frames: u32,
}

impl WaveInfo {
    /// Bytes that one sample of one channel takes.
    pub open spec fn sample_width(self) -> nat {
        self.bits_per_sample as nat / 8
    }

    /// Bytes that one frame takes: one sample of each channel.
    pub open spec fn frame_width(self) -> nat {
        self.channels as nat * self.sample_width()
    }

    /// The divisor of the data chunk's size that gives the frame count:
    /// `channels * bits_per_sample / 8`, rounded down.
    pub open spec fn frame_divisor(self) -> nat {
        (self.channels as nat * self.bits_per_sample as nat) / 8
    }

    /// What the header parser guarantees of every descriptor it returns.
    pub open spec fn wf(self) -> bool {
        &&& self.audio_format == FORMAT_PCM
        &&& self.channels >= 1
        &&& self.bits_per_sample >= 8
    }
}

/// The six fields of a format chunk whose payload starts at `at`.
pub open spec fn fmt_fields(s: Seq<u8>, at: int) -> WaveInfo {
    WaveInfo {
        audio_format: le_at(s, at, 2) as u16,
        channels: le_at(s, at + 2, 2) as u16,
        samples_rate: le_at(s, at + 4, 4) as u32,
        byte_rate: le_at(s, at + 8, 4) as u32,
        block_align: le_at(s, at + 12, 2) as u16,
        bits_per_sample: le_at(s, at + 14, 2) as u16,
        total_frames: 0,
    }
}

/// Where the chunk after a format chunk of declared size `size` starts,
/// relative to the start of its payload: the whole declared payload is
/// skipped, but never less than the sixteen bytes that were read.
pub open spec fn fmt_skip(size: nat) -> nat {
    if size < FMT_LEN { FMT_LEN as nat } else { size }
}

/// The chunk walk from the chunk header at `pos`, with `fmt` the format
/// fields seen so far: on success, the last format fields seen, the declared
/// size of the data chunk and the offset of its first byte.
pub open spec fn walk(s: Seq<u8>, pos: nat, fmt: Option<WaveInfo>) -> Result<
    (Option<WaveInfo>, nat, nat),
    WavError,
>
    decreases s.len() - pos,
{
    if pos + 8 > s.len() {
        Err(WavError::ParseError(MSG_EOF))
    } else {
        let id = le_at(s, pos as int, 4);
        let size = le_at(s, pos as int + 4, 4);
        if id == FMT_ {
            let next = pos + 8 + fmt_skip(size);
            if pos + 8 + FMT_LEN > s.len() || next > s.len() {
                Err(WavError::ParseError(MSG_EOF))
            } else {
                walk(s, next, Some(fmt_fields(s, pos as int + 8)))
            }
        } else if id == DATA {
            Ok((fmt, size, pos + 8))
        } else if id == LIST {
            let next = pos + 8 + size;
            if next > s.len() {
                Err(WavError::ParseError(MSG_EOF))
            } else {
                walk(s, next, fmt)
            }
        } else {
            Err(WavError::ParseError(MSG_BAD_CHUNK))
        }
    }
}

/// Whether `s` starts with the twelve bytes `RIFF`, a size, `WAVE`.
pub open spec fn riff_wave_prefix(s: Seq<u8>) -> bool {
    &&& s.len() >= 12
    &&& le_at(s, 0, 4) == RIFF
    &&& le_at(s, 8, 4) == WAVE
}

/// The descriptor that format fields `f` and a data chunk of `size` bytes give.
pub open spec fn info_of(f: WaveInfo, size: nat) -> WaveInfo {
    WaveInfo { total_frames: (size / f.frame_divisor()) as u32, ..f }
}

/// What parsing the header of `s` gives: the descriptor and the offset of the
/// first sample byte, or the error.
pub open spec fn header_spec(s: Seq<u8>) -> Result<(WaveInfo, nat), WavError> {
    if s.len() < 12 {
        Err(WavError::ParseError(MSG_EOF))
    } else if !riff_wave_prefix(s) {
        Err(WavError::ParseError(MSG_NOT_WAVE))
    } else {
        match walk(s, 12, None) {
            Err(e) => Err(e),
            Ok((None, _, _)) => Err(WavError::ParseError(MSG_NO_FMT)),
            Ok((Some(f), size, start)) => {
                if f.audio_format != FORMAT_PCM {
                    Err(WavError::Unsupported(MSG_NON_PCM))
                } else if f.channels == 0 || f.bits_per_sample < 8 {
                    Err(WavError::ParseError(MSG_BAD_SHAPE))
                } else {
                    Ok((info_of(f, size), start))
                }
            },
        }
    }
}

/// Reads the format fields of the payload that starts at `at`.
fn read_fmt_fields(s: &[u8], at: usize) -> (r: WaveInfo)
    requires
        at + FMT_LEN <= s@.len() <= usize::MAX,
    ensures
        r == fmt_fields(s@, at as int),
{
    WaveInfo {
        audio_format: read_u16_at(s, at),
        channels: read_u16_at(s, at + 2),
        samples_rate: read_u32_at(s, at + 4),
        byte_rate: read_u32_at(s, at + 8),
        block_align: read_u16_at(s, at + 12),
        bits_per_sample: read_u16_at(s, at + 14),
        total_frames: 0,
    }
}

/// Walks the chunks of a RIFF/WAVE container: checks the envelope, reads the
/// format chunk, skips `LIST` chunks and stops at the data chunk. Returns the
/// descriptor and the offset of the first sample byte.
pub fn read_header_chunks(s: &[u8]) -> (r: Result<(WaveInfo, usize), WavError>)
    ensures
        match r {
            Ok((info, start)) => header_spec(s@) == Ok::<(WaveInfo, nat), WavError>(
                (info, start as nat),
            ),
            Err(e) => header_spec(s@) == Err::<(WaveInfo, nat), WavError>(e),
        },
{
    let len = s.len();
    if len < 12 {
        return Err(WavError::ParseError(MSG_EOF));
    }
    let chunk_id = read_u32_at(s, 0);
    let riff_type = read_u32_at(s, 8);
    if chunk_id != RIFF || riff_type != WAVE {
        return Err(WavError::ParseError(MSG_NOT_WAVE));
    }
    let mut pos: usize = 12;
    let mut fmt: Option<WaveInfo> = None;
    let mut data_size: u32 = 0;
    loop
        invariant
            12 <= pos <= len,
            len == s@.len(),
            riff_wave_prefix(s@),
            walk(s@, 12, None) == walk(s@, pos as nat, fmt),
        ensures
            pos + 8 <= len,
            walk(s@, 12, None) == Ok::<(Option<WaveInfo>, nat, nat), WavError>(
                (fmt, data_size as nat, (pos + 8) as nat),
            ),
        decreases len - pos,
    {
        if len - pos < 8 {
            return Err(WavError::ParseError(MSG_EOF));
        }
        let id = read_u32_at(s, pos);
        let size = read_u32_at(s, pos + 4);
        let rest = len - pos - 8;
        if id == FMT_ {
            let skip: usize = if size < FMT_LEN { FMT_LEN as usize } else { size as usize };
            if rest < FMT_LEN as usize || rest < skip {
                return Err(WavError::ParseError(MSG_EOF));
            }
            fmt = Some(read_fmt_fields(s, pos + 8));
            pos = pos + 8 + skip;
        } else if id == DATA {
            data_size = size;
            break;
        } else if id == LIST {
            if rest < size as usize {
                return Err(WavError::ParseError(MSG_EOF));
            }
            pos = pos + 8 + size as usize;
        } else {
            return Err(WavError::ParseError(MSG_BAD_CHUNK));
        }
    }
    let f = match fmt {
        None => {
            return Err(WavError::ParseError(MSG_NO_FMT));
        },
        Some(f) => f,
    };
    if f.audio_format != FORMAT_PCM {
        return Err(WavError::Unsupported(MSG_NON_PCM));
    }
    if f.channels == 0 || f.bits_per_sample < 8 {
        return Err(WavError::ParseError(MSG_BAD_SHAPE));
    }
    let channels = f.channels as u32;
    let bits = f.bits_per_sample as u32;
    assert(channels * bits <= 0xffff * 0xffff) by (nonlinear_arith)
        requires
            channels <= 0xffff,
            bits <= 0xffff,
    ;
    let width = channels * bits / 8;
    assert(width >= 1) by (nonlinear_arith)
        requires
            width == channels * bits / 8,
            channels >= 1,
            bits >= 8,
    ;
    let info = WaveInfo { total_frames: data_size / width, ..f };
    Ok((info, pos + 8))
}

/// A successful parse starts the samples inside the container and gives a
/// well-formed descriptor.
pub proof fn lemma_header_ok(s: Seq<u8>)
    ensures
        header_spec(s) matches Ok((info, start)) ==> info.wf() && 8 <= start <= s.len(),
{
    if riff_wave_prefix(s) {
        lemma_walk_ok(s, 12, None);
    }
}

/// A chunk walk that succeeds ends on a data chunk whose header lies in `s`:
/// its size field is the four bytes before the first sample byte.
pub proof fn lemma_walk_ok(s: Seq<u8>, pos: nat, fmt: Option<WaveInfo>)
    ensures
        walk(s, pos, fmt) matches Ok((f, size, start)) ==> {
            &&& pos + 8 <= start <= s.len()
            &&& size == le_at(s, start - 4, 4)
        },
    decreases s.len() - pos,
{
    if pos + 8 <= s.len() {
        let id = le_at(s, pos as int, 4);
        let size = le_at(s, pos as int + 4, 4);
        if id == FMT_ {
            let next = pos + 8 + fmt_skip(size);
            if pos + 8 + FMT_LEN <= s.len() && next <= s.len() {
                lemma_walk_ok(s, next, Some(fmt_fields(s, pos as int + 8)));
            }
        } else if id == LIST {
            let next = pos + 8 + size;
            if next <= s.len() {
                lemma_walk_ok(s, next, fmt);
            }
        }
    }
}

/// Opening fails with a format error on every input that does not start
/// with `RIFF`, a size and `WAVE`.
pub proof fn lemma_not_riff_wave(s: Seq<u8>)
    requires
        !riff_wave_prefix(s),
    ensures
        header_spec(s) matches Err(WavError::ParseError(_)),
{
}

/// Opening fails as unsupported on every input whose chunk walk reaches the
/// data chunk with a format chunk of a code other than PCM.
pub proof fn lemma_non_pcm_unsupported(s: Seq<u8>, f: WaveInfo, size: nat, start: nat)
    requires
        riff_wave_prefix(s),
        walk(s, 12, None) == Ok::<(Option<WaveInfo>, nat, nat), WavError>((Some(f), size, start)),
        f.audio_format != FORMAT_PCM,
    ensures
        header_spec(s) matches Err(WavError::Unsupported(_)),
{
}

/// Opening fails with a format error on every PCM input whose format chunk
/// declares no channel or samples narrower than eight bits.
pub proof fn lemma_bad_shape_rejected(s: Seq<u8>, f: WaveInfo, size: nat, start: nat)
    requires
        riff_wave_prefix(s),
        walk(s, 12, None) == Ok::<(Option<WaveInfo>, nat, nat), WavError>((Some(f), size, start)),
        f.audio_format == FORMAT_PCM,
        f.channels == 0 || f.bits_per_sample < 8,
    ensures
        header_spec(s) matches Err(WavError::ParseError(_)),
{
}

/// The frame count of an opened container is the data chunk's declared size
/// divided by `channels * bits_per_sample / 8`, rounded down.
pub proof fn lemma_total_frames(s: Seq<u8>)
    ensures
        header_spec(s) matches Ok((info, start)) ==> {
            &&& start >= 8
            &&& info.total_frames == le_at(s, start - 4, 4) / info.frame_divisor()
        },
{
    if let Ok((info, start)) = header_spec(s) {
        lemma_walk_ok(s, 12, None);
        lemma_header_ok(s);
        let size = le_at(s, start - 4, 4);
        lemma_le_uint_bound(s.subrange(start - 4, start as int));
        lemma2_to64();
        let d = info.frame_divisor();
        assert(d >= 1) by (nonlinear_arith)
            requires
                d == (info.channels as nat * info.bits_per_sample as nat) / 8,
                info.channels >= 1,
                info.bits_per_sample >= 8,
        ;
        assert(size / d <= size) by (nonlinear_arith)
            requires
                d >= 1,
        ;
    }
}

} // verus!
