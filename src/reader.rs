use vstd::prelude::*;

use crate::header::{header_spec, read_header_chunks, WavError, WaveInfo};
use crate::le::{lemma_le_uint_bound, le_at, read_uint_at};
use vstd::arithmetic::div_mod::{lemma_fundamental_div_mod, lemma_fundamental_div_mod_converse};
use vstd::arithmetic::power2::{lemma2_to64, lemma_pow2_strictly_increases, pow2};

verus! {

/// The samples of one instant, one per channel, in the file's channel order.
#[derive(Debug, PartialEq)]
pub enum Frame {
    Mono(u32),
    Stereo(u32, u32),
    /// Three channels or more.
    Multi(Vec<u32>),
}

impl View for Frame {
    type V = Seq<u32>;

    /// The samples of the frame, channel by channel.
    open spec fn view(&self) -> Seq<u32> {
        match self {
            Frame::Mono(a) => seq![*a],
            Frame::Stereo(a, b) => seq![*a, *b],
            Frame::Multi(v) => v@,
        }
    }
}

impl Frame {
    /// The variant matches the channel count: `Multi` is kept for three or more.
    pub open spec fn well_shaped(&self) -> bool {
        match self {
            Frame::Multi(v) => v@.len() >= 3,
            _ => true,
        }
    }
}

/// The sample of width `w` bytes that starts at `at`, zero-extended; a sample
/// wider than four bytes keeps its low 32 bits.
pub open spec fn sample_at(s: Seq<u8>, at: int, w: nat) -> u32 {
    (le_at(s, at, w as int) % 0x1_0000_0000) as u32
}

/// The `channels` interleaved samples of width `w` that start at `pos`.
pub open spec fn frame_samples(s: Seq<u8>, pos: int, channels: nat, w: nat) -> Seq<u32> {
    Seq::new(channels, |k: int| sample_at(s, pos + k * w, w))
}

/// The abstract state of a reader: the whole container, its descriptor, the
/// read cursor and the number of frames produced so far.
pub struct ReaderState {
    pub bytes: Seq<u8>,
    pub info: WaveInfo,
    pub pos: nat,
    pub current_frame: nat,
}

impl ReaderState {
    pub open spec fn wf(self) -> bool {
        &&& self.info.wf()
        &&& self.pos <= self.bytes.len()
    }

    /// Whether the next frame can be produced: the declared count is not
    /// reached, the samples are at most eight bytes wide and the whole frame
    /// is present.
    pub open spec fn can_step(self) -> bool {
        &&& self.current_frame < self.info.total_frames
        &&& self.info.sample_width() <= 8
        &&& self.pos + self.info.frame_width() <= self.bytes.len()
    }

    /// The samples of the next frame.
    pub open spec fn next_samples(self) -> Seq<u32> {
        frame_samples(
            self.bytes,
            self.pos as int,
            self.info.channels as nat,
            self.info.sample_width(),
        )
    }

    /// The state after `n` more frames have been produced.
    pub open spec fn after(self, n: nat) -> ReaderState {
        ReaderState {
            pos: self.pos + n * self.info.frame_width(),
            current_frame: self.current_frame + n,
            ..self
        }
    }

    /// How many more frames will be produced: the fewer of those still
    /// declared and those whose bytes are all present.
    pub open spec fn frames_left(self) -> nat {
        if !self.wf() || self.info.sample_width() > 8 {
            0
        } else {
            let declared = if self.current_frame < self.info.total_frames {
                (self.info.total_frames - self.current_frame) as nat
            } else {
                0
            };
            let present = (self.bytes.len() - self.pos) as nat / self.info.frame_width();
            if declared < present {
                declared
            } else {
                present
            }
        }
    }
}

/// A reader of the frames of a PCM container held in memory.
#[derive(Debug)]
pub struct WaveFile {
    bytes: Vec<u8>,
    info: WaveInfo,
    pos: usize,
    current_frame: u32,
}

impl View for WaveFile {
    type V = ReaderState;

    closed spec fn view(&self) -> ReaderState {
        ReaderState {
            bytes: self.bytes@,
            info: self.info,
            pos: self.pos as nat,
            current_frame: self.current_frame as nat,
        }
    }
}

proof fn lemma_frame_width(info: WaveInfo)
    requires
        info.wf(),
    ensures
        1 <= info.sample_width() <= 8191,
        info.channels <= info.frame_width() <= 0xffff * 8191,
{
    let c = info.channels as nat;
    let w = info.sample_width();
    assert(c <= c * w <= 0xffff * 8191) by (nonlinear_arith)
        requires
            1 <= w <= 8191,
            c <= 0xffff,
    ;
}

/// Producing a frame uses up exactly one of the frames left: a frame can be
/// produced exactly when some are left, and `n` frames later `n` fewer are.
pub proof fn lemma_frames_left_after(st: ReaderState, n: nat)
    requires
        st.wf(),
        n <= st.frames_left(),
    ensures
        st.can_step() <==> st.frames_left() > 0,
        st.after(n).wf(),
        st.after(n).frames_left() == st.frames_left() - n,
{
    lemma_frame_width(st.info);
    let fw = st.info.frame_width() as int;
    let x = st.bytes.len() - st.pos;
    lemma_fundamental_div_mod(x, fw);
    let q = x / fw;
    let r = x % fw;
    if st.info.sample_width() <= 8 {
        assert(n * fw <= q * fw) by (nonlinear_arith)
            requires
                n <= q,
                fw >= 1,
        ;
        assert(x - n * fw == (q - n) * fw + r) by (nonlinear_arith)
            requires
                x == fw * q + r,
        ;
        lemma_fundamental_div_mod_converse(x - n * fw, fw, q - n, r);
        assert(q >= 1 <==> st.pos + fw <= st.bytes.len()) by (nonlinear_arith)
            requires
                x == fw * q + r,
                0 <= r < fw,
                q >= 0,
                x == st.bytes.len() - st.pos,
        ;
        assert(n * fw <= x) by (nonlinear_arith)
            requires
                n * fw <= q * fw,
                x == fw * q + r,
                r >= 0,
        ;
    } else {
        assert(n * fw == 0) by (nonlinear_arith)
            requires
                n == 0,
        ;
    }
}

/// A reader that has no frame left produces none: it stays where it is on
/// every later call.
pub proof fn lemma_exhausted_stays(st: ReaderState)
    requires
        st.wf(),
        st.frames_left() == 0,
    ensures
        !st.can_step(),
{
    lemma_frames_left_after(st, 0);
}

/// A freshly opened reader on a container whose data chunk is wholly present
/// produces exactly the declared number of frames (samples up to eight bytes
/// wide).
pub proof fn lemma_fresh_reader_yields_all(st: ReaderState)
    requires
        header_spec(st.bytes) == Ok::<(WaveInfo, nat), WavError>((st.info, st.pos)),
        st.current_frame == 0,
        st.pos + le_at(st.bytes, st.pos - 4, 4) <= st.bytes.len(),
        st.info.sample_width() <= 8,
    ensures
        st.wf(),
        st.frames_left() == st.info.total_frames,
{
    crate::header::lemma_header_ok(st.bytes);
    crate::header::lemma_total_frames(st.bytes);
    lemma_frame_width(st.info);
    let size = le_at(st.bytes, st.pos - 4, 4) as int;
    let d = st.info.frame_divisor() as int;
    let fw = st.info.frame_width() as int;
    let total = st.info.total_frames as int;
    let x = st.bytes.len() - st.pos;
    let c = st.info.channels as int;
    let b = st.info.bits_per_sample as int;
    assert(fw <= d) by (nonlinear_arith)
        requires
            fw == c * (b / 8),
            d == (c * b) / 8,
            c >= 1,
            b >= 8,
    ;
    lemma_fundamental_div_mod(size, d);
    assert(total * fw <= x) by (nonlinear_arith)
        requires
            total == size / d,
            size == d * (size / d) + size % d,
            size % d >= 0,
            total >= 0,
            1 <= fw <= d,
            size <= x,
    ;
    lemma_fundamental_div_mod(x, fw);
    assert(total <= x / fw) by (nonlinear_arith)
        requires
            total * fw <= x,
            x == fw * (x / fw) + x % fw,
            0 <= x % fw < fw,
            fw >= 1,
    ;
}

/// Every sample is below `2^bits_per_sample`; up to four bytes wide, it is
/// exactly the little-endian value of its bytes.
pub proof fn lemma_sample_range(st: ReaderState, k: int)
    requires
        st.wf(),
        st.can_step(),
        0 <= k < st.info.channels,
    ensures
        (st.next_samples()[k] as nat) < pow2(st.info.bits_per_sample as nat),
        st.info.sample_width() <= 4 ==> st.next_samples()[k] as nat == le_at(
            st.bytes,
            st.pos + k * st.info.sample_width(),
            st.info.sample_width() as int,
        ),
{
    lemma_frame_width(st.info);
    lemma2_to64();
    let w = st.info.sample_width();
    let bits = st.info.bits_per_sample as nat;
    let at = st.pos + k * w;
    assert(k * w + w <= st.info.frame_width()) by (nonlinear_arith)
        requires
            k < st.info.channels,
            st.info.frame_width() == st.info.channels * w,
    ;
    let bytes = st.bytes.subrange(at, at + w);
    lemma_le_uint_bound(bytes);
    assert(8 * w <= bits);
    if 8 * w < bits {
        lemma_pow2_strictly_increases(8 * w, bits);
    }
    if w <= 4 {
        if 8 * w < 32 {
            lemma_pow2_strictly_increases(8 * w, 32);
        }
    } else {
        lemma_pow2_strictly_increases(32, bits);
    }
}

impl WaveFile {
    pub open spec fn wf(&self) -> bool {
        self@.wf()
    }

    /// Parses the header of `bytes` and returns a reader positioned at the
    /// first sample byte, or the error that the header gives.
    pub fn from_bytes(bytes: Vec<u8>) -> (r: Result<WaveFile, WavError>)
        ensures
            match r {
                Ok(w) => {
                    &&& w.wf()
                    &&& header_spec(bytes@) == Ok::<(WaveInfo, nat), WavError>(
                        (w@.info, w@.pos),
                    )
                    &&& w@.bytes == bytes@
                    &&& w@.current_frame == 0
                },
                Err(e) => header_spec(bytes@) == Err::<(WaveInfo, nat), WavError>(e),
            },
    {
        let (info, start) = match read_header_chunks(bytes.as_slice()) {
            Ok(h) => h,
            Err(e) => {
                return Err(e);
            },
        };
        proof {
            crate::header::lemma_header_ok(bytes@);
        }
        Ok(WaveFile { bytes, info, pos: start, current_frame: 0 })
    }

    /// The descriptor read from the header.
    pub fn info(&self) -> (r: WaveInfo)
        ensures
            r == self@.info,
    {
        self.info
    }

    /// How many frames have been produced so far.
    pub fn current_frame(&self) -> (r: u32)
        ensures
            r == self@.current_frame,
    {
        self.current_frame
    }

    /// Produces the next frame, or `None` once the declared frame count is
    /// reached or the bytes of a whole frame are not there. `None` leaves
    /// the reader as it was, so every later call gives `None` too.
    pub fn next_frame(&mut self) -> (r: Option<Frame>)
        requires
            old(self).wf(),
        ensures
            final(self).wf(),
            old(self)@.can_step() ==> {
                &&& r matches Some(f)
                &&& f@ == old(self)@.next_samples()
                &&& f.well_shaped()
                &&& final(self)@ == old(self)@.after(1)
            },
            !old(self)@.can_step() ==> r is None && final(self)@ == old(self)@,
    {
        proof {
            lemma_frame_width(self.info);
        }
        if self.current_frame >= self.info.total_frames {
            return None;
        }
        let w = (self.info.bits_per_sample / 8) as usize;
        if w > 8 {
            return None;
        }
        let channels = self.info.channels as usize;
        let fw = channels * w;
        if self.bytes.len() - self.pos < fw {
            return None;
        }
        let ghost s = self.bytes@;
        let ghost pos = self.pos as int;
        let mut samples: Vec<u32> = Vec::with_capacity(channels);
        let mut k: usize = 0;
        while k < channels
            invariant
                self.bytes@ == s,
                self.pos == pos,
                self.info.channels == channels,
                w == self.info.sample_width(),
                1 <= w <= 8,
                fw == channels * w,
                pos + fw <= s.len(),
                s.len() == self.bytes.len(),
                k <= channels,
                samples@ == frame_samples(s, pos, k as nat, w as nat),
            decreases channels - k,
        {
            assert(k * w + w <= fw) by (nonlinear_arith)
                requires
                    k < channels,
                    fw == channels * w,
            ;
            let at = self.pos + k * w;
            let v = read_uint_at(self.bytes.as_slice(), at, w);
            samples.push((v % 0x1_0000_0000) as u32);
            k = k + 1;
            assert(samples@ =~= frame_samples(s, pos, k as nat, w as nat));
        }
        self.pos = self.pos + fw;
        self.current_frame = self.current_frame + 1;
        if channels == 1 {
            Some(Frame::Mono(samples[0]))
        } else if channels == 2 {
            Some(Frame::Stereo(samples[0], samples[1]))
        } else {
            Some(Frame::Multi(samples))
        }
    }

    /// Produces every frame that is left, in order; the reader is then
    /// exhausted.
    pub fn collect_frames(&mut self) -> (r: Vec<Frame>)
        requires
            old(self).wf(),
        ensures
            final(self).wf(),
            r@.len() == old(self)@.frames_left(),
            forall|i: int|
                0 <= i < r@.len() ==> {
                    &&& r@[i]@ == #[trigger] old(self)@.after(i as nat).next_samples()
                    &&& r@[i].well_shaped()
                },
            final(self)@ == old(self)@.after(old(self)@.frames_left()),
            final(self)@.frames_left() == 0,
    {
        let ghost st0 = self@;
        let mut frames: Vec<Frame> = Vec::new();
        proof {
            lemma_frames_left_after(st0, 0);
            assert(st0.after(0) == st0);
        }
        loop
            invariant
                self.wf(),
                frames@.len() <= st0.frames_left(),
                self@ == st0.after(frames@.len() as nat),
                forall|i: int|
                    0 <= i < frames@.len() ==> {
                        &&& frames@[i]@ == #[trigger] st0.after(i as nat).next_samples()
                        &&& frames@[i].well_shaped()
                    },
            ensures
                frames@.len() == st0.frames_left(),
                self@ == st0.after(frames@.len() as nat),
                forall|i: int|
                    0 <= i < frames@.len() ==> {
                        &&& frames@[i]@ == #[trigger] st0.after(i as nat).next_samples()
                        &&& frames@[i].well_shaped()
                    },
            decreases st0.frames_left() - frames@.len(),
        {
            let ghost n = frames@.len() as nat;
            proof {
                lemma_frames_left_after(st0, n);
                lemma_frames_left_after(st0.after(n), 0);
                let fw = st0.info.frame_width();
                assert(st0.pos + n * fw + fw == st0.pos + (n + 1) * fw) by (nonlinear_arith);
                assert(st0.after(n).after(1) == st0.after(n + 1));
            }
            match self.next_frame() {
                Some(f) => {
                    frames.push(f);
                },
                None => {
                    break;
                },
            }
        }
        proof {
            lemma_frames_left_after(st0, st0.frames_left());
        }
        frames
    }
}

} // verus!
