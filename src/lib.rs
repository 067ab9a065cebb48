//! Reading uncompressed PCM audio out of RIFF/WAVE containers.
//!
//! The header parser walks the chunks of a container held in memory and
//! yields a [`WaveInfo`] descriptor; a [`WaveFile`] then decodes the sample
//! bytes of the data chunk into per-channel [`Frame`]s.

pub mod le;
pub mod header;
pub mod reader;


pub use le::{le_at, le_uint};
pub use reader::{frame_samples, sample_at, Frame, ReaderState, WaveFile};
pub use header::{
    read_header_chunks, WavError, WaveInfo,
    FORMAT_PCM, FORMAT_IEE_FLOAT, FORMAT_WAV_EXTENDED,
};

