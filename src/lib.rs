//! Decoding of PCM sample data held in WAV (RIFF) and AIFF (FORM) containers,
//! including IMA-ADPCM compressed WAV, over a caller-owned byte buffer.
use vstd::prelude::*;

pub mod aiff;
pub mod bytes;
pub mod chunk;
pub mod error;
pub mod imaadpcm;
pub mod laws;
pub mod wav;

use crate::aiff::{comm_of, form_header, parse_aiff_header, parse_comm, parse_ssnd, ssnd_ok};
use crate::bytes::{
    read_u16_be, read_u16_le, read_u24_be, read_u24_le, read_u32_be, read_u32_le, read_u64_be,
    read_u64_le, signed, to_signed16, to_signed24, to_signed32, u16_be, u16_le, u24_be, u24_le,
    u32_be, u32_le, u64_be, u64_le,
};
use crate::chunk::{chunk_at, chunk_list_items, chunks_from, collect_chunks, Chunk, MAX_NUM_CHUNKS};
use crate::imaadpcm::{adpcm_num_samples, calc_num_samples_per_channel as adpcm_calc_num_samples};
use crate::wav::{
    calc_num_samples_per_channel, fmt_of, linear_num_samples, parse_fmt, parse_riff_header,
    riff_header_size, WavFmtSpecs,
};

verus! {

/// Errors of `PcmReader`.
#[derive(Debug, Clone, Copy, PartialEq, Eq, Structural)]
pub enum PcmReaderError {
    UnsupportedBitDepth,
    UnsupportedAudioFormat,
    InvalidChannel,
    InvalidSample,
    HeaderSizeMismatch,
    FmtParseError,
    HeaderParseError,
    ChunkCapacityExceeded,
}

/// Sample encoding of the audio data.
#[derive(Debug, Default, Clone, Copy, PartialEq, Eq, Structural)]
pub enum AudioFormat {
    /// Unknown format.
    #[default]
    Unknown,
    /// Linear PCM, little endian.
    LinearPcmLe,
    /// Linear PCM, big endian.
    LinearPcmBe,
    /// IEEE float, little endian.
    IeeeFloatLe,
    /// IEEE float, big endian.
    IeeeFloatBe,
    /// IMA-ADPCM, little endian.
    ImaAdpcmLe,
}

/// Basic information on the PCM data.
#[derive(Debug, Default, Clone, Copy, PartialEq, Eq, Structural)]
pub struct PcmSpecs {
    /// Audio format.
    pub audio_format: AudioFormat,
    /// Number of channels.
    pub num_channels: u16,
    /// Sample rate in Hz.
    pub sample_rate: u32,
    /// Bit depth.
    pub bit_depth: u16,
    /// Number of samples per channel.
    pub num_samples: u32,
    /// IMA-ADPCM only: number of bytes per block.
    pub ima_adpcm_num_block_align: Option<u16>,
    /// IMA-ADPCM only: number of samples per block.
    pub ima_adpcm_num_samples_per_block: Option<u16>,
}

/// One decoded sample, exact and before conversion to a floating-point value.
#[derive(Debug, Clone, Copy, PartialEq, Eq, Structural)]
pub enum SampleValue {
    /// Two's-complement integer sample; its normalized value is
    /// `value / 2^(bit_depth - 1)`.
    Pcm { value: i32, bit_depth: u16 },
    /// Bit pattern of an IEEE-754 binary32 value, passed through as it is.
    Float32 { bits: u32 },
    /// Bit pattern of an IEEE-754 binary64 value, passed through as it is.
    Float64 { bits: u64 },
}

/// Integer sample of `bit_depth` bits at the start of `d`.
pub open spec fn pcm_value(d: Seq<u8>, bit_depth: u16, big_endian: bool) -> int {
    if bit_depth == 16 {
        signed(if big_endian { u16_be(d, 0) } else { u16_le(d, 0) }, 16)
    } else if bit_depth == 24 {
        signed(if big_endian { u24_be(d, 0) } else { u24_le(d, 0) }, 24)
    } else {
        signed(if big_endian { u32_be(d, 0) } else { u32_le(d, 0) }, 32)
    }
}

/// What the sample at the start of `d` decodes to under `specs`.
pub open spec fn decoded_sample(specs: PcmSpecs, d: Seq<u8>) -> Result<SampleValue, PcmReaderError> {
    let bd = specs.bit_depth;
    match specs.audio_format {
        AudioFormat::LinearPcmLe | AudioFormat::LinearPcmBe => {
            if !(bd == 16 || bd == 24 || bd == 32) {
                Err(PcmReaderError::UnsupportedBitDepth)
            } else if d.len() < bd / 8 {
                Err(PcmReaderError::InvalidSample)
            } else {
                Ok(
                    SampleValue::Pcm {
                        value: pcm_value(d, bd, specs.audio_format == AudioFormat::LinearPcmBe)
                            as i32,
                        bit_depth: bd,
                    },
                )
            }
        },
        AudioFormat::IeeeFloatLe | AudioFormat::IeeeFloatBe => {
            let be = specs.audio_format == AudioFormat::IeeeFloatBe;
            if !(bd == 32 || bd == 64) {
                Err(PcmReaderError::UnsupportedBitDepth)
            } else if d.len() < bd / 8 {
                Err(PcmReaderError::InvalidSample)
            } else if bd == 32 {
                Ok(SampleValue::Float32 { bits: (if be { u32_be(d, 0) } else { u32_le(d, 0) }) as u32 })
            } else {
                Ok(SampleValue::Float64 { bits: (if be { u64_be(d, 0) } else { u64_le(d, 0) }) as u64 })
            }
        },
        _ => Err(PcmReaderError::UnsupportedAudioFormat),
    }
}

/// Decodes the linear PCM or IEEE float sample at the start of `data`.
pub fn decode_sample(specs: &PcmSpecs, data: &[u8]) -> (r: Result<SampleValue, PcmReaderError>)
    ensures
        r == decoded_sample(*specs, data@),
{
    let bd = specs.bit_depth;
    match specs.audio_format {
        AudioFormat::LinearPcmLe | AudioFormat::LinearPcmBe => {
            let be = matches!(specs.audio_format, AudioFormat::LinearPcmBe);
            if !(bd == 16 || bd == 24 || bd == 32) {
                return Err(PcmReaderError::UnsupportedBitDepth);
            }
            if data.len() < (bd / 8) as usize {
                return Err(PcmReaderError::InvalidSample);
            }
            let value = if bd == 16 {
                to_signed16(if be { read_u16_be(data, 0) } else { read_u16_le(data, 0) })
            } else if bd == 24 {
                to_signed24(if be { read_u24_be(data, 0) } else { read_u24_le(data, 0) })
            } else {
                to_signed32(if be { read_u32_be(data, 0) } else { read_u32_le(data, 0) })
            };
            Ok(SampleValue::Pcm { value, bit_depth: bd })
        },
        AudioFormat::IeeeFloatLe | AudioFormat::IeeeFloatBe => {
            let be = matches!(specs.audio_format, AudioFormat::IeeeFloatBe);
            if !(bd == 32 || bd == 64) {
                return Err(PcmReaderError::UnsupportedBitDepth);
            }
            if data.len() < (bd / 8) as usize {
                return Err(PcmReaderError::InvalidSample);
            }
            if bd == 32 {
                let bits = if be { read_u32_be(data, 0) } else { read_u32_le(data, 0) };
                Ok(SampleValue::Float32 { bits })
            } else {
                let bits = if be { read_u64_be(data, 0) } else { read_u64_le(data, 0) };
                Ok(SampleValue::Float64 { bits })
            }
        },
        _ => Err(PcmReaderError::UnsupportedAudioFormat),
    }
}

/// Specs before any chunk has been read.
pub open spec fn empty_specs() -> PcmSpecs {
    PcmSpecs {
        audio_format: AudioFormat::Unknown,
        num_channels: 0,
        sample_rate: 0,
        bit_depth: 0,
        num_samples: 0,
        ima_adpcm_num_block_align: None,
        ima_adpcm_num_samples_per_block: None,
    }
}

fn new_empty_specs() -> (r: PcmSpecs)
    ensures
        r == empty_specs(),
{
    PcmSpecs {
        audio_format: AudioFormat::Unknown,
        num_channels: 0,
        sample_rate: 0,
        bit_depth: 0,
        num_samples: 0,
        ima_adpcm_num_block_align: None,
        ima_adpcm_num_samples_per_block: None,
    }
}

/// Where a chunk walk stands: the specs gathered so far and the sample data
/// region (start and length in the file).
pub type WalkState = (PcmSpecs, usize, usize);

/// `specs` after a `fmt ` chunk stating `f`.
pub open spec fn with_fmt(specs: PcmSpecs, f: WavFmtSpecs) -> PcmSpecs {
    PcmSpecs {
        audio_format: f.audio_format,
        num_channels: f.num_channels,
        sample_rate: f.sample_rate,
        bit_depth: f.bit_depth,
        ima_adpcm_num_block_align: f.ima_adpcm_num_block_align,
        ima_adpcm_num_samples_per_block: f.ima_adpcm_num_samples_per_block,
        ..specs
    }
}

/// One step of the WAV chunk walk: a `fmt ` chunk sets the specs (a
/// malformed one is an error), a `data` chunk sets the data region, every
/// other chunk is passed over.
pub open spec fn wav_step(file: Seq<u8>, c: Chunk, st: WalkState) -> Result<WalkState, PcmReaderError> {
    match wav::chunk_id_of(c.tag) {
        wav::ChunkId::Fmt => match fmt_of(c.payload(file)) {
            None => Err(PcmReaderError::FmtParseError),
            Some(f) => Ok((with_fmt(st.0, f), st.1, st.2)),
        },
        wav::ChunkId::Data => Ok((st.0, c.start, c.size as usize)),
        _ => Ok(st),
    }
}

/// One step of the AIFF chunk walk: a `COMM` chunk sets the specs, a `SSND`
/// chunk sets the data region past its 8-byte sub-header (either malformed is
/// an error), every other chunk is passed over.
pub open spec fn aiff_step(file: Seq<u8>, c: Chunk, is_aifc: bool, st: WalkState) -> Result<
    WalkState,
    PcmReaderError,
> {
    match aiff::chunk_id_of(c.tag) {
        aiff::ChunkId::Common => match comm_of(c.payload(file), is_aifc) {
            None => Err(PcmReaderError::UnsupportedAudioFormat),
            Some(sp) => Ok((sp, st.1, st.2)),
        },
        aiff::ChunkId::SoundData => if ssnd_ok(c.payload(file)) {
            Ok((st.0, (c.start + 8) as usize, (c.size - 8) as usize))
        } else {
            Err(PcmReaderError::UnsupportedAudioFormat)
        },
        _ => Ok(st),
    }
}

/// One step of the WAV (`aiff == None`) or AIFF (`aiff == Some(is_aifc)`) walk.
#[verifier::opaque]
pub open spec fn chunk_step(file: Seq<u8>, c: Chunk, aiff: Option<bool>, st: WalkState) -> Result<
    WalkState,
    PcmReaderError,
> {
    match aiff {
        None => wav_step(file, c, st),
        Some(is_aifc) => aiff_step(file, c, is_aifc, st),
    }
}

/// The chunk walk over `chunks` from state `st`, WAV (`aiff == None`) or AIFF
/// (`aiff == Some(is_aifc)`); the first failing step ends it.
pub open spec fn walk(file: Seq<u8>, chunks: Seq<Chunk>, aiff: Option<bool>, st: WalkState) -> Result<
    WalkState,
    PcmReaderError,
>
    decreases chunks.len(),
{
    if chunks.len() == 0 {
        Ok(st)
    } else {
        match chunk_step(file, chunks[0], aiff, st) {
            Err(e) => Err(e),
            Ok(next) => walk(file, chunks.drop_first(), aiff, next),
        }
    }
}

/// The final specs for a data region of `data_len` bytes: the sample count is
/// derived from the region, never taken from a header field.
pub open spec fn resolved(specs: PcmSpecs, data_len: int) -> Result<PcmSpecs, PcmReaderError> {
    match specs.audio_format {
        AudioFormat::Unknown => Err(PcmReaderError::UnsupportedAudioFormat),
        AudioFormat::ImaAdpcmLe => match adpcm_num_samples(data_len, specs) {
            Some(n) => Ok(PcmSpecs { num_samples: n as u32, ..specs }),
            None => Err(PcmReaderError::UnsupportedAudioFormat),
        },
        _ => if specs.num_channels == 0 {
            Err(PcmReaderError::UnsupportedAudioFormat)
        } else if specs.bit_depth < 8 {
            Err(PcmReaderError::UnsupportedBitDepth)
        } else {
            Ok(
                PcmSpecs {
                    num_samples: linear_num_samples(
                        data_len,
                        specs.bit_depth as int,
                        specs.num_channels as int,
                    ) as u32,
                    ..specs
                },
            )
        },
    }
}

/// Completes a walk result with `resolved`.
pub open spec fn finished(w: Result<WalkState, PcmReaderError>) -> Result<WalkState, PcmReaderError> {
    match w {
        Err(e) => Err(e),
        Ok((sp, ds, dl)) => match resolved(sp, dl as int) {
            Ok(sp2) => Ok((sp2, ds, dl)),
            Err(e) => Err(e),
        },
    }
}

/// What a PCM file `f` resolves to: its specs and its sample data region, or
/// the error that construction reports.
pub open spec fn parsed(f: Seq<u8>) -> Result<WalkState, PcmReaderError> {
    let init: WalkState = (empty_specs(), 0usize, 0usize);
    match riff_header_size(f) {
        Some(size) => if f.len() - 8 != size {
            Err(PcmReaderError::HeaderSizeMismatch)
        } else if chunks_from(f, 12, false).len() > MAX_NUM_CHUNKS {
            Err(PcmReaderError::ChunkCapacityExceeded)
        } else {
            finished(walk(f, chunks_from(f, 12, false), None, init))
        },
        None => match form_header(f) {
            Some(h) => if f.len() - 8 != h.size {
                Err(PcmReaderError::HeaderSizeMismatch)
            } else if chunks_from(f, 12, true).len() > MAX_NUM_CHUNKS {
                Err(PcmReaderError::ChunkCapacityExceeded)
            } else {
                finished(walk(f, chunks_from(f, 12, true), Some(h.is_aifc), init))
            },
            None => Err(PcmReaderError::UnsupportedAudioFormat),
        },
    }
}

/// Byte offset of the sample of `channel` in frame `sample`.
pub open spec fn sample_offset(specs: PcmSpecs, channel: int, sample: int) -> int {
    (specs.bit_depth / 8) as int * (sample * specs.num_channels + channel)
}

/// The sample of `channel` in frame `sample`: the channel and the frame are
/// checked against the specs, then the bytes at the sample's offset decoded.
pub open spec fn sample_at(specs: PcmSpecs, data: Seq<u8>, channel: int, sample: int) -> Result<
    SampleValue,
    PcmReaderError,
> {
    if channel >= specs.num_channels {
        Err(PcmReaderError::InvalidChannel)
    } else if sample >= specs.num_samples {
        Err(PcmReaderError::InvalidSample)
    } else if sample_offset(specs, channel, sample) > data.len() {
        Err(PcmReaderError::InvalidSample)
    } else {
        decoded_sample(specs, data.skip(sample_offset(specs, channel, sample)))
    }
}

/// Reads the specs and the sample data region of a WAV or AIFF byte buffer,
/// and decodes samples from it on demand.
pub struct PcmReader<'a> {
    pub(crate) specs: PcmSpecs,
    pub(crate) data: &'a [u8],
}

impl<'a> PcmReader<'a> {
    /// The reader holds what `file` resolves to.
    pub open spec fn holds(&self, file: Seq<u8>) -> bool {
        match parsed(file) {
            Ok((sp, ds, dl)) => self.spec_specs() == sp && self.spec_data() == file.subrange(
                ds as int,
                ds + dl,
            ),
            Err(_) => false,
        }
    }

    /// The specs that the reader holds.
    pub closed spec fn spec_specs(&self) -> PcmSpecs {
        self.specs
    }

    /// The sample data region that the reader holds.
    pub closed spec fn spec_data(&self) -> Seq<u8> {
        self.data@
    }

    /// Creates a reader over a WAV or AIFF byte buffer.
    pub fn new(input: &mut &'a [u8]) -> (r: Result<Self, PcmReaderError>)
        ensures
            *final(input) == *old(input),
            match r {
                Ok(reader) => reader.holds(old(input)@),
                Err(e) => parsed(old(input)@) == Err::<WalkState, PcmReaderError>(e),
            },
            parsed(old(input)@) is Ok ==> r is Ok,
            r is Ok ==> (parsed(old(input)@) matches Ok(w) && w.1 + w.2 <= old(input)@.len() && w.2
                <= u32::MAX),
    {
        let mut reader = PcmReader { specs: new_empty_specs(), data: vstd::slice::slice_subrange(*input, 0, 0) };
        match reader.reload(input) {
            Ok(()) => Ok(reader),
            Err(e) => Err(e),
        }
    }

    /// Replaces what the reader holds by what `input` resolves to. On error
    /// the reader is left empty.
    pub fn reload(&mut self, input: &mut &'a [u8]) -> (r: Result<(), PcmReaderError>)
        ensures
            *final(input) == *old(input),
            match r {
                Ok(()) => final(self).holds(old(input)@),
                Err(e) => parsed(old(input)@) == Err::<WalkState, PcmReaderError>(e)
                    && final(self).spec_specs() == empty_specs() && final(self).spec_data().len() == 0,
            },
            parsed(old(input)@) is Ok ==> r is Ok,
            r is Ok ==> (parsed(old(input)@) matches Ok(w) && w.1 + w.2 <= old(input)@.len() && w.2
                <= u32::MAX),
    {
        let file: &'a [u8] = *input;
        let file_length = file.len();
        self.data = vstd::slice::slice_subrange(file, 0, 0);
        self.specs = new_empty_specs();
        let walked = if let Some(riff) = parse_riff_header(file) {
            if file_length - 8 != riff.size as usize {
                return Err(PcmReaderError::HeaderSizeMismatch);
            }
            Self::walk_chunks(file, None)
        } else if let Some(header) = parse_aiff_header(file) {
            if file_length - 8 != header.size as usize {
                return Err(PcmReaderError::HeaderSizeMismatch);
            }
            Self::walk_chunks(file, Some(header.is_aifc))
        } else {
            return Err(PcmReaderError::UnsupportedAudioFormat);
        };
        let (specs, ds, dl) = match walked {
            Ok(w) => w,
            Err(e) => return Err(e),
        };
        let specs = match Self::resolve(specs, dl) {
            Ok(sp) => sp,
            Err(e) => return Err(e),
        };
        self.specs = specs;
        self.data = vstd::slice::slice_subrange(file, ds, ds + dl);
        Ok(())
    }

    /// Derives the sample count from the data region length.
    fn resolve(specs: PcmSpecs, data_len: usize) -> (r: Result<PcmSpecs, PcmReaderError>)
        requires
            data_len <= u32::MAX,
        ensures
            r == resolved(specs, data_len as int),
    {
        match specs.audio_format {
            AudioFormat::Unknown => Err(PcmReaderError::UnsupportedAudioFormat),
            AudioFormat::ImaAdpcmLe => match adpcm_calc_num_samples(data_len as u32, &specs) {
                Ok(n) => Ok(PcmSpecs { num_samples: n, ..specs }),
                Err(_) => Err(PcmReaderError::UnsupportedAudioFormat),
            },
            _ => match calc_num_samples_per_channel(data_len as u32, &specs) {
                Ok(n) => Ok(PcmSpecs { num_samples: n, ..specs }),
                Err(e) => Err(e),
            },
        }
    }

    /// One step of the WAV chunk walk.
    fn wav_step_exec(file: &[u8], c: Chunk, st: WalkState) -> (r: Result<WalkState, PcmReaderError>)
        requires
            c.fits(file@),
            c.size <= u32::MAX,
            st.2 <= u32::MAX,
            st.1 + st.2 <= file@.len(),
        ensures
            r == wav_step(file@, c, st),
            r matches Ok(w) ==> w.2 <= u32::MAX && w.1 + w.2 <= file@.len(),
    {
        assert(file@.len() == file.len());
        match wav::ChunkId::from_tag(c.tag) {
            wav::ChunkId::Fmt => {
                let payload = vstd::slice::slice_subrange(file, c.start, c.start + c.size as usize);
                match parse_fmt(payload) {
                    None => Err(PcmReaderError::FmtParseError),
                    Some(f) => {
                        let specs = PcmSpecs {
                            audio_format: f.audio_format,
                            num_channels: f.num_channels,
                            sample_rate: f.sample_rate,
                            bit_depth: f.bit_depth,
                            ima_adpcm_num_block_align: f.ima_adpcm_num_block_align,
                            ima_adpcm_num_samples_per_block: f.ima_adpcm_num_samples_per_block,
                            ..st.0
                        };
                        Ok((specs, st.1, st.2))
                    },
                }
            },
            wav::ChunkId::Data => Ok((st.0, c.start, c.size as usize)),
            _ => Ok(st),
        }
    }

    /// One step of the AIFF chunk walk.
    fn aiff_step_exec(file: &[u8], c: Chunk, is_aifc: bool, st: WalkState) -> (r: Result<
        WalkState,
        PcmReaderError,
    >)
        requires
            c.fits(file@),
            c.size <= u32::MAX,
            st.2 <= u32::MAX,
            st.1 + st.2 <= file@.len(),
        ensures
            r == aiff_step(file@, c, is_aifc, st),
            r matches Ok(w) ==> w.2 <= u32::MAX && w.1 + w.2 <= file@.len(),
    {
        assert(file@.len() == file.len());
        match aiff::ChunkId::from_tag(c.tag) {
            aiff::ChunkId::Common => {
                let payload = vstd::slice::slice_subrange(file, c.start, c.start + c.size as usize);
                match parse_comm(payload, is_aifc) {
                    None => Err(PcmReaderError::UnsupportedAudioFormat),
                    Some(sp) => Ok((sp, st.1, st.2)),
                }
            },
            aiff::ChunkId::SoundData => {
                let payload = vstd::slice::slice_subrange(file, c.start, c.start + c.size as usize);
                if parse_ssnd(payload).is_none() {
                    return Err(PcmReaderError::UnsupportedAudioFormat);
                }
                Ok((st.0, c.start + 8, c.size as usize - 8))
            },
            _ => Ok(st),
        }
    }

    /// One step of the chunk walk.
    fn step_exec(file: &[u8], c: Chunk, aiff: Option<bool>, st: WalkState) -> (r: Result<
        WalkState,
        PcmReaderError,
    >)
        requires
            c.fits(file@),
            c.size <= u32::MAX,
            st.2 <= u32::MAX,
            st.1 + st.2 <= file@.len(),
        ensures
            r == chunk_step(file@, c, aiff, st),
            r matches Ok(w) ==> w.2 <= u32::MAX && w.1 + w.2 <= file@.len(),
    {
        reveal(chunk_step);
        match aiff {
            None => Self::wav_step_exec(file, c, st),
            Some(is_aifc) => Self::aiff_step_exec(file, c, is_aifc, st),
        }
    }

    /// Walks the chunks that follow the 12-byte container header.
    fn walk_chunks(file: &[u8], aiff: Option<bool>) -> (r: Result<WalkState, PcmReaderError>)
        ensures
            r == (if chunks_from(file@, 12, aiff is Some).len() > MAX_NUM_CHUNKS {
                Err(PcmReaderError::ChunkCapacityExceeded)
            } else {
                walk(file@, chunks_from(file@, 12, aiff is Some), aiff, (empty_specs(), 0usize, 0usize))
            }),
            r matches Ok(w) ==> w.2 <= u32::MAX && w.1 + w.2 <= file@.len(),
    {
        let list = match collect_chunks(file, 12, aiff.is_some()) {
            Ok(l) => l,
            Err(e) => return Err(e),
        };
        let chunks = chunk_list_items(&list);
        let ghost all = chunks@;
        let ghost init: WalkState = (empty_specs(), 0usize, 0usize);
        let mut st: WalkState = (new_empty_specs(), 0, 0);
        let mut i: usize = 0;
        proof {
            lemma_chunks_fit(file@, 12, aiff is Some);
            assert(all.skip(0) =~= all);
        }
        while i < chunks.len()
            invariant
                all == chunks@,
                all == chunks_from(file@, 12, aiff is Some),
                all.len() <= MAX_NUM_CHUNKS,
                init == (empty_specs(), 0usize, 0usize),
                forall|k: int|
                    0 <= k < all.len() ==> (#[trigger] all[k]).fits(file@) && all[k].size <= u32::MAX,
                0 <= i <= all.len(),
                walk(file@, all, aiff, init) == walk(file@, all.skip(i as int), aiff, st),
                st.2 <= u32::MAX,
                st.1 + st.2 <= file@.len(),
            decreases all.len() - i,
        {
            let c = chunks[i];
            proof {
                assert(all.skip(i as int).drop_first() =~= all.skip(i + 1));
                assert(all.skip(i as int)[0] == c);
                lemma_walk_unfold(file@, all.skip(i as int), aiff, st);
            }
            let step = Self::step_exec(file, c, aiff, st);
            st = match step {
                Ok(next) => next,
                Err(e) => return Err(e),
            };
            i = i + 1;
        }
        assert(all.skip(all.len() as int) =~= Seq::<Chunk>::empty());
        Ok(st)
    }

    /// The sample data region.
    pub(crate) fn data(&self) -> (r: &'a [u8])
        ensures
            r@ == self.spec_data(),
    {
        self.data
    }

    /// Returns a copy of the specs.
    pub fn get_pcm_specs(&self) -> (r: PcmSpecs)
        ensures
            r == self.spec_specs(),
    {
        self.specs
    }

    /// Reads the sample of `channel` in frame `sample`.
    pub fn read_sample(&self, channel: u16, sample: u32) -> (r: Result<SampleValue, PcmReaderError>)
        ensures
            r == sample_at(self.spec_specs(), self.spec_data(), channel as int, sample as int),
    {
        let num_channels = self.specs.num_channels;
        if channel >= num_channels {
            return Err(PcmReaderError::InvalidChannel);
        }
        if sample >= self.specs.num_samples {
            return Err(PcmReaderError::InvalidSample);
        }
        let byte_depth = (self.specs.bit_depth / 8) as u64;
        let s64 = sample as u64;
        let n64 = num_channels as u64;
        assert(s64 * n64 <= 0xFFFF_FFFF * 0xFFFF) by (nonlinear_arith)
            requires
                s64 <= 0xFFFF_FFFF,
                n64 <= 0xFFFF,
        ;
        let frame = s64 * n64 + channel as u64;
        assert(byte_depth * frame <= 0x2000 * (0xFFFF_FFFF * 0xFFFF + 0xFFFF)) by (nonlinear_arith)
            requires
                frame <= 0xFFFF_FFFF * 0xFFFF + 0xFFFF,
                byte_depth <= 0x2000,
        ;
        let byte_offset = byte_depth * frame;
        if byte_offset > self.data.len() as u64 {
            return Err(PcmReaderError::InvalidSample);
        }
        let window = vstd::slice::slice_subrange(self.data, byte_offset as usize, self.data.len());
        assert(window@ =~= self.data@.skip(byte_offset as int));
        decode_sample(&self.specs, window)
    }
}

/// The walk over a nonempty chunk sequence takes one step, then walks the rest.
proof fn lemma_walk_unfold(file: Seq<u8>, chunks: Seq<Chunk>, aiff: Option<bool>, st: WalkState)
    requires
        chunks.len() > 0,
    ensures
        walk(file, chunks, aiff, st) == (match chunk_step(file, chunks[0], aiff, st) {
            Err(e) => Err(e),
            Ok(next) => walk(file, chunks.drop_first(), aiff, next),
        }),
{
}

/// Every chunk of the walk lies inside the file.
pub proof fn lemma_chunks_fit(file: Seq<u8>, pos: int, big_endian: bool)
    ensures
        forall|k: int|
            0 <= k < chunks_from(file, pos, big_endian).len() ==> (#[trigger] chunks_from(
                file,
                pos,
                big_endian,
            )[k]).fits(file) && chunks_from(file, pos, big_endian)[k].size <= u32::MAX,
    decreases file.len() - pos,
{
    match chunk_at(file, pos, big_endian) {
        Some(c) => if c.start + c.size > pos {
            lemma_chunks_fit(file, c.start + c.size, big_endian);
            let rest = chunks_from(file, c.start + c.size, big_endian);
            assert forall|k: int| 0 <= k < chunks_from(file, pos, big_endian).len() implies (
            #[trigger] chunks_from(file, pos, big_endian)[k]).fits(file) by {
                if k > 0 {
                    assert(chunks_from(file, pos, big_endian)[k] == rest[k - 1]);
                }
            }
        },
        None => {},
    }
}

/// Every channel's sample of frame `p` reads without error.
pub open spec fn frame_readable(specs: PcmSpecs, data: Seq<u8>, p: int) -> bool {
    forall|ch: int| 0 <= ch < specs.num_channels ==> #[trigger] sample_at(specs, data, ch, p) is Ok
}

/// Errors of `PcmPlayer`.
#[derive(Debug, Clone, Copy, PartialEq, Eq, Structural)]
pub enum PcmPlayerError {
    OutputBufferTooShort,
    InvalidPosition,
    FinishPlaying,
}

/// Plays linear PCM or IEEE float data frame by frame, optionally looping.
pub struct PcmPlayer<'a> {
    /// The reader that holds the specs and the data region.
    pub reader: PcmReader<'a>,
    playback_position: u32,
    loop_playing: bool,
}

impl<'a> PcmPlayer<'a> {
    /// The reader that the player plays from.
    pub closed spec fn spec_reader(&self) -> PcmReader<'a> {
        self.reader
    }

    /// Index of the next frame.
    pub closed spec fn spec_position(&self) -> u32 {
        self.playback_position
    }

    /// Whether playback starts over after the last frame.
    pub closed spec fn spec_loop_playing(&self) -> bool {
        self.loop_playing
    }

    /// Creates a player at the first frame, without looping.
    pub fn new(reader: PcmReader<'a>) -> (r: Self)
        ensures
            r.spec_reader() == reader,
            r.spec_position() == 0,
            !r.spec_loop_playing(),
    {
        PcmPlayer { reader, playback_position: 0, loop_playing: false }
    }

    /// Moves to frame `sample`; a frame past the end is refused.
    pub fn set_position(&mut self, sample: u32) -> (r: Result<(), PcmPlayerError>)
        ensures
            final(self).spec_reader() == old(self).spec_reader(),
            final(self).spec_loop_playing() == old(self).spec_loop_playing(),
            sample < old(self).spec_reader().spec_specs().num_samples ==> (r is Ok
                && final(self).spec_position() == sample),
            sample >= old(self).spec_reader().spec_specs().num_samples ==> (r == Err::<(), PcmPlayerError>(
                PcmPlayerError::InvalidPosition,
            ) && final(self).spec_position() == old(self).spec_position()),
    {
        if self.reader.get_pcm_specs().num_samples <= sample {
            return Err(PcmPlayerError::InvalidPosition);
        }
        self.playback_position = sample;
        Ok(())
    }

    /// Turns looping on or off.
    pub fn set_loop_playing(&mut self, en: bool)
        ensures
            final(self).spec_reader() == old(self).spec_reader(),
            final(self).spec_position() == old(self).spec_position(),
            final(self).spec_loop_playing() == en,
    {
        self.loop_playing = en;
    }

    /// Writes the samples of the next frame to `out`, one per channel, and
    /// moves to the frame after it. At the end, playback starts over when
    /// looping is on and fails with `FinishPlaying` when it is off.
    pub fn get_next_frame(&mut self, out: &mut [SampleValue]) -> (r: Result<(), PcmPlayerError>)
        ensures
            final(self).spec_reader() == old(self).spec_reader(),
            final(self).spec_loop_playing() == old(self).spec_loop_playing(),
            final(out)@.len() == old(out)@.len(),
            ({
                let specs = old(self).spec_reader().spec_specs();
                let data = old(self).spec_reader().spec_data();
                let nch = specs.num_channels as int;
                let pos = old(self).spec_position();
                let at_end = pos >= specs.num_samples;
                let p = if at_end { 0 } else { pos };
                if old(out)@.len() < nch {
                    r == Err::<(), PcmPlayerError>(PcmPlayerError::OutputBufferTooShort)
                        && final(self).spec_position() == pos && final(out)@ == old(out)@
                } else if at_end && !old(self).spec_loop_playing() {
                    r == Err::<(), PcmPlayerError>(PcmPlayerError::FinishPlaying)
                        && final(self).spec_position() == pos && final(out)@ == old(out)@
                } else if at_end && specs.num_samples == 0 {
                    r == Err::<(), PcmPlayerError>(PcmPlayerError::InvalidPosition)
                        && final(self).spec_position() == pos && final(out)@ == old(out)@
                } else if frame_readable(specs, data, p as int) {
                    &&& r is Ok
                    &&& final(self).spec_position() == p + 1
                    &&& forall|ch: int| 0 <= ch < nch ==> final(out)@[ch] == #[trigger] sample_at(specs, data, ch, p as int)->Ok_0
                    &&& final(out)@.skip(nch) == old(out)@.skip(nch)
                } else {
                    r == Err::<(), PcmPlayerError>(PcmPlayerError::InvalidPosition)
                        && final(self).spec_position() == p
                }
            }),
    {
        let specs = self.reader.get_pcm_specs();
        let num_channels = specs.num_channels;
        if out.len() < num_channels as usize {
            return Err(PcmPlayerError::OutputBufferTooShort);
        }
        let num_samples = specs.num_samples;
        if self.playback_position >= num_samples {
            if self.loop_playing {
                match self.set_position(0) {
                    Ok(()) => {},
                    Err(e) => return Err(e),
                }
            } else {
                return Err(PcmPlayerError::FinishPlaying);
            }
        }
        let ghost old_out = out@;
        let pos = self.playback_position;
        let mut ch: u16 = 0;
        while ch < num_channels
            invariant
                0 <= ch <= num_channels,
                num_channels == specs.num_channels,
                specs == self.reader.spec_specs(),
                self.reader == old(self).reader,
                self.loop_playing == old(self).loop_playing,
                pos == (if old(self).playback_position >= specs.num_samples {
                    0
                } else {
                    old(self).playback_position
                }),
                pos < specs.num_samples,
                old(self).playback_position < specs.num_samples || self.loop_playing,
                old_out == old(out)@,
                out@.len() == old_out.len(),
                old_out.len() >= num_channels,
                pos == self.playback_position,
                forall|c: int| 0 <= c < ch ==> #[trigger] sample_at(specs, self.reader.spec_data(), c, pos as int) is Ok
                    && out@[c] == sample_at(specs, self.reader.spec_data(), c, pos as int)->Ok_0,
                out@.skip(num_channels as int) == old_out.skip(num_channels as int),
            decreases num_channels - ch,
        {
            let sample = match self.reader.read_sample(ch, pos) {
                Ok(v) => v,
                Err(_) => {
                    assert(!(sample_at(specs, self.reader.spec_data(), ch as int, pos as int) is Ok));
                    assert(!frame_readable(specs, self.reader.spec_data(), pos as int));
                    return Err(PcmPlayerError::InvalidPosition);
                },
            };
            out[ch as usize] = sample;
            assert(out@.skip(num_channels as int) =~= old_out.skip(num_channels as int));
            ch = ch + 1;
        }
        self.playback_position = pos + 1;
        Ok(())
    }
}

} // verus!
