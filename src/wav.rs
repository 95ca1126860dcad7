//! RIFF/WAVE container: header, chunk tags and the `fmt ` chunk.
use vstd::prelude::*;

use crate::bytes::{read_u16_le, read_u32_be, read_u32_le, u16_le, u32_be, u32_le};
use crate::{AudioFormat, PcmReaderError, PcmSpecs};

verus! {

pub const TAG_RIFF: u32 = 0x5249_4646;
pub const TAG_WAVE: u32 = 0x5741_5645;

/// Kinds of WAV chunk.
#[derive(Debug, Default, Clone, Copy, PartialEq, Eq, Structural)]
pub enum ChunkId {
    /// `fmt `
    Fmt,
    /// `fact`
    Fact,
    /// `PEAK`
    Peak,
    /// `data`
    Data,
    /// `JUNK` or `junk`
    Junk,
    /// `LIST`
    List,
    /// `IDv3`
    IDv3,
    /// Any other tag.
    #[default]
    Unknown,
}

/// The kind of chunk that a tag (read as a big-endian integer) names.
pub open spec fn chunk_id_of(tag: u32) -> ChunkId {
    if tag == 0x666d_7420 {
        ChunkId::Fmt
    } else if tag == 0x6661_6374 {
        ChunkId::Fact
    } else if tag == 0x5045_414b {
        ChunkId::Peak
    } else if tag == 0x6461_7461 {
        ChunkId::Data
    } else if tag == 0x6a75_6e6b || tag == 0x4a55_4e4b {
        ChunkId::Junk
    } else if tag == 0x4944_7633 {
        ChunkId::IDv3
    } else if tag == 0x4c49_5354 {
        ChunkId::List
    } else {
        ChunkId::Unknown
    }
}

impl ChunkId {
    /// The kind of chunk that a tag (read as a big-endian integer) names.
    pub fn from_tag(tag: u32) -> (r: ChunkId)
        ensures
            r == chunk_id_of(tag),
    {
        if tag == 0x666d_7420 {
            ChunkId::Fmt
        } else if tag == 0x6661_6374 {
            ChunkId::Fact
        } else if tag == 0x5045_414b {
            ChunkId::Peak
        } else if tag == 0x6461_7461 {
            ChunkId::Data
        } else if tag == 0x6a75_6e6b || tag == 0x4a55_4e4b {
            ChunkId::Junk
        } else if tag == 0x4944_7633 {
            ChunkId::IDv3
        } else if tag == 0x4c49_5354 {
            ChunkId::List
        } else {
            ChunkId::Unknown
        }
    }
}

impl<'a> TryFrom<&'a [u8]> for ChunkId {
    type Error = ();

    /// A four-byte tag maps to its kind; any other length is refused.
    fn try_from(v: &'a [u8]) -> (r: Result<ChunkId, ()>) {
        if v.len() != 4 {
            return Err(());
        }
        Ok(ChunkId::from_tag(read_u32_be(v, 0)))
    }
}

impl<'a> vstd::std_specs::convert::TryFromSpecImpl<&'a [u8]> for ChunkId {
    open spec fn obeys_try_from_spec() -> bool {
        true
    }

    open spec fn try_from_spec(v: &'a [u8]) -> Result<ChunkId, ()> {
        if v@.len() != 4 {
            Err(())
        } else {
            Ok(chunk_id_of(u32_be(v@, 0) as u32))
        }
    }
}

/// Format tags of the `fmt ` chunk that this library reads.
#[derive(Debug, Clone, Copy, PartialEq, Eq, Structural)]
pub enum WaveFormatTag {
    LinearPcm,
    IeeeFloat,
    ImaAdpcm,
}

/// The format tag that a `fmt ` chunk's first field names, if this library reads it.
pub open spec fn format_tag_of(v: u16) -> Result<WaveFormatTag, ()> {
    if v == 0x01 {
        Ok(WaveFormatTag::LinearPcm)
    } else if v == 0x03 {
        Ok(WaveFormatTag::IeeeFloat)
    } else if v == 0x11 {
        Ok(WaveFormatTag::ImaAdpcm)
    } else {
        Err(())
    }
}

impl TryFrom<u16> for WaveFormatTag {
    type Error = ();

    /// `1` is linear PCM, `3` IEEE float, `0x11` IMA-ADPCM; any other value is refused.
    fn try_from(v: u16) -> (r: Result<WaveFormatTag, ()>) {
        if v == 0x01 {
            Ok(WaveFormatTag::LinearPcm)
        } else if v == 0x03 {
            Ok(WaveFormatTag::IeeeFloat)
        } else if v == 0x11 {
            Ok(WaveFormatTag::ImaAdpcm)
        } else {
            Err(())
        }
    }
}

impl vstd::std_specs::convert::TryFromSpecImpl<u16> for WaveFormatTag {
    open spec fn obeys_try_from_spec() -> bool {
        true
    }

    open spec fn try_from_spec(v: u16) -> Result<WaveFormatTag, ()> {
        format_tag_of(v)
    }
}

/// Declared size of a RIFF/WAVE header at the start of `f`, if there is one.
pub open spec fn riff_header_size(f: Seq<u8>) -> Option<u32> {
    if f.len() >= 12 && u32_be(f, 0) == TAG_RIFF && u32_be(f, 8) == TAG_WAVE {
        Some(u32_le(f, 4) as u32)
    } else {
        None
    }
}

/// RIFF header: `size` is the file length less 8.
#[derive(Debug, Clone, Copy, PartialEq, Eq, Structural)]
pub struct RiffHeader {
    pub size: u32,
}

/// Checks that `input` starts with `RIFF`, a size, and `WAVE`.
pub fn parse_riff_header(input: &[u8]) -> (r: Option<RiffHeader>)
    ensures
        r == (match riff_header_size(input@) {
            Some(size) => Some(RiffHeader { size }),
            None => None,
        }),
{
    if input.len() < 12 || read_u32_be(input, 0) != TAG_RIFF || read_u32_be(input, 8) != TAG_WAVE {
        return None;
    }
    Some(RiffHeader { size: read_u32_le(input, 4) })
}

/// What the `fmt ` chunk states.
#[derive(Debug, Clone, Copy, PartialEq, Eq, Structural)]
pub struct WavFmtSpecs {
    pub audio_format: AudioFormat,
    pub num_channels: u16,
    pub sample_rate: u32,
    pub bit_depth: u16,
    pub ima_adpcm_num_block_align: Option<u16>,
    pub ima_adpcm_num_samples_per_block: Option<u16>,
}

/// Samples per IMA-ADPCM block that a block of `block_align` bytes holds, when
/// the geometry admits any.
pub open spec fn adpcm_samples_per_block(block_align: int, num_channels: int, bit_depth: int) -> Option<int> {
    if num_channels >= 1 && bit_depth >= 1 && block_align >= 4 * num_channels {
        Some((block_align - 4 * num_channels) * 8 / (bit_depth * num_channels) + 1)
    } else {
        None
    }
}

/// What a `fmt ` chunk payload `d` states, or `None` where it is malformed.
pub open spec fn fmt_of(d: Seq<u8>) -> Option<WavFmtSpecs> {
    if d.len() < 16 {
        None
    } else {
        let audio_format = match format_tag_of(u16_le(d, 0) as u16) {
            Ok(WaveFormatTag::LinearPcm) => AudioFormat::LinearPcmLe,
            Ok(WaveFormatTag::IeeeFloat) => AudioFormat::IeeeFloatLe,
            Ok(WaveFormatTag::ImaAdpcm) => AudioFormat::ImaAdpcmLe,
            Err(_) => AudioFormat::Unknown,
        };
        let num_channels = u16_le(d, 2);
        let block_align = u16_le(d, 12);
        let bit_depth = u16_le(d, 14);
        let base = WavFmtSpecs {
            audio_format,
            num_channels: num_channels as u16,
            sample_rate: u32_le(d, 4) as u32,
            bit_depth: bit_depth as u16,
            ima_adpcm_num_block_align: None,
            ima_adpcm_num_samples_per_block: None,
        };
        if audio_format != AudioFormat::ImaAdpcmLe {
            Some(base)
        } else if block_align % 4 != 0 || d.len() < 20 || u16_le(d, 16) != 2 {
            None
        } else {
            let spb = u16_le(d, 18);
            if adpcm_samples_per_block(block_align, num_channels, bit_depth) == Some(spb) {
                Some(
                    WavFmtSpecs {
                        ima_adpcm_num_block_align: Some(block_align as u16),
                        ima_adpcm_num_samples_per_block: Some(spb as u16),
                        ..base
                    },
                )
            } else {
                None
            }
        }
    }
}

/// Reads the payload of a `fmt ` chunk. An IMA-ADPCM payload must have a
/// block align that is a multiple of 4, `cbSize == 2`, and a samples-per-block
/// count that agrees with the block geometry.
pub fn parse_fmt(d: &[u8]) -> (r: Option<WavFmtSpecs>)
    ensures
        r == fmt_of(d@),
{
    if d.len() < 16 {
        return None;
    }
    let tag = read_u16_le(d, 0);
    let audio_format = match WaveFormatTag::try_from(tag) {
        Ok(WaveFormatTag::LinearPcm) => AudioFormat::LinearPcmLe,
        Ok(WaveFormatTag::IeeeFloat) => AudioFormat::IeeeFloatLe,
        Ok(WaveFormatTag::ImaAdpcm) => AudioFormat::ImaAdpcmLe,
        Err(_) => AudioFormat::Unknown,
    };
    let num_channels = read_u16_le(d, 2);
    let sample_rate = read_u32_le(d, 4);
    let block_align = read_u16_le(d, 12);
    let bit_depth = read_u16_le(d, 14);
    if !matches!(audio_format, AudioFormat::ImaAdpcmLe) {
        return Some(
            WavFmtSpecs {
                audio_format,
                num_channels,
                sample_rate,
                bit_depth,
                ima_adpcm_num_block_align: None,
                ima_adpcm_num_samples_per_block: None,
            },
        );
    }
    if block_align % 4 != 0 || d.len() < 20 || read_u16_le(d, 16) != 2 {
        return None;
    }
    let spb = read_u16_le(d, 18);
    let nch = num_channels as u64;
    let bd = bit_depth as u64;
    let ba = block_align as u64;
    if nch == 0 || bd == 0 || ba < 4 * nch {
        return None;
    }
    assert(bd * nch >= 1) by (nonlinear_arith)
        requires
            bd >= 1,
            nch >= 1,
    ;
    assert(bd * nch <= 0xFFFF * 0xFFFF) by (nonlinear_arith)
        requires
            bd <= 0xFFFF,
            nch <= 0xFFFF,
    ;
    let expected = (ba - 4 * nch) * 8 / (bd * nch) + 1;
    if expected != spb as u64 {
        return None;
    }
    Some(
        WavFmtSpecs {
            audio_format,
            num_channels,
            sample_rate,
            bit_depth,
            ima_adpcm_num_block_align: Some(block_align),
            ima_adpcm_num_samples_per_block: Some(spb),
        },
    )
}

/// Samples per channel that a linear PCM or float data region of
/// `data_len` bytes holds.
pub open spec fn linear_num_samples(data_len: int, bit_depth: int, num_channels: int) -> int {
    data_len / ((bit_depth / 8) * num_channels)
}

/// Number of samples per channel in a linear PCM or IEEE float data chunk of
/// `data_chunk_size_in_bytes` bytes. IMA-ADPCM is refused: its count comes
/// from the block geometry.
pub fn calc_num_samples_per_channel(data_chunk_size_in_bytes: u32, spec: &PcmSpecs) -> (r: Result<
    u32,
    PcmReaderError,
>)
    ensures
        spec.audio_format == AudioFormat::ImaAdpcmLe ==> r == Err::<u32, PcmReaderError>(
            PcmReaderError::UnsupportedAudioFormat,
        ),
        spec.audio_format != AudioFormat::ImaAdpcmLe && spec.num_channels == 0 ==> r == Err::<
            u32,
            PcmReaderError,
        >(PcmReaderError::UnsupportedAudioFormat),
        spec.audio_format != AudioFormat::ImaAdpcmLe && spec.num_channels != 0 && spec.bit_depth
            < 8 ==> r == Err::<u32, PcmReaderError>(PcmReaderError::UnsupportedBitDepth),
        spec.audio_format != AudioFormat::ImaAdpcmLe && spec.num_channels != 0 && spec.bit_depth
            >= 8 ==> r == Ok::<u32, PcmReaderError>(
            linear_num_samples(
                data_chunk_size_in_bytes as int,
                spec.bit_depth as int,
                spec.num_channels as int,
            ) as u32,
        ),
{
    if matches!(spec.audio_format, AudioFormat::ImaAdpcmLe) || spec.num_channels == 0 {
        return Err(PcmReaderError::UnsupportedAudioFormat);
    }
    if spec.bit_depth < 8 {
        return Err(PcmReaderError::UnsupportedBitDepth);
    }
    let bytes = (spec.bit_depth / 8) as u32;
    let nch = spec.num_channels as u32;
    assert(1 <= bytes * nch <= 0x2000 * 0xFFFF) by (nonlinear_arith)
        requires
            1 <= bytes <= 0x2000,
            1 <= nch <= 0xFFFF,
    ;
    Ok(data_chunk_size_in_bytes / (bytes * nch))
}

} // verus!
