//! FORM/AIFF and AIFF-C container: header, chunk tags, `COMM` and `SSND`
//! chunks, and the 80-bit extended float that carries the sample rate.
use vstd::prelude::*;
use vstd::arithmetic::div_mod::lemma_div_denominator;

use crate::bytes::{pow2, read_u16_be, read_u32_be, read_u64_be, u16_be, u32_be, u64_be};
use crate::{AudioFormat, PcmSpecs};

verus! {

pub const TAG_FORM: u32 = 0x464f_524d;
pub const TAG_AIFF: u32 = 0x4149_4646;
pub const TAG_AIFC: u32 = 0x4149_4643;

/// Errors of the extended-float reader.
#[derive(Debug, Clone, Copy, PartialEq, Eq, Structural)]
pub enum AiffError {
    /// The buffer is not exactly 10 bytes long.
    InvalidBufferLength,
}

/// Kinds of AIFF chunk.
#[derive(Debug, Default, Clone, Copy, PartialEq, Eq, Structural)]
pub enum ChunkId {
    /// `COMM`
    Common,
    /// `SSND`
    SoundData,
    /// `MARK`
    Marker,
    /// `FVER` (AIFF-C only)
    FormatVersion,
    /// `INST`
    Instrument,
    /// `MIDI`
    Midi,
    /// `AESD`
    AudioRecording,
    /// `APPL`
    ApplicationSpecific,
    /// `COMT`
    Comment,
    /// `NAME`
    Name,
    /// `AUTH`
    Author,
    /// `(c) `
    Copyright,
    /// `ANNO`
    Annotation,
    /// Any other tag.
    #[default]
    Unknown,
}

/// The kind of chunk that a tag (read as a big-endian integer) names.
pub open spec fn chunk_id_of(tag: u32) -> ChunkId {
    if tag == 0x434f_4d4d {
        ChunkId::Common
    } else if tag == 0x5353_4e44 {
        ChunkId::SoundData
    } else if tag == 0x4656_4552 {
        ChunkId::FormatVersion
    } else if tag == 0x4d41_524b {
        ChunkId::Marker
    } else if tag == 0x494e_5354 {
        ChunkId::Instrument
    } else if tag == 0x4d49_4449 {
        ChunkId::Midi
    } else if tag == 0x4145_5344 {
        ChunkId::AudioRecording
    } else if tag == 0x4150_504c {
        ChunkId::ApplicationSpecific
    } else if tag == 0x434f_4d54 {
        ChunkId::Comment
    } else if tag == 0x4e41_4d45 {
        ChunkId::Name
    } else if tag == 0x4155_5448 {
        ChunkId::Author
    } else if tag == 0x2863_2920 {
        ChunkId::Copyright
    } else if tag == 0x414e_4e4f {
        ChunkId::Annotation
    } else {
        ChunkId::Unknown
    }
}

impl ChunkId {
    /// The kind of chunk that a tag (read as a big-endian integer) names.
    pub fn from_tag(tag: u32) -> (r: ChunkId)
        ensures
            r == chunk_id_of(tag),
    {
        if tag == 0x434f_4d4d {
            ChunkId::Common
        } else if tag == 0x5353_4e44 {
            ChunkId::SoundData
        } else if tag == 0x4656_4552 {
            ChunkId::FormatVersion
        } else if tag == 0x4d41_524b {
            ChunkId::Marker
        } else if tag == 0x494e_5354 {
            ChunkId::Instrument
        } else if tag == 0x4d49_4449 {
            ChunkId::Midi
        } else if tag == 0x4145_5344 {
            ChunkId::AudioRecording
        } else if tag == 0x4150_504c {
            ChunkId::ApplicationSpecific
        } else if tag == 0x434f_4d54 {
            ChunkId::Comment
        } else if tag == 0x4e41_4d45 {
            ChunkId::Name
        } else if tag == 0x4155_5448 {
            ChunkId::Author
        } else if tag == 0x2863_2920 {
            ChunkId::Copyright
        } else if tag == 0x414e_4e4f {
            ChunkId::Annotation
        } else {
            ChunkId::Unknown
        }
    }
}

impl<'a> TryFrom<&'a [u8]> for ChunkId {
    type Error = ();

    /// A four-byte tag maps to its kind; any other length is refused.
    fn try_from(v: &'a [u8]) -> (r: Result<ChunkId, ()>) {
        if v.len() != 4 {
            return Err(());
        }
        Ok(ChunkId::from_tag(read_u32_be(v, 0)))
    }
}

impl<'a> vstd::std_specs::convert::TryFromSpecImpl<&'a [u8]> for ChunkId {
    open spec fn obeys_try_from_spec() -> bool {
        true
    }

    open spec fn try_from_spec(v: &'a [u8]) -> Result<ChunkId, ()> {
        if v@.len() != 4 {
            Err(())
        } else {
            Ok(chunk_id_of(u32_be(v@, 0) as u32))
        }
    }
}

/// Declared size of a FORM header (of type `AIFF` or `AIFC`) at the start of
/// `f`, with whether it is AIFF-C, if there is one.
pub open spec fn form_header(f: Seq<u8>) -> Option<AiffHeader> {
    if f.len() >= 12 && u32_be(f, 0) == TAG_FORM && (u32_be(f, 8) == TAG_AIFF || u32_be(f, 8)
        == TAG_AIFC) {
        Some(AiffHeader { size: u32_be(f, 4) as u32, is_aifc: u32_be(f, 8) == TAG_AIFC })
    } else {
        None
    }
}

/// FORM header: `size` is the file length less 8.
#[derive(Debug, Clone, Copy, PartialEq, Eq, Structural)]
pub struct AiffHeader {
    pub size: u32,
    pub is_aifc: bool,
}

/// Checks that `input` starts with `FORM`, a size, and `AIFF` or `AIFC`.
pub fn parse_aiff_header(input: &[u8]) -> (r: Option<AiffHeader>)
    ensures
        r == form_header(input@),
{
    if input.len() < 12 || read_u32_be(input, 0) != TAG_FORM {
        return None;
    }
    let id = read_u32_be(input, 8);
    if id != TAG_AIFF && id != TAG_AIFC {
        return None;
    }
    Some(AiffHeader { size: read_u32_be(input, 4), is_aifc: id == TAG_AIFC })
}

/// An 80-bit extended float: sign, 15-bit biased exponent and the full 64-bit
/// mantissa whose top bit is the explicit integer bit. Its value is
/// `(-1)^negative * mantissa * 2^(exponent - 16383 - 63)`.
#[derive(Debug, Clone, Copy, PartialEq, Eq, Structural)]
pub struct Extended {
    pub negative: bool,
    pub exponent: u16,
    pub mantissa: u64,
}

/// The extended float held in `b`, if `b` has the required 10 bytes.
pub open spec fn extended_of(b: Seq<u8>) -> Result<Extended, AiffError> {
    if b.len() != 10 {
        Err(AiffError::InvalidBufferLength)
    } else {
        Ok(
            Extended {
                negative: b[0] >= 0x80,
                exponent: (u16_be(b, 0) % 0x8000) as u16,
                mantissa: u64_be(b, 2) as u64,
            },
        )
    }
}

/// Reads the 10-byte big-endian extended float in `buffer`.
pub fn parse_extended(buffer: &[u8]) -> (r: Result<Extended, AiffError>)
    ensures
        r == extended_of(buffer@),
{
    if buffer.len() != 10 {
        return Err(AiffError::InvalidBufferLength);
    }
    let head = read_u16_be(buffer, 0);
    Ok(Extended { negative: buffer[0] >= 0x80, exponent: head % 0x8000, mantissa: read_u64_be(buffer, 2) })
}

/// The integer part of a non-negative extended value; `mantissa * 2^shift`
/// with `shift = exponent - 16446`.
pub open spec fn extended_floor(e: Extended) -> int {
    let shift = e.exponent - 16446;
    if shift >= 0 {
        (e.mantissa as int) * pow2(shift as nat)
    } else {
        (e.mantissa as int) / pow2((-shift) as nat)
    }
}

/// The extended value cut to an integer and held in `u32`: negative values
/// give 0, values past the range give `u32::MAX`.
pub open spec fn extended_to_u32_spec(e: Extended) -> u32 {
    if e.negative {
        0
    } else if extended_floor(e) > u32::MAX {
        u32::MAX
    } else {
        extended_floor(e) as u32
    }
}

proof fn lemma_pow2_positive(n: nat)
    ensures
        pow2(n) >= 1,
    decreases n,
{
    if n > 0 {
        lemma_pow2_positive((n - 1) as nat);
    }
}

proof fn lemma_pow2_monotone(a: nat, b: nat)
    requires
        a <= b,
    ensures
        pow2(a) <= pow2(b),
    decreases b,
{
    if b > a {
        lemma_pow2_monotone(a, (b - 1) as nat);
        lemma_pow2_positive((b - 1) as nat);
    }
}

/// `m * 2^shift`, or `u32::MAX` where that is larger.
fn mul_pow2_saturating(m: u64, shift: u16) -> (r: u32)
    ensures
        r == (if (m as int) * pow2(shift as nat) > u32::MAX {
            u32::MAX as int
        } else {
            (m as int) * pow2(shift as nat)
        }),
{
    proof {
        lemma_pow2_positive(shift as nat);
        assert((m as int) * pow2(shift as nat) >= m) by (nonlinear_arith)
            requires
                pow2(shift as nat) >= 1,
                m >= 0,
        ;
    }
    if m > 0xFFFF_FFFF {
        return u32::MAX;
    }
    let mut v: u64 = m;
    let mut i: u16 = 0;
    while i < shift
        invariant
            0 <= i <= shift,
            v == (m as int) * pow2(i as nat),
            v <= 0xFFFF_FFFF,
        decreases shift - i,
    {
        assert(pow2((i + 1) as nat) == 2 * pow2(i as nat));
        assert((m as int) * pow2((i + 1) as nat) == 2 * ((m as int) * pow2(i as nat)))
            by (nonlinear_arith)
            requires
                pow2((i + 1) as nat) == 2 * pow2(i as nat),
        ;
        if v > 0x7FFF_FFFF {
            proof {
                lemma_pow2_monotone((i + 1) as nat, shift as nat);
                assert((m as int) * pow2((i + 1) as nat) <= (m as int) * pow2(shift as nat))
                    by (nonlinear_arith)
                    requires
                        pow2((i + 1) as nat) <= pow2(shift as nat),
                        m >= 0,
                ;
            }
            return u32::MAX;
        }
        v = v * 2;
        i = i + 1;
    }
    v as u32
}

/// `m / 2^shift`, rounded down.
fn div_pow2(m: u64, shift: u16) -> (r: u64)
    ensures
        r == (m as int) / pow2(shift as nat),
{
    let mut v: u64 = m;
    let mut i: u16 = 0;
    while i < shift
        invariant
            0 <= i <= shift,
            v == (m as int) / pow2(i as nat),
        decreases shift - i,
    {
        proof {
            lemma_pow2_positive(i as nat);
            lemma_div_denominator(m as int, pow2(i as nat), 2);
            assert(pow2((i + 1) as nat) == pow2(i as nat) * 2);
        }
        v = v / 2;
        i = i + 1;
    }
    v
}

/// Cuts an extended value to an integer sample rate (see `extended_to_u32_spec`).
pub fn extended_to_u32(e: Extended) -> (r: u32)
    ensures
        r == extended_to_u32_spec(e),
{
    if e.negative {
        return 0;
    }
    if e.exponent >= 16446 {
        mul_pow2_saturating(e.mantissa, e.exponent - 16446)
    } else {
        let v = div_pow2(e.mantissa, 16446 - e.exponent);
        if v > 0xFFFF_FFFF {
            u32::MAX
        } else {
            v as u32
        }
    }
}

/// The sample rate that a 10-byte extended float gives.
pub fn sample_rate_of_extended(buffer: &[u8]) -> (r: Result<u32, AiffError>)
    ensures
        r == (match extended_of(buffer@) {
            Ok(e) => Ok(extended_to_u32_spec(e)),
            Err(x) => Err(x),
        }),
{
    let e = parse_extended(buffer)?;
    Ok(extended_to_u32(e))
}

/// Format and bit depth that an AIFF-C compression type (read as a big-endian
/// integer) stands for; a depth of `None` keeps the `COMM` chunk's own.
pub open spec fn compression_of(tag: u32) -> Option<(AudioFormat, Option<u16>)> {
    if tag == 0x4e4f_4e45 {
        Some((AudioFormat::LinearPcmBe, None))
    } else if tag == 0x7477_6f73 {
        Some((AudioFormat::LinearPcmBe, Some(16u16)))
    } else if tag == 0x736f_7774 {
        Some((AudioFormat::LinearPcmLe, Some(16u16)))
    } else if tag == 0x666c_3332 || tag == 0x464c_3332 {
        Some((AudioFormat::IeeeFloatBe, Some(32u16)))
    } else if tag == 0x666c_3634 || tag == 0x464c_3634 {
        Some((AudioFormat::IeeeFloatBe, Some(64u16)))
    } else if tag == 0x696e_3234 {
        Some((AudioFormat::LinearPcmBe, Some(24u16)))
    } else if tag == 0x696e_3332 {
        Some((AudioFormat::LinearPcmBe, Some(32u16)))
    } else if tag == 0x3432_6e69 {
        Some((AudioFormat::LinearPcmLe, Some(24u16)))
    } else if tag == 0x3233_6e69 {
        Some((AudioFormat::LinearPcmLe, Some(32u16)))
    } else {
        None
    }
}

/// Maps the four-byte compression type of an AIFF-C `COMM` chunk to a format
/// and, where the type fixes one, a bit depth. Unknown types are refused.
pub fn aifc_compression_type(compression_type_id: &[u8]) -> (r: Result<(AudioFormat, Option<u16>), ()>)
    ensures
        r == (if compression_type_id@.len() != 4 {
            Err(())
        } else {
            match compression_of(u32_be(compression_type_id@, 0) as u32) {
                Some(t) => Ok(t),
                None => Err(()),
            }
        }),
{
    if compression_type_id.len() != 4 {
        return Err(());
    }
    let tag = read_u32_be(compression_type_id, 0);
    if tag == 0x4e4f_4e45 {
        Ok((AudioFormat::LinearPcmBe, None))
    } else if tag == 0x7477_6f73 {
        Ok((AudioFormat::LinearPcmBe, Some(16)))
    } else if tag == 0x736f_7774 {
        Ok((AudioFormat::LinearPcmLe, Some(16)))
    } else if tag == 0x666c_3332 || tag == 0x464c_3332 {
        Ok((AudioFormat::IeeeFloatBe, Some(32)))
    } else if tag == 0x666c_3634 || tag == 0x464c_3634 {
        Ok((AudioFormat::IeeeFloatBe, Some(64)))
    } else if tag == 0x696e_3234 {
        Ok((AudioFormat::LinearPcmBe, Some(24)))
    } else if tag == 0x696e_3332 {
        Ok((AudioFormat::LinearPcmBe, Some(32)))
    } else if tag == 0x3432_6e69 {
        Ok((AudioFormat::LinearPcmLe, Some(24)))
    } else if tag == 0x3233_6e69 {
        Ok((AudioFormat::LinearPcmLe, Some(32)))
    } else {
        Err(())
    }
}

/// What a `COMM` chunk payload `d` states, or `None` where it is malformed.
/// `num_samples` is the chunk's own frame count.
pub open spec fn comm_of(d: Seq<u8>, is_aifc: bool) -> Option<PcmSpecs> {
    if d.len() < 18 {
        None
    } else {
        let base = PcmSpecs {
            audio_format: AudioFormat::LinearPcmBe,
            num_channels: u16_be(d, 0) as u16,
            sample_rate: extended_to_u32_spec(extended_of(d.subrange(8, 18))->Ok_0),
            bit_depth: u16_be(d, 6) as u16,
            num_samples: u32_be(d, 2) as u32,
            ima_adpcm_num_block_align: None,
            ima_adpcm_num_samples_per_block: None,
        };
        if !is_aifc {
            Some(base)
        } else if d.len() < 22 {
            None
        } else {
            match compression_of(u32_be(d, 18) as u32) {
                None => None,
                Some((f, b)) => Some(
                    PcmSpecs {
                        audio_format: f,
                        bit_depth: match b {
                            Some(b) => b,
                            None => base.bit_depth,
                        },
                        ..base
                    },
                ),
            }
        }
    }
}

/// Reads the payload of a `COMM` chunk: channels, frames, bit depth and the
/// extended-float sample rate, then for AIFF-C the compression type.
pub fn parse_comm(d: &[u8], is_aifc: bool) -> (r: Option<PcmSpecs>)
    ensures
        r == comm_of(d@, is_aifc),
{
    if d.len() < 18 {
        return None;
    }
    let num_channels = read_u16_be(d, 0);
    let num_sample_frames = read_u32_be(d, 2);
    let bit_depth = read_u16_be(d, 6);
    let rate_bytes = vstd::slice::slice_subrange(d, 8, 18);
    let sample_rate = match parse_extended(rate_bytes) {
        Ok(e) => extended_to_u32(e),
        Err(_) => return None,
    };
    let base = PcmSpecs {
        audio_format: AudioFormat::LinearPcmBe,
        num_channels,
        sample_rate,
        bit_depth,
        num_samples: num_sample_frames,
        ima_adpcm_num_block_align: None,
        ima_adpcm_num_samples_per_block: None,
    };
    if !is_aifc {
        return Some(base);
    }
    if d.len() < 22 {
        return None;
    }
    let tag = vstd::slice::slice_subrange(d, 18, 22);
    assert(u32_be(tag@, 0) == u32_be(d@, 18));
    match aifc_compression_type(tag) {
        Err(()) => None,
        Ok((audio_format, depth)) => Some(
            PcmSpecs {
                audio_format,
                bit_depth: match depth {
                    Some(b) => b,
                    None => bit_depth,
                },
                ..base
            },
        ),
    }
}

/// `SSND` sub-header: both fields are zero in the files this library reads.
#[derive(Debug, Clone, Copy, PartialEq, Eq, Structural)]
pub struct SsndBlockInfo {
    pub offset: i32,
    pub block_size: i32,
}

/// Whether a `SSND` payload starts with a zero offset and a zero block size.
pub open spec fn ssnd_ok(d: Seq<u8>) -> bool {
    d.len() >= 8 && u32_be(d, 0) == 0 && u32_be(d, 4) == 0
}

/// Reads the `SSND` sub-header; nonzero offset or block size is refused.
pub fn parse_ssnd(d: &[u8]) -> (r: Option<SsndBlockInfo>)
    ensures
        r is Some <==> ssnd_ok(d@),
        r is Some ==> r->Some_0 == (SsndBlockInfo { offset: 0, block_size: 0 }),
{
    if d.len() < 8 || read_u32_be(d, 0) != 0 || read_u32_be(d, 4) != 0 {
        return None;
    }
    Some(SsndBlockInfo { offset: 0, block_size: 0 })
}

} // verus!
