//! Properties that relate the library's functions to one another.
use vstd::prelude::*;

use crate::aiff::form_header;
use crate::bytes::u16_le;
use crate::chunk::{chunks_from, Chunk, MAX_NUM_CHUNKS};
use crate::imaadpcm::{next_frame, ImaAdpcmError};
use crate::wav::{adpcm_samples_per_block, chunk_id_of, fmt_of, riff_header_size, ChunkId};
use crate::{chunk_step, parsed, walk, AudioFormat, PcmReaderError, PcmSpecs, WalkState};

verus! {

/// A RIFF or FORM file whose declared size is not its length less 8 is
/// refused with `HeaderSizeMismatch`, whatever its chunks hold.
pub proof fn lemma_header_size_mismatch(f: Seq<u8>)
    requires
        (riff_header_size(f) matches Some(size) && f.len() - 8 != size) || (form_header(f) matches Some(
            h,
        ) && f.len() - 8 != h.size),
    ensures
        parsed(f) == Err::<WalkState, PcmReaderError>(PcmReaderError::HeaderSizeMismatch),
{
}

/// An IMA-ADPCM `fmt ` payload whose samples-per-block field disagrees with
/// `((block_align - 4 * channels) * 8) / (bit_depth * channels) + 1`.
pub open spec fn spb_mismatch(d: Seq<u8>) -> bool {
    &&& d.len() >= 20
    &&& u16_le(d, 0) == 0x11
    &&& adpcm_samples_per_block(u16_le(d, 12), u16_le(d, 2), u16_le(d, 14)) != Some(u16_le(d, 18))
}

/// A WAV walk meets a `fmt ` chunk that does not parse: it fails, and a WAV
/// walk fails only with `FmtParseError`.
proof fn lemma_walk_meets_bad_fmt(file: Seq<u8>, chunks: Seq<Chunk>, st: WalkState, k: int)
    requires
        0 <= k < chunks.len(),
        chunk_id_of(chunks[k].tag) == ChunkId::Fmt,
        fmt_of(chunks[k].payload(file)) is None,
    ensures
        walk(file, chunks, None, st) == Err::<WalkState, PcmReaderError>(PcmReaderError::FmtParseError),
    decreases chunks.len(),
{
    reveal(chunk_step);
    if k > 0 {
        match chunk_step(file, chunks[0], None, st) {
            Ok(next) => {
                assert(chunks.drop_first()[k - 1] == chunks[k]);
                lemma_walk_meets_bad_fmt(file, chunks.drop_first(), next, k - 1);
            },
            Err(_) => {},
        }
    }
}

/// Construction refuses a WAV file with an IMA-ADPCM `fmt ` chunk whose
/// samples-per-block field disagrees with the block geometry.
pub proof fn lemma_spb_mismatch_rejected(f: Seq<u8>, k: int)
    requires
        riff_header_size(f) matches Some(size) && f.len() - 8 == size,
        chunks_from(f, 12, false).len() <= MAX_NUM_CHUNKS,
        0 <= k < chunks_from(f, 12, false).len(),
        chunk_id_of(chunks_from(f, 12, false)[k].tag) == ChunkId::Fmt,
        spb_mismatch(chunks_from(f, 12, false)[k].payload(f)),
    ensures
        parsed(f) == Err::<WalkState, PcmReaderError>(PcmReaderError::FmtParseError),
{
    let d = chunks_from(f, 12, false)[k].payload(f);
    assert(fmt_of(d) is None);
    lemma_walk_meets_bad_fmt(f, chunks_from(f, 12, false), (crate::empty_specs(), 0usize, 0usize), k);
}

/// Outcomes of playing `n` frames from position `f`: a frame that fails leaves
/// the position where it was.
pub open spec fn outcomes(specs: PcmSpecs, data: Seq<u8>, f: int, n: nat) -> Seq<Result<Seq<i16>, ImaAdpcmError>>
    decreases n,
{
    if n == 0 {
        seq![]
    } else {
        let r = next_frame(specs, data, f);
        seq![r] + outcomes(specs, data, if r is Ok { f + 1 } else { f }, (n - 1) as nat)
    }
}

/// After `rewind`, a player plays what a fresh player over the same input
/// plays: what `get_next_frame` yields depends on the position alone, and
/// `rewind` and `new` leave the same position.
pub proof fn lemma_rewind_replays(rewound: (PcmSpecs, Seq<u8>, u32), fresh: (PcmSpecs, Seq<u8>, u32), n: nat)
    requires
        rewound.0 == fresh.0,
        rewound.1 == fresh.1,
        rewound.2 == 0,
        fresh.2 == 0,
    ensures
        outcomes(rewound.0, rewound.1, rewound.2 as int, n) == outcomes(fresh.0, fresh.1, fresh.2 as int, n),
{
}

} // verus!

verus! {

/// Every state of a walk over chunks that lie in the file keeps a data region
/// of at most `u32::MAX` bytes.
proof fn lemma_walk_region_fits(file: Seq<u8>, chunks: Seq<Chunk>, aiff: Option<bool>, st: WalkState)
    requires
        st.2 <= u32::MAX,
        forall|k: int| 0 <= k < chunks.len() ==> (#[trigger] chunks[k]).fits(file),
    ensures
        walk(file, chunks, aiff, st) matches Ok(w) ==> w.2 <= u32::MAX,
    decreases chunks.len(),
{
    reveal(chunk_step);
    if chunks.len() > 0 {
        let c = chunks[0];
        assert(c.fits(file));
        match chunk_step(file, c, aiff, st) {
            Ok(next) => {
                assert forall|k: int| 0 <= k < chunks.drop_first().len() implies (
                #[trigger] chunks.drop_first()[k]).fits(file) by {
                    assert(chunks.drop_first()[k] == chunks[k + 1]);
                }
                lemma_walk_region_fits(file, chunks.drop_first(), aiff, next);
            },
            Err(_) => {},
        }
    }
}

/// The sample count of a resolved file fits its data region: for linear PCM
/// and IEEE float, `num_samples * num_channels * (bit_depth / 8)` bytes lie
/// in it; for IMA-ADPCM, it is the number of whole blocks times the samples
/// per block.
pub proof fn lemma_num_samples_fit(f: Seq<u8>)
    requires
        parsed(f) is Ok,
    ensures
        ({
            let (sp, ds, dl) = parsed(f)->Ok_0;
            &&& sp.audio_format != AudioFormat::ImaAdpcmLe ==> sp.num_samples * sp.num_channels * (
            sp.bit_depth / 8) <= dl
            &&& sp.audio_format == AudioFormat::ImaAdpcmLe ==> sp.num_samples == (dl as int
                / sp.ima_adpcm_num_block_align->Some_0 as int)
                * sp.ima_adpcm_num_samples_per_block->Some_0
        }),
{
    let init: WalkState = (crate::empty_specs(), 0usize, 0usize);
    let be = riff_header_size(f) is None;
    let aiff = if be {
        Some(form_header(f)->Some_0.is_aifc)
    } else {
        None::<bool>
    };
    crate::lemma_chunks_fit(f, 12, be);
    lemma_walk_region_fits(f, chunks_from(f, 12, be), aiff, init);
    let w = walk(f, chunks_from(f, 12, be), aiff, init)->Ok_0;
    let sp = w.0;
    let dl = w.2 as int;
    if sp.audio_format != AudioFormat::ImaAdpcmLe {
        let bytes = (sp.bit_depth / 8) as int;
        let nch = sp.num_channels as int;
        assert(bytes * nch >= 1) by (nonlinear_arith)
            requires
                bytes >= 1,
                nch >= 1,
        ;
        let n = dl / (bytes * nch);
        assert(n * (bytes * nch) <= dl) by (nonlinear_arith)
            requires
                n == dl / (bytes * nch),
                bytes * nch >= 1,
                dl >= 0,
        ;
        assert(n <= dl) by (nonlinear_arith)
            requires
                n == dl / (bytes * nch),
                bytes * nch >= 1,
                dl >= 0,
        ;
        assert(n * nch * bytes == n * (bytes * nch)) by (nonlinear_arith);
    }
}

} // verus!
