use vstd::prelude::*;
use vstd::arithmetic::div_mod::{
    lemma_fundamental_div_mod, lemma_fundamental_div_mod_converse, lemma_mod_multiples_basic,
    lemma_mod_pos_bound,
};

use crate::bytes::{read_u16_le, signed, to_signed16, u16_le};
use crate::{parsed, AudioFormat, PcmReader, PcmReaderError, PcmSpecs};

verus! {

/// Index table for the step-size table.
pub const INDEX_TABLE: [i8; 16] = [-1, -1, -1, -1, 2, 4, 6, 8, -1, -1, -1, -1, 2, 4, 6, 8];

/// Quantizer lookup table.
pub const STEP_SIZE_TABLE: [i16; 89] = [
    7, 8, 9, 10, 11, 12, 13, 14, 16, 17, 19, 21, 23, 25, 28, 31, 34, 37, 41, 45, 50, 55, 60, 66,
    73, 80, 88, 97, 107, 118, 130, 143, 157, 173, 190, 209, 230, 253, 279, 307, 337, 371, 408, 449,
    494, 544, 598, 658, 724, 796, 876, 963, 1060, 1166, 1282, 1411, 1552, 1707, 1878, 2066, 2272,
    2499, 2749, 3024, 3327, 3660, 4026, 4428, 4871, 5358, 5894, 6484, 7132, 7845, 8630, 9493,
    10442, 11487, 12635, 13899, 15289, 16818, 18500, 20350, 22385, 24623, 27086, 29794, 32767,
];

/// Most channels that the decoder keeps state for.
pub const MAX_NUM_CHANNELS: usize = 2;

/// `v` held to `[lo, hi]`.
pub open spec fn clamp(v: int, lo: int, hi: int) -> int {
    if v < lo {
        lo
    } else if v > hi {
        hi
    } else {
        v
    }
}

/// New step-table index after `nibble`.
pub open spec fn next_index(nibble: int, index: int) -> int {
    clamp(index + INDEX_TABLE@[nibble] as int, 0, 88)
}

/// Difference that `nibble` encodes at step-table index `index`.
pub open spec fn nibble_diff(nibble: int, index: int) -> int {
    let step = STEP_SIZE_TABLE@[index] as int;
    let magnitude = (if (nibble / 4) % 2 == 1 { step } else { 0 }) + (if (nibble / 2) % 2 == 1 {
        step / 2
    } else {
        0
    }) + (if nibble % 2 == 1 { step / 4 } else { 0 }) + step / 8;
    if (nibble / 8) % 2 == 1 {
        -magnitude
    } else {
        magnitude
    }
}

/// One decoding step: the predicted sample and the new step-table index.
pub open spec fn decode_spec(nibble: int, last_predicted: int, index: int) -> (int, int) {
    (clamp(last_predicted + nibble_diff(nibble, index), -32768, 32767), next_index(nibble, index))
}

/// Updates the step-table index after `nibble`.
pub fn compute_step_size(nibble: u8, step_size_table_index: i8) -> (r: i8)
    requires
        nibble < 16,
        0 <= step_size_table_index <= 88,
    ensures
        r == next_index(nibble as int, step_size_table_index as int),
{
    let v = step_size_table_index as i16 + INDEX_TABLE[nibble as usize] as i16;
    if v < 0 {
        0
    } else if v > 88 {
        88
    } else {
        v as i8
    }
}

/// Decodes one 4-bit code from the last predicted sample and the step-table
/// index; returns the predicted sample and the new index.
pub fn decode_sample(nibble: u8, last_predicted_sample: i16, step_size_table_index: i8) -> (r: (
    i16,
    i8,
))
    requires
        nibble < 16,
        0 <= step_size_table_index <= 88,
    ensures
        (r.0 as int, r.1 as int) == decode_spec(
            nibble as int,
            last_predicted_sample as int,
            step_size_table_index as int,
        ),
{
    let step = STEP_SIZE_TABLE[step_size_table_index as usize] as i32;
    let mut diff: i32 = 0;
    if (nibble / 4) % 2 == 1 {
        diff = diff + step;
    }
    if (nibble / 2) % 2 == 1 {
        diff = diff + step / 2;
    }
    if nibble % 2 == 1 {
        diff = diff + step / 4;
    }
    diff = diff + step / 8;
    if (nibble / 8) % 2 == 1 {
        diff = -diff;
    }
    let sum = last_predicted_sample as i32 + diff;
    let predicted = if sum < -32768 {
        -32768
    } else if sum > 32767 {
        32767
    } else {
        sum as i16
    };
    (predicted, compute_step_size(nibble, step_size_table_index))
}

/// Errors of IMA-ADPCM decoding.
#[derive(Debug, Clone, Copy, PartialEq, Eq, Structural)]
pub enum ImaAdpcmError {
    /// IMA-ADPCM cannot be read by random access; use `ImaAdpcmPlayer`.
    CantDecodeImaAdpcm,
    /// The audio format is not IMA-ADPCM.
    NotImaAdpcm,
    /// The output buffer has fewer elements than there are channels.
    InsufficientOutputBufferChannels,
    /// Every frame has been played.
    FinishPlaying,
    /// The block geometry does not fit the data.
    BlockLengthMismatch,
    /// A data word or a block header could not be read.
    ReadError,
}

/// Samples per channel in an IMA-ADPCM data region of `data_len` bytes: the
/// number of whole blocks times the samples per block, where that fits `u32`.
pub open spec fn adpcm_num_samples(data_len: int, specs: PcmSpecs) -> Option<int> {
    match (specs.ima_adpcm_num_block_align, specs.ima_adpcm_num_samples_per_block) {
        (Some(ba), Some(spb)) => if ba == 0 || (data_len / ba as int) * spb > u32::MAX {
            None
        } else {
            Some((data_len / ba as int) * spb)
        },
        _ => None,
    }
}

/// Number of samples per channel in an IMA-ADPCM data chunk.
pub fn calc_num_samples_per_channel(data_chunk_size_in_bytes: u32, spec: &PcmSpecs) -> (r: Result<
    u32,
    ImaAdpcmError,
>)
    ensures
        spec.audio_format != AudioFormat::ImaAdpcmLe ==> r == Err::<u32, ImaAdpcmError>(
            ImaAdpcmError::NotImaAdpcm,
        ),
        spec.audio_format == AudioFormat::ImaAdpcmLe ==> r == (match adpcm_num_samples(
            data_chunk_size_in_bytes as int,
            *spec,
        ) {
            Some(n) => Ok::<u32, ImaAdpcmError>(n as u32),
            None => Err(ImaAdpcmError::BlockLengthMismatch),
        }),
{
    if !matches!(spec.audio_format, AudioFormat::ImaAdpcmLe) {
        return Err(ImaAdpcmError::NotImaAdpcm);
    }
    let (ba, spb) = match (spec.ima_adpcm_num_block_align, spec.ima_adpcm_num_samples_per_block) {
        (Some(ba), Some(spb)) => (ba as u64, spb as u64),
        _ => return Err(ImaAdpcmError::BlockLengthMismatch),
    };
    if ba == 0 {
        return Err(ImaAdpcmError::BlockLengthMismatch);
    }
    let blocks = data_chunk_size_in_bytes as u64 / ba;
    assert(blocks * spb <= 0xFFFF_FFFF * 0xFFFF) by (nonlinear_arith)
        requires
            blocks <= 0xFFFF_FFFF,
            spb <= 0xFFFF,
    ;
    let n = blocks * spb;
    if n > 0xFFFF_FFFF {
        return Err(ImaAdpcmError::BlockLengthMismatch);
    }
    Ok(n as u32)
}

/// Declares heapless::spsc::Queue, the fixed-capacity FIFO that holds each
/// channel's pending codes; its contents are seen only through `queued`.
#[verifier::external_type_specification]
#[verifier::external_body]
#[verifier::reject_recursive_types(T)]
pub struct ExQueue<T, const N: usize>(heapless::spsc::Queue<T, N>);

/// The codes that a heapless::spsc::Queue holds, front first.
pub uninterp spec fn queued(q: heapless::spsc::Queue<u8, 9>) -> Seq<u8>;

/// Relies on heapless::spsc::Queue::new: a new queue holds nothing.
#[verifier::external_body]
fn nibble_queue_new() -> (r: heapless::spsc::Queue<u8, 9>)
    ensures
        queued(r) == Seq::<u8>::empty(),
{
    heapless::spsc::Queue::new()
}

/// Relies on heapless::spsc::Queue::enqueue: below its capacity of 8 the
/// item goes to the back; a full queue hands it back and is unchanged.
#[verifier::external_body]
fn nibble_enqueue(q: &mut heapless::spsc::Queue<u8, 9>, v: u8) -> (r: Result<(), u8>)
    ensures
        queued(*old(q)).len() < 8 ==> (r is Ok && queued(*final(q)) == queued(*old(q)).push(v)),
        queued(*old(q)).len() >= 8 ==> (r == Err::<(), u8>(v) && queued(*final(q)) == queued(*old(q))),
{
    q.enqueue(v)
}

/// Relies on heapless::spsc::Queue::dequeue: the front item leaves the queue;
/// an empty queue gives `None` and is unchanged.
#[verifier::external_body]
fn nibble_dequeue(q: &mut heapless::spsc::Queue<u8, 9>) -> (r: Option<u8>)
    ensures
        queued(*old(q)).len() == 0 ==> (r is None && queued(*final(q)) == queued(*old(q))),
        queued(*old(q)).len() > 0 ==> (r == Some(queued(*old(q))[0]) && queued(*final(q))
            == queued(*old(q)).drop_first()),
{
    q.dequeue()
}

/// Block `b` of the data region.
pub open spec fn block_of(data: Seq<u8>, block_align: int, b: int) -> Seq<u8> {
    data.subrange(b * block_align, b * block_align + block_align)
}

/// Initial predictor sample of channel `ch` in a block's header.
pub open spec fn header_sample(blk: Seq<u8>, ch: int) -> int {
    signed(u16_le(blk, 4 * ch), 16)
}

/// Initial step-table index of channel `ch` in a block's header.
pub open spec fn header_index(blk: Seq<u8>, ch: int) -> int {
    signed(blk[4 * ch + 2] as int, 8)
}

/// Every channel's header holds a step-table index in `[0, 88]`.
pub open spec fn headers_ok(blk: Seq<u8>, nch: int) -> bool {
    forall|ch: int| 0 <= ch < nch ==> 0 <= #[trigger] header_index(blk, ch) <= 88
}

/// Offset in a block past the headers and the first `g` groups of data words
/// (one 4-byte word per channel per group).
pub open spec fn groups_end(nch: int, g: int) -> int {
    4 * nch + 4 * nch * g
}

/// The `j`-th 4-bit code of channel `ch` in a block: codes come eight to a
/// data word, low nibble of each byte first.
pub open spec fn code_at(blk: Seq<u8>, nch: int, ch: int, j: int) -> int {
    let byte = blk[groups_end(nch, j / 8) + 4 * ch + (j % 8) / 2] as int;
    if (j % 8) % 2 == 0 {
        byte % 16
    } else {
        byte / 16
    }
}

/// Predictor sample and step-table index of channel `ch` after the first `n`
/// codes of a block.
pub open spec fn state_after(blk: Seq<u8>, nch: int, ch: int, n: nat) -> (int, int)
    decreases n,
{
    if n == 0 {
        (header_sample(blk, ch), header_index(blk, ch))
    } else {
        let prev = state_after(blk, nch, ch, (n - 1) as nat);
        decode_spec(code_at(blk, nch, ch, n - 1), prev.0, prev.1)
    }
}

/// Block geometry that the decoder needs: IMA-ADPCM with one or two channels,
/// room for the headers, and a sample count of whole blocks.
pub open spec fn geometry_ok(specs: PcmSpecs, data_len: int) -> bool {
    &&& specs.audio_format == AudioFormat::ImaAdpcmLe
    &&& 1 <= specs.num_channels <= MAX_NUM_CHANNELS
    &&& specs.ima_adpcm_num_block_align is Some
    &&& specs.ima_adpcm_num_samples_per_block is Some
    &&& specs.ima_adpcm_num_block_align->Some_0 >= 4 * specs.num_channels
    &&& specs.ima_adpcm_num_samples_per_block->Some_0 >= 1
    &&& specs.num_samples == (data_len / specs.ima_adpcm_num_block_align->Some_0 as int)
        * specs.ima_adpcm_num_samples_per_block->Some_0
}

/// The frame at index `f` of an IMA-ADPCM stream: one sample per channel.
/// A block's first frame is its header samples; frame `k` of a block is the
/// predictor after its first `k` codes.
pub open spec fn next_frame(specs: PcmSpecs, data: Seq<u8>, f: int) -> Result<Seq<i16>, ImaAdpcmError> {
    let nch = specs.num_channels as int;
    let ba = specs.ima_adpcm_num_block_align->Some_0 as int;
    let spb = specs.ima_adpcm_num_samples_per_block->Some_0 as int;
    let blk = block_of(data, ba, f / spb);
    let k = f % spb;
    if f >= specs.num_samples {
        Err(ImaAdpcmError::FinishPlaying)
    } else if !headers_ok(blk, nch) {
        Err(ImaAdpcmError::ReadError)
    } else if k == 0 {
        Ok(Seq::new(nch as nat, |ch: int| header_sample(blk, ch) as i16))
    } else if groups_end(nch, (k - 1) / 8 + 1) > ba {
        Err(ImaAdpcmError::ReadError)
    } else {
        Ok(Seq::new(nch as nat, |ch: int| state_after(blk, nch, ch, k as nat).0 as i16))
    }
}

/// Plays an IMA-ADPCM WAV stream frame by frame.
pub struct ImaAdpcmPlayer<'a> {
    /// The reader that holds the specs and the data region.
    pub reader: PcmReader<'a>,
    /// Index of the next frame.
    frame_index: u32,
    /// Last decoded sample of each channel.
    last_predicted_sample: [i16; 2],
    /// Current step-table index of each channel.
    step_size_table_index: [i8; 2],
    /// The rest of the current block that has not been read yet.
    reading_block: &'a [u8],
    /// Codes of the current data word that are still to be decoded, per channel.
    nibble_queue: (heapless::spsc::Queue<u8, 9>, heapless::spsc::Queue<u8, 9>),
}

impl<'a> ImaAdpcmPlayer<'a> {
    /// Index of the next frame.
    pub closed spec fn spec_frame_index(&self) -> u32 {
        self.frame_index
    }

    /// The specs of the stream.
    pub closed spec fn spec_specs(&self) -> PcmSpecs {
        self.reader.spec_specs()
    }

    /// The data region of the stream.
    pub closed spec fn spec_data(&self) -> Seq<u8> {
        self.reader.spec_data()
    }

    /// Pending codes of channel `ch`.
    pub closed spec fn queue(&self, ch: int) -> Seq<u8> {
        if ch == 0 {
            queued(self.nibble_queue.0)
        } else {
            queued(self.nibble_queue.1)
        }
    }

    /// Number of channels.
    pub closed spec fn nch(&self) -> int {
        self.reader.spec_specs().num_channels as int
    }

    /// Bytes per block.
    pub closed spec fn block_align(&self) -> int {
        self.reader.spec_specs().ima_adpcm_num_block_align->Some_0 as int
    }

    /// Frames per block.
    pub closed spec fn samples_per_block(&self) -> int {
        self.reader.spec_specs().ima_adpcm_num_samples_per_block->Some_0 as int
    }

    /// The block that frame `f` lies in.
    pub closed spec fn block(&self, f: int) -> Seq<u8> {
        block_of(self.reader.spec_data(), self.block_align(), f / self.samples_per_block())
    }

    /// Inside a block, with `x` codes already decoded: the headers are valid,
    /// the words read so far lie in the block, the queues hold the rest of the
    /// current word, and each channel's predictor is the one after `x` codes.
    pub closed spec fn mid_block(&self, x: int) -> bool {
        let blk = self.block(self.frame_index as int);
        let nch = self.nch();
        let read = groups_end(nch, (x + 7) / 8);
        &&& headers_ok(blk, nch)
        &&& read <= self.block_align()
        &&& self.reading_block@ == blk.subrange(read, self.block_align())
        &&& forall|ch: int|
            0 <= ch < nch ==> #[trigger] self.queue(ch) == Seq::new(
                (((x + 7) / 8) * 8 - x) as nat,
                |i: int| code_at(blk, nch, ch, x + i) as u8,
            )
        &&& forall|ch: int|
            0 <= ch < nch ==> (self.last_predicted_sample@[ch] as int, self.step_size_table_index@[ch]
                as int) == #[trigger] state_after(blk, nch, ch, x as nat)
    }

    /// The player's invariant.
    pub closed spec fn wf(&self) -> bool {
        let spb = self.samples_per_block();
        &&& geometry_ok(self.reader.spec_specs(), self.reader.spec_data().len() as int)
        &&& self.frame_index <= self.reader.spec_specs().num_samples
        &&& (self.frame_index as int) % spb != 0 ==> self.mid_block((self.frame_index as int) % spb - 1)
    }

    /// Ready to decode code `x` of the current block: as `mid_block`, with the
    /// word that holds code `x` already in the queues.
    pub closed spec fn ready(&self, x: int) -> bool {
        let blk = self.block(self.frame_index as int);
        let nch = self.nch();
        let read = groups_end(nch, x / 8 + 1);
        &&& headers_ok(blk, nch)
        &&& read <= self.block_align()
        &&& self.reading_block@ == blk.subrange(read, self.block_align())
        &&& forall|ch: int|
            0 <= ch < nch ==> #[trigger] self.queue(ch) == Seq::new(
                ((x / 8 + 1) * 8 - x) as nat,
                |i: int| code_at(blk, nch, ch, x + i) as u8,
            )
        &&& forall|ch: int|
            0 <= ch < nch ==> (self.last_predicted_sample@[ch] as int, self.step_size_table_index@[ch]
                as int) == #[trigger] state_after(blk, nch, ch, x as nat)
    }

    /// The player holds what `file` resolves to.
    pub open spec fn holds(&self, file: Seq<u8>) -> bool {
        match parsed(file) {
            Ok((sp, ds, dl)) => self.spec_specs() == sp && self.spec_data() == file.subrange(
                ds as int,
                ds + dl,
            ),
            Err(_) => false,
        }
    }

    /// What the player plays from here on depends on these alone.
    pub open spec fn position(&self) -> (PcmSpecs, Seq<u8>, u32) {
        (self.spec_specs(), self.spec_data(), self.spec_frame_index())
    }

    /// Creates a player over an IMA-ADPCM WAV byte buffer. Input that does not
    /// resolve, or resolves to another format or to more than two channels,
    /// is refused.
    pub fn new(input: &mut &'a [u8]) -> (r: Result<Self, PcmReaderError>)
        ensures
            *final(input) == *old(input),
            match r {
                Ok(p) => p.wf() && p.holds(old(input)@) && p.spec_frame_index() == 0,
                Err(e) => match parsed(old(input)@) {
                    Ok(w) => e == PcmReaderError::UnsupportedAudioFormat && !geometry_ok(w.0, w.2 as int),
                    Err(pe) => e == pe,
                },
            },
            r is Ok <==> (parsed(old(input)@) matches Ok(w) && geometry_ok(w.0, w.2 as int)),
    {
        let reader = PcmReader::new(input)?;
        let specs = reader.get_pcm_specs();
        let data = reader.data();
        let nch = specs.num_channels;
        if !matches!(specs.audio_format, AudioFormat::ImaAdpcmLe) || nch < 1 || nch > 2 {
            return Err(PcmReaderError::UnsupportedAudioFormat);
        }
        let (ba, spb) = match (specs.ima_adpcm_num_block_align, specs.ima_adpcm_num_samples_per_block) {
            (Some(ba), Some(spb)) => (ba, spb),
            _ => return Err(PcmReaderError::UnsupportedAudioFormat),
        };
        if (ba as u32) < 4 * nch as u32 || spb < 1 {
            return Err(PcmReaderError::UnsupportedAudioFormat);
        }
        let blocks = data.len() / ba as usize;
        if blocks > 0xFFFF_FFFF {
            assert(blocks * spb > 0xFFFF_FFFF) by (nonlinear_arith)
                requires
                    blocks > 0xFFFF_FFFF,
                    spb >= 1,
            ;
            return Err(PcmReaderError::UnsupportedAudioFormat);
        }
        let blocks = blocks as u64;
        assert(blocks * spb as u64 <= 0xFFFF_FFFF * 0xFFFF) by (nonlinear_arith)
            requires
                blocks <= 0xFFFF_FFFF,
                spb <= 0xFFFF,
        ;
        if blocks * spb as u64 != specs.num_samples as u64 {
            return Err(PcmReaderError::UnsupportedAudioFormat);
        }
        let empty = vstd::slice::slice_subrange(data, 0, 0);
        Ok(
            ImaAdpcmPlayer {
                reader,
                frame_index: 0,
                last_predicted_sample: [0, 0],
                step_size_table_index: [0, 0],
                reading_block: empty,
                nibble_queue: (nibble_queue_new(), nibble_queue_new()),
            },
        )
    }

    /// Loads the block of the next frame: reads each channel's header into
    /// its predictor and step-table index.
    fn update_block(&mut self) -> (r: Result<(), ImaAdpcmError>)
        requires
            old(self).wf(),
            old(self).frame_index < old(self).spec_specs().num_samples,
            (old(self).frame_index as int) % old(self).samples_per_block() == 0,
        ensures
            final(self).reader == old(self).reader,
            final(self).frame_index == old(self).frame_index,
            final(self).wf(),
            r is Ok <==> headers_ok(old(self).block(old(self).frame_index as int), old(self).nch()),
            r is Err ==> r == Err::<(), ImaAdpcmError>(ImaAdpcmError::ReadError),
            r is Ok ==> final(self).ready_at_block_start(),
    {
        let specs = self.reader.get_pcm_specs();
        let data = self.reader.data();
        let nch = specs.num_channels as usize;
        let ba = match specs.ima_adpcm_num_block_align {
            Some(v) => v as usize,
            None => return Err(ImaAdpcmError::ReadError),
        };
        let spb = match specs.ima_adpcm_num_samples_per_block {
            Some(v) => v as u32,
            None => return Err(ImaAdpcmError::ReadError),
        };
        let b = (self.frame_index / spb) as usize;
        proof {
            assert(data@.len() == data.len());
            lemma_block_in_data(self.frame_index as int, spb as int, ba as int, data@.len() as int);
        }
        let offset = b * ba;
        let blk = vstd::slice::slice_subrange(data, offset, offset + ba);
        assert(blk@ == self.block(self.frame_index as int));
        let h0 = parse_block_header(blk, 0);
        let h1 = if nch > 1 { parse_block_header(blk, 1) } else { h0 };
        if h0.b_step_table_index < 0 || h0.b_step_table_index > 88 || (nch > 1 && (
        h1.b_step_table_index < 0 || h1.b_step_table_index > 88)) {
            proof {
                if !(0 <= h0.b_step_table_index <= 88) {
                    assert(!(0 <= header_index(blk@, 0) <= 88));
                } else {
                    assert(!(0 <= header_index(blk@, 1) <= 88));
                }
            }
            return Err(ImaAdpcmError::ReadError);
        }
        self.last_predicted_sample[0] = h0.i_samp_0;
        self.step_size_table_index[0] = h0.b_step_table_index;
        if nch > 1 {
            self.last_predicted_sample[1] = h1.i_samp_0;
            self.step_size_table_index[1] = h1.b_step_table_index;
        }
        self.reading_block = vstd::slice::slice_subrange(blk, 4 * nch, ba);
        self.nibble_queue = (nibble_queue_new(), nibble_queue_new());
        Ok(())
    }

    /// Position of the next frame within its block.
    pub closed spec fn pos(&self) -> int {
        (self.frame_index as int) % self.samples_per_block()
    }

    /// Reads the next data word of each channel into its queue: eight codes,
    /// low nibble of each byte first.
    fn fill_queues(&mut self) -> (r: Result<(), ImaAdpcmError>)
        requires
            old(self).wf(),
            old(self).pos() != 0,
            (old(self).pos() - 1) % 8 == 0,
        ensures
            final(self).reader == old(self).reader,
            final(self).frame_index == old(self).frame_index,
            r is Ok <==> groups_end(old(self).nch(), (old(self).pos() - 1) / 8 + 1)
                <= old(self).block_align(),
            r is Err ==> (r == Err::<(), ImaAdpcmError>(ImaAdpcmError::ReadError) && *final(self)
                == *old(self)),
            r is Ok ==> final(self).ready(old(self).pos() - 1),
    {
        let ghost x = self.pos() - 1;
        let ghost blk = self.block(self.frame_index as int);
        let specs = self.reader.get_pcm_specs();
        let nch = specs.num_channels as usize;
        proof {
            assert(self.mid_block(x));
            lemma_fundamental_div_mod(x, 8);
            assert((x + 7) / 8 == x / 8) by {
                lemma_fundamental_div_mod_converse(x + 7, 8, x / 8, 7);
            }
            assert(((x + 7) / 8) * 8 - x == 0);
            assert(self.queue(0).len() == 0);
            assert(nch > 1 ==> self.queue(1).len() == 0);
            lemma_inside_block(
                self.frame_index as int,
                self.samples_per_block(),
                self.block_align(),
                self.reader.spec_data().len() as int,
            );
            assert(blk.len() == self.block_align());
            assert(groups_end(nch as int, x / 8) + 4 * nch == groups_end(nch as int, x / 8 + 1))
                by (nonlinear_arith);
            assert(self.reading_block@.len() == self.block_align() - groups_end(nch as int, x / 8));
        }
        if self.reading_block.len() < 4 * nch {
            return Err(ImaAdpcmError::ReadError);
        }
        let word = self.reading_block;
        assert forall|ch: int, i: int| 0 <= ch < nch && 0 <= i < 8 implies #[trigger] code_at(blk, nch as int, ch, x + i)
            == (if i % 2 == 0 { word@[4 * ch + i / 2] % 16 } else { word@[4 * ch + i / 2] / 16 }) by {
            lemma_fundamental_div_mod_converse(x + i, 8, x / 8, i);
        }
        fill_queue(&mut self.nibble_queue.0, word, 0);
        if nch > 1 {
            fill_queue(&mut self.nibble_queue.1, word, 4);
        }
        self.reading_block = vstd::slice::slice_subrange(word, 4 * nch, word.len());
        proof {
            assert forall|ch: int| 0 <= ch < nch implies #[trigger] self.queue(ch) == Seq::new(
                ((x / 8 + 1) * 8 - x) as nat,
                |i: int| code_at(blk, nch as int, ch, x + i) as u8,
            ) by {
                assert(self.queue(ch) =~= Seq::new(
                    ((x / 8 + 1) * 8 - x) as nat,
                    |i: int| code_at(blk, nch as int, ch, x + i) as u8,
                ));
            }
            assert(self.reading_block@ =~= blk.subrange(groups_end(nch as int, x / 8 + 1), self.block_align()));
        }
        Ok(())
    }

    /// Decodes the front code of channel `ch`'s queue into its predictor.
    fn decode_channel(&mut self, ch: usize) -> (r: i16)
        requires
            ch < 2,
            old(self).queue(ch as int).len() > 0,
            old(self).queue(ch as int)[0] < 16,
            0 <= old(self).step_size_table_index@[ch as int] <= 88,
        ensures
            final(self).reader == old(self).reader,
            final(self).frame_index == old(self).frame_index,
            final(self).reading_block == old(self).reading_block,
            final(self).queue(ch as int) == old(self).queue(ch as int).drop_first(),
            final(self).queue(1 - ch) == old(self).queue(1 - ch),
            final(self).last_predicted_sample@[1 - ch] == old(self).last_predicted_sample@[1 - ch],
            final(self).step_size_table_index@[1 - ch] == old(self).step_size_table_index@[1 - ch],
            (final(self).last_predicted_sample@[ch as int] as int,
                final(self).step_size_table_index@[ch as int] as int) == decode_spec(
                old(self).queue(ch as int)[0] as int,
                old(self).last_predicted_sample@[ch as int] as int,
                old(self).step_size_table_index@[ch as int] as int,
            ),
            r == final(self).last_predicted_sample@[ch as int],
    {
        let code = if ch == 0 {
            nibble_dequeue(&mut self.nibble_queue.0)
        } else {
            nibble_dequeue(&mut self.nibble_queue.1)
        };
        let code = match code {
            Some(c) => c,
            None => 0,
        };
        let (predicted, index) = decode_sample(
            code,
            self.last_predicted_sample[ch],
            self.step_size_table_index[ch],
        );
        self.last_predicted_sample[ch] = predicted;
        self.step_size_table_index[ch] = index;
        predicted
    }

    /// Writes the samples of the next frame to `out`, one per channel, and
    /// moves to the frame after it.
    pub fn get_next_frame(&mut self, out: &mut [i16]) -> (r: Result<(), ImaAdpcmError>)
        requires
            old(self).wf(),
        ensures
            final(self).wf(),
            final(self).spec_specs() == old(self).spec_specs(),
            final(self).spec_data() == old(self).spec_data(),
            final(out)@.len() == old(out)@.len(),
            old(out)@.len() < old(self).spec_specs().num_channels ==> (r == Err::<(), ImaAdpcmError>(
                ImaAdpcmError::InsufficientOutputBufferChannels,
            ) && final(self).spec_frame_index() == old(self).spec_frame_index() && final(out)@ == old(
                out,
            )@),
            old(out)@.len() >= old(self).spec_specs().num_channels ==> played(
                old(self).position(),
                final(self).spec_frame_index(),
                old(out)@,
                final(out)@,
                r,
            ),
    {
        let specs = self.reader.get_pcm_specs();
        let nch = specs.num_channels as usize;
        if out.len() < nch {
            return Err(ImaAdpcmError::InsufficientOutputBufferChannels);
        }
        if self.frame_index >= specs.num_samples {
            return Err(ImaAdpcmError::FinishPlaying);
        }
        let spb = match specs.ima_adpcm_num_samples_per_block {
            Some(v) => v as u32,
            None => return Err(ImaAdpcmError::ReadError),
        };
        if self.frame_index % spb == 0 {
            self.play_header_frame(out)
        } else {
            self.play_code_frame(out)
        }
    }

    /// The first frame of a block: its header samples.
    fn play_header_frame(&mut self, out: &mut [i16]) -> (r: Result<(), ImaAdpcmError>)
        requires
            old(self).wf(),
            old(out)@.len() >= old(self).nch(),
            old(self).frame_index < old(self).spec_specs().num_samples,
            old(self).pos() == 0,
        ensures
            final(self).wf(),
            final(self).reader == old(self).reader,
            final(out)@.len() == old(out)@.len(),
            played(old(self).position(), final(self).spec_frame_index(), old(out)@, final(out)@, r),
    {
        let specs = self.reader.get_pcm_specs();
        let nch = specs.num_channels as usize;
        let ghost spb = self.samples_per_block();
        let ghost f = self.frame_index as int;
        let ghost blk = self.block(f);
        let ghost old_out = out@;
        proof {
            lemma_block_in_data(f, spb, self.block_align(), self.reader.spec_data().len() as int);
            lemma_next_position(f, spb);
        }
        match self.update_block() {
            Ok(()) => {},
            Err(e) => return Err(e),
        }
        let ghost loaded = *self;
        proof {
            assert(0 <= header_index(blk, 0) <= 88);
            lemma_state_in_range(blk, nch as int, 0, 0);
            if nch > 1 {
                assert(0 <= header_index(blk, 1) <= 88);
                lemma_state_in_range(blk, nch as int, 1, 0);
            }
        }
        out[0] = self.last_predicted_sample[0];
        if nch > 1 {
            out[1] = self.last_predicted_sample[1];
        }
        self.frame_index = self.frame_index + 1;
        proof {
            let samples = Seq::new(nch as nat, |ch: int| header_sample(blk, ch) as i16);
            assert(out@.take(nch as int) =~= samples);
            assert(out@.skip(nch as int) =~= old_out.skip(nch as int));
            if (self.frame_index as int) % spb != 0 {
                assert(self.block(self.frame_index as int) == blk);
                assert forall|ch: int| 0 <= ch < nch implies #[trigger] self.queue(ch) == Seq::new(
                    (((0int + 7) / 8) * 8 - 0) as nat,
                    |i: int| code_at(blk, nch as int, ch, 0 + i) as u8,
                ) by {
                    assert(loaded.queue(ch) == Seq::<u8>::empty());
                    assert(self.queue(ch) =~= Seq::new(
                        (((0int + 7) / 8) * 8 - 0) as nat,
                        |i: int| code_at(blk, nch as int, ch, 0 + i) as u8,
                    ));
                }
                assert(self.mid_block(0));
            }
        }
        Ok(())
    }

    /// A later frame of a block: each channel's predictor after one more code.
    #[verifier::rlimit(60)]
    fn play_code_frame(&mut self, out: &mut [i16]) -> (r: Result<(), ImaAdpcmError>)
        requires
            old(self).wf(),
            old(out)@.len() >= old(self).nch(),
            old(self).frame_index < old(self).spec_specs().num_samples,
            old(self).pos() != 0,
        ensures
            final(self).wf(),
            final(self).reader == old(self).reader,
            final(out)@.len() == old(out)@.len(),
            played(old(self).position(), final(self).spec_frame_index(), old(out)@, final(out)@, r),
    {
        let specs = self.reader.get_pcm_specs();
        let nch = specs.num_channels as usize;
        let ghost spb = self.samples_per_block();
        let ghost f = self.frame_index as int;
        let ghost blk = self.block(f);
        let ghost old_out = out@;
        let ghost k = self.pos();
        let ghost x = k - 1;
        proof {
            lemma_block_in_data(f, spb, self.block_align(), self.reader.spec_data().len() as int);
            lemma_next_position(f, spb);
            assert(self.mid_block(x));
        }
        if self.needs_word() {
            match self.fill_queues() {
                Ok(()) => {},
                Err(e) => return Err(e),
            }
        } else {
            proof {
                lemma_fundamental_div_mod(x, 8);
                lemma_mod_pos_bound(x, 8);
                assert((x + 7) / 8 == x / 8 + 1) by {
                    lemma_fundamental_div_mod_converse(x + 7, 8, x / 8 + 1, x % 8 - 1);
                }
                assert(self.ready(x));
            }
        }
        proof {
            assert(self.ready(x));
            lemma_codes_small(blk, nch as int, 0, x);
            lemma_state_in_range(blk, nch as int, 0, x as nat);
            assert(self.queue(0)[0] == code_at(blk, nch as int, 0, x) as u8);
            if nch > 1 {
                lemma_codes_small(blk, nch as int, 1, x);
                lemma_state_in_range(blk, nch as int, 1, x as nat);
                assert(self.queue(1)[0] == code_at(blk, nch as int, 1, x) as u8);
            }
        }
        let s0 = self.decode_channel(0);
        out[0] = s0;
        if nch > 1 {
            let s1 = self.decode_channel(1);
            out[1] = s1;
        }
        self.frame_index = self.frame_index + 1;
        proof {
            let samples = Seq::new(nch as nat, |ch: int| state_after(blk, nch as int, ch, k as nat).0 as i16);
            assert(out@.take(nch as int) =~= samples);
            assert(out@.skip(nch as int) =~= old_out.skip(nch as int));
            if (self.frame_index as int) % spb != 0 {
                assert(self.block(self.frame_index as int) == blk);
                let x2 = x + 1;
                lemma_fundamental_div_mod(x, 8);
                lemma_mod_pos_bound(x, 8);
                assert((x2 + 7) / 8 == x / 8 + 1) by {
                    lemma_fundamental_div_mod_converse(x2 + 7, 8, x / 8 + 1, x % 8);
                }
                assert forall|ch: int| 0 <= ch < nch implies #[trigger] self.queue(ch) == Seq::new(
                    (((x2 + 7) / 8) * 8 - x2) as nat,
                    |i: int| code_at(blk, nch as int, ch, x2 + i) as u8,
                ) by {
                    assert(self.queue(ch) =~= Seq::new(
                        (((x2 + 7) / 8) * 8 - x2) as nat,
                        |i: int| code_at(blk, nch as int, ch, x2 + i) as u8,
                    ));
                }
                assert(self.mid_block(x2));
            }
        }
        Ok(())
    }

    /// Whether the next frame starts a new data word.
    fn needs_word(&self) -> (r: bool)
        requires
            self.wf(),
            self.pos() != 0,
        ensures
            r == ((self.pos() - 1) % 8 == 0),
    {
        let specs = self.reader.get_pcm_specs();
        let spb = match specs.ima_adpcm_num_samples_per_block {
            Some(v) => v as u32,
            None => 1,
        };
        (self.frame_index % spb - 1) % 8 == 0
    }

    /// Moves back to the first frame, dropping the current block and any
    /// queued codes.
    pub fn rewind(&mut self)
        requires
            old(self).wf(),
        ensures
            final(self).wf(),
            final(self).position() == (old(self).spec_specs(), old(self).spec_data(), 0u32),
    {
        self.frame_index = 0;
        self.reading_block = vstd::slice::slice_subrange(self.reading_block, 0, 0);
        self.nibble_queue = (nibble_queue_new(), nibble_queue_new());
    }

    /// Right after `update_block`: the headers are read and no word is.
    pub closed spec fn ready_at_block_start(&self) -> bool {
        let blk = self.block(self.frame_index as int);
        let nch = self.nch();
        &&& headers_ok(blk, nch)
        &&& self.reading_block@ == blk.subrange(4 * nch, self.block_align())
        &&& forall|ch: int| 0 <= ch < nch ==> #[trigger] self.queue(ch) == Seq::<u8>::empty()
        &&& forall|ch: int|
            0 <= ch < nch ==> (self.last_predicted_sample@[ch] as int, self.step_size_table_index@[ch]
                as int) == #[trigger] state_after(blk, nch, ch, 0)
    }
}

/// Header word of one channel in a block.
#[derive(Debug, Clone, Copy, PartialEq, Eq, Structural)]
pub struct BlockHeader {
    /// Initial predictor sample.
    pub i_samp_0: i16,
    /// Initial step-table index; valid in `[0, 88]`.
    pub b_step_table_index: i8,
}

/// Reads channel `ch`'s 4-byte header word: a little-endian 16-bit sample,
/// a signed step-table index and a reserved byte.
pub fn parse_block_header(blk: &[u8], ch: usize) -> (r: BlockHeader)
    requires
        4 * ch + 4 <= blk@.len(),
    ensures
        r.i_samp_0 == header_sample(blk@, ch as int),
        r.b_step_table_index == header_index(blk@, ch as int),
{
    proof {
        crate::bytes::lemma_pow2_values();
    }
    assert(blk@.len() == blk.len());
    let sample = to_signed16(read_u16_le(blk, 4 * ch)) as i16;
    let b = blk[4 * ch + 2];
    let index: i8 = if b >= 128 {
        (b as i16 - 256) as i8
    } else {
        b as i8
    };
    BlockHeader { i_samp_0: sample, b_step_table_index: index }
}

/// The eight 4-bit fields of the 32-bit data word at `at`, in bit order:
/// field `2k` is the high nibble of byte `k`, field `2k + 1` its low nibble.
pub fn parse_data_word(w: &[u8], at: usize) -> (r: [u8; 8])
    requires
        at + 4 <= w@.len(),
    ensures
        forall|i: int|
            0 <= i < 8 ==> #[trigger] r@[i] == (if i % 2 == 0 {
                w@[at + i / 2] / 16
            } else {
                w@[at + i / 2] % 16
            }),
{
    assert(w@.len() == w.len());
    let b0 = w[at];
    let b1 = w[at + 1];
    let b2 = w[at + 2];
    let b3 = w[at + 3];
    [b0 / 16, b0 % 16, b1 / 16, b1 % 16, b2 / 16, b2 % 16, b3 / 16, b3 % 16]
}

/// Puts the eight codes of the data word at `at` into an empty queue. Codes
/// go to successive sample positions with each pair of fields swapped, that
/// is low nibble first.
fn fill_queue(q: &mut heapless::spsc::Queue<u8, 9>, w: &[u8], at: usize)
    requires
        queued(*old(q)).len() == 0,
        at + 4 <= w@.len(),
    ensures
        queued(*final(q)) == Seq::new(
            8,
            |i: int| if i % 2 == 0 { w@[at + i / 2] % 16 } else { w@[at + i / 2] / 16 },
        ),
{
    let ghost expected = Seq::new(
        8,
        |i: int| if i % 2 == 0 { w@[at + i / 2] % 16 } else { w@[at + i / 2] / 16 },
    );
    let nibbles = parse_data_word(w, at);
    let mut i: usize = 0;
    while i < 8
        invariant
            0 <= i <= 8,
            expected == Seq::new(
                8,
                |i: int| if i % 2 == 0 { w@[at + i / 2] % 16 } else { w@[at + i / 2] / 16 },
            ),
            forall|j: int|
                0 <= j < 8 ==> #[trigger] nibbles@[j] == (if j % 2 == 0 {
                    w@[at + j / 2] / 16
                } else {
                    w@[at + j / 2] % 16
                }),
            queued(*q) == expected.take(i as int),
        decreases 8 - i,
    {
        let swapped = if i % 2 == 0 { i + 1 } else { i - 1 };
        let code = nibbles[swapped];
        assert(code == expected[i as int]);
        let _ = nibble_enqueue(q, code);
        assert(expected.take(i as int).push(code) =~= expected.take(i + 1));
        i = i + 1;
    }
    assert(expected.take(8) =~= expected);
}

/// What playing one frame from `pos` does: on success the frame's samples
/// lead `out` and the position moves on; on failure nothing changes.
pub open spec fn played(
    pos: (PcmSpecs, Seq<u8>, u32),
    frame_after: u32,
    out_before: Seq<i16>,
    out_after: Seq<i16>,
    r: Result<(), ImaAdpcmError>,
) -> bool {
    match next_frame(pos.0, pos.1, pos.2 as int) {
        Ok(samples) => r is Ok && frame_after == pos.2 + 1 && out_after.take(samples.len() as int)
            == samples && out_after.skip(samples.len() as int) == out_before.skip(
            samples.len() as int,
        ),
        Err(e) => r == Err::<(), ImaAdpcmError>(e) && frame_after == pos.2 && out_after == out_before,
    }
}

/// The frame after `f` is in the same block, one position on, unless it
/// starts a new block.
proof fn lemma_next_position(f: int, spb: int)
    requires
        f >= 0,
        spb >= 1,
    ensures
        (f + 1) % spb != 0 ==> (f + 1) / spb == f / spb && (f + 1) % spb == f % spb + 1,
{
    lemma_fundamental_div_mod(f, spb);
    lemma_mod_pos_bound(f, spb);
    assert(spb * (f / spb) == (f / spb) * spb) by (nonlinear_arith);
    assert(spb * (f / spb + 1) == (f / spb + 1) * spb) by (nonlinear_arith);
    assert(spb * (f / spb + 1) == spb * (f / spb) + spb) by (nonlinear_arith);
    if f % spb + 1 < spb {
        lemma_fundamental_div_mod_converse(f + 1, spb, f / spb, f % spb + 1);
    } else {
        lemma_fundamental_div_mod_converse(f + 1, spb, f / spb + 1, 0);
    }
}

/// Every code is a 4-bit value.
proof fn lemma_codes_small(blk: Seq<u8>, nch: int, ch: int, j: int)
    ensures
        0 <= code_at(blk, nch, ch, j) < 16,
{
}

/// A frame that is not the first of its block, and not past the sample count,
/// lies before the sample count in a block inside the data.
proof fn lemma_inside_block(f: int, spb: int, ba: int, len: int)
    requires
        0 <= f <= (len / ba) * spb,
        f % spb != 0,
        spb >= 1,
        ba >= 1,
        len >= 0,
    ensures
        f < (len / ba) * spb,
        (f / spb) * ba + ba <= len,
{
    lemma_mod_multiples_basic(len / ba, spb);
    lemma_block_in_data(f, spb, ba, len);
}

/// Frame `f` before the sample count lies in a block inside the data.
proof fn lemma_block_in_data(f: int, spb: int, ba: int, len: int)
    requires
        0 <= f < (len / ba) * spb,
        spb >= 1,
        ba >= 1,
        len >= 0,
    ensures
        (f / spb) * ba + ba <= len,
        f / spb < len / ba,
{
    assert(f / spb < len / ba) by (nonlinear_arith)
        requires
            0 <= f < (len / ba) * spb,
            spb >= 1,
    ;
    assert((f / spb) * ba + ba <= (len / ba) * ba) by (nonlinear_arith)
        requires
            f / spb < len / ba,
            ba >= 1,
            f / spb >= 0,
    ;
    assert((len / ba) * ba <= len) by (nonlinear_arith)
        requires
            ba >= 1,
            len >= 0,
    ;
}

} // verus!

verus! {

/// The predictor stays a 16-bit sample and the index stays in the table.
pub proof fn lemma_state_in_range(blk: Seq<u8>, nch: int, ch: int, n: nat)
    requires
        0 <= header_index(blk, ch) <= 88,
    ensures
        -32768 <= state_after(blk, nch, ch, n).0 <= 32767,
        0 <= state_after(blk, nch, ch, n).1 <= 88,
    decreases n,
{
    if n == 0 {
        crate::bytes::lemma_pow2_values();
    } else {
        lemma_state_in_range(blk, nch, ch, (n - 1) as nat);
    }
}

} // verus!
