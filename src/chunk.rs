//! The chunk sequence shared by RIFF and FORM containers: a four-byte tag,
//! a 32-bit length and that many payload bytes, repeated to the end of input.
use vstd::prelude::*;

use crate::bytes::{read_u32_be, read_u32_le, u32_be, u32_le};
use crate::PcmReaderError;

verus! {

/// Most chunks that one container may hold.
pub const MAX_NUM_CHUNKS: usize = 16;

/// A chunk located in the container buffer: its tag (the four tag bytes read
/// as a big-endian integer), its declared size, and where its payload starts.
#[derive(Debug, Clone, Copy, PartialEq, Eq, Structural)]
pub struct Chunk {
    pub tag: u32,
    pub size: u32,
    pub start: usize,
}

impl Chunk {
    /// Payload bytes of this chunk within `file`.
    pub open spec fn payload(self, file: Seq<u8>) -> Seq<u8> {
        file.subrange(self.start as int, self.start + self.size)
    }

    /// The payload lies inside `file`.
    pub open spec fn fits(self, file: Seq<u8>) -> bool {
        self.start + self.size <= file.len()
    }
}

/// The chunk whose header starts at `pos`, if a whole one does.
pub open spec fn chunk_at(file: Seq<u8>, pos: int, big_endian: bool) -> Option<Chunk> {
    if 0 <= pos && pos + 8 <= file.len() {
        let size = if big_endian { u32_be(file, pos + 4) } else { u32_le(file, pos + 4) };
        if pos + 8 + size <= file.len() {
            Some(Chunk { tag: u32_be(file, pos) as u32, size: size as u32, start: (pos + 8) as usize })
        } else {
            None
        }
    } else {
        None
    }
}

/// The chunks read one after another from `pos` until no whole chunk remains.
pub open spec fn chunks_from(file: Seq<u8>, pos: int, big_endian: bool) -> Seq<Chunk>
    decreases file.len() - pos,
{
    match chunk_at(file, pos, big_endian) {
        Some(c) => if c.start + c.size > pos {
            seq![c] + chunks_from(file, c.start + c.size, big_endian)
        } else {
            seq![]
        },
        None => seq![],
    }
}

/// Declares heapless::Vec, the fixed-capacity vector that holds the chunk list;
/// its contents are seen only through `chunk_list`.
#[verifier::external_type_specification]
#[verifier::external_body]
#[verifier::reject_recursive_types(T)]
pub struct ExHeaplessVec<T, const N: usize>(heapless::Vec<T, N>);

/// The chunks that a heapless::Vec chunk list holds, in order.
pub uninterp spec fn chunk_list(v: heapless::Vec<Chunk, 16>) -> Seq<Chunk>;

/// Relies on heapless::Vec::new: a new vector holds nothing.
#[verifier::external_body]
fn chunk_list_new() -> (r: heapless::Vec<Chunk, 16>)
    ensures
        chunk_list(r) == Seq::<Chunk>::empty(),
{
    heapless::Vec::new()
}

/// Relies on heapless::Vec::push: below capacity 16 the item is appended,
/// at capacity it is handed back and the vector is unchanged.
#[verifier::external_body]
fn chunk_list_push(v: &mut heapless::Vec<Chunk, 16>, c: Chunk) -> (r: Result<(), Chunk>)
    ensures
        chunk_list(*old(v)).len() < 16 ==> (r is Ok && chunk_list(*final(v)) == chunk_list(*old(v)).push(c)),
        chunk_list(*old(v)).len() >= 16 ==> (r == Err::<(), Chunk>(c) && chunk_list(*final(v)) == chunk_list(*old(v))),
{
    v.push(c)
}

/// Relies on heapless::Vec::as_slice: the held items, in order.
#[verifier::external_body]
pub(crate) fn chunk_list_items(v: &heapless::Vec<Chunk, 16>) -> (r: &[Chunk])
    ensures
        r@ == chunk_list(*v),
{
    v.as_slice()
}

/// Reads the chunk whose header starts at `pos`, if a whole one does.
pub fn parse_chunk(file: &[u8], pos: usize, big_endian: bool) -> (r: Option<Chunk>)
    ensures
        r == chunk_at(file@, pos as int, big_endian),
{
    let len = file.len();
    if pos > len || len - pos < 8 {
        return None;
    }
    let size = if big_endian { read_u32_be(file, pos + 4) } else { read_u32_le(file, pos + 4) };
    if (len - pos - 8) < size as usize {
        return None;
    }
    Some(Chunk { tag: read_u32_be(file, pos), size, start: pos + 8 })
}

/// Collects the chunks from `pos` to the end of `file` into a list of at most
/// `MAX_NUM_CHUNKS`; more than that is an error.
pub fn collect_chunks(file: &[u8], pos: usize, big_endian: bool) -> (r: Result<
    heapless::Vec<Chunk, 16>,
    PcmReaderError,
>)
    ensures
        match r {
            Ok(v) => chunk_list(v) == chunks_from(file@, pos as int, big_endian)
                && chunk_list(v).len() <= MAX_NUM_CHUNKS,
            Err(e) => e == PcmReaderError::ChunkCapacityExceeded && chunks_from(
                file@,
                pos as int,
                big_endian,
            ).len() > MAX_NUM_CHUNKS,
        },
{
    let mut list = chunk_list_new();
    let mut p = pos;
    loop
        invariant
            chunk_list(list) + chunks_from(file@, p as int, big_endian) == chunks_from(
                file@,
                pos as int,
                big_endian,
            ),
            chunk_list(list).len() <= MAX_NUM_CHUNKS,
            p <= file@.len() || p == pos,
        decreases file@.len() - p,
    {
        assert(file@.len() == file.len());
        let c = match parse_chunk(file, p, big_endian) {
            Some(c) => c,
            None => {
                assert(chunks_from(file@, p as int, big_endian) =~= seq![]);
                assert(chunk_list(list) =~= chunk_list(list) + seq![]);
                return Ok(list);
            },
        };
        let old_list = Ghost(chunk_list(list));
        let next = c.start + c.size as usize;
        match chunk_list_push(&mut list, c) {
            Ok(()) => {},
            Err(_) => {
                assert(chunks_from(file@, p as int, big_endian) == seq![c] + chunks_from(
                    file@,
                    next as int,
                    big_endian,
                ));
                assert(chunks_from(file@, pos as int, big_endian).len() > MAX_NUM_CHUNKS);
                return Err(PcmReaderError::ChunkCapacityExceeded);
            },
        }
        assert(chunks_from(file@, p as int, big_endian) == seq![c] + chunks_from(
            file@,
            next as int,
            big_endian,
        ));
        assert(old_list@ + (seq![c] + chunks_from(file@, next as int, big_endian))
            =~= old_list@.push(c) + chunks_from(file@, next as int, big_endian));
        p = next;
    }
}

} // verus!
