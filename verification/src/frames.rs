//! Wire framing for the "file" data channel: a header frame announcing one
//! transfer, then one frame per chunk. The channel preserves message
//! boundaries, so each frame is self-describing: a kind byte, fixed-width
//! little-endian fields, and the variable tail.

use vstd::prelude::*;
use vstd::bytes::{
    spec_u32_to_le_bytes, spec_u64_to_le_bytes, u32_from_le_bytes, u32_to_le_bytes,
    u64_from_le_bytes, u64_to_le_bytes,
};
use vstd::slice::slice_subrange;

use crate::transfer::append_bytes;

verus! {

/// Kind byte of a header frame.
pub const HEADER_KIND: u8 = 1;

/// Kind byte of a chunk frame.
pub const CHUNK_KIND: u8 = 2;

/// Bytes before the filename in a header frame.
pub const HEADER_FIXED_LEN: usize = 25;

/// Bytes before the payload in a chunk frame.
pub const CHUNK_FIXED_LEN: usize = 13;

/// One frame of the "file" channel. The filename travels as its UTF-8
/// bytes; the shell at the edge turns it back into text.
pub enum FileFrame {
    Header {
        transfer_id: u64,
        total_size: u64,
        chunk_size: u32,
        total_chunks: u32,
        filename: Vec<u8>,
    },
    Chunk { transfer_id: u64, seq: u32, payload: Vec<u8> },
}

/// The bytes of a header frame.
pub open spec fn spec_header_frame(
    transfer_id: u64,
    total_size: u64,
    chunk_size: u32,
    total_chunks: u32,
    filename: Seq<u8>,
) -> Seq<u8> {
    seq![HEADER_KIND] + spec_u64_to_le_bytes(transfer_id) + spec_u64_to_le_bytes(total_size)
        + spec_u32_to_le_bytes(chunk_size) + spec_u32_to_le_bytes(total_chunks) + filename
}

/// The bytes of a chunk frame.
pub open spec fn spec_chunk_frame(transfer_id: u64, seq_no: u32, payload: Seq<u8>) -> Seq<u8> {
    seq![CHUNK_KIND] + spec_u64_to_le_bytes(transfer_id) + spec_u32_to_le_bytes(seq_no) + payload
}

/// The bytes any frame encodes to.
pub open spec fn spec_frame_bytes(f: FileFrame) -> Seq<u8> {
    match f {
        FileFrame::Header { transfer_id, total_size, chunk_size, total_chunks, filename } =>
            spec_header_frame(transfer_id, total_size, chunk_size, total_chunks, filename@),
        FileFrame::Chunk { transfer_id, seq, payload } => spec_chunk_frame(
            transfer_id,
            seq,
            payload@,
        ),
    }
}

/// Encodes a chunk frame.
pub fn encode_chunk_frame(transfer_id: u64, seq_no: u32, payload: &Vec<u8>) -> (frame: Vec<u8>)
    ensures
        frame@ == spec_chunk_frame(transfer_id, seq_no, payload@),
{
    let mut frame: Vec<u8> = Vec::new();
    frame.push(CHUNK_KIND);
    let tid = u64_to_le_bytes(transfer_id);
    append_bytes(&mut frame, &tid);
    let sq = u32_to_le_bytes(seq_no);
    append_bytes(&mut frame, &sq);
    append_bytes(&mut frame, payload);
    proof {
        assert(frame@ =~= spec_chunk_frame(transfer_id, seq_no, payload@));
    }
    frame
}

/// Encodes a header frame.
pub fn encode_header_frame(
    transfer_id: u64,
    total_size: u64,
    chunk_size: u32,
    total_chunks: u32,
    filename: &Vec<u8>,
) -> (frame: Vec<u8>)
    ensures
        frame@ == spec_header_frame(transfer_id, total_size, chunk_size, total_chunks, filename@),
{
    let mut frame: Vec<u8> = Vec::new();
    frame.push(HEADER_KIND);
    let tid = u64_to_le_bytes(transfer_id);
    append_bytes(&mut frame, &tid);
    let ts = u64_to_le_bytes(total_size);
    append_bytes(&mut frame, &ts);
    let cs = u32_to_le_bytes(chunk_size);
    append_bytes(&mut frame, &cs);
    let tc = u32_to_le_bytes(total_chunks);
    append_bytes(&mut frame, &tc);
    append_bytes(&mut frame, filename);
    proof {
        assert(frame@ =~= spec_header_frame(
            transfer_id,
            total_size,
            chunk_size,
            total_chunks,
            filename@,
        ));
    }
    frame
}

/// Copies `bytes[from..]` out as an owned vector.
fn tail_of(bytes: &Vec<u8>, from: usize) -> (tail: Vec<u8>)
    requires
        from <= bytes@.len(),
    ensures
        tail@ == bytes@.skip(from as int),
{
    let mut tail: Vec<u8> = Vec::new();
    let mut i: usize = from;
    while i < bytes.len()
        invariant
            from <= i <= bytes@.len(),
            tail@ == bytes@.subrange(from as int, i as int),
        decreases bytes@.len() - i,
    {
        tail.push(bytes[i]);
        i += 1;
        assert(tail@ =~= bytes@.subrange(from as int, i as int));
    }
    tail
}

/// Decodes one frame. A frame too short for its kind byte, or carrying an
/// unknown kind, decodes to nothing and is dropped by the receiver.
pub fn decode_frame(bytes: &Vec<u8>) -> (r: Option<FileFrame>)
    ensures
        (r matches Some(f) ==> spec_frame_bytes(f) == bytes@),
        r is None ==> !((bytes@.len() >= HEADER_FIXED_LEN && bytes@[0] == HEADER_KIND) || (
        bytes@.len() >= CHUNK_FIXED_LEN && bytes@[0] == CHUNK_KIND)),
{
    if bytes.len() == 0 {
        return None;
    }
    let kind = bytes[0];
    if kind == HEADER_KIND && bytes.len() >= HEADER_FIXED_LEN {
        let s = bytes.as_slice();
        let transfer_id = u64_from_le_bytes(slice_subrange(s, 1, 9));
        let total_size = u64_from_le_bytes(slice_subrange(s, 9, 17));
        let chunk_size = u32_from_le_bytes(slice_subrange(s, 17, 21));
        let total_chunks = u32_from_le_bytes(slice_subrange(s, 21, 25));
        let filename = tail_of(bytes, 25);
        proof {
            vstd::bytes::lemma_auto_spec_u64_to_from_le_bytes();
            vstd::bytes::lemma_auto_spec_u32_to_from_le_bytes();
            assert(spec_u64_to_le_bytes(transfer_id) =~= bytes@.subrange(1, 9));
            assert(spec_u64_to_le_bytes(total_size) =~= bytes@.subrange(9, 17));
            assert(spec_u32_to_le_bytes(chunk_size) =~= bytes@.subrange(17, 21));
            assert(spec_u32_to_le_bytes(total_chunks) =~= bytes@.subrange(21, 25));
            assert(spec_header_frame(
                transfer_id,
                total_size,
                chunk_size,
                total_chunks,
                bytes@.skip(25),
            ) =~= bytes@);
        }
        Some(
            FileFrame::Header { transfer_id, total_size, chunk_size, total_chunks, filename },
        )
    } else if kind == CHUNK_KIND && bytes.len() >= CHUNK_FIXED_LEN {
        let s = bytes.as_slice();
        let transfer_id = u64_from_le_bytes(slice_subrange(s, 1, 9));
        let seq = u32_from_le_bytes(slice_subrange(s, 9, 13));
        let payload = tail_of(bytes, 13);
        proof {
            vstd::bytes::lemma_auto_spec_u64_to_from_le_bytes();
            vstd::bytes::lemma_auto_spec_u32_to_from_le_bytes();
            assert(spec_u64_to_le_bytes(transfer_id) =~= bytes@.subrange(1, 9));
            assert(spec_u32_to_le_bytes(seq) =~= bytes@.subrange(9, 13));
            assert(spec_chunk_frame(transfer_id, seq, bytes@.skip(13)) =~= bytes@);
        }
        Some(FileFrame::Chunk { transfer_id, seq, payload })
    } else {
        None
    }
}

/// Round-trip: a chunk frame decodes to exactly the fields it was built
/// from — the kind byte, both integers, and the payload, nothing else.
pub proof fn lemma_chunk_frame_round_trip(transfer_id: u64, seq_no: u32, payload: Seq<u8>)
    ensures
        spec_chunk_frame(transfer_id, seq_no, payload).len() == CHUNK_FIXED_LEN + payload.len(),
        spec_chunk_frame(transfer_id, seq_no, payload)[0] == CHUNK_KIND,
        spec_chunk_frame(transfer_id, seq_no, payload).skip(CHUNK_FIXED_LEN as int) == payload,
{
    vstd::bytes::lemma_auto_spec_u64_to_from_le_bytes();
    vstd::bytes::lemma_auto_spec_u32_to_from_le_bytes();
    let b = spec_chunk_frame(transfer_id, seq_no, payload);
    assert(b.skip(CHUNK_FIXED_LEN as int) =~= payload);
}

} // verus!
