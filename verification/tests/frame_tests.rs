use fluxbridge::frames::{
    decode_frame, encode_chunk_frame, encode_header_frame, FileFrame, CHUNK_KIND, HEADER_KIND,
};

#[test]
fn chunk_frame_exact_bytes() {
    let payload = vec![0xAAu8, 0xBB];
    let frame = encode_chunk_frame(0x0102030405060708, 0x11223344, &payload);
    let mut expected = vec![CHUNK_KIND];
    expected.extend_from_slice(&0x0102030405060708u64.to_le_bytes());
    expected.extend_from_slice(&0x11223344u32.to_le_bytes());
    expected.extend_from_slice(&payload);
    assert_eq!(frame, expected);
}

#[test]
fn chunk_frame_round_trip() {
    let payload: Vec<u8> = (0..100u8).collect();
    let frame = encode_chunk_frame(42, 7, &payload);
    match decode_frame(&frame) {
        Some(FileFrame::Chunk { transfer_id, seq, payload: p }) => {
            assert_eq!(transfer_id, 42);
            assert_eq!(seq, 7);
            assert_eq!(p, payload);
        }
        other => panic!("wrong decode: {:?}", other.is_some()),
    }
}

#[test]
fn header_frame_round_trip() {
    let filename = b"report.pdf".to_vec();
    let frame = encode_header_frame(9, 40000, 16384, 3, &filename);
    assert_eq!(frame[0], HEADER_KIND);
    match decode_frame(&frame) {
        Some(FileFrame::Header { transfer_id, total_size, chunk_size, total_chunks, filename: f }) => {
            assert_eq!(transfer_id, 9);
            assert_eq!(total_size, 40000);
            assert_eq!(chunk_size, 16384);
            assert_eq!(total_chunks, 3);
            assert_eq!(f, filename);
        }
        other => panic!("wrong decode: {:?}", other.is_some()),
    }
}

#[test]
fn malformed_frames_are_dropped() {
    assert!(decode_frame(&Vec::new()).is_none());
    assert!(decode_frame(&vec![9u8, 0, 0, 0]).is_none());
    // a chunk frame cut short of its fixed fields
    assert!(decode_frame(&vec![CHUNK_KIND; 5]).is_none());
    // a header frame cut short of its fixed fields
    assert!(decode_frame(&vec![HEADER_KIND; 20]).is_none());
}
