use fluxbridge::transfer::{
    chunk_count, reassemble, split_into_chunks, FileTransfer, TransferState, CHUNK_SIZE,
};

#[test]
fn chunk_count_matches_ceiling() {
    assert_eq!(chunk_count(40000, 16384), 3);
    assert_eq!(chunk_count(0, 16384), 0);
    assert_eq!(chunk_count(16384, 16384), 1);
    assert_eq!(chunk_count(16385, 16384), 2);
    assert_eq!(chunk_count(1, CHUNK_SIZE), 1);
}

#[test]
fn split_reference_sizes() {
    let data: Vec<u8> = (0..40000u32).map(|i| (i % 251) as u8).collect();
    let chunks = split_into_chunks(&data, 16384);
    assert_eq!(chunks.len(), 3);
    assert_eq!(chunks[0].len(), 16384);
    assert_eq!(chunks[1].len(), 16384);
    assert_eq!(chunks[2].len(), 7232);
}

#[test]
fn split_then_reassemble_is_identity() {
    let data: Vec<u8> = (0..50000u32).map(|i| (i * 7 % 256) as u8).collect();
    let chunks = split_into_chunks(&data, 16384);
    let back = reassemble(&chunks);
    assert_eq!(back, data);

    let empty: Vec<u8> = Vec::new();
    assert_eq!(reassemble(&split_into_chunks(&empty, 4)), empty);

    let small = vec![1u8, 2, 3];
    assert_eq!(reassemble(&split_into_chunks(&small, 1000)), small);
}

#[test]
fn out_of_order_and_duplicate_chunks() {
    let data: Vec<u8> = (0..10000u32).map(|i| (i % 199) as u8).collect();
    let chunks = split_into_chunks(&data, 4096);
    assert_eq!(chunks.len(), 3);

    let mut t = FileTransfer::begin_inbound(7, String::from("f.bin"), 10000, 4096, 3);
    assert_eq!(t.state, TransferState::Pending);

    assert!(t.apply_chunk(2, chunks[2].clone()));
    assert_eq!(t.state, TransferState::InProgress);
    assert_eq!(t.chunks_received_count(), 1);

    // a duplicate sequence number changes nothing
    assert!(!t.apply_chunk(2, chunks[2].clone()));
    assert_eq!(t.chunks_received_count(), 1);
    assert_eq!(t.state, TransferState::InProgress);

    // a sequence number out of range changes nothing
    assert!(!t.apply_chunk(9, vec![0u8; 4]));
    assert_eq!(t.chunks_received_count(), 1);

    assert!(t.apply_chunk(0, chunks[0].clone()));
    assert!(!t.is_complete());
    assert!(t.apply_chunk(1, chunks[1].clone()));
    assert!(t.is_complete());
    assert_eq!(t.state, TransferState::Completed);
    assert_eq!(t.chunks_received_count(), 3);

    let back = t.reassemble_file();
    assert_eq!(back, data);
}

#[test]
fn failed_transfer_keeps_metadata() {
    let mut t = FileTransfer::begin_inbound(1, String::from("x"), 8, 4, 2);
    t.apply_chunk(0, vec![1, 2, 3, 4]);
    t.fail();
    assert_eq!(t.state, TransferState::Failed);
    assert_eq!(t.transfer_id, 1);
    assert_eq!(t.chunks_expected, 2);
}
