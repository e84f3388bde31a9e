//! Piece ledger: initialization, block writes in any order, the
//! verification gate, and the selection query.

use peerwire::download::{
    BlockRequest, Download, LedgerError, PieceStatus, ReceiveOutcome, TorrentMetadata,
};
use peerwire::bitfield::Bitfield;
use sha1::{Digest, Sha1};

fn digest(data: &[u8]) -> Vec<u8> {
    Sha1::digest(data).to_vec()
}

/// Two pieces of 16 bytes each, one block per piece.
fn small_meta() -> (TorrentMetadata, Vec<u8>, Vec<u8>) {
    let piece0: Vec<u8> = (0u8..16).collect();
    let piece1: Vec<u8> = (16u8..32).collect();
    let meta = TorrentMetadata {
        info_hash: vec![1u8; 20],
        piece_length: 16,
        piece_hashes: vec![digest(&piece0), digest(&piece1)],
        total_length: 32,
        files: vec![],
    };
    (meta, piece0, piece1)
}

#[test]
fn validate_checks_geometry() {
    let (meta, _, _) = small_meta();
    assert!(meta.validate());

    let mut bad = small_meta().0;
    bad.info_hash = vec![1u8; 19];
    assert!(!bad.validate());

    let mut bad = small_meta().0;
    bad.piece_hashes[0] = vec![0u8; 10];
    assert!(!bad.validate());

    // One digest too few for the total length.
    let mut bad = small_meta().0;
    bad.total_length = 40;
    assert!(!bad.validate());

    let mut bad = small_meta().0;
    bad.piece_length = 0;
    assert!(!bad.validate());
}

#[test]
fn initialize_sizes_buffers_per_piece() {
    let piece0: Vec<u8> = (0u8..16).collect();
    // 20 bytes total: a full 16-byte piece and a 4-byte remainder piece.
    let meta = TorrentMetadata {
        info_hash: vec![1u8; 20],
        piece_length: 16,
        piece_hashes: vec![digest(&piece0), digest(&[9u8, 9, 9, 9])],
        total_length: 20,
        files: vec![],
    };
    assert!(meta.validate());
    let d = Download::initialize(&meta);
    assert_eq!(d.pieces.len(), 2);
    assert_eq!(d.pieces[0].buffer.len(), 16);
    assert_eq!(d.pieces[1].buffer.len(), 4);
    assert!(matches!(d.piece_status(0), PieceStatus::Missing));
    assert!(matches!(d.piece_status(1), PieceStatus::Missing));
    assert!(!d.is_complete());
}

#[test]
fn receive_block_errors() {
    let (meta, piece0, _) = small_meta();
    let mut d = Download::initialize(&meta);
    assert_eq!(d.receive_block(2, 0, &piece0), Err(LedgerError::UnknownPiece));
    assert_eq!(d.receive_block(0, 8, &piece0), Err(LedgerError::OffsetOutOfRange));
    assert_eq!(d.receive_block(0, 16, &vec![]), Err(LedgerError::OffsetOutOfRange));
}

#[test]
fn matching_digest_completes_piece() {
    let (meta, piece0, piece1) = small_meta();
    let mut d = Download::initialize(&meta);
    assert_eq!(d.receive_block(0, 0, &piece0), Ok(ReceiveOutcome::PieceComplete));
    assert!(matches!(d.piece_status(0), PieceStatus::Complete));
    assert!(!d.is_complete());
    assert_eq!(d.receive_block(1, 0, &piece1), Ok(ReceiveOutcome::PieceComplete));
    assert!(d.is_complete());
    let local = d.local_bitfield();
    assert!(local.get(0) && local.get(1));
    // A second write for a complete piece is a no-op.
    assert_eq!(d.receive_block(0, 0, &piece1), Ok(ReceiveOutcome::AlreadyComplete));
    assert!(matches!(d.piece_status(0), PieceStatus::Complete));
}

#[test]
fn corrupt_bytes_reset_piece_to_missing() {
    let (meta, piece0, _) = small_meta();
    let mut d = Download::initialize(&meta);
    let mut wrong = piece0.clone();
    wrong[3] ^= 0xFF;
    assert_eq!(d.receive_block(0, 0, &wrong), Ok(ReceiveOutcome::PieceRejected));
    assert!(matches!(d.piece_status(0), PieceStatus::Missing));
    assert!(!d.local_bitfield().get(0));
    // The piece can be re-requested and completed afterwards.
    assert_eq!(d.receive_block(0, 0, &piece0), Ok(ReceiveOutcome::PieceComplete));
    assert!(matches!(d.piece_status(0), PieceStatus::Complete));
}

/// One piece of several wire blocks, written out of order.
#[test]
fn blocks_in_any_order_assemble_the_piece() {
    // The ledger splits on the wire block size (16384): one piece of two
    // whole blocks and a 100-byte tail block.
    let b = 16384usize;
    let content: Vec<u8> = (0..(2 * b + 100)).map(|i| (i % 251) as u8).collect();
    let meta = TorrentMetadata {
        info_hash: vec![1u8; 20],
        piece_length: (2 * b + 100) as u32,
        piece_hashes: vec![digest(&content)],
        total_length: (2 * b + 100) as u64,
        files: vec![],
    };
    assert!(meta.validate());
    let mut d = Download::initialize(&meta);
    let block2 = content[2 * b..].to_vec();
    let block0 = content[0..b].to_vec();
    let block1 = content[b..2 * b].to_vec();
    assert_eq!(d.receive_block(0, (2 * b) as u32, &block2), Ok(ReceiveOutcome::Stored));
    assert!(matches!(d.piece_status(0), PieceStatus::InProgress));
    assert_eq!(d.receive_block(0, 0, &block0), Ok(ReceiveOutcome::Stored));
    assert_eq!(d.receive_block(0, b as u32, &block1), Ok(ReceiveOutcome::PieceComplete));
    assert!(d.is_complete());
}

#[test]
fn selection_prefers_nearly_complete_and_respects_exclusions() {
    let b = 16384usize;
    // Two pieces of two blocks each, plus nothing downloaded yet.
    let content: Vec<u8> = (0..4 * b).map(|i| (i % 249) as u8).collect();
    let meta = TorrentMetadata {
        info_hash: vec![1u8; 20],
        piece_length: (2 * b) as u32,
        piece_hashes: vec![digest(&content[0..2 * b]), digest(&content[2 * b..])],
        total_length: (4 * b) as u64,
        files: vec![],
    };
    assert!(meta.validate());
    let mut d = Download::initialize(&meta);

    let mut remote = Bitfield::new(2);
    remote.set(0, true);
    remote.set(1, true);

    // Piece 1 has one of two blocks already: it is closer to completion.
    let block10 = content[2 * b..3 * b].to_vec();
    assert_eq!(d.receive_block(1, 0, &block10), Ok(ReceiveOutcome::Stored));

    let pick = d.next_needed_block(&remote, &vec![]).unwrap();
    assert_eq!((pick.piece, pick.offset, pick.length), (1, b as u32, b as u32));

    // With piece 1's remaining block in flight, selection moves to piece 0,
    // lowest offset first.
    let excl = vec![pick];
    let pick2 = d.next_needed_block(&remote, &excl).unwrap();
    assert_eq!((pick2.piece, pick2.offset, pick2.length), (0, 0, b as u32));

    // A remote that only offers what is already in flight yields nothing.
    let mut only1 = Bitfield::new(2);
    only1.set(1, true);
    assert!(d.next_needed_block(&only1, &excl).is_none());
}

#[test]
fn selection_skips_complete_pieces_and_subset_remotes() {
    let (meta, piece0, _) = small_meta();
    let mut d = Download::initialize(&meta);
    assert_eq!(d.receive_block(0, 0, &piece0), Ok(ReceiveOutcome::PieceComplete));

    // The remote only has the piece we already completed: nothing to ask.
    let mut remote = Bitfield::new(2);
    remote.set(0, true);
    assert!(d.next_needed_block(&remote, &vec![]).is_none());

    // Once it also has piece 1, that piece (and never piece 0) is chosen.
    remote.set(1, true);
    let pick = d.next_needed_block(&remote, &vec![]).unwrap();
    assert_eq!((pick.piece, pick.offset, pick.length), (1, 0, 16));
}

#[test]
fn read_block_serves_only_complete_pieces() {
    let (meta, piece0, _) = small_meta();
    let mut d = Download::initialize(&meta);
    assert!(d.read_block(0, 0, 8).is_none());
    d.receive_block(0, 0, &piece0).unwrap();
    assert_eq!(d.read_block(0, 4, 8).unwrap(), piece0[4..12].to_vec());
    assert!(d.read_block(0, 10, 8).is_none());
    assert!(d.read_block(5, 0, 1).is_none());
}

#[test]
fn block_request_fields_are_plain() {
    let r = BlockRequest { piece: 1, offset: 2, length: 3 };
    let s = r;
    assert_eq!(r, s);
}
