//! Peer session scenarios: interest and choke handling, pipelining up to
//! the depth limit, the end-to-end happy path, the corrupted-piece retry,
//! and releasing in-flight requests on choke.

use peerwire::download::{Download, TorrentMetadata};
use peerwire::manager::{ConnectionManager, ManagerStatus};
use peerwire::messages::{Frame, Message};
use peerwire::session::{PeerSession, SessionError, SessionPhase, PIPELINE_DEPTH};
use peerwire::tracker::{compact_peers, Peer};
use sha1::{Digest, Sha1};

fn digest(data: &[u8]) -> Vec<u8> {
    Sha1::digest(data).to_vec()
}

/// Metadata with piece_length 16, 2 pieces (32 bytes total): one wire
/// block per piece.
fn tiny_setup() -> (TorrentMetadata, Vec<u8>, Vec<u8>) {
    let piece0: Vec<u8> = (0u8..16).collect();
    let piece1: Vec<u8> = (16u8..32).collect();
    let meta = TorrentMetadata {
        info_hash: vec![1u8; 20],
        piece_length: 16,
        piece_hashes: vec![digest(&piece0), digest(&piece1)],
        total_length: 32,
        files: vec![],
    };
    (meta, piece0, piece1)
}

/// A bitfield message body advertising every piece of `n`.
fn full_bits(n: usize) -> Vec<u8> {
    let mut bf = peerwire::bitfield::Bitfield::new(n);
    for i in 0..n {
        bf.set(i, true);
    }
    bf.to_bytes()
}

#[test]
fn flags_start_at_protocol_defaults() {
    let s = PeerSession::new(4);
    assert!(s.am_choking);
    assert!(!s.am_interested);
    assert!(s.peer_choking);
    assert!(!s.peer_interested);
    assert!(matches!(s.phase, SessionPhase::Handshaking));
    assert!(s.inflight.is_empty());
}

#[test]
fn interest_and_pipeline_never_exceed_depth() {
    // 8 pieces of one block each: the ledger can supply more blocks than
    // the pipeline depth.
    let pieces: Vec<Vec<u8>> = (0..8u8).map(|p| vec![p; 16]).collect();
    let hashes: Vec<Vec<u8>> = pieces.iter().map(|p| digest(p)).collect();
    let meta = TorrentMetadata {
        info_hash: vec![1u8; 20],
        piece_length: 16,
        piece_hashes: hashes,
        total_length: 128,
        files: vec![],
    };
    assert!(meta.validate());
    let mut d = Download::initialize(&meta);
    let mut s = PeerSession::new(8);
    s.complete_handshake();

    // unchoke, then a bitfield that has everything: the session becomes
    // interested and issues requests up to the pipeline depth, not more.
    let out = s.handle_frame(&mut d, &Frame::Unchoke).unwrap();
    assert!(out.is_empty());
    assert!(!s.peer_choking);

    let out = s
        .handle_frame(&mut d, &Frame::Bitfield { bits: full_bits(8) })
        .unwrap();
    assert!(s.am_interested);
    assert_eq!(out[0], Frame::Interested);
    let requests = out.len() - 1;
    assert_eq!(requests, PIPELINE_DEPTH);
    assert_eq!(s.inflight.len(), PIPELINE_DEPTH);
    for f in &out[1..] {
        assert!(matches!(f, Frame::Request { .. }));
    }
}

#[test]
fn end_to_end_two_pieces_download() {
    let (meta, piece0, piece1) = tiny_setup();
    assert!(meta.validate());
    let mut mgr = ConnectionManager::new(&meta, vec![2u8; 20]);

    // The tracker handed us one peer.
    let peers = compact_peers(&vec![127, 0, 0, 1, 0x1A, 0xE1]);
    assert_eq!(peers.len(), 1);
    assert_eq!(peers[0].ip, "127.0.0.1");
    assert_eq!(peers[0].port, 6881);
    mgr.add_peer(peers[0].clone());

    let peer = mgr.take_next_peer().unwrap();
    assert_eq!(peer.port, 6881);
    let mut s = mgr.new_session();

    // Handshake bytes exchanged and verified.
    let hs = mgr.handshake();
    let hs_bytes = Message::encode_handshake(&hs);
    assert!(Message::decode_handshake(&hs_bytes, &mgr.info_hash).is_ok());
    s.complete_handshake();
    mgr.session_started();
    assert!(matches!(mgr.status(), ManagerStatus::InProgress));

    // bitfield reporting both pieces, then unchoke: two requests come out.
    let out = s
        .handle_frame(&mut mgr.download, &Frame::Bitfield { bits: full_bits(2) })
        .unwrap();
    assert_eq!(out, vec![Frame::Interested]);
    let out = s.handle_frame(&mut mgr.download, &Frame::Unchoke).unwrap();
    assert_eq!(
        out,
        vec![
            Frame::Request { index: 0, offset: 0, length: 16 },
            Frame::Request { index: 1, offset: 0, length: 16 },
        ]
    );

    // Matching piece replies with correct bytes complete the download.
    let out = s
        .handle_frame(
            &mut mgr.download,
            &Frame::Piece { index: 0, offset: 0, data: piece0.clone() },
        )
        .unwrap();
    assert_eq!(out[0], Frame::Have { index: 0 });
    let out = s
        .handle_frame(
            &mut mgr.download,
            &Frame::Piece { index: 1, offset: 0, data: piece1.clone() },
        )
        .unwrap();
    // Everything is owned now: the piece is advertised and, with nothing
    // useful left and the pipeline drained, interest is withdrawn.
    assert_eq!(out, vec![Frame::Have { index: 1 }, Frame::NotInterested]);

    assert!(mgr.download.is_complete());
    assert!(matches!(mgr.status(), ManagerStatus::Complete));
}

#[test]
fn corrupted_piece_is_rerequested_and_completes() {
    let (meta, piece0, piece1) = tiny_setup();
    let mut d = Download::initialize(&meta);
    let mut s = PeerSession::new(2);
    s.complete_handshake();

    s.handle_frame(&mut d, &Frame::Bitfield { bits: full_bits(2) }).unwrap();
    let out = s.handle_frame(&mut d, &Frame::Unchoke).unwrap();
    assert_eq!(out.len(), 2);

    // The reply for piece 0 carries corrupted bytes: the piece resets to
    // Missing and a fresh request for (0, 0) goes out again.
    let mut wrong = piece0.clone();
    wrong[7] ^= 0x55;
    let out = s
        .handle_frame(&mut d, &Frame::Piece { index: 0, offset: 0, data: wrong })
        .unwrap();
    assert!(matches!(
        d.piece_status(0),
        peerwire::download::PieceStatus::Missing
    ));
    assert_eq!(out, vec![Frame::Request { index: 0, offset: 0, length: 16 }]);

    // The eventual correct replies complete the download.
    s.handle_frame(&mut d, &Frame::Piece { index: 1, offset: 0, data: piece1.clone() })
        .unwrap();
    s.handle_frame(&mut d, &Frame::Piece { index: 0, offset: 0, data: piece0.clone() })
        .unwrap();
    assert!(d.is_complete());
}

#[test]
fn choke_releases_in_flight_requests() {
    let (meta, _, _) = tiny_setup();
    let mut d = Download::initialize(&meta);
    let mut s = PeerSession::new(2);
    s.complete_handshake();

    s.handle_frame(&mut d, &Frame::Bitfield { bits: full_bits(2) }).unwrap();
    s.handle_frame(&mut d, &Frame::Unchoke).unwrap();
    assert_eq!(s.inflight.len(), 2);

    // While they are in flight, this session's own selection excludes them.
    let remote = {
        let mut bf = peerwire::bitfield::Bitfield::new(2);
        bf.set(0, true);
        bf.set(1, true);
        bf
    };
    assert!(d.next_needed_block(&remote, &s.inflight).is_none());

    // choke mid-pipeline: every in-flight request becomes reassignable at
    // once (a selection for another session no longer excludes them).
    s.handle_frame(&mut d, &Frame::Choke).unwrap();
    assert!(s.inflight.is_empty());
    let pick = d.next_needed_block(&remote, &s.inflight).unwrap();
    assert_eq!((pick.piece, pick.offset), (0, 0));
}

#[test]
fn unsolicited_piece_is_fatal_to_the_session() {
    let (meta, piece0, _) = tiny_setup();
    let mut d = Download::initialize(&meta);
    let mut s = PeerSession::new(2);
    s.complete_handshake();
    let r = s.handle_frame(&mut d, &Frame::Piece { index: 0, offset: 0, data: piece0 });
    assert_eq!(r, Err(SessionError::UnsolicitedPiece));
    s.close();
    assert!(matches!(s.phase, SessionPhase::Closed));
    assert!(s.inflight.is_empty());
}

#[test]
fn request_is_served_only_while_not_choking() {
    let (meta, piece0, _) = tiny_setup();
    let mut d = Download::initialize(&meta);
    d.receive_block(0, 0, &piece0).unwrap();
    let mut s = PeerSession::new(2);
    s.complete_handshake();

    // am_choking starts true: the request is ignored, not an error.
    let out = s
        .handle_frame(&mut d, &Frame::Request { index: 0, offset: 0, length: 16 })
        .unwrap();
    assert!(out.is_empty());

    s.am_choking = false;
    let out = s
        .handle_frame(&mut d, &Frame::Request { index: 0, offset: 0, length: 16 })
        .unwrap();
    assert_eq!(out, vec![Frame::Piece { index: 0, offset: 0, data: piece0 }]);
}

#[test]
fn interested_flags_follow_peer_messages() {
    let (meta, _, _) = tiny_setup();
    let mut d = Download::initialize(&meta);
    let mut s = PeerSession::new(2);
    s.complete_handshake();
    s.handle_frame(&mut d, &Frame::Interested).unwrap();
    assert!(s.peer_interested);
    s.handle_frame(&mut d, &Frame::NotInterested).unwrap();
    assert!(!s.peer_interested);
    s.handle_frame(&mut d, &Frame::KeepAlive).unwrap();
    s.handle_frame(&mut d, &Frame::Port { port: 6881 }).unwrap();
    s.handle_frame(&mut d, &Frame::Cancel { index: 0, offset: 0, length: 16 }).unwrap();
}

#[test]
fn have_with_bad_index_is_fatal() {
    let (meta, _, _) = tiny_setup();
    let mut d = Download::initialize(&meta);
    let mut s = PeerSession::new(2);
    s.complete_handshake();
    let r = s.handle_frame(&mut d, &Frame::Have { index: 7 });
    assert_eq!(r, Err(SessionError::BadPieceIndex));
    // A valid `have` sets the remote bit and declares interest.
    let out = s.handle_frame(&mut d, &Frame::Have { index: 1 }).unwrap();
    assert!(s.remote.get(1));
    assert_eq!(out[0], Frame::Interested);
}

#[test]
fn bitfield_of_wrong_length_is_fatal() {
    let (meta, _, _) = tiny_setup();
    let mut d = Download::initialize(&meta);
    let mut s = PeerSession::new(2);
    s.complete_handshake();
    // 2 pieces pack into 1 byte; 2 bytes are a protocol violation.
    let r = s.handle_frame(&mut d, &Frame::Bitfield { bits: vec![0xC0, 0x00] });
    assert_eq!(
        r,
        Err(SessionError::Protocol(
            peerwire::messages::WireError::PayloadLengthMismatch
        ))
    );
}

#[test]
fn oversized_piece_data_is_a_ledger_fault() {
    let (meta, _, _) = tiny_setup();
    let mut d = Download::initialize(&meta);
    let mut s = PeerSession::new(2);
    s.complete_handshake();
    s.handle_frame(&mut d, &Frame::Bitfield { bits: full_bits(2) }).unwrap();
    s.handle_frame(&mut d, &Frame::Unchoke).unwrap();
    // (0, 0) is in flight, but the reply carries more bytes than the piece.
    let r = s.handle_frame(
        &mut d,
        &Frame::Piece { index: 0, offset: 0, data: vec![0u8; 17] },
    );
    assert_eq!(
        r,
        Err(SessionError::Ledger(
            peerwire::download::LedgerError::OffsetOutOfRange
        ))
    );
}

#[test]
fn manager_reports_no_usable_peers() {
    let (meta, _, _) = tiny_setup();
    let mut mgr = ConnectionManager::new(&meta, vec![2u8; 20]);
    assert!(matches!(mgr.status(), ManagerStatus::NoUsablePeers));
    mgr.add_peer(Peer { peer_id: None, ip: "10.0.0.1".to_string(), port: 6881 });
    assert!(matches!(mgr.status(), ManagerStatus::InProgress));
    let _ = mgr.take_next_peer().unwrap();
    mgr.session_started();
    assert!(matches!(mgr.status(), ManagerStatus::InProgress));
    mgr.session_closed();
    assert!(matches!(mgr.status(), ManagerStatus::NoUsablePeers));
}

#[test]
fn compact_peers_ignores_trailing_fragment() {
    let peers = compact_peers(&vec![192, 168, 0, 250, 0x00, 0x50, 10, 0, 0]);
    assert_eq!(peers.len(), 1);
    assert_eq!(peers[0].ip, "192.168.0.250");
    assert_eq!(peers[0].port, 80);
    assert!(peers[0].peer_id.is_none());
    assert!(compact_peers(&vec![]).is_empty());
}
