use torrent_engine::session::{BlockRef, PeerSession, Received, SessionPhase, TickAction, MAX_PIPELINE};
use torrent_engine::wire::{check_handshake, decode_frame, encode_handshake, Frame, Message, WireError};

fn round_trip(m: Message) {
    let bytes = m.encode();
    let mut stream = bytes.clone();
    stream.extend_from_slice(&[9, 9, 9]);
    match decode_frame(&stream) {
        Ok(Frame::Message(back, n)) => {
            assert_eq!(n, bytes.len());
            assert_eq!(back.encode(), bytes);
        }
        other => panic!("unexpected {:?}", other),
    }
}

#[test]
fn every_message_round_trips() {
    let payload: Vec<u8> = (0..300u32).map(|i| (i * 37 % 251) as u8).collect();
    round_trip(Message::KeepAlive);
    round_trip(Message::Choke);
    round_trip(Message::Unchoke);
    round_trip(Message::Interested);
    round_trip(Message::NotInterested);
    round_trip(Message::Have(0xdead_beef));
    round_trip(Message::Bitfield(payload.clone()));
    round_trip(Message::Request(1, 16384, 16384));
    round_trip(Message::Piece(7, 32768, payload.clone()));
    round_trip(Message::Cancel(u32::MAX, 0, 1));
    round_trip(Message::Port(6881));
    round_trip(Message::Extended(1, payload));
}

#[test]
fn have_is_encoded_big_endian() {
    assert_eq!(Message::Have(0x0102_0304).encode(), vec![0, 0, 0, 5, 4, 1, 2, 3, 4]);
    assert_eq!(Message::KeepAlive.encode(), vec![0, 0, 0, 0]);
    assert_eq!(Message::Port(0x1AE1).encode(), vec![0, 0, 0, 3, 9, 0x1A, 0xE1]);
}

#[test]
fn decoding_reads_fields_back() {
    match decode_frame(&[0, 0, 0, 13, 6, 0, 0, 0, 2, 0, 0, 0x40, 0, 0, 0, 0x40, 0]) {
        Ok(Frame::Message(Message::Request(i, b, l), 17)) => assert_eq!((i, b, l), (2, 16384, 16384)),
        other => panic!("unexpected {:?}", other),
    }
}

#[test]
fn unknown_id_is_skipped_whole() {
    match decode_frame(&[0, 0, 0, 3, 42, 1, 2, 0, 0]) {
        Ok(Frame::Skipped(n)) => assert_eq!(n, 7),
        other => panic!("unexpected {:?}", other),
    }
}

#[test]
fn short_input_is_incomplete() {
    assert!(matches!(decode_frame(&[0, 0]), Ok(Frame::Incomplete)));
    assert!(matches!(decode_frame(&[0, 0, 0, 5, 4, 0]), Ok(Frame::Incomplete)));
}

#[test]
fn oversized_frame_is_a_violation() {
    // 16 KiB + 13 is the largest accepted length
    assert!(matches!(decode_frame(&[0, 0, 0x40, 0x0E]), Err(WireError::FrameTooLong)));
    assert!(matches!(decode_frame(&[0, 0, 0x40, 0x0D]), Ok(Frame::Incomplete)));
}

#[test]
fn wrong_payload_size_is_malformed() {
    assert!(matches!(decode_frame(&[0, 0, 0, 2, 4, 1]), Err(WireError::MalformedPayload)));
    assert!(matches!(decode_frame(&[0, 0, 0, 2, 0, 1]), Err(WireError::MalformedPayload)));
}

#[test]
fn handshake_mismatch_is_refused() {
    let ours = [0x02u8; 20];
    let theirs = [0x01u8; 20];
    let peer_id = [7u8; 20];
    let hs = encode_handshake(&theirs, &peer_id);
    assert_eq!(hs.len(), 68);
    assert_eq!(hs[0], 19);
    assert_eq!(&hs[1..20], b"BitTorrent protocol");
    assert_eq!(check_handshake(&hs, &ours), Err(WireError::InfoHashMismatch));
    assert_eq!(check_handshake(&hs, &theirs), Ok(peer_id.to_vec()));
    let mut bad = hs.clone();
    bad[3] = b'x';
    assert_eq!(check_handshake(&bad, &theirs), Err(WireError::BadProtocol));
    assert_eq!(check_handshake(&hs[..60], &theirs), Err(WireError::BadProtocol));
}

fn active(pieces: usize) -> PeerSession {
    let mut s = PeerSession::new(pieces);
    s.advance();
    s.advance();
    assert_eq!(s.phase, SessionPhase::Active);
    s
}

#[test]
fn new_session_chokes_both_ways() {
    let s = PeerSession::new(3);
    assert!(s.am_choking && s.peer_choking && !s.am_interested && !s.peer_interested);
    assert_eq!(s.remote_bitfield, vec![false, false, false]);
}

#[test]
fn pipeline_is_bounded_and_empty_while_choked() {
    let mut s = active(10);
    assert!(!s.can_request());
    s.set_interested(true);
    assert!(!s.can_request());
    assert_eq!(s.on_message(Message::Unchoke, 1, 32768), Received::Updated);
    let mut sent = 0;
    while s.can_request() {
        s.add_request(BlockRef { piece: 0, offset: sent * 16, length: 16 }, 0);
        sent += 1;
    }
    assert_eq!(sent as usize, MAX_PIPELINE);
    match s.on_message(Message::Choke, 2, 32768) {
        Received::Choked(v) => assert_eq!(v.len(), 64),
        other => panic!("unexpected {:?}", other),
    }
    assert!(s.outstanding_requests.is_empty());
}

#[test]
fn bitfield_and_have_update_remote_pieces() {
    let mut s = active(10);
    s.on_message(Message::Bitfield(vec![0b1010_0000, 0b0100_0000]), 1, 16);
    assert_eq!(s.remote_bitfield, vec![true, false, true, false, false, false, false, false, false, true]);
    s.on_message(Message::Have(1), 2, 16);
    assert!(s.remote_bitfield[1]);
    s.on_message(Message::Have(99), 3, 16);
    assert_eq!(s.remote_bitfield.len(), 10);
}

#[test]
fn requested_block_is_delivered_once() {
    let mut s = active(1);
    s.set_interested(true);
    s.on_message(Message::Unchoke, 1, 32768);
    let b = BlockRef { piece: 0, offset: 0, length: 4 };
    s.add_request(b, 0);
    assert_eq!(s.on_message(Message::Piece(0, 0, vec![1, 2, 3, 4]), 2, 32768), Received::Delivered(b));
    assert_eq!(s.bytes_downloaded, 4);
    assert_eq!(s.on_message(Message::Piece(0, 0, vec![1, 2, 3, 4]), 3, 32768), Received::Unexpected);
    assert_eq!(s.bytes_downloaded, 4);
}

#[test]
fn request_beyond_piece_is_a_violation() {
    let mut s = active(1);
    assert_eq!(s.on_message(Message::Request(0, 16384, 16384), 1, 32768), Received::Updated);
    assert_eq!(s.on_message(Message::Request(0, 16385, 16384), 1, 32768), Received::ProtocolViolation);
    assert_eq!(s.on_message(Message::Request(0, 0, 16385), 1, 32768), Received::ProtocolViolation);
}

#[test]
fn pause_during_request_drops_later_pieces() {
    let mut s = active(1);
    s.set_interested(true);
    s.on_message(Message::Unchoke, 1, 32768);
    s.add_request(BlockRef { piece: 0, offset: 0, length: 4 }, 0);
    let out = s.pause();
    assert_eq!(out.len(), 2);
    assert!(matches!(out[0], Message::Choke));
    assert!(matches!(out[1], Message::NotInterested));
    assert_eq!(s.phase, SessionPhase::Closing);
    assert_eq!(s.on_message(Message::Piece(0, 0, vec![1, 2, 3, 4]), 2, 32768), Received::Ignored);
    assert_eq!(s.bytes_downloaded, 0);
    assert!(s.outstanding_requests.is_empty());
}

#[test]
fn silent_peer_gets_keep_alive_then_closed() {
    let mut s = active(1);
    s.on_message(Message::Unchoke, 1_000, 16);
    assert_eq!(s.on_tick(100_000), TickAction::Nothing);
    assert_eq!(s.on_tick(121_000), TickAction::SendKeepAlive);
    assert_eq!(s.on_tick(181_000), TickAction::Close);
}

#[test]
fn repeated_invalid_pieces_blacklist_the_peer() {
    let mut s = active(1);
    for _ in 0..4 {
        assert!(!s.on_invalid_piece(torrent_engine::session::DEFAULT_INVALID_PIECE_LIMIT));
    }
    assert!(s.on_invalid_piece(torrent_engine::session::DEFAULT_INVALID_PIECE_LIMIT));
    assert_eq!(s.invalid_pieces, 5);
}

#[test]
fn stale_requests_expire_after_a_minute() {
    let mut s = active(1);
    s.set_interested(true);
    s.on_message(Message::Unchoke, 0, 65536);
    let old = BlockRef { piece: 0, offset: 0, length: 16384 };
    let fresh = BlockRef { piece: 0, offset: 16384, length: 16384 };
    s.add_request(old, 1_000);
    s.add_request(fresh, 50_000);
    assert!(s.has_request(old));
    assert_eq!(s.expire_requests(60_999), Vec::<BlockRef>::new());
    assert_eq!(s.expire_requests(61_000), vec![old]);
    assert_eq!(s.outstanding_requests, vec![fresh]);
    assert_eq!(s.request_sent_ms, vec![50_000]);
    assert!(!s.has_request(old));
}

#[test]
fn inbound_handshake_is_routed_by_its_info_hash() {
    let hs = encode_handshake(&[0x05u8; 20], &[1u8; 20]);
    assert_eq!(torrent_engine::wire::handshake_info_hash(&hs), Some(vec![0x05u8; 20]));
    assert_eq!(torrent_engine::wire::handshake_info_hash(&hs[..67]), None);
}
