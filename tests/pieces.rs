use torrent_engine::info_hash::info_hash_of;
use torrent_engine::picker::{in_endgame, interested_in, peers_to_cancel, pick_piece};
use torrent_engine::piece_store::{BlockOutcome, PieceStatus, PieceStore};
use torrent_engine::session::{BlockRef, PeerSession, Received};
use torrent_engine::wire::Message;

fn piece_bytes(n: usize) -> Vec<u8> {
    (0..n).map(|i| (i % 253) as u8).collect()
}

#[test]
fn single_piece_leech_is_verified_written_and_announced() {
    let data = piece_bytes(32768);
    let digest = info_hash_of(&data);
    let mut store = PieceStore::new(32768, 32768, vec![digest]).unwrap();
    let mut session = PeerSession::new(1);
    session.advance();
    session.advance();
    session.set_interested(true);
    session.on_message(Message::Unchoke, 0, 32768);
    session.add_request(BlockRef { piece: 0, offset: 0, length: 16384 }, 0);
    session.add_request(BlockRef { piece: 0, offset: 16384, length: 16384 }, 0);

    let first = data[..16384].to_vec();
    let second = data[16384..].to_vec();
    assert!(matches!(session.on_message(Message::Piece(0, 0, first.clone()), 1, 32768), Received::Delivered(_)));
    assert_eq!(store.on_block(0, 0, &first), BlockOutcome::Stored);
    assert!(store.on_write_finished(0).is_none());
    assert!(matches!(session.on_message(Message::Piece(0, 16384, second.clone()), 2, 32768), Received::Delivered(_)));
    match store.on_block(0, 16384, &second) {
        BlockOutcome::WriteNeeded(bytes) => {
            assert_eq!(bytes.len(), 32768);
            assert_eq!(bytes, data);
        }
        other => panic!("unexpected {:?}", other),
    }
    assert_eq!(store.slots[0].status, PieceStatus::Complete);
    match store.on_write_finished(0) {
        Some(Message::Have(0)) => {}
        other => panic!("unexpected {:?}", other),
    }
    assert_eq!(store.slots[0].status, PieceStatus::Persisted);
    assert_eq!(session.bytes_downloaded, 32768);
}

#[test]
fn corrupted_piece_goes_back_to_missing() {
    let data = piece_bytes(20000);
    let digest = info_hash_of(&data);
    let mut store = PieceStore::new(20000, 20000, vec![digest]).unwrap();
    assert_eq!(store.on_block(0, 0, &data[..16384]), BlockOutcome::Stored);
    let mut bad = data[16384..].to_vec();
    bad[0] ^= 1;
    assert_eq!(store.on_block(0, 16384, &bad), BlockOutcome::HashMismatch);
    assert_eq!(store.slots[0].status, PieceStatus::Missing);
    assert!(store.on_write_finished(0).is_none());
}

#[test]
fn duplicate_and_misplaced_blocks_are_dropped() {
    let data = piece_bytes(40000);
    let d0 = info_hash_of(&data[..32768]);
    let d1 = info_hash_of(&data[32768..]);
    let mut store = PieceStore::new(32768, 40000, vec![d0, d1]).unwrap();
    assert_eq!(store.on_block(0, 0, &data[..16384]), BlockOutcome::Stored);
    assert_eq!(store.on_block(0, 0, &data[..16384]), BlockOutcome::Duplicate);
    assert_eq!(store.on_block(0, 100, &data[..16384]), BlockOutcome::Invalid);
    assert_eq!(store.on_block(2, 0, &data[..16384]), BlockOutcome::Invalid);
    // the last piece holds 7232 bytes in one short block
    assert_eq!(store.on_block(1, 0, &data[32768..32768 + 100]), BlockOutcome::Invalid);
    assert!(matches!(store.on_block(1, 0, &data[32768..]), BlockOutcome::WriteNeeded(_)));
    assert_eq!(store.on_block(1, 0, &data[32768..]), BlockOutcome::Duplicate);
}

#[test]
fn store_refuses_digest_count_mismatch() {
    assert!(PieceStore::new(32768, 40000, vec![vec![0u8; 20]]).is_none());
    assert!(PieceStore::new(0, 40000, vec![]).is_none());
}

#[test]
fn picker_prefers_partial_then_rarest_then_lowest() {
    let have = vec![false, false, false, false];
    let remote = vec![true, true, true, true];
    let availability = vec![3, 1, 1, 2];
    assert_eq!(pick_piece(&have, &vec![false; 4], &remote, &availability), Some(1));
    assert_eq!(pick_piece(&have, &vec![false, false, false, true], &remote, &availability), Some(3));
    assert_eq!(pick_piece(&vec![true; 4], &vec![false; 4], &remote, &availability), None);
    assert_eq!(pick_piece(&have, &vec![false; 4], &vec![true, false, false, false], &availability), Some(0));
}

#[test]
fn endgame_starts_below_two_percent_missing() {
    assert!(!in_endgame(3, 100));
    assert!(!in_endgame(2, 100));
    assert!(in_endgame(1, 100));
    assert!(in_endgame(0, 100));
}

#[test]
fn endgame_duplicates_last_block_and_cancels_the_rest() {
    // 100 blocks, 3 missing: not yet endgame; down to the last one: endgame
    assert!(!in_endgame(3, 100));
    assert!(in_endgame(1, 100));
    let last = BlockRef { piece: 9, offset: 16384, length: 16384 };
    let other = BlockRef { piece: 9, offset: 0, length: 16384 };
    let outstanding = vec![vec![last], vec![other, last], vec![other], vec![last]];
    let asked = outstanding.iter().filter(|v| v.contains(&last)).count();
    assert!(asked >= 2);
    assert_eq!(peers_to_cancel(&outstanding, last, 1), vec![0, 3]);
    assert_eq!(peers_to_cancel(&outstanding, other, 2), vec![1]);
}

#[test]
fn complete_download_reassembles_source() {
    let piece_length = 32768u32;
    let total = 100_000usize;
    let source = piece_bytes(total);
    let digests: Vec<Vec<u8>> = source.chunks(piece_length as usize).map(|c| info_hash_of(c)).collect();
    let mut store = PieceStore::new(piece_length, total as u64, digests).unwrap();
    let mut disk = vec![0u8; total];
    let mut announced = Vec::new();
    // blocks served in reverse order, as a peer may
    let mut blocks = Vec::new();
    for p in 0..4u32 {
        let start = p as usize * piece_length as usize;
        let end = (start + piece_length as usize).min(total);
        let mut off = 0;
        while start + off < end {
            let len = (end - start - off).min(16384);
            blocks.push((p, off as u32, source[start + off..start + off + len].to_vec()));
            off += len;
        }
    }
    blocks.reverse();
    for (p, off, data) in blocks {
        if let BlockOutcome::WriteNeeded(bytes) = store.on_block(p, off, &data) {
            let start = p as usize * piece_length as usize;
            disk[start..start + bytes.len()].copy_from_slice(&bytes);
            if let Some(Message::Have(i)) = store.on_write_finished(p) {
                announced.push(i);
            }
        }
    }
    assert_eq!(disk, source);
    announced.sort();
    assert_eq!(announced, vec![0, 1, 2, 3]);
}

#[test]
fn interest_follows_what_the_peer_has() {
    assert!(interested_in(&vec![true, false], &vec![false, true]));
    assert!(!interested_in(&vec![true, false], &vec![true, false]));
    assert!(!interested_in(&vec![false, false], &vec![]));
}

#[test]
fn repeated_block_is_stored_once() {
    let data = piece_bytes(32768);
    let digest = info_hash_of(&data);
    let mut store = PieceStore::new(32768, 32768, vec![digest]).unwrap();
    assert_eq!(store.on_block(0, 0, &data[..16384]), BlockOutcome::Stored);
    let garbage = vec![0xAAu8; 16384];
    assert_eq!(store.on_block(0, 0, &garbage), BlockOutcome::Duplicate);
    assert_eq!(&store.slots[0].data[..16384], &data[..16384]);
    assert_eq!(store.slots[0].received, vec![true, false]);
    match store.on_block(0, 16384, &data[16384..]) {
        BlockOutcome::WriteNeeded(bytes) => assert_eq!(bytes, data),
        other => panic!("unexpected {:?}", other),
    }
}
