use bittorrent_leech::error::DownloadError;
use bittorrent_leech::schedule::{round_robin, DownloadedPiece, Reassembly};
use bittorrent_leech::torrent::{TorrentFile, TorrentInfo};
use bittorrent_leech::tracker::{hash_encode, parse_compact_peers, Tracker};

fn sample_info() -> TorrentInfo {
    TorrentInfo {
        name: "sample.txt".to_string(),
        piece_length: 32768,
        pieces: (0u8..60).collect(),
        length: 92063,
    }
}

#[test]
fn piece_hashes_in_blob_order() {
    let info = sample_info();
    let hashes = info.piece_hashes().unwrap();
    assert_eq!(hashes.len(), 3);
    for (k, h) in hashes.iter().enumerate() {
        let want: Vec<u8> = (20 * k as u8..20 * k as u8 + 20).collect();
        assert_eq!(h.to_vec(), want);
    }
}

#[test]
fn piece_hashes_reject_partial_digest() {
    let mut info = sample_info();
    info.pieces.truncate(50);
    assert_eq!(info.piece_hashes().unwrap_err(), DownloadError::InvalidMetadata);
    info.pieces.clear();
    assert_eq!(info.piece_hashes().unwrap().len(), 0);
}

#[test]
fn info_dictionary_bencoding() {
    let info = TorrentInfo { name: "a".to_string(), piece_length: 5, pieces: vec![7; 20], length: 12 };
    let mut want = b"d6:lengthi12e4:name1:a12:piece lengthi5e6:pieces20:".to_vec();
    want.extend_from_slice(&[7; 20]);
    want.push(b'e');
    assert_eq!(info.to_bencode(), want);
}

#[test]
fn info_hash_is_sha1_of_bencoding_and_stable() {
    let info = sample_info();
    let first = info.hash();
    let second = info.clone().hash();
    assert_eq!(first, second);
    assert_eq!(hex::encode(first), "f519c3a24144a8649e58efc3e359b51a386054d6");
}

#[test]
fn assignments_use_true_last_length() {
    let info = sample_info();
    let a = info.piece_assignments().unwrap();
    assert_eq!(a.len(), 3);
    assert_eq!(a[0].piece_length, 32768);
    assert_eq!(a[1].piece_length, 32768);
    assert_eq!(a[2].piece_length, 92063 - 2 * 32768);
    assert_eq!(a[2].piece_index, 2);
    assert_eq!(a[1].expected_hash.to_vec(), (20u8..40).collect::<Vec<u8>>());
}

#[test]
fn assignments_when_length_is_a_multiple() {
    let info = TorrentInfo { name: "x".to_string(), piece_length: 10, pieces: vec![0; 40], length: 20 };
    let a = info.piece_assignments().unwrap();
    assert_eq!(a.len(), 2);
    assert_eq!(a[1].piece_length, 10);
}

#[test]
fn assignments_reject_inconsistent_metadata() {
    let wrong_count = TorrentInfo { name: "x".to_string(), piece_length: 10, pieces: vec![0; 40], length: 21 };
    assert_eq!(wrong_count.piece_assignments().unwrap_err(), DownloadError::InvalidMetadata);
    let zero = TorrentInfo { name: "x".to_string(), piece_length: 0, pieces: vec![0; 20], length: 1 };
    assert_eq!(zero.piece_assignments().unwrap_err(), DownloadError::InvalidMetadata);
}

#[test]
fn torrent_file_holds_info() {
    let t = TorrentFile { announce: "http://tracker/announce".to_string(), info: sample_info() };
    assert_eq!(t.info.piece_hashes().unwrap().len(), 3);
}

#[test]
fn tracker_identity() {
    let t = Tracker::new();
    assert_eq!(t.peer_id, "00112233445566778899");
    assert_eq!(t.port, 6881);
}

#[test]
fn info_hash_percent_encoding() {
    let mut h = [0u8; 20];
    h[0] = 0xd6;
    h[1] = 0x9f;
    h[19] = 0x0a;
    let enc = hash_encode(&h);
    assert_eq!(enc.len(), 60);
    assert!(enc.starts_with("%d6%9f%00"));
    assert!(enc.ends_with("%00%0a"));
}

#[test]
fn compact_peer_list() {
    let bytes = vec![127, 0, 0, 1, 0x1a, 0xe1, 10, 0, 0, 2, 0, 80, 9, 9];
    let peers = parse_compact_peers(&bytes);
    assert_eq!(peers.len(), 2);
    assert_eq!(peers[0].ip, [127, 0, 0, 1]);
    assert_eq!(peers[0].port, 6881);
    assert_eq!(peers[1].ip, [10, 0, 0, 2]);
    assert_eq!(peers[1].port, 80);
}

#[test]
fn round_robin_over_two_connections() {
    assert_eq!(round_robin(5, 2).unwrap(), vec![0, 1, 0, 1, 0]);
    assert_eq!(round_robin(3, 0).unwrap_err(), DownloadError::NoPeersAvailable);
}

#[test]
fn output_in_piece_order_despite_arrival_order() {
    let mut buf = Reassembly::new(3);
    buf.insert(DownloadedPiece { piece_index: 2, bytes: vec![2, 2] }).unwrap();
    assert!(!buf.is_complete());
    buf.insert(DownloadedPiece { piece_index: 0, bytes: vec![0] }).unwrap();
    buf.insert(DownloadedPiece { piece_index: 1, bytes: vec![1, 1, 1] }).unwrap();
    assert!(buf.is_complete());
    assert_eq!(buf.output(), vec![0, 1, 1, 1, 2, 2]);
}

#[test]
fn reassembly_refuses_unknown_index() {
    let mut buf = Reassembly::new(1);
    let err = buf.insert(DownloadedPiece { piece_index: 1, bytes: vec![] }).unwrap_err();
    assert_eq!(err, DownloadError::InvalidMetadata);
    assert!(!buf.is_complete());
}
