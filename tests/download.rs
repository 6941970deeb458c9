use bittorrent_leech::download::{
    bitfield_step, requests, verify_piece, BlockRequest, PeerState, PieceAssignment,
    PieceDownload, BLOCK_SIZE,
};
use bittorrent_leech::error::DownloadError;
use bittorrent_leech::message::{Message, MessageType};
use sha1::{Digest, Sha1};

fn sha1(data: &[u8]) -> [u8; 20] {
    Sha1::digest(data).into()
}

fn block(index: u32, begin: u32, data: Vec<u8>) -> Message {
    Message::Piece { index, begin, block: data }
}

fn as_request(m: &Message) -> (u32, u32, u32) {
    match m {
        Message::Request { index, begin, length } => (*index, *begin, *length),
        other => panic!("not a request: {:?}", other),
    }
}

#[test]
fn partition_with_remainder() {
    let r = requests(3, BLOCK_SIZE, 16384 * 2 + 100);
    assert_eq!(
        r,
        vec![
            BlockRequest { piece_index: 3, begin: 0, length: 16384 },
            BlockRequest { piece_index: 3, begin: 16384, length: 16384 },
            BlockRequest { piece_index: 3, begin: 32768, length: 100 },
        ]
    );
}

#[test]
fn partition_exact_multiple_and_empty() {
    let r = requests(0, BLOCK_SIZE, 16384 * 2);
    assert_eq!(r.len(), 2);
    assert_eq!(r[1].length, 16384);
    assert!(requests(0, BLOCK_SIZE, 0).is_empty());
    let small = requests(1, BLOCK_SIZE, 1);
    assert_eq!(small, vec![BlockRequest { piece_index: 1, begin: 0, length: 1 }]);
}

#[test]
fn partition_covers_piece_in_order() {
    for total in [1u32, 100, 16383, 16384, 16385, 50000, 262144, 262145] {
        let r = requests(0, BLOCK_SIZE, total);
        assert_eq!(r.len() as u32, (total + BLOCK_SIZE - 1) / BLOCK_SIZE);
        let mut at = 0;
        for b in &r {
            assert_eq!(b.begin, at);
            at += b.length;
        }
        assert_eq!(at, total);
        let last = r.last().unwrap().length;
        let rem = total % BLOCK_SIZE;
        assert_eq!(last, if rem == 0 { BLOCK_SIZE } else { rem });
    }
}

#[test]
fn scripted_two_block_piece() {
    let x = 1000usize;
    let data: Vec<u8> = (0..16384 + x).map(|i| (i % 251) as u8).collect();
    let assignment = PieceAssignment {
        piece_index: 0,
        piece_length: (16384 + x) as u32,
        expected_hash: sha1(&data),
    };
    let mut dl = PieceDownload::new(assignment);
    assert_eq!(PieceDownload::opening_message().kind(), MessageType::Interested);
    let sent = dl.handle(Message::Unchoke).unwrap();
    assert_eq!(sent.len(), 2);
    assert_eq!(as_request(&sent[0]), (0, 0, 16384));
    assert_eq!(as_request(&sent[1]), (0, 16384, x as u32));
    assert_eq!(dl.state, PeerState::Unchoked);
    let sent = dl.handle(block(0, 0, data[..16384].to_vec())).unwrap();
    assert!(sent.is_empty());
    assert!(!dl.is_done());
    let sent = dl.handle(block(0, 16384, data[16384..].to_vec())).unwrap();
    assert!(sent.is_empty());
    assert!(dl.is_done());
    assert_eq!(dl.finish().unwrap(), data);
}

#[test]
fn scripted_piece_with_wrong_hash_is_refused() {
    let data = vec![5u8; 300];
    let assignment = PieceAssignment { piece_index: 2, piece_length: 300, expected_hash: [0; 20] };
    let mut dl = PieceDownload::new(assignment);
    dl.handle(Message::Unchoke).unwrap();
    dl.handle(block(2, 0, data)).unwrap();
    assert!(dl.is_done());
    assert_eq!(dl.finish().unwrap_err(), DownloadError::Verification);
}

#[test]
fn out_of_order_block_is_a_protocol_error() {
    let assignment = PieceAssignment { piece_index: 0, piece_length: 40000, expected_hash: [0; 20] };
    let mut dl = PieceDownload::new(assignment);
    dl.handle(Message::Unchoke).unwrap();
    let err = dl.handle(block(0, 16384, vec![1; 16384])).unwrap_err();
    assert_eq!(err, DownloadError::Protocol);
    assert_eq!(dl.assembled.len(), 0);
}

#[test]
fn block_of_another_piece_is_a_protocol_error() {
    let assignment = PieceAssignment { piece_index: 0, piece_length: 10, expected_hash: [0; 20] };
    let mut dl = PieceDownload::new(assignment);
    dl.handle(Message::Unchoke).unwrap();
    assert_eq!(dl.handle(block(1, 0, vec![1; 10])).unwrap_err(), DownloadError::Protocol);
}

#[test]
fn block_while_choked_is_a_protocol_error() {
    let assignment = PieceAssignment { piece_index: 0, piece_length: 10, expected_hash: [0; 20] };
    let mut dl = PieceDownload::new(assignment);
    assert_eq!(dl.handle(block(0, 0, vec![1; 10])).unwrap_err(), DownloadError::Protocol);
    assert_eq!(dl.handle(Message::Have(1)).unwrap_err(), DownloadError::Protocol);
}

#[test]
fn pipeline_is_capped_and_refilled() {
    let len = 16384 * 8;
    let data = vec![3u8; len];
    let assignment = PieceAssignment { piece_index: 4, piece_length: len as u32, expected_hash: sha1(&data) };
    let mut dl = PieceDownload::new(assignment);
    assert!(dl.handle(Message::KeepAlive).unwrap().is_empty());
    let first = dl.handle(Message::Unchoke).unwrap();
    assert_eq!(first.len(), 5);
    let next = dl.handle(block(4, 0, vec![3; 16384])).unwrap();
    assert_eq!(next.len(), 1);
    assert_eq!(as_request(&next[0]), (4, 5 * 16384, 16384));
    assert!(dl.handle(Message::Choke).unwrap().is_empty());
    assert_eq!(dl.state, PeerState::Choked);
    let again = dl.handle(Message::Unchoke).unwrap();
    assert_eq!(again.len(), 2);
    assert_eq!(dl.handle(Message::Unchoke).unwrap_err(), DownloadError::Protocol);
}

#[test]
fn end_to_end_single_piece() {
    let data: Vec<u8> = (0..20000u32).map(|i| (i * 7 % 256) as u8).collect();
    let expected = sha1(&data);
    let assignment = PieceAssignment { piece_index: 0, piece_length: 20000, expected_hash: expected };
    let script = vec![
        Message::Bitfield(vec![0x80]).to_bytes(),
        Message::Unchoke.to_bytes(),
        block(0, 0, data[..16384].to_vec()).to_bytes(),
        block(0, 16384, data[16384..].to_vec()).to_bytes(),
    ];
    let mut frames = script.into_iter();
    let bf = bitfield_step(Message::from_bytes(&frames.next().unwrap()).unwrap()).unwrap();
    assert_eq!(bf, Some(vec![0x80]));
    let mut dl = PieceDownload::new(assignment);
    while !dl.is_done() {
        let msg = Message::from_bytes(&frames.next().unwrap()).unwrap();
        dl.handle(msg).unwrap();
    }
    let out = dl.finish().unwrap();
    assert_eq!(sha1(&out), expected);
    assert_eq!(out, data);
}

#[test]
fn bitfield_step_skips_keep_alive_and_rejects_others() {
    assert_eq!(bitfield_step(Message::KeepAlive).unwrap(), None);
    assert_eq!(bitfield_step(Message::Unchoke).unwrap_err(), DownloadError::Protocol);
}

#[test]
fn verify_piece_compares_digests() {
    assert_eq!(verify_piece(vec![1, 2], &[4; 20], &[4; 20]).unwrap(), vec![1, 2]);
    assert_eq!(verify_piece(vec![1, 2], &[4; 20], &[5; 20]).unwrap_err(), DownloadError::Verification);
}
