use bittorrent_leech::error::DownloadError;
use bittorrent_leech::handshake::{Handshake, HANDSHAKE_LEN};
use bittorrent_leech::message::{Message, MessageType};

fn round_trip(m: Message) -> Message {
    let bytes = m.to_bytes();
    Message::from_bytes(&bytes).expect("decodes")
}

fn same(a: &Message, b: &Message) -> bool {
    format!("{:?}", a) == format!("{:?}", b)
}

#[test]
fn round_trip_every_variant() {
    let all = vec![
        Message::KeepAlive,
        Message::Choke,
        Message::Unchoke,
        Message::Interested,
        Message::NotInterested,
        Message::Have(0xdead_beef),
        Message::Bitfield(vec![0b1010_0000, 0xff]),
        Message::Bitfield(vec![]),
        Message::Request { index: 1, begin: 16384, length: 16384 },
        Message::Piece { index: 7, begin: 32768, block: vec![1, 2, 3, 4] },
        Message::Cancel { index: 3, begin: 0, length: 100 },
    ];
    for m in all {
        let back = round_trip(m.clone());
        assert!(same(&m, &back), "{:?} became {:?}", m, back);
    }
}

#[test]
fn encodes_request_exactly() {
    let m = Message::request(1, 16384, 0x0102);
    assert_eq!(
        m.to_bytes(),
        vec![0, 0, 0, 13, 6, 0, 0, 0, 1, 0, 0, 0x40, 0, 0, 0, 0x01, 0x02]
    );
}

#[test]
fn encodes_status_and_keep_alive() {
    assert_eq!(Message::status(MessageType::Interested).to_bytes(), vec![0, 0, 0, 1, 2]);
    assert_eq!(Message::KeepAlive.to_bytes(), vec![0, 0, 0, 0]);
    assert_eq!(Message::Have(5).to_bytes(), vec![0, 0, 0, 5, 4, 0, 0, 0, 5]);
}

#[test]
fn decodes_piece() {
    let m = Message::from_bytes(&[0, 0, 0, 10, 7, 0, 0, 0, 2, 0, 0, 0, 8, 0xaa]).unwrap();
    assert!(same(&m, &Message::Piece { index: 2, begin: 8, block: vec![0xaa] }));
    assert_eq!(m.kind(), MessageType::Piece);
}

#[test]
fn keep_alive_is_not_an_error() {
    let m = Message::from_bytes(&[0, 0, 0, 0]).unwrap();
    assert_eq!(m.kind(), MessageType::KeepAlive);
}

#[test]
fn decode_rejects_malformed_frames() {
    let bad: Vec<Vec<u8>> = vec![
        vec![],
        vec![0, 0, 1],
        vec![0, 0, 0, 1],
        vec![0, 0, 0, 1, 9],
        vec![0, 0, 0, 12, 6, 0, 0, 0, 1, 0, 0, 0, 2, 0, 0, 0],
        vec![0, 0, 0, 14, 8, 0, 0, 0, 1, 0, 0, 0, 2, 0, 0, 0, 3, 4],
        vec![0, 0, 0, 9, 7, 0, 0, 0, 1, 0, 0, 0, 2],
        vec![0, 0, 0, 4, 4, 0, 0, 1],
        vec![0, 0, 0, 2, 1, 0],
    ];
    for b in bad {
        assert_eq!(Message::from_bytes(&b).unwrap_err(), DownloadError::Protocol, "{:?}", b);
    }
}

#[test]
fn handshake_layout() {
    let hs = Handshake::new([1; 20], [2; 20]);
    let bytes = hs.to_bytes();
    assert_eq!(bytes.len(), HANDSHAKE_LEN);
    assert_eq!(bytes[0], 19);
    assert_eq!(&bytes[1..20], b"BitTorrent protocol");
    assert_eq!(&bytes[20..28], &[0u8; 8]);
    assert_eq!(&bytes[28..48], &[1u8; 20]);
    assert_eq!(&bytes[48..68], &[2u8; 20]);
    let back = Handshake::from_bytes(&bytes).unwrap();
    assert_eq!(back.info_hash, [1; 20]);
    assert_eq!(back.peer_id, [2; 20]);
}

#[test]
fn handshake_reply_gives_remote_id() {
    let ours = Handshake::new([9; 20], [0; 20]);
    let reply = Handshake::new([9; 20], [7; 20]).to_bytes();
    assert_eq!(ours.remote_peer_id(&reply).unwrap(), [7; 20]);
}

#[test]
fn handshake_reply_for_another_torrent_fails() {
    let ours = Handshake::new([9; 20], [0; 20]);
    let reply = Handshake::new([8; 20], [7; 20]).to_bytes();
    assert_eq!(ours.remote_peer_id(&reply).unwrap_err(), DownloadError::Handshake);
}

#[test]
fn short_handshake_fails() {
    let reply = Handshake::new([9; 20], [7; 20]).to_bytes();
    assert_eq!(Handshake::from_bytes(&reply[..67]).unwrap_err(), DownloadError::Handshake);
    assert_eq!(Handshake::from_bytes(&[]).unwrap_err(), DownloadError::Handshake);
}
