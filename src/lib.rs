//! The core of a BitTorrent leecher: the peer wire codec and handshake, the per-piece download
//! state machine, torrent metadata, the tracker's compact peer list, a bencode reader, and the
//! ordered reassembly of downloaded pieces. Network I/O is left to the caller, which feeds
//! received messages in and sends what comes back.
pub mod be;
pub mod bencode;
pub mod digest;
pub mod download;
pub mod error;
pub mod handshake;
pub mod message;
pub mod schedule;
pub mod torrent;
pub mod tracker;
