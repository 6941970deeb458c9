use vstd::prelude::*;

verus! {

/// The ways in which talking to a peer, or downloading from it, can fail.
#[derive(Debug, Clone, Copy, PartialEq, Eq, Structural)]
pub enum DownloadError {
    /// TCP connect, read or write failed; the peer is dropped from the pool.
    Connection,
    /// The handshake was malformed or named another torrent.
    Handshake,
    /// Malformed framing, or a message that the current state does not allow.
    Protocol,
    /// A downloaded piece does not hash to the expected digest.
    Verification,
    /// No peer could be reached.
    NoPeersAvailable,
    /// The torrent metadata is inconsistent (hash blob, lengths).
    InvalidMetadata,
}

} // verus!
