//! The fixed 68-byte handshake that opens a peer connection.
use vstd::prelude::*;
use crate::be::push_range;
use crate::digest::digests_match;
use crate::error::DownloadError;

verus! {

/// The length of a handshake on the wire.
pub const HANDSHAKE_LEN: usize = 68;

/// The protocol name, "BitTorrent protocol", in ASCII.
pub open spec fn protocol_name() -> Seq<u8> {
    seq![
        66u8, 105, 116, 84, 111, 114, 114, 101, 110, 116, 32, 112, 114, 111, 116, 111, 99, 111, 108
    ]
}

/// Both hashes that a handshake carries.
#[derive(Debug, Clone, Copy)]
pub struct Handshake {
    pub info_hash: [u8; 20],
    pub peer_id: [u8; 20],
}

/// The bytes of a handshake: name length, name, eight reserved zeros, info hash, peer id.
pub open spec fn handshake_bytes(info_hash: Seq<u8>, peer_id: Seq<u8>) -> Seq<u8> {
    seq![19u8] + protocol_name() + Seq::new(8, |i: int| 0u8) + info_hash + peer_id
}

/// What a received handshake holds: the name length is read from the first byte and the name
/// is skipped; exactly 40 bytes must follow the reserved ones. `None` is a failure.
pub open spec fn parse_handshake(s: Seq<u8>) -> Option<(Seq<u8>, Seq<u8>)> {
    if s.len() == 0 {
        None
    } else if s.len() != 1 + s[0] + 8 + 40 {
        None
    } else {
        let start = 1 + s[0] + 8;
        Some((s.subrange(start, start + 20), s.subrange(start + 20, start + 40)))
    }
}

/// Copies `src[from..from + 20]` into an array.
pub(crate) fn take_20(src: &[u8], from: usize) -> (r: [u8; 20])
    requires
        from + 20 <= src@.len(),
    ensures
        r@ == src@.subrange(from as int, from + 20),
{
    let n = src.len();
    let mut r: [u8; 20] = [0u8; 20];
    let mut i: usize = 0;
    while i < 20
        invariant
            i <= 20,
            from + 20 <= n == src@.len(),
            r@.len() == 20,
            forall|k: int| 0 <= k < i ==> r@[k] == src@[from + k],
        decreases 20 - i,
    {
        r[i] = src[from + i];
        i = i + 1;
    }
    assert(r@ =~= src@.subrange(from as int, from + 20));
    r
}

impl Handshake {
    pub fn new(info_hash: [u8; 20], peer_id: [u8; 20]) -> (r: Handshake)
        ensures
            r.info_hash == info_hash,
            r.peer_id == peer_id,
    {
        Handshake { info_hash, peer_id }
    }

    /// The 68 bytes that are sent.
    pub fn to_bytes(&self) -> (r: Vec<u8>)
        ensures
            r@ == handshake_bytes(self.info_hash@, self.peer_id@),
            r@.len() == HANDSHAKE_LEN,
    {
        let name: [u8; 19] = [
            66u8, 105, 116, 84, 111, 114, 114, 101, 110, 116, 32, 112, 114, 111, 116, 111, 99, 111,
            108,
        ];
        let mut buf: Vec<u8> = Vec::new();
        buf.push(19);
        push_range(&mut buf, name.as_slice(), 0, 19);
        let mut i: usize = 0;
        while i < 8
            invariant
                i <= 8,
                buf@ == seq![19u8] + protocol_name() + Seq::new(i as nat, |k: int| 0u8),
            decreases 8 - i,
        {
            buf.push(0);
            i = i + 1;
            assert(buf@ =~= seq![19u8] + protocol_name() + Seq::new(i as nat, |k: int| 0u8));
        }
        push_range(&mut buf, self.info_hash.as_slice(), 0, 20);
        push_range(&mut buf, self.peer_id.as_slice(), 0, 20);
        assert(buf@ =~= handshake_bytes(self.info_hash@, self.peer_id@));
        buf
    }

    /// Reads a received handshake.
    pub fn from_bytes(buf: &[u8]) -> (r: Result<Handshake, DownloadError>)
        ensures
            match parse_handshake(buf@) {
                Some((info_hash, peer_id)) => r is Ok && r->Ok_0.info_hash@ == info_hash
                    && r->Ok_0.peer_id@ == peer_id,
                None => r == Err::<Handshake, DownloadError>(DownloadError::Handshake),
            },
    {
        if buf.len() == 0 {
            return Err(DownloadError::Handshake);
        }
        let len = buf[0] as usize;
        if buf.len() != 1 + len + 8 + 40 {
            return Err(DownloadError::Handshake);
        }
        let start = 1 + len + 8;
        Ok(Handshake { info_hash: take_20(buf, start), peer_id: take_20(buf, start + 20) })
    }

    /// The remote peer id from the reply to this handshake; the reply must name the same
    /// torrent.
    pub fn remote_peer_id(&self, reply: &[u8]) -> (r: Result<[u8; 20], DownloadError>)
        ensures
            match parse_handshake(reply@) {
                Some((info_hash, peer_id)) => if info_hash == self.info_hash@ {
                    r is Ok && r->Ok_0@ == peer_id
                } else {
                    r == Err::<[u8; 20], DownloadError>(DownloadError::Handshake)
                },
                None => r == Err::<[u8; 20], DownloadError>(DownloadError::Handshake),
            },
    {
        let theirs = match Handshake::from_bytes(reply) {
            Ok(h) => h,
            Err(e) => return Err(e),
        };
        assert(parse_handshake(reply@) is Some);
        let ghost parsed = parse_handshake(reply@)->Some_0;
        assert(parsed.0 == theirs.info_hash@);
        if !digests_match(&theirs.info_hash, &self.info_hash) {
            return Err(DownloadError::Handshake);
        }
        Ok(theirs.peer_id)
    }
}

} // verus!
