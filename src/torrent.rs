//! Torrent metadata: the info dictionary, its hash, and the pieces it describes.
use vstd::prelude::*;
use vstd::utf8::encode_utf8;
use crate::bencode::{bencode_bytes, bencode_int, push_bytes, push_int};
use crate::digest::{sha1_digest, sha1_of};
use crate::download::{block_count, block_length, lemma_block_count, lemma_block_count_bounds, PieceAssignment};
use crate::error::DownloadError;

verus! {

/// The info dictionary of a single-file torrent.
#[derive(Debug, Clone)]
pub struct TorrentInfo {
    pub name: String,
    pub piece_length: usize,
    /// The SHA-1 digests of the pieces, 20 bytes each, concatenated.
    pub pieces: Vec<u8>,
    pub length: usize,
}

/// A torrent file: the tracker's URL and the info dictionary.
#[derive(Debug, Clone)]
pub struct TorrentFile {
    pub announce: String,
    pub info: TorrentInfo,
}

/// The dictionary key "length".
pub open spec fn key_length() -> Seq<u8> {
    seq![108u8, 101, 110, 103, 116, 104]
}

/// The dictionary key "name".
pub open spec fn key_name() -> Seq<u8> {
    seq![110u8, 97, 109, 101]
}

/// The dictionary key "piece length".
pub open spec fn key_piece_length() -> Seq<u8> {
    seq![112u8, 105, 101, 99, 101, 32, 108, 101, 110, 103, 116, 104]
}

/// The dictionary key "pieces".
pub open spec fn key_pieces() -> Seq<u8> {
    seq![112u8, 105, 101, 99, 101, 115]
}

/// The bencoded info dictionary, keys in sorted order as bencode requires.
pub open spec fn info_bencode(name: Seq<char>, piece_length: nat, pieces: Seq<u8>, length: nat) -> Seq<u8> {
    seq![100u8] + bencode_bytes(key_length()) + bencode_int(length) + bencode_bytes(key_name())
        + bencode_bytes(encode_utf8(name)) + bencode_bytes(key_piece_length()) + bencode_int(
        piece_length,
    ) + bencode_bytes(key_pieces()) + bencode_bytes(pieces) + seq![101u8]
}

/// The `k`-th 20-byte digest of a hash blob.
pub open spec fn digest_at(pieces: Seq<u8>, k: int) -> Seq<u8> {
    pieces.subrange(20 * k, 20 * k + 20)
}

impl TorrentInfo {
    /// This dictionary, bencoded.
    pub open spec fn bencoded(&self) -> Seq<u8> {
        info_bencode(self.name@, self.piece_length as nat, self.pieces@, self.length as nat)
    }

    /// The bencoding of this info dictionary.
    pub fn to_bencode(&self) -> (r: Vec<u8>)
        ensures
            r@ == self.bencoded(),
    {
        let k_length: [u8; 6] = [108, 101, 110, 103, 116, 104];
        let k_name: [u8; 4] = [110, 97, 109, 101];
        let k_piece_length: [u8; 12] = [112, 105, 101, 99, 101, 32, 108, 101, 110, 103, 116, 104];
        let k_pieces: [u8; 6] = [112, 105, 101, 99, 101, 115];
        let mut buf: Vec<u8> = Vec::new();
        buf.push(100);
        push_bytes(&mut buf, k_length.as_slice());
        push_int(&mut buf, self.length);
        push_bytes(&mut buf, k_name.as_slice());
        push_bytes(&mut buf, self.name.as_str().as_bytes());
        push_bytes(&mut buf, k_piece_length.as_slice());
        push_int(&mut buf, self.piece_length);
        push_bytes(&mut buf, k_pieces.as_slice());
        push_bytes(&mut buf, self.pieces.as_slice());
        buf.push(101);
        assert(k_length@ =~= key_length());
        assert(k_name@ =~= key_name());
        assert(k_piece_length@ =~= key_piece_length());
        assert(k_pieces@ =~= key_pieces());
        assert(buf@ =~= self.bencoded());
        buf
    }

    /// The info hash: the SHA-1 of the bencoded info dictionary.
    pub fn hash(&self) -> (r: [u8; 20])
        ensures
            r@ == sha1_of(self.bencoded()),
    {
        let encoded = self.to_bencode();
        sha1_digest(encoded.as_slice())
    }

    /// The piece digests, in blob order; the blob must be a whole number of 20-byte digests.
    pub fn piece_hashes(&self) -> (r: Result<Vec<[u8; 20]>, DownloadError>)
        ensures
            self.pieces@.len() % 20 != 0 ==> r == Err::<Vec<[u8; 20]>, DownloadError>(
                DownloadError::InvalidMetadata,
            ),
            self.pieces@.len() % 20 == 0 ==> r is Ok && r->Ok_0@.len() == self.pieces@.len() / 20
                && forall|k: int|
                0 <= k < r->Ok_0@.len() ==> #[trigger] r->Ok_0@[k]@ == digest_at(self.pieces@, k),
    {
        let n = self.pieces.len();
        if n % 20 != 0 {
            return Err(DownloadError::InvalidMetadata);
        }
        let mut r: Vec<[u8; 20]> = Vec::new();
        let mut at: usize = 0;
        while at < n
            invariant
                n == self.pieces@.len(),
                n % 20 == 0,
                at % 20 == 0,
                at <= n,
                r@.len() == at / 20,
                forall|k: int| 0 <= k < r@.len() ==> #[trigger] r@[k]@ == digest_at(self.pieces@, k),
            decreases n - at,
        {
            let d = crate::handshake::take_20(self.pieces.as_slice(), at);
            r.push(d);
            at = at + 20;
        }
        Ok(r)
    }
}

impl TorrentInfo {
    /// The number of pieces that the digest blob lists.
    pub open spec fn piece_count(&self) -> nat {
        self.pieces@.len() / 20
    }

    /// The lengths agree with the digests: one digest per piece of `piece_length` bytes (the
    /// last one shorter), and every piece index and length fits the wire's 32 bits.
    pub open spec fn consistent(&self) -> bool {
        &&& self.piece_length > 0
        &&& self.pieces@.len() % 20 == 0
        &&& self.piece_count() == block_count(self.length as nat, self.piece_length as nat)
        &&& self.piece_length <= u32::MAX
        &&& self.piece_count() <= u32::MAX
    }

    /// The true length of piece `i`: `piece_length`, but for the last piece, which holds what
    /// remains.
    pub open spec fn piece_size(&self, i: nat) -> nat {
        block_length(i, self.piece_length as nat, self.length as nat)
    }

    /// One assignment per piece, in index order, with each piece's true length and digest.
    pub fn piece_assignments(&self) -> (r: Result<Vec<PieceAssignment>, DownloadError>)
        ensures
            !self.consistent() ==> r == Err::<Vec<PieceAssignment>, DownloadError>(
                DownloadError::InvalidMetadata,
            ),
            self.consistent() ==> r is Ok && r->Ok_0@.len() == self.piece_count() && forall|i: int|
                0 <= i < r->Ok_0@.len() ==> {
                    &&& #[trigger] r->Ok_0@[i].piece_index == i
                    &&& r->Ok_0@[i].piece_length == self.piece_size(i as nat)
                    &&& r->Ok_0@[i].expected_hash@ == digest_at(self.pieces@, i)
                },
    {
        let hashes = match self.piece_hashes() {
            Ok(h) => h,
            Err(e) => return Err(e),
        };
        let count = hashes.len();
        let pl = self.piece_length;
        if pl == 0 || pl > 0xffff_ffff || count > 0xffff_ffff {
            return Err(DownloadError::InvalidMetadata);
        }
        // The digests must number ceil(length / piece_length).
        assert((count as u64) * (pl as u64) <= 0xffff_ffffu64 * 0xffff_ffffu64) by (nonlinear_arith)
            requires count <= 0xffff_ffff, pl <= 0xffff_ffff;
        let hi: u64 = (count as u64) * (pl as u64);
        assert(count > 0 ==> hi >= pl) by (nonlinear_arith)
            requires hi == (count as u64) * (pl as u64);
        let ok = if count == 0 {
            self.length == 0
        } else {
            hi - (pl as u64) < self.length as u64 && self.length as u64 <= hi
        };
        proof {
            let n = count as nat;
            let p = pl as nat;
            lemma_block_count_bounds(self.length as nat, p);
            if n > 0 {
                assert((n - 1) * p == n * p - p) by (nonlinear_arith);
            }
            if ok {
                lemma_block_count(n, p, self.length as nat);
            }
        }
        if !ok {
            return Err(DownloadError::InvalidMetadata);
        }
        let mut r: Vec<PieceAssignment> = Vec::new();
        let mut i: usize = 0;
        let mut offset: usize = 0;
        while i < count
            invariant
                count == hashes@.len() == self.piece_count(),
                self.consistent(),
                pl == self.piece_length,
                i <= count,
                i < count ==> offset as int == i * pl,
                count > 0 ==> (count - 1) * pl < self.length,
                r@.len() == i,
                forall|k: int| 0 <= k < count ==> #[trigger] hashes@[k]@ == digest_at(self.pieces@, k),
                forall|k: int|
                    0 <= k < i ==> {
                        &&& #[trigger] r@[k].piece_index == k
                        &&& r@[k].piece_length == self.piece_size(k as nat)
                        &&& r@[k].expected_hash@ == digest_at(self.pieces@, k)
                    },
            decreases count - i,
        {
            assert(i * pl <= (count - 1) * pl) by (nonlinear_arith)
                requires i < count;
            let left = self.length - offset;
            let size = if left < pl { left } else { pl };
            assert(size == self.piece_size(i as nat));
            let a = PieceAssignment { piece_index: i as u32, piece_length: size as u32, expected_hash: hashes[i] };
            assert(a.piece_index == i && a.piece_length == size);
            let ghost before = r@;
            r.push(a);
            assert(r@[i as int] == a);
            assert(forall|k: int| 0 <= k < i ==> r@[k] == before[k]);
            assert((i + 1) * pl == i * pl + pl) by (nonlinear_arith);
            if i + 1 < count {
                assert((i + 1) * pl <= (count - 1) * pl) by (nonlinear_arith)
                    requires i + 1 < count;
            }
            offset = offset + size;
            i = i + 1;
        }
        Ok(r)
    }
}

/// The info hash depends on the dictionary's contents alone: two info dictionaries with the
/// same name, lengths and digests encode to the same bytes and so hash to the same digest.
pub proof fn lemma_info_hash_deterministic(a: TorrentInfo, b: TorrentInfo)
    requires
        a.name@ == b.name@,
        a.piece_length == b.piece_length,
        a.pieces@ == b.pieces@,
        a.length == b.length,
    ensures
        a.bencoded() == b.bencoded(),
        sha1_of(a.bencoded()) == sha1_of(b.bencoded()),
{
}

} // verus!
