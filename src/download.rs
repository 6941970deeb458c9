//! Downloading one piece from one peer: block partition, flow control, pipelining, assembly.
use vstd::prelude::*;
use crate::digest::{digests_match, sha1_digest, sha1_of};
use crate::error::DownloadError;
use crate::message::{Message, MessageType, MessageView};

verus! {

/// The size of every block but possibly the last of a piece.
pub const BLOCK_SIZE: u32 = 16384;

/// How many requests are outstanding at most once the peer unchokes.
pub const PIPELINE_DEPTH: usize = 5;

/// The number of blocks that cover `total` bytes: `ceil(total / block_size)`.
pub open spec fn block_count(total: nat, block_size: nat) -> nat {
    ((total + block_size - 1) as nat) / block_size
}

/// Where block `k` starts.
pub open spec fn block_begin(k: nat, block_size: nat) -> nat {
    k * block_size
}

/// The length of block `k`: a full block, or what is left of the piece.
pub open spec fn block_length(k: nat, block_size: nat, total: nat) -> nat {
    if total - k * block_size < block_size {
        (total - k * block_size) as nat
    } else {
        block_size
    }
}

/// One block of a piece to ask a peer for.
#[derive(Debug, Clone, Copy, PartialEq, Eq, Structural)]
pub struct BlockRequest {
    pub piece_index: u32,
    pub begin: u32,
    pub length: u32,
}

impl BlockRequest {
    /// The request message that asks for this block.
    pub open spec fn message(self) -> MessageView {
        MessageView::Request { index: self.piece_index, begin: self.begin, length: self.length }
    }

    pub fn to_message(&self) -> (r: Message)
        ensures
            r@ == self.message(),
    {
        Message::request(self.piece_index, self.begin, self.length)
    }
}

/// The request for block `k` of piece `piece`.
pub open spec fn block_request(piece: u32, k: nat, block_size: nat, total: nat) -> BlockRequest {
    BlockRequest {
        piece_index: piece,
        begin: block_begin(k, block_size) as u32,
        length: block_length(k, block_size, total) as u32,
    }
}

/// The requests that cover a piece of `total` bytes, in order.
pub open spec fn block_requests(piece: u32, block_size: nat, total: nat) -> Seq<BlockRequest> {
    Seq::new(block_count(total, block_size), |k: int| block_request(piece, k as nat, block_size, total))
}

/// The views of a list of messages.
pub open spec fn views(msgs: Seq<Message>) -> Seq<MessageView> {
    msgs.map_values(|m: Message| m@)
}

/// The messages that ask for a list of blocks.
pub open spec fn request_messages(blocks: Seq<BlockRequest>) -> Seq<MessageView> {
    blocks.map_values(|b: BlockRequest| b.message())
}

pub(crate) proof fn lemma_block_count(k: nat, block_size: nat, total: nat)
    requires
        block_size > 0,
        k == 0 || (k - 1) * block_size < total,
        total <= k * block_size,
    ensures
        block_count(total, block_size) == k,
{
    if k == 0 {
        assert(total == 0);
        assert(((block_size - 1) as nat) / block_size == 0) by (nonlinear_arith)
            requires block_size > 0;
    } else {
        let t = (total + block_size - 1) as nat;
        assert(k * block_size <= t < (k + 1) * block_size) by (nonlinear_arith)
            requires
                (k - 1) * block_size < total,
                total <= k * block_size,
                t == total + block_size - 1,
                block_size > 0,
                k > 0;
        assert(t / block_size == k) by (nonlinear_arith)
            requires
                k * block_size <= t < (k + 1) * block_size,
                block_size > 0;
    }
}

/// The block requests for piece `piece_id` of `total_len` bytes: consecutive ranges of
/// `block_size` bytes from offset 0, the last one shortened to what remains.
pub fn requests(piece_id: u32, block_size: u32, total_len: u32) -> (r: Vec<BlockRequest>)
    requires
        block_size > 0,
    ensures
        r@ == block_requests(piece_id, block_size as nat, total_len as nat),
{
    let ghost bs = block_size as nat;
    let ghost total = total_len as nat;
    let mut r: Vec<BlockRequest> = Vec::new();
    let mut offset: u32 = 0;
    let ghost mut k: nat = 0;
    while offset < total_len
        invariant
            bs == block_size > 0,
            total == total_len,
            offset <= total_len,
            r@.len() == k,
            offset as int == k * bs || offset == total_len,
            offset < total_len ==> offset as int == k * bs,
            k == 0 || (k - 1) * bs < total,
            total <= k * bs || offset < total_len,
            forall|j: int| 0 <= j < k ==> #[trigger] r@[j] == block_request(piece_id, j as nat, bs, total),
        decreases total_len - offset,
    {
        let left = total_len - offset;
        let length = if left < block_size { left } else { block_size };
        proof {
            assert(block_begin(k, bs) == offset);
            assert(block_length(k, bs, total) == length);
        }
        r.push(BlockRequest { piece_index: piece_id, begin: offset, length });
        offset = offset + length;
        proof {
            assert((k + 1) * bs == k * bs + bs) by (nonlinear_arith);
            k = k + 1;
        }
    }
    proof {
        lemma_block_count(k, bs, total);
        assert(r@ =~= block_requests(piece_id, bs, total));
    }
    r
}


pub(crate) proof fn lemma_block_count_bounds(total: nat, block_size: nat)
    requires
        block_size > 0,
    ensures
        block_count(total, block_size) == 0 <==> total == 0,
        block_count(total, block_size) > 0 ==> (block_count(total, block_size) - 1) * block_size
            < total <= block_count(total, block_size) * block_size,
{
    let n = block_count(total, block_size);
    let t = (total + block_size - 1) as int;
    vstd::arithmetic::div_mod::lemma_fundamental_div_mod(t, block_size as int);
    vstd::arithmetic::div_mod::lemma_mod_bound(t, block_size as int);
    assert(t == block_size * n + t % (block_size as int));
    assert((n - 1) * block_size == n * block_size - block_size) by (nonlinear_arith);
    assert(n * block_size == block_size * n) by (nonlinear_arith);
    if n == 0 {
        assert(block_size * n == 0) by (nonlinear_arith) requires n == 0;
        assert(t < block_size);
        assert(total == 0);
    } else {
        assert(n * block_size >= block_size) by (nonlinear_arith) requires n >= 1;
    }
}

/// The blocks of a piece cover `[0, total)` exactly once, in ascending order and without
/// overlap: the first starts at 0, each one starts where the one before it ends, the last
/// ends at `total`, every block is full but the last, and the last is
/// `total % block_size` long, or a full block when that is zero.
pub proof fn lemma_block_partition(block_size: nat, total: nat)
    requires
        block_size > 0,
    ensures
        block_count(total, block_size) == 0 <==> total == 0,
        total > 0 ==> block_begin(0, block_size) == 0,
        forall|k: nat|
            k + 1 < block_count(total, block_size) ==> #[trigger] block_begin(k, block_size)
                + block_length(k, block_size, total) == block_begin(k + 1, block_size)
                && block_length(k, block_size, total) == block_size,
        total > 0 ==> ({
            let last = (block_count(total, block_size) - 1) as nat;
            &&& block_begin(last, block_size) + block_length(last, block_size, total) == total
            &&& block_length(last, block_size, total) == if total % block_size == 0 {
                block_size
            } else {
                total % block_size
            }
        }),
        forall|k: nat|
            k < block_count(total, block_size) ==> 0 < #[trigger] block_length(k, block_size, total)
                <= block_size,
{
    lemma_block_count_bounds(total, block_size);
    let n = block_count(total, block_size);
    assert forall|k: nat| k + 1 < n implies #[trigger] block_begin(k, block_size) + block_length(
        k,
        block_size,
        total,
    ) == block_begin(k + 1, block_size) && block_length(k, block_size, total) == block_size by {
        assert(k * block_size + block_size <= (n - 1) * block_size) by (nonlinear_arith)
            requires k + 1 < n;
        assert((k + 1) * block_size == k * block_size + block_size) by (nonlinear_arith);
    }
    assert forall|k: nat| k < n implies 0 < #[trigger] block_length(k, block_size, total)
        <= block_size by {
        assert(k * block_size <= (n - 1) * block_size) by (nonlinear_arith) requires k < n;
    }
    if total > 0 {
        let last = (n - 1) as nat;
        assert(0 * block_size == 0);
        let r = total - last * block_size;
        assert(n * block_size == last * block_size + block_size) by (nonlinear_arith)
            requires last == n - 1;
        assert(0 < r <= block_size);
        if r == block_size {
            assert(total == n * block_size);
            vstd::arithmetic::div_mod::lemma_fundamental_div_mod_converse(
                total as int,
                block_size as int,
                n as int,
                0,
            );
        } else {
            vstd::arithmetic::div_mod::lemma_fundamental_div_mod_converse(
                total as int,
                block_size as int,
                last as int,
                r,
            );
        }
    }
}


/// Whether the peer lets us ask for data.
#[derive(Debug, Clone, Copy, PartialEq, Eq, Structural)]
pub enum PeerState {
    Choked,
    Unchoked,
}

/// A piece handed to a connection: its index, its true length and its expected SHA-1.
#[derive(Debug, Clone, Copy)]
pub struct PieceAssignment {
    pub piece_index: u32,
    pub piece_length: u32,
    pub expected_hash: [u8; 20],
}

/// The progress of one piece download on one connection.
///
/// `requests[next..]` is the queue of blocks not yet asked for; `assembled` holds the bytes
/// received so far, in order.
pub struct PieceDownload {
    pub assignment: PieceAssignment,
    pub state: PeerState,
    pub requests: Vec<BlockRequest>,
    pub next: usize,
    pub assembled: Vec<u8>,
}

/// The smaller of two naturals.
pub open spec fn min_nat(a: nat, b: nat) -> nat {
    if a <= b {
        a
    } else {
        b
    }
}

impl PieceDownload {
    /// All block requests of the piece, whether sent or not.
    pub open spec fn all_blocks(&self) -> Seq<BlockRequest> {
        block_requests(self.assignment.piece_index, BLOCK_SIZE as nat, self.assignment.piece_length as nat)
    }

    pub open spec fn wf(&self) -> bool {
        &&& self.requests@ == self.all_blocks()
        &&& self.next <= self.requests@.len()
        &&& self.assembled@.len() <= self.assignment.piece_length
    }

    /// The blocks not yet asked for, in order.
    pub open spec fn queue(&self) -> Seq<BlockRequest> {
        self.requests@.subrange(self.next as int, self.requests@.len() as int)
    }

    /// The bytes assembled so far.
    pub open spec fn received(&self) -> Seq<u8> {
        self.assembled@
    }

    /// The same state, queue and bytes.
    pub open spec fn same_progress(&self, other: &PieceDownload) -> bool {
        &&& self.assignment == other.assignment
        &&& self.state == other.state
        &&& self.next == other.next
        &&& self.queue() == other.queue()
        &&& self.received() == other.received()
    }

    /// A fresh download: choked, every block queued, nothing received.
    pub fn new(assignment: PieceAssignment) -> (r: PieceDownload)
        ensures
            r.wf(),
            r.assignment == assignment,
            r.state == PeerState::Choked,
            r.queue() == r.all_blocks(),
            r.received().len() == 0,
    {
        let requests = requests(assignment.piece_index, BLOCK_SIZE, assignment.piece_length);
        let r = PieceDownload {
            assignment,
            state: PeerState::Choked,
            requests,
            next: 0,
            assembled: Vec::new(),
        };
        assert(r.queue() =~= r.all_blocks());
        r
    }

    /// What is sent before anything is received: the client is always interested.
    pub fn opening_message() -> (r: Message)
        ensures
            r@ == MessageView::Interested,
    {
        Message::status(MessageType::Interested)
    }

    /// Whether the whole piece has arrived.
    pub fn is_done(&self) -> (r: bool)
        requires
            self.wf(),
        ensures
            r == (self.received().len() == self.assignment.piece_length),
    {
        self.assembled.len() == self.assignment.piece_length as usize
    }

    /// Takes up to `n` blocks from the front of the queue, as request messages.
    fn issue(&mut self, n: usize) -> (sent: Vec<Message>)
        requires
            old(self).wf(),
        ensures
            final(self).wf(),
            final(self).assignment == old(self).assignment,
            final(self).state == old(self).state,
            final(self).received() == old(self).received(),
            views(sent@) == request_messages(
                old(self).queue().take(min_nat(n as nat, old(self).queue().len()) as int),
            ),
            final(self).queue() == old(self).queue().skip(
                min_nat(n as nat, old(self).queue().len()) as int,
            ),
    {
        let ghost q0 = self.queue();
        let mut sent: Vec<Message> = Vec::new();
        let mut i: usize = 0;
        while i < n && self.next < self.requests.len()
            invariant
                self.wf(),
                self.assignment == old(self).assignment,
                self.state == old(self).state,
                self.received() == old(self).received(),
                self.requests@ == old(self).requests@,
                self.next == old(self).next + i,
                i <= n,
                q0 == old(self).queue(),
                i <= q0.len(),
                views(sent@) == request_messages(q0.take(i as int)),
            decreases n - i,
        {
            let m = self.requests[self.next].to_message();
            assert(self.requests@[self.next as int] == q0[i as int]);
            let ghost before = sent@;
            sent.push(m);
            assert(views(sent@) =~= views(before).push(m@));
            assert(q0.take(i + 1) =~= q0.take(i as int).push(q0[i as int]));
            self.next = self.next + 1;
            i = i + 1;
            assert(views(sent@) =~= request_messages(q0.take(i as int)));
        }
        assert(i == min_nat(n as nat, q0.len()));
        assert(self.queue() =~= q0.skip(i as int));
        sent
    }

    /// Reacts to one received message: a keep-alive is ignored; a choke in any state chokes;
    /// an unchoke while choked unchokes and asks for up to `PIPELINE_DEPTH` blocks; a block
    /// while unchoked must belong to this piece, start where the assembled bytes end and stay
    /// within the piece, is appended, and is answered with the next queued request, if any.
    /// Every other message, or a message in another state, is a protocol violation, and then
    /// nothing changes. The result is the messages to send, in order.
    pub fn handle(&mut self, msg: Message) -> (r: Result<Vec<Message>, DownloadError>)
        requires
            old(self).wf(),
        ensures
            final(self).wf(),
            final(self).assignment == old(self).assignment,
            r is Err ==> r == Err::<Vec<Message>, DownloadError>(DownloadError::Protocol)
                && final(self).same_progress(old(self)),
            match msg@ {
                MessageView::KeepAlive => {
                    &&& r is Ok
                    &&& r->Ok_0@.len() == 0
                    &&& final(self).same_progress(old(self))
                },
                MessageView::Choke => {
                    &&& r is Ok
                    &&& r->Ok_0@.len() == 0
                    &&& final(self).state == PeerState::Choked
                    &&& final(self).queue() == old(self).queue()
                    &&& final(self).received() == old(self).received()
                },
                MessageView::Unchoke => if old(self).state == PeerState::Choked {
                    let k = min_nat(PIPELINE_DEPTH as nat, old(self).queue().len()) as int;
                    &&& r is Ok
                    &&& views(r->Ok_0@) == request_messages(old(self).queue().take(k))
                    &&& final(self).state == PeerState::Unchoked
                    &&& final(self).queue() == old(self).queue().skip(k)
                    &&& final(self).received() == old(self).received()
                } else {
                    r is Err
                },
                MessageView::Piece { index, begin, block } => if old(self).state
                    == PeerState::Unchoked && index == old(self).assignment.piece_index && begin
                    == old(self).received().len() && old(self).received().len() + block.len()
                    <= old(self).assignment.piece_length {
                    let k = min_nat(1, old(self).queue().len()) as int;
                    &&& r is Ok
                    &&& views(r->Ok_0@) == request_messages(old(self).queue().take(k))
                    &&& final(self).state == PeerState::Unchoked
                    &&& final(self).queue() == old(self).queue().skip(k)
                    &&& final(self).received() == old(self).received() + block
                } else {
                    r is Err
                },
                _ => r is Err,
            },
    {
        match msg {
            Message::KeepAlive => Ok(Vec::new()),
            Message::Choke => {
                self.state = PeerState::Choked;
                Ok(Vec::new())
            },
            Message::Unchoke => {
                if self.state == PeerState::Choked {
                    let sent = self.issue(PIPELINE_DEPTH);
                    self.state = PeerState::Unchoked;
                    Ok(sent)
                } else {
                    Err(DownloadError::Protocol)
                }
            },
            Message::Piece { index, begin, block } => {
                let have = self.assembled.len();
                let room = self.assignment.piece_length as usize - have;
                if self.state == PeerState::Unchoked && index == self.assignment.piece_index
                    && begin as usize == have && block.len() <= room {
                    crate::be::push_range(&mut self.assembled, block.as_slice(), 0, block.len());
                    assert(block@.subrange(0, block@.len() as int) =~= block@);
                    let sent = self.issue(1);
                    Ok(sent)
                } else {
                    Err(DownloadError::Protocol)
                }
            },
            _ => Err(DownloadError::Protocol),
        }
    }
}

/// Hands back the assembled bytes when their digest is the expected one; otherwise the
/// piece is refused and its bytes are dropped.
pub fn verify_piece(assembled: Vec<u8>, digest: &[u8; 20], expected: &[u8; 20]) -> (r: Result<
    Vec<u8>,
    DownloadError,
>)
    ensures
        digest@ == expected@ ==> r is Ok && r->Ok_0@ == assembled@,
        digest@ != expected@ ==> r == Err::<Vec<u8>, DownloadError>(DownloadError::Verification),
{
    if digests_match(digest, expected) {
        Ok(assembled)
    } else {
        Err(DownloadError::Verification)
    }
}

impl PieceDownload {
    /// Ends a finished download: the bytes, if their SHA-1 is the expected hash.
    pub fn finish(self) -> (r: Result<Vec<u8>, DownloadError>)
        requires
            self.wf(),
            self.received().len() == self.assignment.piece_length,
        ensures
            sha1_of(self.received()) == self.assignment.expected_hash@ ==> r is Ok && r->Ok_0@
                == self.received(),
            sha1_of(self.received()) != self.assignment.expected_hash@ ==> r == Err::<
                Vec<u8>,
                DownloadError,
            >(DownloadError::Verification),
    {
        let digest = sha1_digest(self.assembled.as_slice());
        verify_piece(self.assembled, &digest, &self.assignment.expected_hash)
    }
}

/// One step of waiting for the peer's bitfield: keep-alives are skipped (`None`), a bitfield
/// is the answer, and any other message first is a protocol violation.
pub fn bitfield_step(msg: Message) -> (r: Result<Option<Vec<u8>>, DownloadError>)
    ensures
        match msg@ {
            MessageView::KeepAlive => r == Ok::<Option<Vec<u8>>, DownloadError>(None),
            MessageView::Bitfield(b) => r is Ok && r->Ok_0 is Some && r->Ok_0->Some_0@ == b,
            _ => r == Err::<Option<Vec<u8>>, DownloadError>(DownloadError::Protocol),
        },
{
    match msg {
        Message::KeepAlive => Ok(None),
        Message::Bitfield(b) => Ok(Some(b)),
        _ => Err(DownloadError::Protocol),
    }
}

} // verus!
