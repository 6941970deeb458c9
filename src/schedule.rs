//! Spreading pieces over connections, and putting downloaded pieces back in order.
use vstd::prelude::*;
use crate::be::push_range;
use crate::error::DownloadError;

verus! {

/// How many peer connections a download opens at most.
pub const NUM_CONCURRENT_PEERS: usize = 5;

/// The connection that piece `i` goes to when there are `n` connections: round robin in
/// piece-index order.
pub open spec fn owner(i: nat, n: nat) -> nat {
    i % n
}

/// The connection of each of `num_pieces` pieces over a pool of `num_conns`; an empty pool
/// means that no peer is available.
pub fn round_robin(num_pieces: usize, num_conns: usize) -> (r: Result<Vec<usize>, DownloadError>)
    ensures
        num_conns == 0 ==> r == Err::<Vec<usize>, DownloadError>(DownloadError::NoPeersAvailable),
        num_conns > 0 ==> r is Ok && r->Ok_0@.len() == num_pieces && forall|i: int|
            0 <= i < num_pieces ==> #[trigger] r->Ok_0@[i] == owner(i as nat, num_conns as nat),
{
    if num_conns == 0 {
        return Err(DownloadError::NoPeersAvailable);
    }
    let mut r: Vec<usize> = Vec::new();
    let mut i: usize = 0;
    while i < num_pieces
        invariant
            num_conns > 0,
            i <= num_pieces,
            r@.len() == i,
            forall|k: int| 0 <= k < i ==> #[trigger] r@[k] == owner(k as nat, num_conns as nat),
        decreases num_pieces - i,
    {
        r.push(i % num_conns);
        i = i + 1;
    }
    Ok(r)
}

/// A verified piece on its way back from a connection.
#[derive(Debug, Clone)]
pub struct DownloadedPiece {
    pub piece_index: usize,
    pub bytes: Vec<u8>,
}

/// The pieces received so far, one slot per piece index.
pub struct Reassembly {
    pub slots: Vec<Option<Vec<u8>>>,
}

/// The bytes of a slot, if it is filled.
pub open spec fn slot_view(o: Option<Vec<u8>>) -> Option<Seq<u8>> {
    match o {
        Some(v) => Some(v@),
        None => None,
    }
}

/// The pieces concatenated in index order.
pub open spec fn concat(pieces: Seq<Seq<u8>>) -> Seq<u8>
    decreases pieces.len(),
{
    if pieces.len() == 0 {
        Seq::empty()
    } else {
        concat(pieces.drop_last()) + pieces.last()
    }
}

/// Every slot is filled.
pub open spec fn all_filled(slots: Seq<Option<Seq<u8>>>) -> bool {
    forall|i: int| 0 <= i < slots.len() ==> (#[trigger] slots[i]) is Some
}

/// The contents of filled slots.
pub open spec fn contents(slots: Seq<Option<Seq<u8>>>) -> Seq<Seq<u8>> {
    slots.map_values(|o: Option<Seq<u8>>| o->Some_0)
}

impl View for Reassembly {
    type V = Seq<Option<Seq<u8>>>;

    open spec fn view(&self) -> Seq<Option<Seq<u8>>> {
        self.slots@.map_values(|o: Option<Vec<u8>>| slot_view(o))
    }
}

impl Reassembly {
    /// An empty buffer for `num_pieces` pieces.
    pub fn new(num_pieces: usize) -> (r: Reassembly)
        ensures
            r@ == Seq::new(num_pieces as nat, |i: int| None::<Seq<u8>>),
    {
        let mut slots: Vec<Option<Vec<u8>>> = Vec::new();
        let mut i: usize = 0;
        while i < num_pieces
            invariant
                i <= num_pieces,
                slots@.len() == i,
                forall|k: int| 0 <= k < i ==> #[trigger] slots@[k] is None,
            decreases num_pieces - i,
        {
            slots.push(None);
            i = i + 1;
        }
        let r = Reassembly { slots };
        assert(r@ =~= Seq::new(num_pieces as nat, |i: int| None::<Seq<u8>>));
        r
    }

    /// Files a piece under its index, whatever the order of arrival; an index past the end
    /// is refused and changes nothing.
    pub fn insert(&mut self, piece: DownloadedPiece) -> (r: Result<(), DownloadError>)
        ensures
            piece.piece_index < old(self)@.len() ==> r is Ok && final(self)@ == old(self)@.update(
                piece.piece_index as int,
                Some(piece.bytes@),
            ),
            piece.piece_index >= old(self)@.len() ==> r == Err::<(), DownloadError>(
                DownloadError::InvalidMetadata,
            ) && final(self)@ == old(self)@,
    {
        if piece.piece_index >= self.slots.len() {
            return Err(DownloadError::InvalidMetadata);
        }
        let ghost i = piece.piece_index as int;
        let ghost b = piece.bytes@;
        self.slots.set(piece.piece_index, Some(piece.bytes));
        assert(self@ =~= old(self)@.update(i, Some(b)));
        Ok(())
    }

    /// Whether every piece has arrived.
    pub fn is_complete(&self) -> (r: bool)
        ensures
            r == all_filled(self@),
    {
        let mut i: usize = 0;
        while i < self.slots.len()
            invariant
                i <= self.slots@.len(),
                forall|k: int| 0 <= k < i ==> (#[trigger] self@[k]) is Some,
            decreases self.slots@.len() - i,
        {
            if self.slots[i].is_none() {
                assert(self@[i as int] is None);
                return false;
            }
            i = i + 1;
        }
        true
    }

    /// The whole download: every piece's bytes, in ascending piece index.
    pub fn output(&self) -> (r: Vec<u8>)
        requires
            all_filled(self@),
        ensures
            r@ == concat(contents(self@)),
    {
        let mut out: Vec<u8> = Vec::new();
        let mut i: usize = 0;
        while i < self.slots.len()
            invariant
                i <= self.slots@.len(),
                all_filled(self@),
                out@ == concat(contents(self@).take(i as int)),
            decreases self.slots@.len() - i,
        {
            match &self.slots[i] {
                Some(b) => {
                    push_range(&mut out, b.as_slice(), 0, b.len());
                    assert(b@.subrange(0, b@.len() as int) =~= b@);
                    assert(contents(self@).take(i + 1).drop_last() =~= contents(self@).take(
                        i as int,
                    ));
                },
                None => {
                    assert(self@[i as int] is Some);
                },
            }
            i = i + 1;
        }
        assert(contents(self@).take(i as int) =~= contents(self@));
        out
    }
}

proof fn lemma_concat_append(a: Seq<Seq<u8>>, b: Seq<Seq<u8>>)
    ensures
        concat(a + b) == concat(a) + concat(b),
    decreases b.len(),
{
    if b.len() == 0 {
        assert(a + b =~= a);
        assert(concat(b) =~= Seq::<u8>::empty());
        assert(concat(a) + concat(b) =~= concat(a));
    } else {
        lemma_concat_append(a, b.drop_last());
        assert((a + b).drop_last() =~= a + b.drop_last());
        assert(concat(a) + concat(b) =~= concat(a) + concat(b.drop_last()) + b.last());
    }
}

/// In the output of a complete buffer, the bytes of piece `k` stand right after those of all
/// lower indices, whatever the order in which the pieces were filed.
pub proof fn lemma_output_in_index_order(pieces: Seq<Seq<u8>>, k: int)
    requires
        0 <= k < pieces.len(),
    ensures
        ({
            let start = concat(pieces.take(k)).len() as int;
            concat(pieces).subrange(start, start + pieces[k].len()) == pieces[k]
        }),
{
    let head = pieces.take(k);
    let tail = pieces.skip(k);
    assert(pieces =~= head + tail);
    lemma_concat_append(head, tail);
    assert(tail =~= seq![pieces[k]] + tail.skip(1));
    lemma_concat_append(seq![pieces[k]], tail.skip(1));
    let one = seq![pieces[k]];
    assert(one.drop_last() =~= Seq::<Seq<u8>>::empty());
    assert(concat(one.drop_last()) == Seq::<u8>::empty());
    assert(concat(one) == concat(one.drop_last()) + one.last());
    assert(concat(one) =~= pieces[k]);
    let start = concat(head).len() as int;
    assert(concat(pieces).subrange(start, start + pieces[k].len()) =~= pieces[k]);
}

/// Filing two different pieces gives the same buffer in either order.
pub proof fn lemma_insert_commutes(
    slots: Seq<Option<Seq<u8>>>,
    i: int,
    a: Seq<u8>,
    j: int,
    b: Seq<u8>,
)
    requires
        0 <= i < slots.len(),
        0 <= j < slots.len(),
        i != j,
    ensures
        slots.update(i, Some(a)).update(j, Some(b)) == slots.update(j, Some(b)).update(i, Some(a)),
{
    assert(slots.update(i, Some(a)).update(j, Some(b)) =~= slots.update(j, Some(b)).update(
        i,
        Some(a),
    ));
}

} // verus!
