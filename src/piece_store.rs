//! Pieces under construction: blocks are gathered per piece, a complete
//! piece is checked against its SHA-1 digest from the metadata, and only a
//! persisted piece is announced to peers.

use vstd::prelude::*;
use crate::info_hash::{sha1_of, verify_piece};
use crate::wire::{Message, MessageView, MAX_BLOCK_LEN};

verus! {

/// Where a piece stands.
#[derive(Clone, Copy, Debug, PartialEq, Eq, Structural)]
pub enum PieceStatus {
    Missing,
    /// Some blocks are in; more are awaited.
    Requested,
    /// All blocks are in, the digest matched, and the write is under way.
    Complete,
    /// Written to disk.
    Persisted,
}

/// One piece: its status, the bytes gathered so far and which blocks came.
#[derive(Debug)]
pub struct PieceSlot {
    pub status: PieceStatus,
    pub data: Vec<u8>,
    pub received: Vec<bool>,
}

/// What a received block did.
#[derive(Debug, PartialEq, Eq)]
pub enum BlockOutcome {
    /// Kept; the piece still misses blocks.
    Stored,
    /// Already had it, or the piece is no longer being gathered: dropped.
    Duplicate,
    /// Not a block of this torrent's layout.
    Invalid,
    /// The piece is complete and its digest matched: write these bytes.
    WriteNeeded(Vec<u8>),
    /// The piece is complete but its digest did not match: it is missing again.
    HashMismatch,
}

/// The pieces of one torrent.
pub struct PieceStore {
    pub piece_length: u32,
    pub total_length: u64,
    pub digests: Vec<Vec<u8>>,
    pub slots: Vec<PieceSlot>,
    /// The bytes each complete or persisted piece was verified with.
    pub verified: Ghost<Map<int, Seq<u8>>>,
}

/// Size of piece `p`: the piece length, but the last piece holds the rest.
pub open spec fn piece_size(piece_length: int, total: int, p: int) -> int {
    if total - p * piece_length < piece_length { total - p * piece_length } else { piece_length }
}

pub open spec fn piece_count(piece_length: int, total: int) -> int {
    (total + piece_length - 1) / piece_length
}

/// Number of blocks of a piece of `size` bytes.
pub open spec fn block_count(size: int) -> int {
    (size + MAX_BLOCK_LEN - 1) / (MAX_BLOCK_LEN as int)
}

/// Length of block `b` of a piece of `size` bytes.
pub open spec fn block_len(size: int, b: int) -> int {
    if size - b * MAX_BLOCK_LEN < MAX_BLOCK_LEN { size - b * MAX_BLOCK_LEN } else { MAX_BLOCK_LEN as int }
}

/// `d` with `blk` written over it from position `off`.
pub open spec fn splice(d: Seq<u8>, off: int, blk: Seq<u8>) -> Seq<u8> {
    Seq::new(d.len(), |j: int| if off <= j < off + blk.len() { blk[j - off] } else { d[j] })
}

impl PieceStore {
    /// A block of this torrent's layout: a piece in range, an offset at a
    /// block boundary inside the piece, and the block's exact length.
    pub open spec fn block_valid(&self, piece: int, offset: int, len: int) -> bool {
        &&& 0 <= piece < self.slots@.len()
        &&& offset % (MAX_BLOCK_LEN as int) == 0
        &&& 0 <= offset < self.size_of(piece)
        &&& len == block_len(self.size_of(piece), offset / (MAX_BLOCK_LEN as int))
    }

    /// The bytes gathered so far for a piece: all zero for a missing one.
    pub open spec fn gathered(&self, p: int) -> Seq<u8> {
        if self.slots@[p].status == PieceStatus::Requested {
            self.slots@[p].data@
        } else {
            Seq::new(self.size_of(p) as nat, |i: int| 0u8)
        }
    }

    /// Which blocks of a piece came: none for a missing one.
    pub open spec fn received_of(&self, p: int) -> Seq<bool> {
        if self.slots@[p].status == PieceStatus::Requested {
            self.slots@[p].received@
        } else {
            Seq::new(block_count(self.size_of(p)) as nat, |i: int| false)
        }
    }

    /// The block is already in, or its piece no longer takes blocks.
    pub open spec fn is_duplicate(&self, p: int, b: int) -> bool {
        let st = self.slots@[p].status;
        st == PieceStatus::Complete || st == PieceStatus::Persisted
            || (st == PieceStatus::Requested && self.slots@[p].received@[b])
    }

    pub open spec fn size_of(&self, p: int) -> int {
        piece_size(self.piece_length as int, self.total_length as int, p)
    }

    pub open spec fn slot_wf(&self, p: int) -> bool {
        let s = self.slots@[p];
        &&& s.status == PieceStatus::Requested ==> s.data@.len() == self.size_of(p)
            && s.received@.len() == block_count(self.size_of(p))
        &&& (s.status == PieceStatus::Complete || s.status == PieceStatus::Persisted) ==>
            self.verified@.contains_key(p) && sha1_of(self.verified@[p]) == self.digests@[p]@
    }

    pub open spec fn wf(&self) -> bool {
        &&& self.piece_length > 0
        &&& self.digests@.len() == self.slots@.len()
        &&& self.slots@.len() == piece_count(self.piece_length as int, self.total_length as int)
        &&& self.slots@.len() <= u32::MAX
        &&& forall|p: int| 0 <= p < self.slots@.len() ==> #[trigger] self.slot_wf(p)
    }

    pub open spec fn status_of(&self, p: int) -> PieceStatus {
        self.slots@[p].status
    }
}

fn zeros(n: usize) -> (r: Vec<u8>)
    ensures
        r@ == Seq::new(n as nat, |i: int| 0u8),
{
    let mut v: Vec<u8> = Vec::new();
    let mut i: usize = 0;
    while i < n
        invariant
            i <= n,
            v@ == Seq::new(i as nat, |j: int| 0u8),
        decreases n - i,
    {
        v.push(0);
        i = i + 1;
        assert(v@ =~= Seq::new(i as nat, |j: int| 0u8));
    }
    v
}

fn falses(n: usize) -> (r: Vec<bool>)
    ensures
        r@ == Seq::new(n as nat, |i: int| false),
{
    let mut v: Vec<bool> = Vec::new();
    let mut i: usize = 0;
    while i < n
        invariant
            i <= n,
            v@.len() == i,
            v@ == Seq::new(i as nat, |j: int| false),
        decreases n - i,
    {
        v.push(false);
        i = i + 1;
        assert(v@ =~= Seq::new(i as nat, |j: int| false));
    }
    v
}

fn all_true(v: &Vec<bool>) -> (r: bool)
    ensures
        r == forall|i: int| 0 <= i < v@.len() ==> v@[i],
{
    let mut i: usize = 0;
    while i < v.len()
        invariant
            i <= v@.len(),
            forall|j: int| 0 <= j < i ==> v@[j],
        decreases v@.len() - i,
    {
        if !v[i] {
            return false;
        }
        i = i + 1;
    }
    true
}

impl PieceStore {
    /// A store with every piece missing. `digests` holds the 20-byte digest
    /// of each piece.
    pub fn new(piece_length: u32, total_length: u64, digests: Vec<Vec<u8>>) -> (r: Option<Self>)
        ensures
            match r {
                Some(s) => s.wf() && s.piece_length == piece_length && s.total_length == total_length
                    && s.digests@ == digests@
                    && forall|p: int| 0 <= p < s.slots@.len() ==> #[trigger] s.status_of(p) == PieceStatus::Missing,
                None => piece_length == 0
                    || digests@.len() != piece_count(piece_length as int, total_length as int)
                    || digests@.len() > u32::MAX,
            },
    {
        if piece_length == 0 {
            return None;
        }
        let count: u128 = (total_length as u128 + piece_length as u128 - 1) / piece_length as u128;
        if count != digests.len() as u128 || digests.len() > u32::MAX as usize {
            return None;
        }
        let mut slots: Vec<PieceSlot> = Vec::new();
        let mut i: usize = 0;
        while i < digests.len()
            invariant
                i <= digests@.len(),
                slots@.len() == i,
                forall|p: int| 0 <= p < i ==> (#[trigger] slots@[p]).status == PieceStatus::Missing,
            decreases digests@.len() - i,
        {
            slots.push(PieceSlot { status: PieceStatus::Missing, data: Vec::new(), received: Vec::new() });
            i = i + 1;
        }
        let s = PieceStore { piece_length, total_length, digests, slots, verified: Ghost(Map::empty()) };
        assert forall|p: int| 0 <= p < s.slots@.len() implies #[trigger] s.slot_wf(p) by {}
        Some(s)
    }

    /// Takes in a block from a peer. Blocks start at multiples of
    /// `MAX_BLOCK_LEN` and run to the block's end or the piece's end; a
    /// complete piece is verified against its digest.
    pub fn on_block(&mut self, piece: u32, offset: u32, data: &[u8]) -> (r: BlockOutcome)
        requires
            old(self).wf(),
        ensures
            final(self).wf(),
            final(self).digests == old(self).digests,
            final(self).piece_length == old(self).piece_length,
            final(self).total_length == old(self).total_length,
            final(self).slots@.len() == old(self).slots@.len(),
            forall|q: int| 0 <= q < final(self).slots@.len() && q != piece ==>
                #[trigger] final(self).slots@[q] == old(self).slots@[q],
            !old(self).block_valid(piece as int, offset as int, data@.len() as int)
                ==> r == BlockOutcome::Invalid && final(self).slots@ == old(self).slots@,
            ({
                let p = piece as int;
                let b = offset as int / (MAX_BLOCK_LEN as int);
                let d = splice(old(self).gathered(p), offset as int, data@);
                let rc = old(self).received_of(p).update(b, true);
                old(self).block_valid(p, offset as int, data@.len() as int) ==> if old(self).is_duplicate(p, b) {
                    r == BlockOutcome::Duplicate && final(self).slots@ == old(self).slots@
                } else if forall|i: int| 0 <= i < rc.len() ==> #[trigger] rc[i] {
                    if sha1_of(d) == old(self).digests@[p]@ {
                        (r matches BlockOutcome::WriteNeeded(bytes) && bytes@ == d)
                            && final(self).status_of(p) == PieceStatus::Complete
                    } else {
                        r == BlockOutcome::HashMismatch && final(self).status_of(p) == PieceStatus::Missing
                    }
                } else {
                    &&& r == BlockOutcome::Stored
                    &&& final(self).status_of(p) == PieceStatus::Requested
                    &&& final(self).slots@[p].data@ == d
                    &&& final(self).slots@[p].received@ == rc
                }
            }),
    {
        let n = self.slots.len();
        if piece as usize >= n {
            return BlockOutcome::Invalid;
        }
        let p = piece as usize;
        let plen = self.piece_length as u64;
        proof {
            assert(p * plen < self.total_length as int) by (nonlinear_arith)
                requires p < (self.total_length as int + plen as int - 1) / (plen as int), plen > 0;
        }
        let start: u64 = piece as u64 * plen;
        let size: u64 = if self.total_length - start < plen { self.total_length - start } else { plen };
        assert(size == self.size_of(p as int));
        if offset % MAX_BLOCK_LEN != 0 || offset as u64 >= size {
            return BlockOutcome::Invalid;
        }
        let b: usize = (offset / MAX_BLOCK_LEN) as usize;
        let rest: u64 = size - offset as u64;
        let block_max: u64 = MAX_BLOCK_LEN as u64;
        let expected: u64 = if rest < block_max { rest } else { block_max };
        proof {
            assert(offset == b * MAX_BLOCK_LEN);
        }
        if data.len() as u64 != expected {
            return BlockOutcome::Invalid;
        }
        proof {
            assert((offset as int) % (MAX_BLOCK_LEN as int) == 0);
            assert(old(self).block_valid(p as int, offset as int, data@.len() as int));
        }
        let status = self.slots[p].status;
        if status == PieceStatus::Complete || status == PieceStatus::Persisted {
            return BlockOutcome::Duplicate;
        }
        assert(self.slot_wf(p as int));
        let ghost old_store = *self;
        let ghost base = old_store.gathered(p as int);
        if status == PieceStatus::Missing {
            let nblocks: usize = ((size + MAX_BLOCK_LEN as u64 - 1) / MAX_BLOCK_LEN as u64) as usize;
            let slot = PieceSlot { status: PieceStatus::Requested, data: zeros(size as usize), received: falses(nblocks) };
            self.slots.set(p, slot);
            assert forall|q: int| 0 <= q < self.slots@.len() implies #[trigger] self.slot_wf(q) by {
                if q != p { assert(old_store.slot_wf(q)); }
            }
        }
        assert(self.slot_wf(p as int));
        assert(b < self.slots@[p as int].received@.len()) by (nonlinear_arith)
            requires offset == b * MAX_BLOCK_LEN, offset < size,
                self.slots@[p as int].received@.len() == (size + MAX_BLOCK_LEN - 1) / (MAX_BLOCK_LEN as int);
        assert(self.slots@[p as int].data@ == base);
        assert(self.slots@[p as int].received@ == old_store.received_of(p as int));
        if self.slots[p].received[b] {
            return BlockOutcome::Duplicate;
        }
        let ghost mid = self.slots@;
        let ghost before_slot = self.slots@[p as int];
        let mut slot = self.slots.remove(p);
        assert(slot == before_slot);
        assert(slot.status == PieceStatus::Requested);
        let dl = slot.data.len();
        let mut i: usize = 0;
        let off: usize = offset as usize;
        assert(off + data@.len() <= size);
        while i < data.len()
            invariant
                i <= data@.len(),
                off + data@.len() <= slot.data@.len(),
                slot.data@.len() == size,
                dl == size,
                slot.status == PieceStatus::Requested,
                slot.received == before_slot.received,
                base.len() == size,
                slot.data@ == Seq::new(size as nat, |j: int| if off <= j < off + i { data@[j - off] } else { base[j] }),
            decreases data@.len() - i,
        {
            slot.data.set(off + i, data[i]);
            i = i + 1;
            assert(slot.data@ =~= Seq::new(size as nat, |j: int| if off <= j < off + i { data@[j - off] } else { base[j] }));
        }
        assert(slot.data@ =~= splice(base, offset as int, data@));
        slot.received.set(b, true);
        let complete = all_true(&slot.received);
        if !complete {
            self.slots.insert(p, slot);
            assert(self.slots@ =~= mid.update(p as int, slot));
            assert forall|q: int| 0 <= q < self.slots@.len() implies #[trigger] self.slot_wf(q) by {
                if q < p { assert(old_store.slot_wf(q)); assert(self.slots@[q] == old_store.slots@[q]); }
                if q > p { assert(old_store.slot_wf(q)); assert(self.slots@[q] == old_store.slots@[q]); }
            }
            return BlockOutcome::Stored;
        }
        let ok = verify_piece(slot.data.as_slice(), self.digests[p].as_slice());
        if ok {
            let bytes = slot.data;
            let ghost v = bytes@;
            self.slots.insert(p, PieceSlot { status: PieceStatus::Complete, data: Vec::new(), received: Vec::new() });
            assert(self.slots@ =~= mid.update(p as int, self.slots@[p as int]));
            self.verified = Ghost(self.verified@.insert(p as int, v));
            assert forall|q: int| 0 <= q < self.slots@.len() implies #[trigger] self.slot_wf(q) by {
                if q != p { assert(old_store.slot_wf(q)); assert(self.slots@[q] == old_store.slots@[q]); }
            }
            BlockOutcome::WriteNeeded(bytes)
        } else {
            self.slots.insert(p, PieceSlot { status: PieceStatus::Missing, data: Vec::new(), received: Vec::new() });
            assert(self.slots@ =~= mid.update(p as int, self.slots@[p as int]));
            assert forall|q: int| 0 <= q < self.slots@.len() implies #[trigger] self.slot_wf(q) by {
                if q != p { assert(old_store.slot_wf(q)); assert(self.slots@[q] == old_store.slots@[q]); }
            }
            BlockOutcome::HashMismatch
        }
    }

    /// The write of a complete piece finished: the piece is persisted and
    /// the `Have` to broadcast is returned. Nothing is announced for a
    /// piece whose write was not under way.
    pub fn on_write_finished(&mut self, piece: u32) -> (r: Option<Message>)
        requires
            old(self).wf(),
        ensures
            final(self).wf(),
            final(self).digests == old(self).digests,
            final(self).slots@.len() == old(self).slots@.len(),
            forall|p: int| 0 <= p < final(self).slots@.len() && p != piece ==>
                #[trigger] final(self).status_of(p) == old(self).status_of(p),
            r is Some <==> piece < old(self).slots@.len() && old(self).status_of(piece as int) == PieceStatus::Complete,
            r matches Some(m) ==> m@ == MessageView::Have(piece)
                && final(self).status_of(piece as int) == PieceStatus::Persisted,
            r is None && piece < old(self).slots@.len() ==> final(self).status_of(piece as int) == old(self).status_of(piece as int),
    {
        if piece as usize >= self.slots.len() || self.slots[piece as usize].status != PieceStatus::Complete {
            return None;
        }
        let p = piece as usize;
        let ghost old_store = *self;
        assert(old_store.slot_wf(p as int));
        self.slots.set(p, PieceSlot { status: PieceStatus::Persisted, data: Vec::new(), received: Vec::new() });
        assert forall|q: int| 0 <= q < self.slots@.len() implies #[trigger] self.slot_wf(q) by {
            if q != p { assert(old_store.slot_wf(q)); assert(self.slots@[q] == old_store.slots@[q]); }
        }
        Some(Message::Have(piece))
    }

    /// The write of a complete piece failed for good: the piece is missing again.
    pub fn on_write_failed(&mut self, piece: u32)
        requires
            old(self).wf(),
        ensures
            final(self).wf(),
            final(self).slots@.len() == old(self).slots@.len(),
            piece < old(self).slots@.len() && old(self).status_of(piece as int) == PieceStatus::Complete
                ==> final(self).status_of(piece as int) == PieceStatus::Missing,
            forall|p: int| 0 <= p < final(self).slots@.len() && p != piece ==>
                #[trigger] final(self).status_of(p) == old(self).status_of(p),
    {
        if piece as usize >= self.slots.len() || self.slots[piece as usize].status != PieceStatus::Complete {
            return;
        }
        let p = piece as usize;
        let ghost old_store = *self;
        self.slots.set(p, PieceSlot { status: PieceStatus::Missing, data: Vec::new(), received: Vec::new() });
        assert forall|q: int| 0 <= q < self.slots@.len() implies #[trigger] self.slot_wf(q) by {
            if q != p { assert(old_store.slot_wf(q)); assert(self.slots@[q] == old_store.slots@[q]); }
        }
    }
}

/// A persisted piece was verified: the bytes it was checked with hash to
/// the digest that the metadata gives for it.
pub proof fn lemma_persisted_is_verified(s: PieceStore, p: int)
    requires
        s.wf(),
        0 <= p < s.slots@.len(),
        s.status_of(p) == PieceStatus::Persisted,
    ensures
        s.verified@.contains_key(p),
        sha1_of(s.verified@[p]) == s.digests@[p]@,
{
    assert(s.slot_wf(p));
}

} // verus!
