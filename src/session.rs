//! The state machine of one connected peer: choke and interest flags, the
//! remote bitfield, and the pipeline of outstanding block requests.

use vstd::prelude::*;
use crate::wire::{Message, MessageView, MAX_BLOCK_LEN};

verus! {

/// Most requests outstanding toward one peer.
pub const MAX_PIPELINE: usize = 64;

/// Silence after which a keep-alive is sent, in milliseconds.
pub const KEEP_ALIVE_AFTER_MS: u64 = 120_000;
/// Silence after which the session is closed, in milliseconds.
pub const CLOSE_AFTER_MS: u64 = 180_000;
/// A request unanswered this long is cancelled and asked elsewhere, in milliseconds.
pub const REQUEST_TIMEOUT_MS: u64 = 60_000;
/// Invalid pieces after which a peer is blacklisted, unless configured otherwise.
pub const DEFAULT_INVALID_PIECE_LIMIT: u32 = 5;

/// A request sent at `sent_ms` has waited too long at `now_ms`.
pub open spec fn timed_out(sent_ms: int, now_ms: int) -> bool {
    now_ms >= sent_ms + REQUEST_TIMEOUT_MS
}

/// What the periodic check of a session asks for.
#[derive(Clone, Copy, Debug, PartialEq, Eq, Structural)]
pub enum TickAction {
    Nothing,
    SendKeepAlive,
    Close,
}

/// The action for a peer silent since `last_ms`, at `now_ms`.
pub open spec fn tick_action(last_ms: int, now_ms: int) -> TickAction {
    if now_ms >= last_ms + CLOSE_AFTER_MS {
        TickAction::Close
    } else if now_ms >= last_ms + KEEP_ALIVE_AFTER_MS {
        TickAction::SendKeepAlive
    } else {
        TickAction::Nothing
    }
}

/// Where a session stands.
#[derive(Clone, Copy, Debug, PartialEq, Eq, Structural)]
pub enum SessionPhase {
    Dialing,
    Handshaking,
    Active,
    Closing,
}

/// A block of a piece: its index, the offset in the piece and its length.
#[derive(Clone, Copy, Debug, PartialEq, Eq, Structural)]
pub struct BlockRef {
    pub piece: u32,
    pub offset: u32,
    pub length: u32,
}

/// What a received message did to the session.
#[derive(Clone, Debug, PartialEq, Eq)]
pub enum Received {
    /// State updated; nothing else to do.
    Updated,
    /// The peer choked us: these requests are to be rescheduled elsewhere.
    Choked(Vec<BlockRef>),
    /// A requested block arrived and left the pipeline.
    Delivered(BlockRef),
    /// A block nobody asked for (or a duplicate): dropped.
    Unexpected,
    /// The peer asked for a block beyond its piece: close the session.
    ProtocolViolation,
    /// The session is not active: the message is ignored.
    Ignored,
}

/// One remote peer.
#[derive(Clone, Debug)]
pub struct PeerSession {
    pub phase: SessionPhase,
    pub am_choking: bool,
    pub am_interested: bool,
    pub peer_choking: bool,
    pub peer_interested: bool,
    pub remote_bitfield: Vec<bool>,
    pub outstanding_requests: Vec<BlockRef>,
    /// When each outstanding request was sent, in the same order.
    pub request_sent_ms: Vec<u64>,
    pub bytes_downloaded: u64,
    pub last_message_ms: u64,
    pub invalid_pieces: u32,
}

pub open spec fn sat_add(a: int, b: int) -> int {
    if a + b > u64::MAX { u64::MAX as int } else { a + b }
}

/// The bit of piece `i` in a bitfield message: most significant bit first.
pub open spec fn bit_of(bytes: Seq<u8>, i: int) -> bool {
    (bytes[i / 8] >> (7 - i % 8) as u8) & 1u8 == 1u8
}

impl PeerSession {
    /// The pipeline holds at most `MAX_PIPELINE` requests, and none while
    /// the peer chokes us or the session is not active.
    pub open spec fn wf(&self) -> bool {
        &&& self.outstanding_requests@.len() <= MAX_PIPELINE
        &&& self.request_sent_ms@.len() == self.outstanding_requests@.len()
        &&& self.outstanding_requests@.no_duplicates()
        &&& self.peer_choking ==> self.outstanding_requests@.len() == 0
        &&& self.phase != SessionPhase::Active ==> self.outstanding_requests@.len() == 0
    }

    /// A session being dialed: both sides choking, neither interested.
    pub fn new(piece_count: usize) -> (r: Self)
        ensures
            r.wf(),
            r.phase == SessionPhase::Dialing,
            r.am_choking && r.peer_choking && !r.am_interested && !r.peer_interested,
            r.remote_bitfield@ == Seq::new(piece_count as nat, |i: int| false),
            r.outstanding_requests@.len() == 0,
            r.bytes_downloaded == 0,
    {
        let mut bits: Vec<bool> = Vec::new();
        let mut i: usize = 0;
        while i < piece_count
            invariant
                i <= piece_count,
                bits@ == Seq::new(i as nat, |j: int| false),
            decreases piece_count - i,
        {
            bits.push(false);
            i = i + 1;
            assert(bits@ =~= Seq::new(i as nat, |j: int| false));
        }
        PeerSession {
            phase: SessionPhase::Dialing,
            am_choking: true,
            am_interested: false,
            peer_choking: true,
            peer_interested: false,
            remote_bitfield: bits,
            outstanding_requests: Vec::new(),
            request_sent_ms: Vec::new(),
            bytes_downloaded: 0,
            last_message_ms: 0,
            invalid_pieces: 0,
        }
    }

    /// Moves on after the connection and the handshake: `Dialing` goes to
    /// `Handshaking`, `Handshaking` to `Active`.
    pub fn advance(&mut self)
        requires
            old(self).wf(),
        ensures
            final(self).wf(),
            final(self).phase == match old(self).phase {
                SessionPhase::Dialing => SessionPhase::Handshaking,
                SessionPhase::Handshaking => SessionPhase::Active,
                p => p,
            },
            final(self).outstanding_requests@ == old(self).outstanding_requests@,
            final(self).peer_choking == old(self).peer_choking,
    {
        self.phase = match self.phase {
            SessionPhase::Dialing => SessionPhase::Handshaking,
            SessionPhase::Handshaking => SessionPhase::Active,
            p => p,
        };
    }

    /// The periodic check: a keep-alive after two minutes of silence from
    /// the peer, closing after three.
    pub fn on_tick(&self, now_ms: u64) -> (r: TickAction)
        ensures
            r == tick_action(self.last_message_ms as int, now_ms as int),
    {
        let last = self.last_message_ms as u128;
        let now = now_ms as u128;
        if now >= last + CLOSE_AFTER_MS as u128 {
            TickAction::Close
        } else if now >= last + KEEP_ALIVE_AFTER_MS as u128 {
            TickAction::SendKeepAlive
        } else {
            TickAction::Nothing
        }
    }

    /// Counts a piece from this peer that failed verification; returns
    /// whether the peer has now reached `limit` and is to be blacklisted.
    pub fn on_invalid_piece(&mut self, limit: u32) -> (blacklisted: bool)
        requires
            old(self).wf(),
        ensures
            final(self).wf(),
            final(self).invalid_pieces == if old(self).invalid_pieces == u32::MAX { u32::MAX as int } else { old(self).invalid_pieces + 1 },
            blacklisted == (final(self).invalid_pieces >= limit),
            final(self).phase == old(self).phase,
            final(self).outstanding_requests == old(self).outstanding_requests,
    {
        if self.invalid_pieces < u32::MAX {
            self.invalid_pieces = self.invalid_pieces + 1;
        }
        self.invalid_pieces >= limit
    }

    /// Whether one more request may go out now.
    pub open spec fn may_request(&self) -> bool {
        &&& self.phase == SessionPhase::Active
        &&& !self.peer_choking
        &&& self.am_interested
        &&& self.outstanding_requests@.len() < MAX_PIPELINE
    }

    pub fn can_request(&self) -> (r: bool)
        ensures
            r == self.may_request(),
    {
        self.phase == SessionPhase::Active && !self.peer_choking && self.am_interested
            && self.outstanding_requests.len() < MAX_PIPELINE
    }

    /// Records a request sent to the peer at `now_ms`.
    pub fn add_request(&mut self, block: BlockRef, now_ms: u64)
        requires
            old(self).wf(),
            old(self).may_request(),
            !old(self).outstanding_requests@.contains(block),
        ensures
            final(self).wf(),
            final(self).outstanding_requests@ == old(self).outstanding_requests@.push(block),
            final(self).request_sent_ms@ == old(self).request_sent_ms@.push(now_ms),
            final(self).phase == old(self).phase,
            final(self).peer_choking == old(self).peer_choking,
    {
        self.outstanding_requests.push(block);
        self.request_sent_ms.push(now_ms);
    }

    /// Whether this session already asked the peer for the block.
    pub fn has_request(&self, block: BlockRef) -> (r: bool)
        ensures
            r == self.outstanding_requests@.contains(block),
    {
        match self.request_index(block) {
            Some(i) => {
                assert(self.outstanding_requests@[i as int] == block);
                true
            },
            None => false,
        }
    }

    fn request_index(&self, block: BlockRef) -> (r: Option<usize>)
        ensures
            match r {
                Some(i) => i < self.outstanding_requests@.len() && self.outstanding_requests@[i as int] == block,
                None => !self.outstanding_requests@.contains(block),
            },
    {
        let mut i: usize = 0;
        while i < self.outstanding_requests.len()
            invariant
                i <= self.outstanding_requests@.len(),
                forall|j: int| 0 <= j < i ==> self.outstanding_requests@[j] != block,
            decreases self.outstanding_requests@.len() - i,
        {
            if self.outstanding_requests[i] == block {
                return Some(i);
            }
            i = i + 1;
        }
        None
    }

    /// Takes out the requests sent `REQUEST_TIMEOUT_MS` or more before
    /// `now_ms`, to be cancelled and asked of another peer.
    pub fn expire_requests(&mut self, now_ms: u64) -> (expired: Vec<BlockRef>)
        requires
            old(self).wf(),
        ensures
            final(self).wf(),
            final(self).phase == old(self).phase,
            final(self).peer_choking == old(self).peer_choking,
            forall|i: int| 0 <= i < expired@.len() ==> old(self).outstanding_requests@.contains(#[trigger] expired@[i]),
            forall|i: int| 0 <= i < final(self).outstanding_requests@.len() ==>
                old(self).outstanding_requests@.contains(#[trigger] final(self).outstanding_requests@[i])
                && !timed_out(final(self).request_sent_ms@[i] as int, now_ms as int),
            forall|i: int| 0 <= i < old(self).outstanding_requests@.len() ==>
                (#[trigger] timed_out(old(self).request_sent_ms@[i] as int, now_ms as int)
                    ==> expired@.contains(old(self).outstanding_requests@[i]))
                && (!timed_out(old(self).request_sent_ms@[i] as int, now_ms as int)
                    ==> final(self).outstanding_requests@.contains(old(self).outstanding_requests@[i])),
    {
        let ghost before = self.outstanding_requests@;
        let ghost times = self.request_sent_ms@;
        let n = self.outstanding_requests.len();
        let mut kept: Vec<BlockRef> = Vec::new();
        let mut kept_ms: Vec<u64> = Vec::new();
        let mut expired: Vec<BlockRef> = Vec::new();
        let ghost mut idx: Seq<int> = Seq::empty();
        let mut i: usize = 0;
        while i < n
            invariant
                i <= n,
                n == before.len(),
                self.outstanding_requests@ == before,
                self.request_sent_ms@ == times,
                times.len() == before.len(),
                before.no_duplicates(),
                kept@.len() == idx.len(),
                kept_ms@.len() == idx.len(),
                forall|a: int| 0 <= a < idx.len() ==> 0 <= #[trigger] idx[a] < i
                    && kept@[a] == before[idx[a]] && kept_ms@[a] == times[idx[a]]
                    && !timed_out(times[idx[a]] as int, now_ms as int),
                forall|a: int, b: int| 0 <= a < b < idx.len() ==> #[trigger] idx[a] < #[trigger] idx[b],
                forall|a: int| 0 <= a < expired@.len() ==> before.contains(#[trigger] expired@[a]),
                forall|j: int| 0 <= j < i ==> (#[trigger] timed_out(times[j] as int, now_ms as int)
                    ==> expired@.contains(before[j])) && (!timed_out(times[j] as int, now_ms as int)
                    ==> kept@.contains(before[j])),
                kept@.len() <= i,
            decreases n - i,
        {
            let b = self.outstanding_requests[i];
            let t = self.request_sent_ms[i];
            let ghost old_kept = kept@;
            let ghost old_expired = expired@;
            if now_ms >= t && now_ms - t >= REQUEST_TIMEOUT_MS {
                expired.push(b);
                proof {
                    assert(expired@[old_expired.len() as int] == b);
                    assert forall|j: int| 0 <= j < i && #[trigger] timed_out(times[j] as int, now_ms as int)
                        implies expired@.contains(before[j]) by {
                        let w = choose|w: int| 0 <= w < old_expired.len() && old_expired[w] == before[j];
                        assert(expired@[w] == before[j]);
                    }
                }
            } else {
                kept.push(b);
                kept_ms.push(t);
                proof {
                    idx = idx.push(i as int);
                    assert(kept@[old_kept.len() as int] == b);
                    assert forall|j: int| 0 <= j < i && !#[trigger] timed_out(times[j] as int, now_ms as int)
                        implies kept@.contains(before[j]) by {
                        let w = choose|w: int| 0 <= w < old_kept.len() && old_kept[w] == before[j];
                        assert(kept@[w] == before[j]);
                    }
                }
            }
            i = i + 1;
        }
        proof {
            assert forall|a: int, b: int| 0 <= a < b < kept@.len() implies kept@[a] != kept@[b] by {
                assert(idx[a] < idx[b]);
            }
            assert forall|a: int| 0 <= a < kept@.len() implies before.contains(#[trigger] kept@[a])
                && !timed_out(kept_ms@[a] as int, now_ms as int) by {
                assert(before[idx[a]] == kept@[a]);
                assert(kept_ms@[a] == times[idx[a]]);
            }
        }
        self.outstanding_requests = kept;
        self.request_sent_ms = kept_ms;
        expired
    }

    /// Sets our interest, as the piece picker recommends.
    pub fn set_interested(&mut self, interested: bool)
        requires
            old(self).wf(),
        ensures
            final(self).wf(),
            final(self).am_interested == interested,
            final(self).outstanding_requests@ == old(self).outstanding_requests@,
            final(self).phase == old(self).phase,
    {
        self.am_interested = interested;
    }

    /// Pause: the session goes to `Closing`, stops choking-wise and
    /// interest-wise, and drops its pipeline. Returns the messages to send.
    pub fn pause(&mut self) -> (r: Vec<Message>)
        requires
            old(self).wf(),
        ensures
            final(self).wf(),
            final(self).phase == SessionPhase::Closing,
            final(self).am_choking,
            !final(self).am_interested,
            final(self).outstanding_requests@.len() == 0,
            r@.len() == 2,
            r@[0]@ == crate::wire::MessageView::Choke,
            r@[1]@ == crate::wire::MessageView::NotInterested,
    {
        self.phase = SessionPhase::Closing;
        self.am_choking = true;
        self.am_interested = false;
        self.outstanding_requests = Vec::new();
        self.request_sent_ms = Vec::new();
        let mut out: Vec<Message> = Vec::new();
        out.push(Message::Choke);
        out.push(Message::NotInterested);
        out
    }

    /// Takes a message from the peer at `now_ms`. `piece_length` is the
    /// torrent's piece length, against which the peer's requests are checked.
    pub fn on_message(&mut self, msg: Message, now_ms: u64, piece_length: u32) -> (r: Received)
        requires
            old(self).wf(),
        ensures
            final(self).wf(),
            old(self).phase != SessionPhase::Active ==> r == Received::Ignored
                && final(self).outstanding_requests@ == old(self).outstanding_requests@
                && final(self).bytes_downloaded == old(self).bytes_downloaded,
            old(self).phase == SessionPhase::Active ==> final(self).last_message_ms == now_ms,
            final(self).phase == old(self).phase,
            r matches Received::Delivered(b) ==> old(self).outstanding_requests@.contains(b)
                && !final(self).outstanding_requests@.contains(b)
                && final(self).bytes_downloaded == sat_add(old(self).bytes_downloaded as int, b.length as int),
            r matches Received::Choked(v) ==> v@ == old(self).outstanding_requests@ && final(self).peer_choking,
            old(self).phase == SessionPhase::Active ==> match msg@ {
                MessageView::Choke => r is Choked && final(self).outstanding_requests@.len() == 0,
                MessageView::Unchoke => r == Received::Updated && !final(self).peer_choking,
                MessageView::Interested => r == Received::Updated && final(self).peer_interested,
                MessageView::NotInterested => r == Received::Updated && !final(self).peer_interested,
                MessageView::Have(i) => r == Received::Updated
                    && final(self).remote_bitfield@ == if (i as int) < old(self).remote_bitfield@.len() {
                        old(self).remote_bitfield@.update(i as int, true)
                    } else {
                        old(self).remote_bitfield@
                    },
                MessageView::Request(_, begin, length) => r == if length > MAX_BLOCK_LEN || begin > piece_length
                    || length > piece_length - begin { Received::ProtocolViolation } else { Received::Updated },
                MessageView::Piece(index, begin, data) => {
                    let b = BlockRef { piece: index, offset: begin, length: data.len() as u32 };
                    if data.len() <= u32::MAX && old(self).outstanding_requests@.contains(b) {
                        r == Received::Delivered(b)
                    } else {
                        r == Received::Unexpected && final(self).outstanding_requests@ == old(self).outstanding_requests@
                    }
                },
                _ => r == Received::Updated,
            },
            old(self).phase == SessionPhase::Active && !(msg@ is Choke) && !(msg@ is Piece)
                ==> final(self).outstanding_requests@ == old(self).outstanding_requests@,
    {
        if self.phase != SessionPhase::Active {
            return Received::Ignored;
        }
        self.last_message_ms = now_ms;
        match msg {
            Message::Choke => {
                self.peer_choking = true;
                let cleared = self.outstanding_requests.split_off(0);
                self.request_sent_ms = Vec::new();
                Received::Choked(cleared)
            },
            Message::Unchoke => {
                self.peer_choking = false;
                Received::Updated
            },
            Message::Interested => {
                self.peer_interested = true;
                Received::Updated
            },
            Message::NotInterested => {
                self.peer_interested = false;
                Received::Updated
            },
            Message::Have(i) => {
                if (i as usize) < self.remote_bitfield.len() {
                    self.remote_bitfield.set(i as usize, true);
                }
                Received::Updated
            },
            Message::Bitfield(bytes) => {
                self.apply_bitfield(&bytes);
                Received::Updated
            },
            Message::Request(_index, begin, length) => {
                if length > MAX_BLOCK_LEN || begin > piece_length || length > piece_length - begin {
                    Received::ProtocolViolation
                } else {
                    Received::Updated
                }
            },
            Message::Piece(index, begin, data) => {
                if data.len() > u32::MAX as usize {
                    return Received::Unexpected;
                }
                let block = BlockRef { piece: index, offset: begin, length: data.len() as u32 };
                match self.take_request(block) {
                    true => {
                        self.bytes_downloaded = if block.length as u64 > u64::MAX - self.bytes_downloaded {
                            u64::MAX
                        } else {
                            self.bytes_downloaded + block.length as u64
                        };
                        Received::Delivered(block)
                    },
                    false => Received::Unexpected,
                }
            },
            _ => Received::Updated,
        }
    }

    /// Sets the remote bitfield from a bitfield message, as far as both go.
    fn apply_bitfield(&mut self, bytes: &Vec<u8>)
        requires
            old(self).wf(),
        ensures
            final(self).wf(),
            final(self).remote_bitfield@.len() == old(self).remote_bitfield@.len(),
            forall|i: int| 0 <= i < final(self).remote_bitfield@.len() ==> #[trigger] final(self).remote_bitfield@[i]
                == if i < 8 * bytes@.len() { bit_of(bytes@, i) } else { old(self).remote_bitfield@[i] },
            final(self).outstanding_requests == old(self).outstanding_requests,
            final(self).phase == old(self).phase,
            final(self).peer_choking == old(self).peer_choking,
            final(self).last_message_ms == old(self).last_message_ms,
            final(self).bytes_downloaded == old(self).bytes_downloaded,
    {
        let n = self.remote_bitfield.len();
        let mut i: usize = 0;
        while i < n
            invariant
                i <= n,
                n == self.remote_bitfield@.len(),
                self.outstanding_requests == old(self).outstanding_requests,
                self.phase == old(self).phase,
                self.peer_choking == old(self).peer_choking,
                self.last_message_ms == old(self).last_message_ms,
                self.bytes_downloaded == old(self).bytes_downloaded,
                self.wf(),
                forall|j: int| 0 <= j < n ==> #[trigger] self.remote_bitfield@[j]
                    == if j < i && j < 8 * bytes@.len() { bit_of(bytes@, j) } else { old(self).remote_bitfield@[j] },
            decreases n - i,
        {
            if i / 8 < bytes.len() {
                let b = bytes[i / 8];
                let bit = (b >> ((7 - i % 8) as u8)) & 1u8 == 1u8;
                self.remote_bitfield.set(i, bit);
            }
            i = i + 1;
        }
    }

    /// Takes a block out of the pipeline if it is there.
    fn take_request(&mut self, block: BlockRef) -> (found: bool)
        requires
            old(self).wf(),
        ensures
            final(self).wf(),
            found == old(self).outstanding_requests@.contains(block),
            found ==> !final(self).outstanding_requests@.contains(block)
                && exists|i: int| 0 <= i < old(self).outstanding_requests@.len()
                    && final(self).outstanding_requests@ == old(self).outstanding_requests@.remove(i),
            !found ==> final(self).outstanding_requests@ == old(self).outstanding_requests@,
            final(self).phase == old(self).phase,
            final(self).peer_choking == old(self).peer_choking,
            final(self).last_message_ms == old(self).last_message_ms,
            final(self).bytes_downloaded == old(self).bytes_downloaded,
    {
        match self.request_index(block) {
            Some(i) => {
                let ghost before = self.outstanding_requests@;
                self.outstanding_requests.remove(i);
                self.request_sent_ms.remove(i);
                proof {
                    assert(before.contains(block)) by { assert(before[i as int] == block); }
                    assert forall|a: int, b: int| 0 <= a < b < self.outstanding_requests@.len()
                        implies self.outstanding_requests@[a] != self.outstanding_requests@[b] by {
                        let a2 = if a < i { a } else { a + 1 };
                        let b2 = if b < i { b } else { b + 1 };
                        assert(before[a2] != before[b2]);
                    }
                    if self.outstanding_requests@.contains(block) {
                        let w = choose|w: int| 0 <= w < self.outstanding_requests@.len() && self.outstanding_requests@[w] == block;
                        let w2 = if w < i { w } else { w + 1 };
                        assert(before[w2] == before[i as int]);
                    }
                }
                true
            },
            None => false,
        }
    }
}

} // verus!
