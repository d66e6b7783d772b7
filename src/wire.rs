//! The peer-wire protocol: the fixed handshake and the length-prefixed
//! messages that follow it.

use vstd::prelude::*;

verus! {

/// Length of the handshake: 1 + 19 + 8 + 20 + 20 bytes.
pub const HANDSHAKE_LEN: usize = 68;
/// Largest block a peer may send or ask for.
pub const MAX_BLOCK_LEN: u32 = 16384;
/// Largest length prefix accepted: a block plus the message's own fields.
pub const MAX_FRAME_LEN: u32 = 16397;

pub open spec fn protocol_name() -> Seq<u8> {
    seq![66, 105, 116, 84, 111, 114, 114, 101, 110, 116, 32, 112, 114, 111, 116, 111, 99, 111, 108]
}

/// A peer-wire message after the handshake.
#[derive(Clone, Debug)]
pub enum Message {
    KeepAlive,
    Choke,
    Unchoke,
    Interested,
    NotInterested,
    Have(u32),
    Bitfield(Vec<u8>),
    Request(u32, u32, u32),
    Piece(u32, u32, Vec<u8>),
    Cancel(u32, u32, u32),
    Port(u16),
    Extended(u8, Vec<u8>),
}

/// A message with its byte payloads seen as sequences.
pub enum MessageView {
    KeepAlive,
    Choke,
    Unchoke,
    Interested,
    NotInterested,
    Have(u32),
    Bitfield(Seq<u8>),
    Request(u32, u32, u32),
    Piece(u32, u32, Seq<u8>),
    Cancel(u32, u32, u32),
    Port(u16),
    Extended(u8, Seq<u8>),
}

impl View for Message {
    type V = MessageView;

    open spec fn view(&self) -> MessageView {
        match self {
            Message::KeepAlive => MessageView::KeepAlive,
            Message::Choke => MessageView::Choke,
            Message::Unchoke => MessageView::Unchoke,
            Message::Interested => MessageView::Interested,
            Message::NotInterested => MessageView::NotInterested,
            Message::Have(i) => MessageView::Have(*i),
            Message::Bitfield(b) => MessageView::Bitfield(b@),
            Message::Request(i, b, l) => MessageView::Request(*i, *b, *l),
            Message::Piece(i, b, d) => MessageView::Piece(*i, *b, d@),
            Message::Cancel(i, b, l) => MessageView::Cancel(*i, *b, *l),
            Message::Port(p) => MessageView::Port(*p),
            Message::Extended(id, d) => MessageView::Extended(*id, d@),
        }
    }
}

/// The four big-endian bytes of a `u32`.
pub open spec fn be32(x: u32) -> Seq<u8> {
    seq![((x >> 24u32) & 0xffu32) as u8, ((x >> 16u32) & 0xffu32) as u8, ((x >> 8u32) & 0xffu32) as u8, (x & 0xffu32) as u8]
}

/// The `u32` that four big-endian bytes spell.
pub open spec fn be32_value(b0: u8, b1: u8, b2: u8, b3: u8) -> u32 {
    ((b0 as u32) << 24u32) | ((b1 as u32) << 16u32) | ((b2 as u32) << 8u32) | (b3 as u32)
}

/// The `u32` at position `i` of a byte sequence.
pub open spec fn be32_at(s: Seq<u8>, i: int) -> u32 {
    be32_value(s[i], s[i + 1], s[i + 2], s[i + 3])
}

pub open spec fn be16(x: u16) -> Seq<u8> {
    seq![((x >> 8u16) & 0xffu16) as u8, (x & 0xffu16) as u8]
}

pub open spec fn be16_value(b0: u8, b1: u8) -> u16 {
    ((b0 as u16) << 8u16) | (b1 as u16)
}

pub proof fn lemma_be32_round_trip(x: u32)
    ensures
        be32_value(be32(x)[0], be32(x)[1], be32(x)[2], be32(x)[3]) == x,
{
    let b0 = ((x >> 24u32) & 0xffu32) as u8;
    let b1 = ((x >> 16u32) & 0xffu32) as u8;
    let b2 = ((x >> 8u32) & 0xffu32) as u8;
    let b3 = (x & 0xffu32) as u8;
    assert(((((x >> 24u32) & 0xffu32) as u8 as u32) << 24u32) | ((((x >> 16u32) & 0xffu32) as u8 as u32) << 16u32)
        | ((((x >> 8u32) & 0xffu32) as u8 as u32) << 8u32) | ((x & 0xffu32) as u8 as u32) == x) by (bit_vector);
}

pub proof fn lemma_be32_bytes_round_trip(b0: u8, b1: u8, b2: u8, b3: u8)
    ensures
        be32(be32_value(b0, b1, b2, b3)) == seq![b0, b1, b2, b3],
{
    let x = be32_value(b0, b1, b2, b3);
    assert(((x >> 24u32) & 0xffu32) as u8 == b0 && ((x >> 16u32) & 0xffu32) as u8 == b1
        && ((x >> 8u32) & 0xffu32) as u8 == b2 && (x & 0xffu32) as u8 == b3) by (bit_vector)
        requires x == ((b0 as u32) << 24u32) | ((b1 as u32) << 16u32) | ((b2 as u32) << 8u32) | (b3 as u32);
    assert(be32(x) =~= seq![b0, b1, b2, b3]);
}

pub proof fn lemma_be16_round_trip(x: u16)
    ensures
        be16_value(be16(x)[0], be16(x)[1]) == x,
{
    assert(((((x >> 8u16) & 0xffu16) as u8 as u16) << 8u16) | ((x & 0xffu16) as u8 as u16) == x) by (bit_vector);
}

pub proof fn lemma_be16_bytes_round_trip(b0: u8, b1: u8)
    ensures
        be16(be16_value(b0, b1)) == seq![b0, b1],
{
    let x = be16_value(b0, b1);
    assert(((x >> 8u16) & 0xffu16) as u8 == b0 && (x & 0xffu16) as u8 == b1) by (bit_vector)
        requires x == ((b0 as u16) << 8u16) | (b1 as u16);
    assert(be16(x) =~= seq![b0, b1]);
}

/// Why a frame or a handshake was refused. Each closes the session.
#[derive(Clone, Copy, Debug, PartialEq, Eq, Structural)]
pub enum WireError {
    /// The length prefix is above `MAX_FRAME_LEN`.
    FrameTooLong,
    /// A known message whose payload has the wrong size.
    MalformedPayload,
    /// The handshake does not start with the protocol's name.
    BadProtocol,
    /// The handshake names another torrent.
    InfoHashMismatch,
}

/// The id byte of each message; a keep-alive has none.
pub open spec fn message_id(m: MessageView) -> u8 {
    match m {
        MessageView::KeepAlive => 0,
        MessageView::Choke => 0,
        MessageView::Unchoke => 1,
        MessageView::Interested => 2,
        MessageView::NotInterested => 3,
        MessageView::Have(_) => 4,
        MessageView::Bitfield(_) => 5,
        MessageView::Request(_, _, _) => 6,
        MessageView::Piece(_, _, _) => 7,
        MessageView::Cancel(_, _, _) => 8,
        MessageView::Port(_) => 9,
        MessageView::Extended(_, _) => 20,
    }
}

/// The bytes after the id byte.
pub open spec fn payload_of(m: MessageView) -> Seq<u8> {
    match m {
        MessageView::Have(i) => be32(i),
        MessageView::Bitfield(b) => b,
        MessageView::Request(i, b, l) => be32(i) + be32(b) + be32(l),
        MessageView::Piece(i, b, d) => be32(i) + be32(b) + d,
        MessageView::Cancel(i, b, l) => be32(i) + be32(b) + be32(l),
        MessageView::Port(p) => be16(p),
        MessageView::Extended(id, d) => seq![id] + d,
        _ => Seq::empty(),
    }
}

/// The value of the length prefix: the id byte and the payload.
pub open spec fn frame_len(m: MessageView) -> int {
    match m {
        MessageView::KeepAlive => 0,
        _ => 1 + payload_of(m).len() as int,
    }
}

/// A message fits a frame that a peer accepts.
pub open spec fn message_fits(m: MessageView) -> bool {
    frame_len(m) <= MAX_FRAME_LEN
}

/// The bytes of a message on the wire.
pub open spec fn encoded(m: MessageView) -> Seq<u8> {
    match m {
        MessageView::KeepAlive => be32(0),
        _ => be32(frame_len(m) as u32) + seq![message_id(m)] + payload_of(m),
    }
}

/// The message that a known id and its payload make, `None` when the
/// payload has the wrong size; ids outside the protocol give `None` too.
pub open spec fn message_of(id: u8, p: Seq<u8>) -> Option<MessageView> {
    if id == 0 && p.len() == 0 {
        Some(MessageView::Choke)
    } else if id == 1 && p.len() == 0 {
        Some(MessageView::Unchoke)
    } else if id == 2 && p.len() == 0 {
        Some(MessageView::Interested)
    } else if id == 3 && p.len() == 0 {
        Some(MessageView::NotInterested)
    } else if id == 4 && p.len() == 4 {
        Some(MessageView::Have(be32_at(p, 0)))
    } else if id == 5 {
        Some(MessageView::Bitfield(p))
    } else if id == 6 && p.len() == 12 {
        Some(MessageView::Request(be32_at(p, 0), be32_at(p, 4), be32_at(p, 8)))
    } else if id == 7 && p.len() >= 8 {
        Some(MessageView::Piece(be32_at(p, 0), be32_at(p, 4), p.skip(8)))
    } else if id == 8 && p.len() == 12 {
        Some(MessageView::Cancel(be32_at(p, 0), be32_at(p, 4), be32_at(p, 8)))
    } else if id == 9 && p.len() == 2 {
        Some(MessageView::Port(be16_value(p[0], p[1])))
    } else if id == 20 && p.len() >= 1 {
        Some(MessageView::Extended(p[0], p.skip(1)))
    } else {
        None
    }
}

/// Ids that the protocol defines.
pub open spec fn known_id(id: u8) -> bool {
    id <= 9 || id == 20
}

/// What reading one frame from the front of a byte stream gives.
pub enum ParsedView {
    /// A message and the bytes it took.
    Message(MessageView, int),
    /// A frame with an unknown id, to be skipped whole.
    Skipped(int),
    /// Not enough bytes yet.
    Incomplete,
    Error(WireError),
}

pub open spec fn parse_frame(s: Seq<u8>) -> ParsedView {
    if s.len() < 4 {
        ParsedView::Incomplete
    } else {
        let len = be32_at(s, 0);
        if len > MAX_FRAME_LEN {
            ParsedView::Error(WireError::FrameTooLong)
        } else if s.len() < 4 + len {
            ParsedView::Incomplete
        } else if len == 0 {
            ParsedView::Message(MessageView::KeepAlive, 4)
        } else if !known_id(s[4]) {
            ParsedView::Skipped(4 + len)
        } else {
            match message_of(s[4], s.subrange(5, 4 + len)) {
                Some(m) => ParsedView::Message(m, 4 + len),
                None => ParsedView::Error(WireError::MalformedPayload),
            }
        }
    }
}

/// One frame read from the front of a byte stream.
#[derive(Debug)]
pub enum Frame {
    /// A message and the number of bytes it took.
    Message(Message, usize),
    /// A frame with an unknown id: that many bytes are to be dropped.
    Skipped(usize),
    /// More bytes are needed.
    Incomplete,
}

pub open spec fn frame_view(r: Result<Frame, WireError>) -> ParsedView {
    match r {
        Ok(Frame::Message(m, n)) => ParsedView::Message(m@, n as int),
        Ok(Frame::Skipped(n)) => ParsedView::Skipped(n as int),
        Ok(Frame::Incomplete) => ParsedView::Incomplete,
        Err(e) => ParsedView::Error(e),
    }
}

fn push_be32(out: &mut Vec<u8>, x: u32)
    ensures
        final(out)@ == old(out)@ + be32(x),
{
    out.push(((x >> 24u32) & 0xffu32) as u8);
    out.push(((x >> 16u32) & 0xffu32) as u8);
    out.push(((x >> 8u32) & 0xffu32) as u8);
    out.push((x & 0xffu32) as u8);
    assert(final(out)@ =~= old(out)@ + be32(x));
}

fn push_all(out: &mut Vec<u8>, data: &[u8])
    ensures
        final(out)@ == old(out)@ + data@,
{
    let mut i: usize = 0;
    while i < data.len()
        invariant
            i <= data@.len(),
            out@ == old(out)@ + data@.take(i as int),
        decreases data@.len() - i,
    {
        out.push(data[i]);
        assert(data@.take(i + 1) =~= data@.take(i as int).push(data@[i as int]));
        i = i + 1;
    }
    assert(data@.take(data@.len() as int) =~= data@);
}

fn read_be32(s: &[u8], i: usize) -> (r: u32)
    requires
        i + 4 <= s@.len(),
    ensures
        r == be32_at(s@, i as int),
{
    ((s[i] as u32) << 24u32) | ((s[i + 1] as u32) << 16u32) | ((s[i + 2] as u32) << 8u32) | (s[i + 3] as u32)
}

fn copy_range(s: &[u8], from: usize, to: usize) -> (r: Vec<u8>)
    requires
        from <= to <= s@.len(),
    ensures
        r@ == s@.subrange(from as int, to as int),
{
    let mut out: Vec<u8> = Vec::new();
    let mut i: usize = from;
    while i < to
        invariant
            from <= i <= to <= s@.len(),
            out@ == s@.subrange(from as int, i as int),
        decreases to - i,
    {
        out.push(s[i]);
        assert(s@.subrange(from as int, i + 1) =~= s@.subrange(from as int, i as int).push(s@[i as int]));
        i = i + 1;
    }
    out
}

impl Message {
    /// The bytes of the message on the wire.
    pub fn encode(&self) -> (r: Vec<u8>)
        requires
            frame_len(self@) <= u32::MAX,
        ensures
            r@ == encoded(self@),
    {
        let mut out: Vec<u8> = Vec::new();
        match self {
            Message::KeepAlive => {
                push_be32(&mut out, 0);
            },
            Message::Choke => {
                push_be32(&mut out, 1);
                out.push(0);
            },
            Message::Unchoke => {
                push_be32(&mut out, 1);
                out.push(1);
            },
            Message::Interested => {
                push_be32(&mut out, 1);
                out.push(2);
            },
            Message::NotInterested => {
                push_be32(&mut out, 1);
                out.push(3);
            },
            Message::Have(i) => {
                push_be32(&mut out, 5);
                out.push(4);
                push_be32(&mut out, *i);
            },
            Message::Bitfield(b) => {
                push_be32(&mut out, (1 + b.len()) as u32);
                out.push(5);
                push_all(&mut out, b.as_slice());
            },
            Message::Request(i, b, l) => {
                push_be32(&mut out, 13);
                out.push(6);
                push_be32(&mut out, *i);
                push_be32(&mut out, *b);
                push_be32(&mut out, *l);
            },
            Message::Piece(i, b, d) => {
                push_be32(&mut out, (9 + d.len()) as u32);
                out.push(7);
                push_be32(&mut out, *i);
                push_be32(&mut out, *b);
                push_all(&mut out, d.as_slice());
            },
            Message::Cancel(i, b, l) => {
                push_be32(&mut out, 13);
                out.push(8);
                push_be32(&mut out, *i);
                push_be32(&mut out, *b);
                push_be32(&mut out, *l);
            },
            Message::Port(p) => {
                push_be32(&mut out, 3);
                out.push(9);
                out.push(((*p >> 8u16) & 0xffu16) as u8);
                out.push((*p & 0xffu16) as u8);
            },
            Message::Extended(id, d) => {
                push_be32(&mut out, (2 + d.len()) as u32);
                out.push(20);
                out.push(*id);
                push_all(&mut out, d.as_slice());
            },
        }
        assert(out@ =~= encoded(self@));
        out
    }
}

/// Reads one frame from the front of a byte stream.
pub fn decode_frame(s: &[u8]) -> (r: Result<Frame, WireError>)
    ensures
        frame_view(r) == parse_frame(s@),
{
    if s.len() < 4 {
        return Ok(Frame::Incomplete);
    }
    let len = read_be32(s, 0);
    if len > MAX_FRAME_LEN {
        return Err(WireError::FrameTooLong);
    }
    let total: usize = 4 + len as usize;
    if s.len() < total {
        return Ok(Frame::Incomplete);
    }
    if len == 0 {
        return Ok(Frame::Message(Message::KeepAlive, 4));
    }
    let id = s[4];
    let ghost p = s@.subrange(5, total as int);
    let plen: usize = total - 5;
    let m: Option<Message> = if id == 0 && plen == 0 {
        Some(Message::Choke)
    } else if id == 1 && plen == 0 {
        Some(Message::Unchoke)
    } else if id == 2 && plen == 0 {
        Some(Message::Interested)
    } else if id == 3 && plen == 0 {
        Some(Message::NotInterested)
    } else if id == 4 && plen == 4 {
        Some(Message::Have(read_be32(s, 5)))
    } else if id == 5 {
        Some(Message::Bitfield(copy_range(s, 5, total)))
    } else if id == 6 && plen == 12 {
        Some(Message::Request(read_be32(s, 5), read_be32(s, 9), read_be32(s, 13)))
    } else if id == 7 && plen >= 8 {
        let d = copy_range(s, 13, total);
        assert(d@ =~= p.skip(8));
        Some(Message::Piece(read_be32(s, 5), read_be32(s, 9), d))
    } else if id == 8 && plen == 12 {
        Some(Message::Cancel(read_be32(s, 5), read_be32(s, 9), read_be32(s, 13)))
    } else if id == 9 && plen == 2 {
        Some(Message::Port(((s[5] as u16) << 8u16) | (s[6] as u16)))
    } else if id == 20 && plen >= 1 {
        let d = copy_range(s, 6, total);
        assert(d@ =~= p.skip(1));
        Some(Message::Extended(s[5], d))
    } else {
        None
    };
    proof {
        if id == 4 && plen == 4 { assert(be32_at(p, 0) == be32_at(s@, 5)); }
        if (id == 6 || id == 8) && plen == 12 {
            assert(be32_at(p, 0) == be32_at(s@, 5));
            assert(be32_at(p, 4) == be32_at(s@, 9));
            assert(be32_at(p, 8) == be32_at(s@, 13));
        }
        if id == 7 && plen >= 8 {
            assert(be32_at(p, 0) == be32_at(s@, 5));
            assert(be32_at(p, 4) == be32_at(s@, 9));
        }
    }
    if !(id <= 9 || id == 20) {
        return Ok(Frame::Skipped(total));
    }
    match m {
        Some(m) => Ok(Frame::Message(m, total)),
        None => Err(WireError::MalformedPayload),
    }
}

proof fn lemma_be32_at_of(x: u32, s: Seq<u8>, i: int)
    requires
        0 <= i,
        i + 4 <= s.len(),
        s.subrange(i, i + 4) == be32(x),
    ensures
        be32_at(s, i) == x,
{
    lemma_be32_round_trip(x);
    assert(s[i] == s.subrange(i, i + 4)[0]);
    assert(s[i + 1] == s.subrange(i, i + 4)[1]);
    assert(s[i + 2] == s.subrange(i, i + 4)[2]);
    assert(s[i + 3] == s.subrange(i, i + 4)[3]);
}

proof fn lemma_be32_at_bytes(s: Seq<u8>, i: int)
    requires
        0 <= i,
        i + 4 <= s.len(),
    ensures
        be32(be32_at(s, i)) == s.subrange(i, i + 4),
{
    lemma_be32_bytes_round_trip(s[i], s[i + 1], s[i + 2], s[i + 3]);
    assert(s.subrange(i, i + 4) =~= seq![s[i], s[i + 1], s[i + 2], s[i + 3]]);
}

/// Decoding an encoded message gives the message back, and takes exactly
/// its bytes from the stream, whatever follows them.
pub proof fn lemma_decode_encoded(m: MessageView, rest: Seq<u8>)
    requires
        message_fits(m),
    ensures
        parse_frame(encoded(m) + rest) == ParsedView::Message(m, encoded(m).len() as int),
{
    let e = encoded(m);
    let s = e + rest;
    let len = frame_len(m);
    lemma_be32_round_trip(len as u32);
    assert(s.subrange(0, 4) =~= be32(len as u32));
    lemma_be32_at_of(len as u32, s, 0);
    if m is KeepAlive {
        assert(be32_at(s, 0) == 0);
    } else {
        let p = payload_of(m);
        assert(e.len() == 4 + len);
        assert(s[4] == message_id(m));
        assert(s.subrange(5, 4 + len) =~= p);
        match m {
            MessageView::Have(i) => {
                assert(p.subrange(0, 4) =~= be32(i));
                lemma_be32_at_of(i, p, 0);
            },
            MessageView::Request(i, b, l) => {
                assert(p.subrange(0, 4) =~= be32(i));
                assert(p.subrange(4, 8) =~= be32(b));
                assert(p.subrange(8, 12) =~= be32(l));
                lemma_be32_at_of(i, p, 0);
                lemma_be32_at_of(b, p, 4);
                lemma_be32_at_of(l, p, 8);
            },
            MessageView::Cancel(i, b, l) => {
                assert(p.subrange(0, 4) =~= be32(i));
                assert(p.subrange(4, 8) =~= be32(b));
                assert(p.subrange(8, 12) =~= be32(l));
                lemma_be32_at_of(i, p, 0);
                lemma_be32_at_of(b, p, 4);
                lemma_be32_at_of(l, p, 8);
            },
            MessageView::Piece(i, b, d) => {
                assert(p.subrange(0, 4) =~= be32(i));
                assert(p.subrange(4, 8) =~= be32(b));
                assert(p.skip(8) =~= d);
                lemma_be32_at_of(i, p, 0);
                lemma_be32_at_of(b, p, 4);
            },
            MessageView::Port(x) => {
                lemma_be16_round_trip(x);
            },
            MessageView::Extended(id, d) => {
                assert(p.skip(1) =~= d);
            },
            _ => {},
        }
    }
}

/// A decoded message, encoded again, gives back exactly the bytes it was
/// read from.
pub proof fn lemma_encode_decoded(s: Seq<u8>)
    ensures
        parse_frame(s) matches ParsedView::Message(m, n) ==> 0 <= n <= s.len() && encoded(m) == s.take(n),
{
    if let ParsedView::Message(m, n) = parse_frame(s) {
        let len = be32_at(s, 0);
        lemma_be32_at_bytes(s, 0);
        if len == 0 {
            assert(s.take(4) =~= s.subrange(0, 4));
        } else {
            let id = s[4];
            let p = s.subrange(5, 4 + len);
            assert(message_of(id, p) == Some(m));
            if id == 4 {
                lemma_be32_at_bytes(p, 0);
                assert(p =~= p.subrange(0, 4));
            } else if id == 6 || id == 8 {
                lemma_be32_at_bytes(p, 0);
                lemma_be32_at_bytes(p, 4);
                lemma_be32_at_bytes(p, 8);
                assert(p =~= p.subrange(0, 4) + p.subrange(4, 8) + p.subrange(8, 12));
            } else if id == 7 {
                lemma_be32_at_bytes(p, 0);
                lemma_be32_at_bytes(p, 4);
                assert(p =~= p.subrange(0, 4) + p.subrange(4, 8) + p.skip(8));
            } else if id == 9 {
                lemma_be16_bytes_round_trip(p[0], p[1]);
                assert(p =~= seq![p[0], p[1]]);
            } else if id == 20 {
                assert(p =~= seq![p[0]] + p.skip(1));
            }
            assert(payload_of(m) == p);
            assert(frame_len(m) == len);
            assert(encoded(m) =~= s.take(n));
        }
    }
}

/// The handshake: the protocol name with its length, eight reserved bytes,
/// the info-hash and the peer id.
pub open spec fn handshake_bytes(info_hash: Seq<u8>, peer_id: Seq<u8>) -> Seq<u8> {
    seq![19u8] + protocol_name() + Seq::new(8, |i: int| 0u8) + info_hash + peer_id
}

/// The handshake sent to a peer.
pub fn encode_handshake(info_hash: &[u8], peer_id: &[u8]) -> (r: Vec<u8>)
    requires
        info_hash@.len() == 20,
        peer_id@.len() == 20,
    ensures
        r@ == handshake_bytes(info_hash@, peer_id@),
        r@.len() == HANDSHAKE_LEN,
{
    let mut out: Vec<u8> = Vec::new();
    out.push(19);
    let name: [u8; 19] = [66, 105, 116, 84, 111, 114, 114, 101, 110, 116, 32, 112, 114, 111, 116, 111, 99, 111, 108];
    push_all(&mut out, name.as_slice());
    let zeros: [u8; 8] = [0; 8];
    push_all(&mut out, zeros.as_slice());
    push_all(&mut out, info_hash);
    push_all(&mut out, peer_id);
    assert(name@ =~= protocol_name());
    assert(zeros@ =~= Seq::new(8, |i: int| 0u8));
    assert(out@ =~= handshake_bytes(info_hash@, peer_id@));
    out
}

/// What checking a received handshake against the torrent's info-hash gives.
pub open spec fn handshake_check(s: Seq<u8>, expected_info_hash: Seq<u8>) -> Result<Seq<u8>, WireError> {
    if s.len() < HANDSHAKE_LEN || s[0] != 19 || s.subrange(1, 20) != protocol_name() {
        Err(WireError::BadProtocol)
    } else if s.subrange(28, 48) != expected_info_hash {
        Err(WireError::InfoHashMismatch)
    } else {
        Ok(s.subrange(48, 68))
    }
}

fn bytes_equal(a: &[u8], from: usize, b: &[u8]) -> (r: bool)
    requires
        from + b@.len() <= a@.len(),
    ensures
        r == (a@.subrange(from as int, from + b@.len()) == b@),
{
    let alen = a.len();
    let mut i: usize = 0;
    while i < b.len()
        invariant
            i <= b@.len(),
            from + b@.len() <= a@.len(),
            a@.len() == alen,
            forall|j: int| 0 <= j < i ==> a@[from + j] == b@[j],
        decreases b@.len() - i,
    {
        if a[from + i] != b[i] {
            assert(a@.subrange(from as int, from + b@.len())[i as int] != b@[i as int]);
            return false;
        }
        i = i + 1;
    }
    assert(a@.subrange(from as int, from + b@.len()) =~= b@);
    true
}

/// Checks a received handshake and returns the remote peer id. A peer that
/// names another torrent is a protocol violation.
pub fn check_handshake(s: &[u8], expected_info_hash: &[u8]) -> (r: Result<Vec<u8>, WireError>)
    requires
        expected_info_hash@.len() == 20,
    ensures
        match r {
            Ok(id) => handshake_check(s@, expected_info_hash@) == Ok::<Seq<u8>, WireError>(id@),
            Err(e) => handshake_check(s@, expected_info_hash@) == Err::<Seq<u8>, WireError>(e),
        },
{
    if s.len() < HANDSHAKE_LEN || s[0] != 19 {
        return Err(WireError::BadProtocol);
    }
    let name: [u8; 19] = [66, 105, 116, 84, 111, 114, 114, 101, 110, 116, 32, 112, 114, 111, 116, 111, 99, 111, 108];
    assert(name@ =~= protocol_name());
    if !bytes_equal(s, 1, name.as_slice()) {
        return Err(WireError::BadProtocol);
    }
    if !bytes_equal(s, 28, expected_info_hash) {
        return Err(WireError::InfoHashMismatch);
    }
    Ok(copy_range(s, 48, 68))
}

/// The info-hash field of a received handshake, by which an inbound
/// connection is handed to its torrent: bytes 28 to 48.
pub fn handshake_info_hash(s: &[u8]) -> (r: Option<Vec<u8>>)
    ensures
        match r {
            Some(h) => s@.len() >= HANDSHAKE_LEN && h@ == s@.subrange(28, 48),
            None => s@.len() < HANDSHAKE_LEN,
        },
{
    if s.len() < HANDSHAKE_LEN {
        None
    } else {
        Some(copy_range(s, 28, 48))
    }
}

} // verus!
