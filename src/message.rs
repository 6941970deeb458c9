//! Length-prefixed peer wire messages.
use vstd::prelude::*;
use crate::be::{be_bytes, be_value, get_u32, put_u32, push_range, lemma_be_round_trip};
use crate::error::DownloadError;

verus! {

/// The type tag of a message; `KeepAlive` is the zero-length frame, which has no tag.
#[derive(Debug, Clone, Copy, PartialEq, Eq, Structural)]
pub enum MessageType {
    Choke,
    Unchoke,
    Interested,
    NotInterested,
    Have,
    Bitfield,
    Request,
    Piece,
    Cancel,
    KeepAlive,
}

impl MessageType {
    /// A type whose messages carry no payload.
    pub open spec fn is_status(self) -> bool {
        self is Choke || self is Unchoke || self is Interested || self is NotInterested
    }
}

/// One peer wire message.
#[derive(Debug, Clone)]
pub enum Message {
    KeepAlive,
    Choke,
    Unchoke,
    Interested,
    NotInterested,
    Have(u32),
    Bitfield(Vec<u8>),
    Request { index: u32, begin: u32, length: u32 },
    Piece { index: u32, begin: u32, block: Vec<u8> },
    Cancel { index: u32, begin: u32, length: u32 },
}

/// A message with its byte payloads seen as sequences.
pub enum MessageView {
    KeepAlive,
    Choke,
    Unchoke,
    Interested,
    NotInterested,
    Have(u32),
    Bitfield(Seq<u8>),
    Request { index: u32, begin: u32, length: u32 },
    Piece { index: u32, begin: u32, block: Seq<u8> },
    Cancel { index: u32, begin: u32, length: u32 },
}

impl View for Message {
    type V = MessageView;

    open spec fn view(&self) -> MessageView {
        match self {
            Message::KeepAlive => MessageView::KeepAlive,
            Message::Choke => MessageView::Choke,
            Message::Unchoke => MessageView::Unchoke,
            Message::Interested => MessageView::Interested,
            Message::NotInterested => MessageView::NotInterested,
            Message::Have(i) => MessageView::Have(*i),
            Message::Bitfield(b) => MessageView::Bitfield(b@),
            Message::Request { index, begin, length } => MessageView::Request {
                index: *index,
                begin: *begin,
                length: *length,
            },
            Message::Piece { index, begin, block } => MessageView::Piece {
                index: *index,
                begin: *begin,
                block: block@,
            },
            Message::Cancel { index, begin, length } => MessageView::Cancel {
                index: *index,
                begin: *begin,
                length: *length,
            },
        }
    }
}

/// The largest payload whose frame length still fits the 4-byte prefix.
pub open spec fn max_frame_len() -> nat {
    0xffff_ffff
}

impl MessageView {
    /// The type tag of this message.
    pub open spec fn kind(self) -> MessageType {
        match self {
            MessageView::KeepAlive => MessageType::KeepAlive,
            MessageView::Choke => MessageType::Choke,
            MessageView::Unchoke => MessageType::Unchoke,
            MessageView::Interested => MessageType::Interested,
            MessageView::NotInterested => MessageType::NotInterested,
            MessageView::Have(_) => MessageType::Have,
            MessageView::Bitfield(_) => MessageType::Bitfield,
            MessageView::Request { .. } => MessageType::Request,
            MessageView::Piece { .. } => MessageType::Piece,
            MessageView::Cancel { .. } => MessageType::Cancel,
        }
    }

    /// The number of bytes that the length prefix covers: the tag and the payload.
    pub open spec fn frame_len(self) -> nat {
        match self {
            MessageView::KeepAlive => 0,
            MessageView::Have(_) => 5,
            MessageView::Bitfield(b) => 1 + b.len(),
            MessageView::Request { .. } => 13,
            MessageView::Piece { block, .. } => 9 + block.len(),
            MessageView::Cancel { .. } => 13,
            _ => 1,
        }
    }

    /// Its length fits the prefix.
    pub open spec fn fits(self) -> bool {
        self.frame_len() <= max_frame_len()
    }

    /// A message that decoding gives back: it fits, and a piece carries at least one byte.
    pub open spec fn well_formed(self) -> bool {
        &&& self.fits()
        &&& (self matches MessageView::Piece { block, .. } ==> block.len() > 0)
    }
}

/// The tag byte of each type that has one.
pub open spec fn tag_of(kind: MessageType) -> u8 {
    match kind {
        MessageType::Choke => 0,
        MessageType::Unchoke => 1,
        MessageType::Interested => 2,
        MessageType::NotInterested => 3,
        MessageType::Have => 4,
        MessageType::Bitfield => 5,
        MessageType::Request => 6,
        MessageType::Piece => 7,
        MessageType::Cancel => 8,
        MessageType::KeepAlive => 0,
    }
}

/// The payload that follows the tag.
pub open spec fn payload_spec(m: MessageView) -> Seq<u8> {
    match m {
        MessageView::Have(i) => be_bytes(i),
        MessageView::Bitfield(b) => b,
        MessageView::Request { index, begin, length } => be_bytes(index) + be_bytes(begin)
            + be_bytes(length),
        MessageView::Piece { index, begin, block } => be_bytes(index) + be_bytes(begin) + block,
        MessageView::Cancel { index, begin, length } => be_bytes(index) + be_bytes(begin)
            + be_bytes(length),
        _ => Seq::empty(),
    }
}

/// The wire form of a message that fits: prefix, tag, payload; a keep-alive is the prefix alone.
pub open spec fn encode_spec(m: MessageView) -> Seq<u8> {
    if m is KeepAlive {
        be_bytes(0)
    } else {
        be_bytes(m.frame_len() as u32) + seq![tag_of(m.kind())] + payload_spec(m)
    }
}

/// Reads the three integers of a request or a cancel.
pub open spec fn triple_at(rest: Seq<u8>) -> (u32, u32, u32) {
    (be_value(rest.subrange(0, 4)), be_value(rest.subrange(4, 8)), be_value(rest.subrange(8, 12)))
}

/// What a buffer decodes to; `None` is a protocol error. The length prefix is read only to
/// tell a keep-alive apart.
pub open spec fn decode_spec(s: Seq<u8>) -> Option<MessageView> {
    if s.len() < 4 {
        None
    } else if be_value(s.subrange(0, 4)) == 0 {
        Some(MessageView::KeepAlive)
    } else if s.len() < 5 {
        None
    } else {
        let tag = s[4];
        let rest = s.subrange(5, s.len() as int);
        if tag <= 3 {
            if rest.len() != 0 {
                None
            } else if tag == 0 {
                Some(MessageView::Choke)
            } else if tag == 1 {
                Some(MessageView::Unchoke)
            } else if tag == 2 {
                Some(MessageView::Interested)
            } else {
                Some(MessageView::NotInterested)
            }
        } else if tag == 4 {
            if rest.len() == 4 {
                Some(MessageView::Have(be_value(rest)))
            } else {
                None
            }
        } else if tag == 5 {
            Some(MessageView::Bitfield(rest))
        } else if tag == 6 || tag == 8 {
            if rest.len() == 12 {
                let (index, begin, length) = triple_at(rest);
                if tag == 6 {
                    Some(MessageView::Request { index, begin, length })
                } else {
                    Some(MessageView::Cancel { index, begin, length })
                }
            } else {
                None
            }
        } else if tag == 7 {
            if rest.len() > 8 {
                Some(
                    MessageView::Piece {
                        index: be_value(rest.subrange(0, 4)),
                        begin: be_value(rest.subrange(4, 8)),
                        block: rest.subrange(8, rest.len() as int),
                    },
                )
            } else {
                None
            }
        } else {
            None
        }
    }
}

/// Decoding the encoding of a well-formed message gives that message back.
pub proof fn lemma_message_round_trip(m: MessageView)
    requires
        m.well_formed(),
    ensures
        decode_spec(encode_spec(m)) == Some(m),
{
    let s = encode_spec(m);
    lemma_be_round_trip(0);
    lemma_be_round_trip(m.frame_len() as u32);
    if !(m is KeepAlive) {
        assert(s.subrange(0, 4) =~= be_bytes(m.frame_len() as u32));
        let rest = s.subrange(5, s.len() as int);
        assert(rest =~= payload_spec(m));
        match m {
            MessageView::Have(i) => {
                lemma_be_round_trip(i);
            },
            MessageView::Request { index, begin, length } => {
                lemma_triple(index, begin, length, rest);
            },
            MessageView::Cancel { index, begin, length } => {
                lemma_triple(index, begin, length, rest);
            },
            MessageView::Piece { index, begin, block } => {
                lemma_be_round_trip(index);
                lemma_be_round_trip(begin);
                assert(rest.subrange(0, 4) =~= be_bytes(index));
                assert(rest.subrange(4, 8) =~= be_bytes(begin));
                assert(rest.subrange(8, rest.len() as int) =~= block);
            },
            _ => {},
        }
    }
}

proof fn lemma_triple(a: u32, b: u32, c: u32, rest: Seq<u8>)
    requires
        rest == be_bytes(a) + be_bytes(b) + be_bytes(c),
    ensures
        rest.len() == 12,
        triple_at(rest) == (a, b, c),
{
    lemma_be_round_trip(a);
    lemma_be_round_trip(b);
    lemma_be_round_trip(c);
    assert(rest.subrange(0, 4) =~= be_bytes(a));
    assert(rest.subrange(4, 8) =~= be_bytes(b));
    assert(rest.subrange(8, 12) =~= be_bytes(c));
}

} // verus!
verus! {

impl Message {
    /// The type tag of this message.
    pub fn kind(&self) -> (r: MessageType)
        ensures
            r == self@.kind(),
    {
        match self {
            Message::KeepAlive => MessageType::KeepAlive,
            Message::Choke => MessageType::Choke,
            Message::Unchoke => MessageType::Unchoke,
            Message::Interested => MessageType::Interested,
            Message::NotInterested => MessageType::NotInterested,
            Message::Have(_) => MessageType::Have,
            Message::Bitfield(_) => MessageType::Bitfield,
            Message::Request { .. } => MessageType::Request,
            Message::Piece { .. } => MessageType::Piece,
            Message::Cancel { .. } => MessageType::Cancel,
        }
    }

    /// A message without payload of the given type.
    pub fn status(kind: MessageType) -> (r: Message)
        requires
            kind.is_status(),
        ensures
            r@.kind() == kind,
            r@.frame_len() == 1,
    {
        match kind {
            MessageType::Choke => Message::Choke,
            MessageType::Unchoke => Message::Unchoke,
            MessageType::Interested => Message::Interested,
            _ => Message::NotInterested,
        }
    }

    /// A request for `block_length` bytes at `block_begin` of piece `piece_id`.
    pub fn request(piece_id: u32, block_begin: u32, block_length: u32) -> (r: Message)
        ensures
            r@ == (MessageView::Request { index: piece_id, begin: block_begin, length: block_length }),
    {
        Message::Request { index: piece_id, begin: block_begin, length: block_length }
    }

    /// The wire form of this message.
    pub fn to_bytes(&self) -> (r: Vec<u8>)
        requires
            self@.fits(),
        ensures
            r@ == encode_spec(self@),
    {
        let mut buf: Vec<u8> = Vec::new();
        match self {
            Message::KeepAlive => {
                put_u32(&mut buf, 0);
            },
            Message::Choke => {
                put_u32(&mut buf, 1);
                buf.push(0);
            },
            Message::Unchoke => {
                put_u32(&mut buf, 1);
                buf.push(1);
            },
            Message::Interested => {
                put_u32(&mut buf, 1);
                buf.push(2);
            },
            Message::NotInterested => {
                put_u32(&mut buf, 1);
                buf.push(3);
            },
            Message::Have(i) => {
                put_u32(&mut buf, 5);
                buf.push(4);
                put_u32(&mut buf, *i);
            },
            Message::Bitfield(b) => {
                put_u32(&mut buf, (1 + b.len()) as u32);
                buf.push(5);
                push_range(&mut buf, b.as_slice(), 0, b.len());
                assert(b@.subrange(0, b@.len() as int) =~= b@);
            },
            Message::Request { index, begin, length } => {
                put_u32(&mut buf, 13);
                buf.push(6);
                put_u32(&mut buf, *index);
                put_u32(&mut buf, *begin);
                put_u32(&mut buf, *length);
            },
            Message::Piece { index, begin, block } => {
                put_u32(&mut buf, (9 + block.len()) as u32);
                buf.push(7);
                put_u32(&mut buf, *index);
                put_u32(&mut buf, *begin);
                push_range(&mut buf, block.as_slice(), 0, block.len());
                assert(block@.subrange(0, block@.len() as int) =~= block@);
            },
            Message::Cancel { index, begin, length } => {
                put_u32(&mut buf, 13);
                buf.push(8);
                put_u32(&mut buf, *index);
                put_u32(&mut buf, *begin);
                put_u32(&mut buf, *length);
            },
        }
        assert(buf@ =~= encode_spec(self@));
        buf
    }

    /// Decodes one frame: the 4-byte length prefix and what follows it.
    pub fn from_bytes(buf: &[u8]) -> (r: Result<Message, DownloadError>)
        ensures
            match decode_spec(buf@) {
                Some(v) => r is Ok && r->Ok_0@ == v,
                None => r == Err::<Message, DownloadError>(DownloadError::Protocol),
            },
    {
        if buf.len() < 4 {
            return Err(DownloadError::Protocol);
        }
        if get_u32(buf, 0) == 0 {
            return Ok(Message::KeepAlive);
        }
        if buf.len() < 5 {
            return Err(DownloadError::Protocol);
        }
        let tag = buf[4];
        let n = buf.len() - 5;
        let ghost rest = buf@.subrange(5, buf@.len() as int);
        assert(forall|a: int, b: int|
            0 <= a <= b <= rest.len() ==> #[trigger] rest.subrange(a, b) == buf@.subrange(5 + a, 5 + b));
        if tag <= 3 {
            if n != 0 {
                Err(DownloadError::Protocol)
            } else if tag == 0 {
                Ok(Message::Choke)
            } else if tag == 1 {
                Ok(Message::Unchoke)
            } else if tag == 2 {
                Ok(Message::Interested)
            } else {
                Ok(Message::NotInterested)
            }
        } else if tag == 4 {
            if n == 4 {
                assert(rest =~= rest.subrange(0, 4));
                Ok(Message::Have(get_u32(buf, 5)))
            } else {
                Err(DownloadError::Protocol)
            }
        } else if tag == 5 {
            let mut b: Vec<u8> = Vec::new();
            push_range(&mut b, buf, 5, buf.len());
            assert(b@ =~= rest);
            Ok(Message::Bitfield(b))
        } else if tag == 6 || tag == 8 {
            if n == 12 {
                let index = get_u32(buf, 5);
                let begin = get_u32(buf, 9);
                let length = get_u32(buf, 13);
                if tag == 6 {
                    Ok(Message::Request { index, begin, length })
                } else {
                    Ok(Message::Cancel { index, begin, length })
                }
            } else {
                Err(DownloadError::Protocol)
            }
        } else if tag == 7 {
            if n > 8 {
                let index = get_u32(buf, 5);
                let begin = get_u32(buf, 9);
                let mut block: Vec<u8> = Vec::new();
                push_range(&mut block, buf, 13, buf.len());
                assert(block@ =~= rest.subrange(8, rest.len() as int));
                Ok(Message::Piece { index, begin, block })
            } else {
                Err(DownloadError::Protocol)
            }
        } else {
            Err(DownloadError::Protocol)
        }
    }
}

} // verus!
