//! Wire codec: the bidirectional mapping between in-memory message values
//! and the length-prefixed binary frames exchanged after the handshake, and
//! the fixed 68-byte handshake itself.

use vstd::prelude::*;

use crate::bitfield::{packed_len, packs, Bitfield};
use crate::bytes::{
    be16, be16_of, be32, be32_of, bytes_eq, copy_range, lemma_be16_round_trip,
    lemma_be32_round_trip, push_be16, push_be32, push_bytes, range_eq, read_be16, read_be32,
};

verus! {

/// Size in bytes of the blocks a piece is split into for transfer; the last
/// block of a piece may be shorter.
pub const BLOCK_BYTES: u32 = 16384;

/// The ten message ids of the wire protocol, in id order starting at 0.
#[derive(Clone, Copy, PartialEq, Eq, Structural, Debug)]
pub enum MessageType {
    Choke,
    Unchoke,
    Interested,
    NotInterested,
    Have,
    Bitfield,
    Request,
    Piece,
    Cancel,
    Port,
}

/// The id byte that introduces a message of type `t`.
pub open spec fn message_id(t: MessageType) -> u8 {
    match t {
        MessageType::Choke => 0,
        MessageType::Unchoke => 1,
        MessageType::Interested => 2,
        MessageType::NotInterested => 3,
        MessageType::Have => 4,
        MessageType::Bitfield => 5,
        MessageType::Request => 6,
        MessageType::Piece => 7,
        MessageType::Cancel => 8,
        MessageType::Port => 9,
    }
}

impl MessageType {
    pub fn id(&self) -> (r: u8)
        ensures
            r == message_id(*self),
    {
        match self {
            MessageType::Choke => 0,
            MessageType::Unchoke => 1,
            MessageType::Interested => 2,
            MessageType::NotInterested => 3,
            MessageType::Have => 4,
            MessageType::Bitfield => 5,
            MessageType::Request => 6,
            MessageType::Piece => 7,
            MessageType::Cancel => 8,
            MessageType::Port => 9,
        }
    }
}

/// A decoded wire message; the message set is closed, so decoding matches
/// exhaustively over these variants.
#[derive(Clone, PartialEq, Debug)]
pub enum Frame {
    KeepAlive,
    Choke,
    Unchoke,
    Interested,
    NotInterested,
    Have { index: u32 },
    Bitfield { bits: Vec<u8> },
    Request { index: u32, offset: u32, length: u32 },
    Piece { index: u32, offset: u32, data: Vec<u8> },
    Cancel { index: u32, offset: u32, length: u32 },
    Port { port: u16 },
}

/// Mathematical value of a frame: as `Frame`, with byte payloads as sequences.
pub enum FrameView {
    KeepAlive,
    Choke,
    Unchoke,
    Interested,
    NotInterested,
    Have { index: u32 },
    Bitfield { bits: Seq<u8> },
    Request { index: u32, offset: u32, length: u32 },
    Piece { index: u32, offset: u32, data: Seq<u8> },
    Cancel { index: u32, offset: u32, length: u32 },
    Port { port: u16 },
}

impl View for Frame {
    type V = FrameView;

    open spec fn view(&self) -> FrameView {
        match self {
            Frame::KeepAlive => FrameView::KeepAlive,
            Frame::Choke => FrameView::Choke,
            Frame::Unchoke => FrameView::Unchoke,
            Frame::Interested => FrameView::Interested,
            Frame::NotInterested => FrameView::NotInterested,
            Frame::Have { index } => FrameView::Have { index: *index },
            Frame::Bitfield { bits } => FrameView::Bitfield { bits: bits@ },
            Frame::Request { index, offset, length } => FrameView::Request {
                index: *index,
                offset: *offset,
                length: *length,
            },
            Frame::Piece { index, offset, data } => FrameView::Piece {
                index: *index,
                offset: *offset,
                data: data@,
            },
            Frame::Cancel { index, offset, length } => FrameView::Cancel {
                index: *index,
                offset: *offset,
                length: *length,
            },
            Frame::Port { port } => FrameView::Port { port: *port },
        }
    }
}

/// A frame whose variable-length payload still fits the 4-byte length prefix.
pub open spec fn frame_valid(v: FrameView) -> bool {
    match v {
        FrameView::Bitfield { bits } => 1 + bits.len() <= u32::MAX,
        FrameView::Piece { data, .. } => 9 + data.len() <= u32::MAX,
        _ => true,
    }
}

/// The exact bytes of a frame on the wire: a 4-byte big-endian length prefix
/// counting the id byte and the payload, then the id byte, then the payload;
/// a length of 0 denotes a keep-alive.
pub open spec fn spec_encode(v: FrameView) -> Seq<u8> {
    match v {
        FrameView::KeepAlive => be32(0),
        FrameView::Choke => be32(1) + seq![0u8],
        FrameView::Unchoke => be32(1) + seq![1u8],
        FrameView::Interested => be32(1) + seq![2u8],
        FrameView::NotInterested => be32(1) + seq![3u8],
        FrameView::Have { index } => be32(5) + seq![4u8] + be32(index),
        FrameView::Bitfield { bits } => be32((1 + bits.len()) as u32) + seq![5u8] + bits,
        FrameView::Request { index, offset, length } => be32(13) + seq![6u8] + be32(index) + be32(
            offset,
        ) + be32(length),
        FrameView::Piece { index, offset, data } => be32((9 + data.len()) as u32) + seq![7u8]
            + be32(index) + be32(offset) + data,
        FrameView::Cancel { index, offset, length } => be32(13) + seq![8u8] + be32(index) + be32(
            offset,
        ) + be32(length),
        FrameView::Port { port } => be32(3) + seq![9u8] + be16(port),
    }
}

/// Protocol violations and transport faults the codec can report.
#[derive(Clone, Copy, PartialEq, Eq, Structural, Debug)]
pub enum WireError {
    TruncatedFrame,
    UnknownMessageId,
    PayloadLengthMismatch,
    MalformedHandshake,
    ProtocolMismatch,
    InfoHashMismatch,
}

/// Result of decoding the front of a receive buffer.
#[derive(Debug)]
pub enum DecodeResult {
    /// The buffer does not yet hold a whole frame.
    Incomplete,
    /// A frame, and how many bytes of the buffer it consumed.
    Done(Frame, usize),
    /// The front of the buffer is not a well-formed frame.
    Bad(WireError),
}

/// Mathematical value of a `DecodeResult`.
pub enum SpecDecoded {
    Incomplete,
    Done(FrameView, int),
    Bad(WireError),
}

pub open spec fn decode_result_view(r: DecodeResult) -> SpecDecoded {
    match r {
        DecodeResult::Incomplete => SpecDecoded::Incomplete,
        DecodeResult::Done(f, used) => SpecDecoded::Done(f@, used as int),
        DecodeResult::Bad(e) => SpecDecoded::Bad(e),
    }
}

/// What decoding the front of `s` yields: the first frame and the bytes it
/// consumed, a need for more bytes, or a protocol violation.
pub open spec fn spec_decode(s: Seq<u8>) -> SpecDecoded {
    if s.len() < 4 {
        SpecDecoded::Incomplete
    } else {
        let n = be32_of(s.subrange(0, 4)) as int;
        if n == 0 {
            SpecDecoded::Done(FrameView::KeepAlive, 4)
        } else if s.len() < 4 + n {
            SpecDecoded::Incomplete
        } else {
            let id = s[4];
            let body = s.subrange(5, 4 + n);
            if id == 0 {
                if n == 1 {
                    SpecDecoded::Done(FrameView::Choke, 5)
                } else {
                    SpecDecoded::Bad(WireError::PayloadLengthMismatch)
                }
            } else if id == 1 {
                if n == 1 {
                    SpecDecoded::Done(FrameView::Unchoke, 5)
                } else {
                    SpecDecoded::Bad(WireError::PayloadLengthMismatch)
                }
            } else if id == 2 {
                if n == 1 {
                    SpecDecoded::Done(FrameView::Interested, 5)
                } else {
                    SpecDecoded::Bad(WireError::PayloadLengthMismatch)
                }
            } else if id == 3 {
                if n == 1 {
                    SpecDecoded::Done(FrameView::NotInterested, 5)
                } else {
                    SpecDecoded::Bad(WireError::PayloadLengthMismatch)
                }
            } else if id == 4 {
                if n == 5 {
                    SpecDecoded::Done(FrameView::Have { index: be32_of(body) }, 9)
                } else {
                    SpecDecoded::Bad(WireError::PayloadLengthMismatch)
                }
            } else if id == 5 {
                SpecDecoded::Done(FrameView::Bitfield { bits: body }, 4 + n)
            } else if id == 6 {
                if n == 13 {
                    SpecDecoded::Done(
                        FrameView::Request {
                            index: be32_of(body.subrange(0, 4)),
                            offset: be32_of(body.subrange(4, 8)),
                            length: be32_of(body.subrange(8, 12)),
                        },
                        17,
                    )
                } else {
                    SpecDecoded::Bad(WireError::PayloadLengthMismatch)
                }
            } else if id == 7 {
                if n >= 9 {
                    SpecDecoded::Done(
                        FrameView::Piece {
                            index: be32_of(body.subrange(0, 4)),
                            offset: be32_of(body.subrange(4, 8)),
                            data: body.subrange(8, body.len() as int),
                        },
                        4 + n,
                    )
                } else {
                    SpecDecoded::Bad(WireError::PayloadLengthMismatch)
                }
            } else if id == 8 {
                if n == 13 {
                    SpecDecoded::Done(
                        FrameView::Cancel {
                            index: be32_of(body.subrange(0, 4)),
                            offset: be32_of(body.subrange(4, 8)),
                            length: be32_of(body.subrange(8, 12)),
                        },
                        17,
                    )
                } else {
                    SpecDecoded::Bad(WireError::PayloadLengthMismatch)
                }
            } else if id == 9 {
                if n == 3 {
                    SpecDecoded::Done(FrameView::Port { port: be16_of(body) }, 7)
                } else {
                    SpecDecoded::Bad(WireError::PayloadLengthMismatch)
                }
            } else {
                SpecDecoded::Bad(WireError::UnknownMessageId)
            }
        }
    }
}

/// Static encoders for outgoing messages, and the decoder for incoming ones.
pub struct Message {}

impl Message {
    /// Encode any frame value as its wire bytes.
    pub fn encode(f: &Frame) -> (r: Vec<u8>)
        requires
            frame_valid(f@),
            spec_encode(f@).len() <= usize::MAX,
        ensures
            r@ == spec_encode(f@),
    {
        let mut out: Vec<u8> = Vec::new();
        match f {
            Frame::KeepAlive => {
                push_be32(&mut out, 0);
            },
            Frame::Choke => {
                push_be32(&mut out, 1);
                out.push(0u8);
            },
            Frame::Unchoke => {
                push_be32(&mut out, 1);
                out.push(1u8);
            },
            Frame::Interested => {
                push_be32(&mut out, 1);
                out.push(2u8);
            },
            Frame::NotInterested => {
                push_be32(&mut out, 1);
                out.push(3u8);
            },
            Frame::Have { index } => {
                push_be32(&mut out, 5);
                out.push(4u8);
                push_be32(&mut out, *index);
            },
            Frame::Bitfield { bits } => {
                push_be32(&mut out, 1 + bits.len() as u32);
                out.push(5u8);
                push_bytes(&mut out, bits);
            },
            Frame::Request { index, offset, length } => {
                push_be32(&mut out, 13);
                out.push(6u8);
                push_be32(&mut out, *index);
                push_be32(&mut out, *offset);
                push_be32(&mut out, *length);
            },
            Frame::Piece { index, offset, data } => {
                push_be32(&mut out, 9 + data.len() as u32);
                out.push(7u8);
                push_be32(&mut out, *index);
                push_be32(&mut out, *offset);
                push_bytes(&mut out, data);
            },
            Frame::Cancel { index, offset, length } => {
                push_be32(&mut out, 13);
                out.push(8u8);
                push_be32(&mut out, *index);
                push_be32(&mut out, *offset);
                push_be32(&mut out, *length);
            },
            Frame::Port { port } => {
                push_be32(&mut out, 3);
                out.push(9u8);
                push_be16(&mut out, *port);
            },
        }
        proof {
            assert(out@ =~= spec_encode(f@));
        }
        out
    }

    /// Decode the frame at the front of a receive buffer, if a whole one has
    /// arrived.
    pub fn decode(buf: &Vec<u8>) -> (r: DecodeResult)
        ensures
            decode_result_view(r) == spec_decode(buf@),
    {
        let total = buf.len();
        if total < 4 {
            return DecodeResult::Incomplete;
        }
        let n32 = read_be32(buf, 0);
        let n = n32 as usize;
        if n == 0 {
            return DecodeResult::Done(Frame::KeepAlive, 4);
        }
        if total - 4 < n {
            return DecodeResult::Incomplete;
        }
        let id = buf[4];
        let used = 4 + n;
        proof {
            assert(buf@.subrange(5, 4 + n as int).len() == n - 1);
        }
        if id == 0 || id == 1 || id == 2 || id == 3 {
            if n != 1 {
                return DecodeResult::Bad(WireError::PayloadLengthMismatch);
            }
            if id == 0 {
                return DecodeResult::Done(Frame::Choke, 5);
            }
            if id == 1 {
                return DecodeResult::Done(Frame::Unchoke, 5);
            }
            if id == 2 {
                return DecodeResult::Done(Frame::Interested, 5);
            }
            return DecodeResult::Done(Frame::NotInterested, 5);
        }
        if id == 4 {
            if n != 5 {
                return DecodeResult::Bad(WireError::PayloadLengthMismatch);
            }
            let index = read_be32(buf, 5);
            proof {
                assert(buf@.subrange(5, 9) =~= buf@.subrange(5, 4 + n as int));
            }
            return DecodeResult::Done(Frame::Have { index }, 9);
        }
        if id == 5 {
            let bits = copy_range(buf, 5, used);
            return DecodeResult::Done(Frame::Bitfield { bits }, used);
        }
        if id == 6 || id == 8 {
            if n != 13 {
                return DecodeResult::Bad(WireError::PayloadLengthMismatch);
            }
            let index = read_be32(buf, 5);
            let offset = read_be32(buf, 9);
            let length = read_be32(buf, 13);
            proof {
                let body = buf@.subrange(5, 4 + n as int);
                assert(buf@.subrange(5, 9) =~= body.subrange(0, 4));
                assert(buf@.subrange(9, 13) =~= body.subrange(4, 8));
                assert(buf@.subrange(13, 17) =~= body.subrange(8, 12));
            }
            if id == 6 {
                return DecodeResult::Done(Frame::Request { index, offset, length }, 17);
            }
            return DecodeResult::Done(Frame::Cancel { index, offset, length }, 17);
        }
        if id == 7 {
            if n < 9 {
                return DecodeResult::Bad(WireError::PayloadLengthMismatch);
            }
            let index = read_be32(buf, 5);
            let offset = read_be32(buf, 9);
            let data = copy_range(buf, 13, used);
            proof {
                let body = buf@.subrange(5, 4 + n as int);
                assert(buf@.subrange(5, 9) =~= body.subrange(0, 4));
                assert(buf@.subrange(9, 13) =~= body.subrange(4, 8));
                assert(buf@.subrange(13, used as int) =~= body.subrange(8, body.len() as int));
            }
            return DecodeResult::Done(Frame::Piece { index, offset, data }, used);
        }
        if id == 9 {
            if n != 3 {
                return DecodeResult::Bad(WireError::PayloadLengthMismatch);
            }
            let port = read_be16(buf, 5);
            proof {
                assert(buf@.subrange(5, 7) =~= buf@.subrange(5, 4 + n as int));
            }
            return DecodeResult::Done(Frame::Port { port }, 7);
        }
        DecodeResult::Bad(WireError::UnknownMessageId)
    }

    /// The bytes that close a byte stream mid-frame are a transport fault.
    pub fn stream_end(buf: &Vec<u8>) -> (r: Result<(), WireError>)
        ensures
            r is Ok <==> buf@.len() == 0,
            r is Err ==> r == Result::<(), WireError>::Err(WireError::TruncatedFrame),
    {
        if buf.len() == 0 {
            Ok(())
        } else {
            Err(WireError::TruncatedFrame)
        }
    }

    pub fn keep_alive() -> (r: Vec<u8>)
        ensures
            r@ == spec_encode(FrameView::KeepAlive),
    {
        Message::encode(&Frame::KeepAlive)
    }

    pub fn choke() -> (r: Vec<u8>)
        ensures
            r@ == spec_encode(FrameView::Choke),
    {
        Message::encode(&Frame::Choke)
    }

    pub fn unchoke() -> (r: Vec<u8>)
        ensures
            r@ == spec_encode(FrameView::Unchoke),
    {
        Message::encode(&Frame::Unchoke)
    }

    pub fn interested() -> (r: Vec<u8>)
        ensures
            r@ == spec_encode(FrameView::Interested),
    {
        Message::encode(&Frame::Interested)
    }

    pub fn not_interested() -> (r: Vec<u8>)
        ensures
            r@ == spec_encode(FrameView::NotInterested),
    {
        Message::encode(&Frame::NotInterested)
    }

    pub fn have(piece_index: u32) -> (r: Vec<u8>)
        ensures
            r@ == spec_encode(FrameView::Have { index: piece_index }),
    {
        Message::encode(&Frame::Have { index: piece_index })
    }

    /// Encode the advertisement of the pieces in `bf`: the byte-packed bits
    /// behind a `bitfield` header.
    pub fn bitfield(bf: &Bitfield) -> (r: Vec<u8>)
        requires
            bf@.len() <= u32::MAX - 7,
        ensures
            r@.len() == 5 + packed_len(bf@.len() as int),
            r@ == spec_encode(
                FrameView::Bitfield { bits: r@.subrange(5, r@.len() as int) },
            ),
            packs(bf@, r@.subrange(5, r@.len() as int)),
    {
        let packed = bf.to_bytes();
        let f = Frame::Bitfield { bits: packed };
        let r = Message::encode(&f);
        proof {
            assert(r@.subrange(5, r@.len() as int) =~= f@->Bitfield_bits);
        }
        r
    }

    pub fn request(piece_index: u32, block_offset: u32, block_length: u32) -> (r: Vec<u8>)
        ensures
            r@ == spec_encode(
                FrameView::Request {
                    index: piece_index,
                    offset: block_offset,
                    length: block_length,
                },
            ),
    {
        Message::encode(&Frame::Request { index: piece_index, offset: block_offset, length: block_length })
    }

    /// Encode a `piece` reply carrying `block` at `block_offset` of piece
    /// `piece_index`.
    pub fn piece(piece_index: u32, block_offset: u32, block: Vec<u8>) -> (r: Vec<u8>)
        requires
            9 + block@.len() <= u32::MAX,
            13 + block@.len() <= usize::MAX,
        ensures
            r@ == spec_encode(
                FrameView::Piece { index: piece_index, offset: block_offset, data: block@ },
            ),
    {
        Message::encode(&Frame::Piece { index: piece_index, offset: block_offset, data: block })
    }

    pub fn cancel(piece_index: u32, block_offset: u32, block_length: u32) -> (r: Vec<u8>)
        ensures
            r@ == spec_encode(
                FrameView::Cancel {
                    index: piece_index,
                    offset: block_offset,
                    length: block_length,
                },
            ),
    {
        Message::encode(&Frame::Cancel { index: piece_index, offset: block_offset, length: block_length })
    }

    pub fn port(port: u16) -> (r: Vec<u8>)
        ensures
            r@ == spec_encode(FrameView::Port { port }),
    {
        Message::encode(&Frame::Port { port })
    }
}

/// The 19 bytes of the protocol-name literal that a handshake carries.
pub open spec fn spec_protocol() -> Seq<u8> {
    seq![
        66u8, 105u8, 116u8, 84u8, 111u8, 114u8, 114u8, 101u8, 110u8, 116u8, 32u8, 112u8, 114u8,
        111u8, 116u8, 111u8, 99u8, 111u8, 108u8,
    ]
}

/// The protocol-name literal as bytes ("BitTorrent protocol").
pub fn protocol_name() -> (r: Vec<u8>)
    ensures
        r@ == spec_protocol(),
        r@.len() == 19,
{
    let mut out: Vec<u8> = Vec::new();
    out.push(66u8);
    out.push(105u8);
    out.push(116u8);
    out.push(84u8);
    out.push(111u8);
    out.push(114u8);
    out.push(114u8);
    out.push(101u8);
    out.push(110u8);
    out.push(116u8);
    out.push(32u8);
    out.push(112u8);
    out.push(114u8);
    out.push(111u8);
    out.push(116u8);
    out.push(111u8);
    out.push(99u8);
    out.push(111u8);
    out.push(108u8);
    proof {
        assert(out@ =~= spec_protocol());
    }
    out
}

/// The handshake each side sends once, before any framed message.
#[derive(Clone, PartialEq, Debug)]
pub struct Handshake {
    pub info_hash: Vec<u8>,
    pub peer_id: Vec<u8>,
}

impl Handshake {
    /// Both digests are 20 bytes.
    pub open spec fn wf(&self) -> bool {
        self.info_hash@.len() == 20 && self.peer_id@.len() == 20
    }
}

/// Eight reserved bytes, all zero.
pub open spec fn spec_reserved() -> Seq<u8> {
    seq![0u8, 0u8, 0u8, 0u8, 0u8, 0u8, 0u8, 0u8]
}

/// The exact 68 bytes of a handshake: length byte 19, the protocol-name
/// literal, 8 reserved zero bytes, the info-hash, the local peer id.
pub open spec fn spec_encode_handshake(info_hash: Seq<u8>, peer_id: Seq<u8>) -> Seq<u8> {
    seq![19u8] + spec_protocol() + spec_reserved() + info_hash + peer_id
}

/// What decoding a received handshake against the expected info-hash yields.
pub open spec fn spec_decode_handshake(s: Seq<u8>, expected: Seq<u8>) -> Result<
    (Seq<u8>, Seq<u8>),
    WireError,
> {
    if s.len() != 68 || s[0] != 19u8 {
        Err(WireError::MalformedHandshake)
    } else if s.subrange(1, 20) != spec_protocol() {
        Err(WireError::ProtocolMismatch)
    } else if s.subrange(28, 48) != expected {
        Err(WireError::InfoHashMismatch)
    } else {
        Ok((s.subrange(28, 48), s.subrange(48, 68)))
    }
}

impl Message {
    /// Encode a handshake as its fixed 68 bytes.
    pub fn encode_handshake(h: &Handshake) -> (r: Vec<u8>)
        requires
            h.wf(),
        ensures
            r@ == spec_encode_handshake(h.info_hash@, h.peer_id@),
            r@.len() == 68,
    {
        let mut out: Vec<u8> = Vec::new();
        out.push(19u8);
        let name = protocol_name();
        push_bytes(&mut out, &name);
        let mut k: usize = 0;
        while k < 8
            invariant
                k <= 8,
                out@ == seq![19u8] + spec_protocol() + spec_reserved().subrange(0, k as int),
            decreases 8 - k,
        {
            out.push(0u8);
            proof {
                assert(out@ =~= seq![19u8] + spec_protocol() + spec_reserved().subrange(
                    0,
                    k + 1,
                ));
            }
            k = k + 1;
        }
        push_bytes(&mut out, &h.info_hash);
        push_bytes(&mut out, &h.peer_id);
        proof {
            assert(spec_reserved().subrange(0, 8) =~= spec_reserved());
            assert(out@ =~= spec_encode_handshake(h.info_hash@, h.peer_id@));
        }
        out
    }

    /// Decode a received handshake, checking the length byte, the
    /// protocol-name literal, and that the info-hash is the expected one.
    pub fn decode_handshake(buf: &Vec<u8>, expected_info_hash: &Vec<u8>) -> (r: Result<
        Handshake,
        WireError,
    >)
        ensures
            match r {
                Ok(h) => spec_decode_handshake(buf@, expected_info_hash@) == Ok::<
                    (Seq<u8>, Seq<u8>),
                    WireError,
                >((h.info_hash@, h.peer_id@)) && h.wf(),
                Err(e) => spec_decode_handshake(buf@, expected_info_hash@) == Err::<
                    (Seq<u8>, Seq<u8>),
                    WireError,
                >(e),
            },
    {
        if buf.len() != 68 {
            return Err(WireError::MalformedHandshake);
        }
        if buf[0] != 19u8 {
            return Err(WireError::MalformedHandshake);
        }
        let name = protocol_name();
        if !range_eq(buf, 1, &name) {
            return Err(WireError::ProtocolMismatch);
        }
        let info_hash = copy_range(buf, 28, 48);
        if !bytes_eq(&info_hash, expected_info_hash) {
            proof {
                assert(buf@.subrange(28, 48) != expected_info_hash@);
            }
            return Err(WireError::InfoHashMismatch);
        }
        let peer_id = copy_range(buf, 48, 68);
        Ok(Handshake { info_hash, peer_id })
    }
}

/// A handshake decodes back to itself when matched against its own
/// info-hash.
pub proof fn lemma_handshake_round_trip(info_hash: Seq<u8>, peer_id: Seq<u8>)
    requires
        info_hash.len() == 20,
        peer_id.len() == 20,
    ensures
        spec_decode_handshake(spec_encode_handshake(info_hash, peer_id), info_hash) == Ok::<
            (Seq<u8>, Seq<u8>),
            WireError,
        >((info_hash, peer_id)),
{
    let s = spec_encode_handshake(info_hash, peer_id);
    assert(s.len() == 68);
    assert(s[0] == 19u8);
    assert(s.subrange(1, 20) =~= spec_protocol());
    assert(s.subrange(28, 48) =~= info_hash);
    assert(s.subrange(48, 68) =~= peer_id);
}

/// Decoding rejects any input whose length byte is not 19 or whose
/// protocol-name literal differs, whatever the other fields hold.
pub proof fn lemma_handshake_rejects(s: Seq<u8>, expected: Seq<u8>)
    requires
        s.len() != 68 || s[0] != 19u8 || s.subrange(1, 20) != spec_protocol(),
    ensures
        spec_decode_handshake(s, expected) is Err,
{
}

/// Every well-formed frame decodes back to itself: the codec loses nothing.
pub proof fn lemma_frame_round_trip(v: FrameView)
    requires
        frame_valid(v),
    ensures
        spec_decode(spec_encode(v)) == SpecDecoded::Done(v, spec_encode(v).len() as int),
{
    let s = spec_encode(v);
    match v {
        FrameView::KeepAlive => {
            assert(s.subrange(0, 4) =~= be32(0));
            lemma_be32_round_trip(0);
        },
        FrameView::Choke => {
            assert(s.subrange(0, 4) =~= be32(1));
            lemma_be32_round_trip(1);
            assert(s[4] == 0u8);
        },
        FrameView::Unchoke => {
            assert(s.subrange(0, 4) =~= be32(1));
            lemma_be32_round_trip(1);
            assert(s[4] == 1u8);
        },
        FrameView::Interested => {
            assert(s.subrange(0, 4) =~= be32(1));
            lemma_be32_round_trip(1);
            assert(s[4] == 2u8);
        },
        FrameView::NotInterested => {
            assert(s.subrange(0, 4) =~= be32(1));
            lemma_be32_round_trip(1);
            assert(s[4] == 3u8);
        },
        FrameView::Have { index } => {
            assert(s.subrange(0, 4) =~= be32(5));
            lemma_be32_round_trip(5);
            assert(s[4] == 4u8);
            assert(s.subrange(5, 9) =~= be32(index));
            lemma_be32_round_trip(index);
        },
        FrameView::Bitfield { bits } => {
            let n = (1 + bits.len()) as u32;
            assert(s.subrange(0, 4) =~= be32(n));
            lemma_be32_round_trip(n);
            assert(s[4] == 5u8);
            assert(s.subrange(5, 4 + n as int) =~= bits);
        },
        FrameView::Request { index, offset, length } => {
            assert(s.subrange(0, 4) =~= be32(13));
            lemma_be32_round_trip(13);
            assert(s[4] == 6u8);
            let body = s.subrange(5, 17);
            assert(body.subrange(0, 4) =~= be32(index));
            assert(body.subrange(4, 8) =~= be32(offset));
            assert(body.subrange(8, 12) =~= be32(length));
            lemma_be32_round_trip(index);
            lemma_be32_round_trip(offset);
            lemma_be32_round_trip(length);
        },
        FrameView::Piece { index, offset, data } => {
            let n = (9 + data.len()) as u32;
            assert(s.subrange(0, 4) =~= be32(n));
            lemma_be32_round_trip(n);
            assert(s[4] == 7u8);
            let body = s.subrange(5, 4 + n as int);
            assert(body.subrange(0, 4) =~= be32(index));
            assert(body.subrange(4, 8) =~= be32(offset));
            assert(body.subrange(8, body.len() as int) =~= data);
            lemma_be32_round_trip(index);
            lemma_be32_round_trip(offset);
        },
        FrameView::Cancel { index, offset, length } => {
            assert(s.subrange(0, 4) =~= be32(13));
            lemma_be32_round_trip(13);
            assert(s[4] == 8u8);
            let body = s.subrange(5, 17);
            assert(body.subrange(0, 4) =~= be32(index));
            assert(body.subrange(4, 8) =~= be32(offset));
            assert(body.subrange(8, 12) =~= be32(length));
            lemma_be32_round_trip(index);
            lemma_be32_round_trip(offset);
            lemma_be32_round_trip(length);
        },
        FrameView::Port { port } => {
            assert(s.subrange(0, 4) =~= be32(3));
            lemma_be32_round_trip(3);
            assert(s[4] == 9u8);
            assert(s.subrange(5, 7) =~= be16(port));
            lemma_be16_round_trip(port);
        },
    }
}

} // verus!
