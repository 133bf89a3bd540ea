use vstd::prelude::*;
use vstd::slice::{slice_subrange, slice_to_vec};

use crate::ident::{StreamId, ID_LEN};

verus! {

pub const TAG_INIT: u8 = 1;

pub const TAG_DATA: u8 = 2;

pub const TAG_REFUSED: u8 = 3;

pub const TAG_END: u8 = 4;

pub const TAG_PING: u8 = 5;

/// A frame of the control link after the hello exchange.
#[derive(Debug, Clone)]
pub enum ControlPacket {
    Init(StreamId),
    Data(StreamId, Vec<u8>),
    Refused(StreamId),
    End(StreamId),
    Ping,
}

/// The mathematical content of a `ControlPacket`.
pub enum PacketView {
    Init(Seq<u8>),
    Data(Seq<u8>, Seq<u8>),
    Refused(Seq<u8>),
    End(Seq<u8>),
    Ping,
}

impl View for ControlPacket {
    type V = PacketView;

    open spec fn view(&self) -> PacketView {
        match self {
            ControlPacket::Init(id) => PacketView::Init(id@),
            ControlPacket::Data(id, d) => PacketView::Data(id@, d@),
            ControlPacket::Refused(id) => PacketView::Refused(id@),
            ControlPacket::End(id) => PacketView::End(id@),
            ControlPacket::Ping => PacketView::Ping,
        }
    }
}

/// Why a frame could not be read.
#[derive(Debug, Clone, Copy, PartialEq, Eq, Structural)]
pub enum DecodeError {
    /// The frame holds no byte.
    Empty,
    /// The first byte names no packet kind.
    UnknownTag(u8),
    /// The frame is shorter or longer than its kind and length field say.
    BadLength,
}

impl PacketView {
    /// Identifiers are sixteen bytes and a payload's length fits the u32 field.
    pub open spec fn wf(self) -> bool {
        match self {
            PacketView::Init(id) => id.len() == ID_LEN,
            PacketView::Data(id, d) => id.len() == ID_LEN && d.len() <= u32::MAX,
            PacketView::Refused(id) => id.len() == ID_LEN,
            PacketView::End(id) => id.len() == ID_LEN,
            PacketView::Ping => true,
        }
    }
}

/// The four big-endian bytes of `n`.
pub open spec fn be32_bytes(n: u32) -> Seq<u8> {
    seq![(n >> 24u32) as u8, (n >> 16u32) as u8, (n >> 8u32) as u8, n as u8]
}

/// The number that four big-endian bytes stand for.
pub open spec fn be32_value(a: u8, b: u8, c: u8, d: u8) -> u32 {
    ((a as u32) << 24u32) | ((b as u32) << 16u32) | ((c as u32) << 8u32) | (d as u32)
}

/// The bytes on the wire for a packet: a tag, the stream identifier where the
/// kind has one, then for `Data` a big-endian u32 length and the payload.
pub open spec fn encoding(p: PacketView) -> Seq<u8> {
    match p {
        PacketView::Init(id) => seq![TAG_INIT] + id,
        PacketView::Data(id, d) => seq![TAG_DATA] + id + be32_bytes(d.len() as u32) + d,
        PacketView::Refused(id) => seq![TAG_REFUSED] + id,
        PacketView::End(id) => seq![TAG_END] + id,
        PacketView::Ping => seq![TAG_PING],
    }
}

/// Offset of a `Data` payload in its frame.
pub open spec fn data_header_len() -> int {
    1 + ID_LEN + 4
}

/// The declared payload length of a `Data` frame.
pub open spec fn declared_len(b: Seq<u8>) -> u32 {
    be32_value(b[17], b[18], b[19], b[20])
}

/// What a frame reads as, if it is one.
pub open spec fn decode_view(b: Seq<u8>) -> Option<PacketView> {
    if b.len() == 0 {
        None
    } else if b[0] == TAG_PING {
        if b.len() == 1 {
            Some(PacketView::Ping)
        } else {
            None
        }
    } else if b[0] == TAG_INIT || b[0] == TAG_REFUSED || b[0] == TAG_END {
        if b.len() == 1 + ID_LEN {
            let id = b.subrange(1, 1 + ID_LEN as int);
            Some(
                if b[0] == TAG_INIT {
                    PacketView::Init(id)
                } else if b[0] == TAG_REFUSED {
                    PacketView::Refused(id)
                } else {
                    PacketView::End(id)
                },
            )
        } else {
            None
        }
    } else if b[0] == TAG_DATA {
        if b.len() >= data_header_len() && b.len() == data_header_len() + declared_len(b) {
            Some(
                PacketView::Data(b.subrange(1, 1 + ID_LEN as int), b.subrange(data_header_len(), b.len() as int)),
            )
        } else {
            None
        }
    } else {
        None
    }
}

pub open spec fn known_tag(t: u8) -> bool {
    TAG_INIT <= t <= TAG_PING
}

proof fn lemma_be32_round_trip(n: u32)
    ensures
        be32_value(be32_bytes(n)[0], be32_bytes(n)[1], be32_bytes(n)[2], be32_bytes(n)[3]) == n,
{
    let a = (n >> 24u32) as u8;
    let b = (n >> 16u32) as u8;
    let c = (n >> 8u32) as u8;
    let d = n as u8;
    assert(((a as u32) << 24u32) | ((b as u32) << 16u32) | ((c as u32) << 8u32) | (d as u32) == n)
        by (bit_vector)
        requires
            a == (n >> 24u32) as u8,
            b == (n >> 16u32) as u8,
            c == (n >> 8u32) as u8,
            d == n as u8,
    ;
}

/// Reading the bytes of any well-formed packet gives that packet back, and a
/// frame that reads as a packet is exactly that packet's bytes: encoding and
/// decoding are inverse to each other for every packet kind.
pub proof fn lemma_packet_round_trip(p: PacketView, b: Seq<u8>)
    requires
        p.wf(),
    ensures
        decode_view(encoding(p)) == Some(p),
        decode_view(b) == Some(p) ==> b == encoding(p),
{
    let e = encoding(p);
    match p {
        PacketView::Init(id) => {
            assert(e.subrange(1, 17) =~= id);
        },
        PacketView::Refused(id) => {
            assert(e.subrange(1, 17) =~= id);
        },
        PacketView::End(id) => {
            assert(e.subrange(1, 17) =~= id);
        },
        PacketView::Data(id, d) => {
            let n = d.len() as u32;
            lemma_be32_round_trip(n);
            assert(e[17] == be32_bytes(n)[0]);
            assert(e[18] == be32_bytes(n)[1]);
            assert(e[19] == be32_bytes(n)[2]);
            assert(e[20] == be32_bytes(n)[3]);
            assert(e.subrange(1, 17) =~= id);
            assert(e.subrange(21, e.len() as int) =~= d);
        },
        PacketView::Ping => {},
    }
    if decode_view(b) == Some(p) {
        lemma_decode_encodes(b);
    }
}

/// A frame that reads as a packet is that packet's encoding.
proof fn lemma_decode_encodes(b: Seq<u8>)
    requires
        decode_view(b).is_some(),
    ensures
        decode_view(b).unwrap().wf(),
        encoding(decode_view(b).unwrap()) == b,
{
    let p = decode_view(b).unwrap();
    match p {
        PacketView::Data(id, d) => {
            let a0 = b[17];
            let a1 = b[18];
            let a2 = b[19];
            let a3 = b[20];
            let n = be32_value(a0, a1, a2, a3);
            assert((n >> 24u32) as u8 == a0 && (n >> 16u32) as u8 == a1 && (n >> 8u32) as u8 == a2
                && n as u8 == a3) by (bit_vector)
                requires
                    n == ((a0 as u32) << 24u32) | ((a1 as u32) << 16u32) | ((a2 as u32) << 8u32) | (
                    a3 as u32),
            ;
            assert(d.len() == n);
            assert(encoding(p) =~= b);
        },
        _ => {
            assert(encoding(p) =~= b);
        },
    }
}

impl ControlPacket {
    pub open spec fn wf(&self) -> bool {
        self@.wf()
    }

    /// The frame for this packet.
    pub fn serialize(&self) -> (r: Vec<u8>)
        requires
            self.wf(),
        ensures
            r@ == encoding(self@),
    {
        let mut out: Vec<u8> = Vec::new();
        match self {
            ControlPacket::Init(id) => {
                out.push(TAG_INIT);
                out.extend_from_slice(id.bytes.as_slice());
            },
            ControlPacket::Data(id, d) => {
                out.push(TAG_DATA);
                out.extend_from_slice(id.bytes.as_slice());
                let n = d.len() as u32;
                out.push((n >> 24u32) as u8);
                out.push((n >> 16u32) as u8);
                out.push((n >> 8u32) as u8);
                out.push(n as u8);
                out.extend_from_slice(d.as_slice());
            },
            ControlPacket::Refused(id) => {
                out.push(TAG_REFUSED);
                out.extend_from_slice(id.bytes.as_slice());
            },
            ControlPacket::End(id) => {
                out.push(TAG_END);
                out.extend_from_slice(id.bytes.as_slice());
            },
            ControlPacket::Ping => {
                out.push(TAG_PING);
            },
        }
        assert(out@ =~= encoding(self@));
        out
    }

    /// Reads one frame. A frame is accepted exactly when it is the encoding of
    /// some packet; otherwise the error says whether it was empty, carried an
    /// unknown tag, or had the wrong length for its kind.
    pub fn deserialize(b: &[u8]) -> (r: Result<ControlPacket, DecodeError>)
        ensures
            match r {
                Ok(p) => decode_view(b@) == Some(p@) && p.wf(),
                Err(e) => decode_view(b@).is_none() && e == (if b@.len() == 0 {
                    DecodeError::Empty
                } else if !known_tag(b@[0]) {
                    DecodeError::UnknownTag(b@[0])
                } else {
                    DecodeError::BadLength
                }),
            },
    {
        if b.len() == 0 {
            return Err(DecodeError::Empty);
        }
        let tag = b[0];
        if tag == TAG_PING {
            if b.len() == 1 {
                return Ok(ControlPacket::Ping);
            }
            return Err(DecodeError::BadLength);
        }
        if tag == TAG_INIT || tag == TAG_REFUSED || tag == TAG_END {
            if b.len() != 1 + ID_LEN {
                return Err(DecodeError::BadLength);
            }
            let id = StreamId { bytes: slice_to_vec(slice_subrange(b, 1, 1 + ID_LEN)) };
            let p = if tag == TAG_INIT {
                ControlPacket::Init(id)
            } else if tag == TAG_REFUSED {
                ControlPacket::Refused(id)
            } else {
                ControlPacket::End(id)
            };
            proof {
                lemma_decode_encodes(b@);
            }
            return Ok(p);
        }
        if tag == TAG_DATA {
            let header: usize = 1 + ID_LEN + 4;
            if b.len() < header {
                return Err(DecodeError::BadLength);
            }
            let n: u32 = ((b[17] as u32) << 24u32) | ((b[18] as u32) << 16u32) | ((b[19] as u32)
                << 8u32) | (b[20] as u32);
            if b.len() - header != n as usize {
                return Err(DecodeError::BadLength);
            }
            let id = StreamId { bytes: slice_to_vec(slice_subrange(b, 1, 1 + ID_LEN)) };
            let d = slice_to_vec(slice_subrange(b, header, b.len()));
            proof {
                lemma_decode_encodes(b@);
            }
            return Ok(ControlPacket::Data(id, d));
        }
        Err(DecodeError::UnknownTag(tag))
    }
}

} // verus!
