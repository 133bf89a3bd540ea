use vstd::prelude::*;
use vstd::slice::{slice_subrange, slice_to_vec};
use vstd::utf8::{decode_utf8, encode_utf8, valid_utf8};

use crate::hello::string_from_utf8;

verus! {

pub const TAG_WHO_HAS: u8 = 1;

pub const TAG_FORWARD: u8 = 2;

/// A command on the internal port between server instances.
#[derive(Debug, Clone)]
pub enum PeerCommand {
    /// Asks whether the peer holds a session for the subdomain.
    WhoHas(String),
    /// Opens a stream to the session for the subdomain; raw bytes follow.
    ForwardStream(String),
}

pub enum PeerView {
    WhoHas(Seq<char>),
    ForwardStream(Seq<char>),
}

impl View for PeerCommand {
    type V = PeerView;

    open spec fn view(&self) -> PeerView {
        match self {
            PeerCommand::WhoHas(s) => PeerView::WhoHas(s@),
            PeerCommand::ForwardStream(s) => PeerView::ForwardStream(s@),
        }
    }
}

/// Why a peer command could not be read.
#[derive(Debug, Clone, Copy, PartialEq, Eq, Structural)]
pub enum PeerDecodeError {
    /// Shorter than a tag and a length.
    Truncated,
    UnknownTag(u8),
    /// The length field disagrees with the bytes that follow.
    BadLength,
    /// The subdomain is not UTF-8.
    BadText,
}

impl PeerView {
    pub open spec fn text(self) -> Seq<char> {
        match self {
            PeerView::WhoHas(s) => s,
            PeerView::ForwardStream(s) => s,
        }
    }

    pub open spec fn tag(self) -> u8 {
        match self {
            PeerView::WhoHas(_) => TAG_WHO_HAS,
            PeerView::ForwardStream(_) => TAG_FORWARD,
        }
    }

    /// The subdomain's bytes fit the 16-bit length field.
    pub open spec fn wf(self) -> bool {
        encode_utf8(self.text()).len() <= u16::MAX
    }
}

pub open spec fn be16_value(a: u8, b: u8) -> int {
    a as int * 256 + b as int
}

/// A tag, the big-endian 16-bit length of the subdomain's UTF-8 bytes, then
/// those bytes.
pub open spec fn peer_encoding(p: PeerView) -> Seq<u8> {
    let t = encode_utf8(p.text());
    seq![p.tag(), (t.len() / 256) as u8, (t.len() % 256) as u8] + t
}

/// What a frame on the internal port reads as, if it is a command.
pub open spec fn peer_decode_view(b: Seq<u8>) -> Option<PeerView> {
    if b.len() < 3 || (b[0] != TAG_WHO_HAS && b[0] != TAG_FORWARD) || b.len() != 3 + be16_value(
        b[1],
        b[2],
    ) || !valid_utf8(b.subrange(3, b.len() as int)) {
        None
    } else {
        let s = decode_utf8(b.subrange(3, b.len() as int));
        Some(
            if b[0] == TAG_WHO_HAS {
                PeerView::WhoHas(s)
            } else {
                PeerView::ForwardStream(s)
            },
        )
    }
}

/// Reading the frame of a command gives the command back, and a frame that
/// reads as a command is exactly that command's frame.
pub proof fn lemma_peer_round_trip(p: PeerView, b: Seq<u8>)
    requires
        p.wf(),
    ensures
        peer_decode_view(peer_encoding(p)) == Some(p),
        peer_decode_view(b) == Some(p) ==> b == peer_encoding(p),
{
    let t = encode_utf8(p.text());
    let e = peer_encoding(p);
    assert(e.subrange(3, e.len() as int) =~= t);
    vstd::utf8::encode_utf8_valid_utf8(p.text());
    vstd::utf8::encode_utf8_decode_utf8(p.text());
    if peer_decode_view(b) == Some(p) {
        let payload = b.subrange(3, b.len() as int);
        vstd::utf8::decode_utf8_encode_utf8(payload);
        assert(b =~= peer_encoding(p));
    }
}

impl PeerCommand {
    pub open spec fn wf(&self) -> bool {
        self@.wf()
    }

    pub fn serialize(&self) -> (r: Vec<u8>)
        requires
            self.wf(),
        ensures
            r@ == peer_encoding(self@),
    {
        let (tag, s) = match self {
            PeerCommand::WhoHas(s) => (TAG_WHO_HAS, s),
            PeerCommand::ForwardStream(s) => (TAG_FORWARD, s),
        };
        let bytes = s.as_str().as_bytes();
        let n = bytes.len();
        let mut out: Vec<u8> = Vec::new();
        out.push(tag);
        out.push((n / 256) as u8);
        out.push((n % 256) as u8);
        out.extend_from_slice(bytes);
        assert(out@ =~= peer_encoding(self@));
        out
    }

    /// Reads a command; it is accepted exactly when it is a command's frame.
    pub fn deserialize(b: &[u8]) -> (r: Result<PeerCommand, PeerDecodeError>)
        ensures
            match r {
                Ok(p) => peer_decode_view(b@) == Some(p@) && p.wf(),
                Err(e) => peer_decode_view(b@).is_none() && e == (if b@.len() < 3 {
                    PeerDecodeError::Truncated
                } else if b@[0] != TAG_WHO_HAS && b@[0] != TAG_FORWARD {
                    PeerDecodeError::UnknownTag(b@[0])
                } else if b@.len() != 3 + be16_value(b@[1], b@[2]) {
                    PeerDecodeError::BadLength
                } else {
                    PeerDecodeError::BadText
                }),
            },
    {
        let n = b.len();
        if n < 3 {
            return Err(PeerDecodeError::Truncated);
        }
        let tag = b[0];
        if tag != TAG_WHO_HAS && tag != TAG_FORWARD {
            return Err(PeerDecodeError::UnknownTag(tag));
        }
        let len: usize = (b[1] as usize) * 256 + (b[2] as usize);
        if n - 3 != len {
            return Err(PeerDecodeError::BadLength);
        }
        let payload = slice_to_vec(slice_subrange(b, 3, n));
        let ghost pv = payload@;
        match string_from_utf8(payload) {
            Some(s) => {
                proof {
                    vstd::utf8::encode_utf8_decode_utf8(s@);
                    assert(pv == b@.subrange(3, b@.len() as int));
                }
                if tag == TAG_WHO_HAS {
                    Ok(PeerCommand::WhoHas(s))
                } else {
                    Ok(PeerCommand::ForwardStream(s))
                }
            },
            None => Err(PeerDecodeError::BadText),
        }
    }
}

/// The one-byte answer to `WhoHas`.
pub fn encode_answer(yes: bool) -> (r: u8)
    ensures
        r == (if yes {
            1u8
        } else {
            0u8
        }),
{
    if yes {
        1
    } else {
        0
    }
}

/// Reads the answer to `WhoHas`: `1` is yes, `0` is no, anything else is
/// not an answer.
pub fn decode_answer(b: u8) -> (r: Option<bool>)
    ensures
        r == (if b == 1 {
            Some(true)
        } else if b == 0 {
            Some(false)
        } else {
            None::<bool>
        }),
{
    if b == 1 {
        Some(true)
    } else if b == 0 {
        Some(false)
    } else {
        None
    }
}

} // verus!
