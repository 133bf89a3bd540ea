use vstd::prelude::*;
use vstd::slice::slice_to_vec;

verus! {

/// Number of bytes in a stream or client identifier.
pub const ID_LEN: usize = 16;

/// A 128-bit identifier of one end-user stream, held as its 16 wire bytes.
#[derive(Debug, Clone)]
pub struct StreamId {
    pub bytes: Vec<u8>,
}

/// A 128-bit identifier of one connected client, held as its 16 bytes.
#[derive(Debug, Clone)]
pub struct ClientId {
    pub bytes: Vec<u8>,
}

impl View for StreamId {
    type V = Seq<u8>;

    open spec fn view(&self) -> Seq<u8> {
        self.bytes@
    }
}

impl View for ClientId {
    type V = Seq<u8>;

    open spec fn view(&self) -> Seq<u8> {
        self.bytes@
    }
}

impl StreamId {
    pub open spec fn wf(&self) -> bool {
        self@.len() == ID_LEN
    }

    /// Builds an identifier from exactly sixteen bytes.
    pub fn from_bytes(b: &[u8]) -> (r: Option<StreamId>)
        ensures
            r.is_some() <==> b@.len() == ID_LEN,
            r matches Some(id) ==> id@ == b@,
    {
        if b.len() == ID_LEN {
            Some(StreamId { bytes: slice_to_vec(b) })
        } else {
            None
        }
    }

    /// Mints a fresh random identifier.
    pub fn generate() -> (r: StreamId)
        ensures
            r.wf(),
    {
        StreamId { bytes: random_id_bytes() }
    }

    pub fn same(&self, other: &StreamId) -> (r: bool)
        ensures
            r == (self@ == other@),
    {
        bytes_equal(&self.bytes, &other.bytes)
    }

    pub fn duplicate(&self) -> (r: StreamId)
        ensures
            r@ == self@,
    {
        StreamId { bytes: slice_to_vec(self.bytes.as_slice()) }
    }
}

impl ClientId {
    pub open spec fn wf(&self) -> bool {
        self@.len() == ID_LEN
    }

    /// Builds an identifier from exactly sixteen bytes.
    pub fn from_bytes(b: &[u8]) -> (r: Option<ClientId>)
        ensures
            r.is_some() <==> b@.len() == ID_LEN,
            r matches Some(id) ==> id@ == b@,
    {
        if b.len() == ID_LEN {
            Some(ClientId { bytes: slice_to_vec(b) })
        } else {
            None
        }
    }

    /// Mints a fresh random identifier.
    pub fn generate() -> (r: ClientId)
        ensures
            r.wf(),
    {
        ClientId { bytes: random_id_bytes() }
    }

    pub fn same(&self, other: &ClientId) -> (r: bool)
        ensures
            r == (self@ == other@),
    {
        bytes_equal(&self.bytes, &other.bytes)
    }

    pub fn duplicate(&self) -> (r: ClientId)
        ensures
            r@ == self@,
    {
        ClientId { bytes: slice_to_vec(self.bytes.as_slice()) }
    }
}

/// Compares two byte strings element by element.
pub fn bytes_equal(a: &Vec<u8>, b: &Vec<u8>) -> (r: bool)
    ensures
        r == (a@ == b@),
{
    if a.len() != b.len() {
        return false;
    }
    let mut i: usize = 0;
    while i < a.len()
        invariant
            a@.len() == b@.len(),
            0 <= i <= a@.len(),
            forall|j: int| 0 <= j < i ==> a@[j] == b@[j],
        decreases a@.len() - i,
    {
        if a[i] != b[i] {
            return false;
        }
        i = i + 1;
    }
    assert(a@ =~= b@);
    true
}

/// Relies on uuid::Uuid::new_v4 and Uuid::into_bytes: a random UUID is
/// sixteen bytes.
#[verifier::external_body]
pub(crate) fn random_id_bytes() -> (r: Vec<u8>)
    ensures
        r@.len() == ID_LEN,
{
    uuid::Uuid::new_v4().into_bytes().to_vec()
}

} // verus!
