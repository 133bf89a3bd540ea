use vstd::prelude::*;

use crate::ident::{ClientId, StreamId};
use crate::registry::{removed, SessionView};

verus! {

/// The server-side state of one end-user connection relayed through a
/// control session.
#[derive(Debug)]
pub struct ActiveStream {
    pub id: StreamId,
    /// The client whose control session carries this stream.
    pub owner: ClientId,
    /// Set once the stream has been told to close.
    pub closing: bool,
}

pub struct StreamView {
    pub id: Seq<u8>,
    pub owner: Seq<u8>,
    pub closing: bool,
}

impl View for ActiveStream {
    type V = StreamView;

    open spec fn view(&self) -> StreamView {
        StreamView { id: self.id@, owner: self.owner@, closing: self.closing }
    }
}

impl ActiveStream {
    pub fn new(id: StreamId, owner: ClientId) -> (r: ActiveStream)
        ensures
            r@ == (StreamView { id: id@, owner: owner@, closing: false }),
    {
        ActiveStream { id, owner, closing: false }
    }
}

pub open spec fn ids_unique(v: Seq<StreamView>) -> bool {
    forall|i: int, j: int| 0 <= i < v.len() && 0 <= j < v.len() && i != j ==> v[i].id != v[j].id
}

pub open spec fn has_stream(v: Seq<StreamView>, id: Seq<u8>) -> bool {
    exists|i: int| 0 <= i < v.len() && v[i].id == id
}

/// Whether a client has a live session in a registry view.
pub open spec fn session_live(reg: Seq<SessionView>, client: Seq<u8>) -> bool {
    exists|i: int| 0 <= i < reg.len() && reg[i].client == client
}

/// Every stream is carried by a live session, or has been told to close.
pub open spec fn streams_owned(reg: Seq<SessionView>, v: Seq<StreamView>) -> bool {
    forall|i: int| 0 <= i < v.len() ==> session_live(reg, #[trigger] v[i].owner) || v[i].closing
}

/// The table after the streams of a client are told to close.
pub open spec fn closed_for(v: Seq<StreamView>, owner: Seq<u8>) -> Seq<StreamView> {
    v.map_values(
        |s: StreamView|
            if s.owner == owner {
                StreamView { closing: true, ..s }
            } else {
                s
            },
    )
}

/// The table once the stream `id` is told to close.
pub open spec fn closing_at(v: Seq<StreamView>, id: Seq<u8>) -> Seq<StreamView> {
    v.map_values(
        |s: StreamView|
            if s.id == id {
                StreamView { closing: true, ..s }
            } else {
                s
            },
    )
}

/// Telling a stream to close twice leaves the table as telling it once.
pub proof fn lemma_closing_idempotent(v: Seq<StreamView>, id: Seq<u8>)
    ensures
        closing_at(closing_at(v, id), id) == closing_at(v, id),
{
    assert(closing_at(closing_at(v, id), id) =~= closing_at(v, id));
}

/// When a session ends, removing it from the registry and closing its
/// streams keeps every stream either carried by a live session or closing.
pub proof fn lemma_session_end_keeps_streams_owned(
    reg: Seq<SessionView>,
    v: Seq<StreamView>,
    client: Seq<u8>,
)
    requires
        streams_owned(reg, v),
    ensures
        streams_owned(removed(reg, client), closed_for(v, client)),
{
    let r2 = removed(reg, client);
    let v2 = closed_for(v, client);
    let p = crate::registry::keep_pred(crate::registry::CriterionView::Client(client));
    assert forall|i: int| 0 <= i < v2.len() implies session_live(r2, #[trigger] v2[i].owner)
        || v2[i].closing by {
        if v[i].owner != client && !v[i].closing {
            let j = choose|j: int| 0 <= j < reg.len() && reg[j].client == v[i].owner;
            assert(p(reg[j]));
            reg.lemma_filter_contains(p, j);
            let m = choose|m: int| 0 <= m < r2.len() && r2[m] == reg[j];
            assert(r2[m].client == v2[i].owner);
        }
    }
}

/// The table of end-user streams on this instance, keyed by stream id. Like
/// the registry, it keeps its entries in a `Vec` and is meant to sit behind
/// one lock.
pub struct StreamTable {
    streams: Vec<ActiveStream>,
}

impl View for StreamTable {
    type V = Seq<StreamView>;

    closed spec fn view(&self) -> Seq<StreamView> {
        self.streams@.map_values(|s: ActiveStream| s@)
    }
}

impl StreamTable {
    /// Stream ids are unique.
    pub open spec fn wf(&self) -> bool {
        ids_unique(self@)
    }

    pub fn new() -> (r: StreamTable)
        ensures
            r@ == Seq::<StreamView>::empty(),
            r.wf(),
    {
        let r = StreamTable { streams: Vec::new() };
        assert(r@ =~= Seq::<StreamView>::empty());
        r
    }

    pub fn len(&self) -> (r: usize)
        ensures
            r == self@.len(),
    {
        self.streams.len()
    }

    fn index_of(&self, id: &StreamId) -> (r: Option<usize>)
        ensures
            r.is_none() == !has_stream(self@, id@),
            r matches Some(i) ==> i < self@.len() && self@[i as int].id == id@,
    {
        let mut i: usize = 0;
        while i < self.streams.len()
            invariant
                0 <= i <= self@.len(),
                forall|j: int| 0 <= j < i ==> self@[j].id != id@,
            decreases self@.len() - i,
        {
            assert(self@[i as int] == self.streams@[i as int]@);
            if self.streams[i].id.same(id) {
                return Some(i);
            }
            i = i + 1;
        }
        None
    }

    /// Adds a stream whose id is not in the table yet; a stream whose id is
    /// taken is handed back and the table stays as it was.
    pub fn insert(&mut self, stream: ActiveStream) -> (r: Result<(), ActiveStream>)
        requires
            old(self).wf(),
        ensures
            final(self).wf(),
            r.is_ok() == !has_stream(old(self)@, stream@.id),
            r.is_ok() ==> final(self)@ == old(self)@.push(stream@),
            r matches Err(s) ==> s@ == stream@ && final(self)@ == old(self)@,
    {
        match self.index_of(&stream.id) {
            Some(_) => Err(stream),
            None => {
                let ghost before = self@;
                self.streams.push(stream);
                assert(self@ =~= before.push(stream@));
                Ok(())
            },
        }
    }

    /// The stream with this id, if any.
    pub fn get(&self, id: &StreamId) -> (r: Option<&ActiveStream>)
        ensures
            r.is_some() == has_stream(self@, id@),
            r matches Some(s) ==> self@.contains(s@) && s@.id == id@,
    {
        match self.index_of(id) {
            Some(i) => {
                assert(self@[i as int] == self.streams@[i as int]@);
                Some(&self.streams[i])
            },
            None => None,
        }
    }

    /// Takes a stream out; removing an absent id changes nothing.
    pub fn remove(&mut self, id: &StreamId) -> (r: Option<ActiveStream>)
        requires
            old(self).wf(),
        ensures
            final(self).wf(),
            r.is_some() == has_stream(old(self)@, id@),
            r.is_none() ==> final(self)@ == old(self)@,
            r matches Some(s) ==> s@.id == id@ && exists|i: int|
                0 <= i < old(self)@.len() && old(self)@[i] == s@ && final(self)@ == old(
                    self,
                )@.remove(i),
            !has_stream(final(self)@, id@),
    {
        match self.index_of(id) {
            Some(i) => {
                let ghost before = self@;
                let s = self.streams.remove(i);
                proof {
                    assert(self@ =~= before.remove(i as int));
                    assert forall|a: int, b: int|
                        0 <= a < self@.len() && 0 <= b < self@.len() && a != b implies self@[a].id
                        != self@[b].id by {
                        let a0 = if a < i { a } else { a + 1 };
                        let b0 = if b < i { b } else { b + 1 };
                        assert(self@[a] == before[a0]);
                        assert(self@[b] == before[b0]);
                    }
                    assert forall|j: int| 0 <= j < self@.len() implies self@[j].id != id@ by {
                        let j0 = if j < i { j } else { j + 1 };
                        assert(self@[j] == before[j0]);
                    }
                }
                Some(s)
            },
            None => None,
        }
    }

    /// Marks every stream of a client as closing and returns their ids, in
    /// table order, so that each can be sent `Close`.
    pub fn close_owned_by(&mut self, owner: &ClientId) -> (r: Vec<StreamId>)
        requires
            old(self).wf(),
        ensures
            final(self).wf(),
            final(self)@ == closed_for(old(self)@, owner@),
            forall|k: int| 0 <= k < r@.len() ==> has_stream(old(self)@, #[trigger] r@[k]@),
            forall|j: int|
                0 <= j < old(self)@.len() && old(self)@[j].owner == owner@ ==> exists|k: int|
                    0 <= k < r@.len() && #[trigger] r@[k]@ == old(self)@[j].id,
    {
        let ghost v = self@;
        let mut ids: Vec<StreamId> = Vec::new();
        let mut i: usize = 0;
        while i < self.streams.len()
            invariant
                0 <= i <= self@.len(),
                self@.len() == v.len(),
                ids_unique(v),
                forall|j: int|
                    0 <= j < v.len() ==> #[trigger] self@[j] == (if j < i && v[j].owner
                        == owner@ {
                        StreamView { closing: true, ..v[j] }
                    } else {
                        v[j]
                    }),
                forall|k: int| 0 <= k < ids@.len() ==> has_stream(v, #[trigger] ids@[k]@),
                forall|j: int|
                    0 <= j < i && v[j].owner == owner@ ==> exists|k: int|
                        0 <= k < ids@.len() && #[trigger] ids@[k]@ == v[j].id,
            decreases self@.len() - i,
        {
            let ghost before = self@;
            let ghost ids_before = ids@;
            if self.streams[i].owner.same(owner) {
                let ghost vb = self.streams@;
                assert(before[i as int] == vb[i as int]@);
                let mut s = self.streams.remove(i);
                assert(s@ == v[i as int]);
                ids.push(s.id.duplicate());
                s.closing = true;
                self.streams.insert(i, s);
                proof {
                    assert(self.streams@ =~= vb.update(i as int, s));
                    assert(self@ =~= before.update(i as int, s@));
                    assert(ids@[ids@.len() - 1]@ == v[i as int].id);
                    assert forall|j: int|
                        0 <= j < i + 1 && v[j].owner == owner@ implies exists|k: int|
                            0 <= k < ids@.len() && #[trigger] ids@[k]@ == v[j].id by {
                        if j == i {
                            assert(ids@[ids@.len() - 1]@ == v[j].id);
                        } else {
                            let k0 = choose|k: int|
                                0 <= k < ids_before.len() && #[trigger] ids_before[k]@ == v[j].id;
                            assert(ids@[k0] == ids_before[k0]);
                        }
                    }
                }
            } else {
                assert(before[i as int] == self.streams@[i as int]@);
            }
            i = i + 1;
        }
        proof {
            assert(self@ =~= closed_for(v, owner@));
        }
        ids
    }

    /// Marks one stream as closing; an absent id changes nothing. Returns
    /// whether the stream is in the table.
    pub fn mark_closing(&mut self, id: &StreamId) -> (r: bool)
        requires
            old(self).wf(),
        ensures
            final(self).wf(),
            r == has_stream(old(self)@, id@),
            final(self)@ == closing_at(old(self)@, id@),
    {
        match self.index_of(id) {
            Some(i) => {
                let ghost v = self@;
                let ghost vs = self.streams@;
                assert(v[i as int] == vs[i as int]@);
                let mut s = self.streams.remove(i);
                s.closing = true;
                self.streams.insert(i, s);
                proof {
                    assert(self.streams@ =~= vs.update(i as int, s));
                    assert forall|j: int| 0 <= j < v.len() implies #[trigger] self@[j]
                        == closing_at(v, id@)[j] by {
                        if j != i {
                            assert(v[j].id != id@) by {
                                assert(v[j].id != v[i as int].id);
                            }
                            assert(self@[j] == vs[j]@);
                        }
                    }
                    assert(self@ =~= closing_at(v, id@));
                }
                true
            },
            None => {
                assert(self@ =~= closing_at(self@, id@));
                false
            },
        }
    }
}

} // verus!
