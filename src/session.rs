use vstd::prelude::*;

use crate::codec::{decode_view, ControlPacket, PacketView};
use crate::ident::{ClientId, StreamId};
use crate::registry::{removed, Registry};
use crate::streams::{closed_for, streams_owned, StreamTable};

verus! {

/// What the server does with one frame from a client's control link.
#[derive(Debug, Clone)]
pub enum SessionAction {
    /// Record the heartbeat and echo a `Ping`.
    Heartbeat,
    /// The client acknowledged a new stream.
    Acknowledge(StreamId),
    /// Hand the bytes to the end user of the stream.
    Deliver(StreamId, Vec<u8>),
    /// Deliver what is queued, then close the stream after the linger window.
    CloseAfterLinger(StreamId),
    /// Close the end user's connection at once.
    CloseNow(StreamId),
    /// The frame is malformed: end the session.
    Terminate,
}

pub enum SessionActionView {
    Heartbeat,
    Acknowledge(Seq<u8>),
    Deliver(Seq<u8>, Seq<u8>),
    CloseAfterLinger(Seq<u8>),
    CloseNow(Seq<u8>),
    Terminate,
}

impl View for SessionAction {
    type V = SessionActionView;

    open spec fn view(&self) -> SessionActionView {
        match self {
            SessionAction::Heartbeat => SessionActionView::Heartbeat,
            SessionAction::Acknowledge(id) => SessionActionView::Acknowledge(id@),
            SessionAction::Deliver(id, d) => SessionActionView::Deliver(id@, d@),
            SessionAction::CloseAfterLinger(id) => SessionActionView::CloseAfterLinger(id@),
            SessionAction::CloseNow(id) => SessionActionView::CloseNow(id@),
            SessionAction::Terminate => SessionActionView::Terminate,
        }
    }
}

/// The server's reaction to a frame on a control link.
pub open spec fn session_reaction(frame: Seq<u8>) -> SessionActionView {
    match decode_view(frame) {
        None => SessionActionView::Terminate,
        Some(PacketView::Ping) => SessionActionView::Heartbeat,
        Some(PacketView::Init(id)) => SessionActionView::Acknowledge(id),
        Some(PacketView::Data(id, d)) => SessionActionView::Deliver(id, d),
        Some(PacketView::End(id)) => SessionActionView::CloseAfterLinger(id),
        Some(PacketView::Refused(id)) => SessionActionView::CloseNow(id),
    }
}

/// Decides what one frame from a client means for the server.
pub fn session_step(frame: &[u8]) -> (r: SessionAction)
    ensures
        r@ == session_reaction(frame@),
{
    match ControlPacket::deserialize(frame) {
        Err(_) => SessionAction::Terminate,
        Ok(ControlPacket::Ping) => SessionAction::Heartbeat,
        Ok(ControlPacket::Init(id)) => SessionAction::Acknowledge(id),
        Ok(ControlPacket::Data(id, d)) => SessionAction::Deliver(id, d),
        Ok(ControlPacket::End(id)) => SessionAction::CloseAfterLinger(id),
        Ok(ControlPacket::Refused(id)) => SessionAction::CloseNow(id),
    }
}

/// Ends a client's session: it leaves the registry first, then each of its
/// streams is marked closing; the ids returned are those to send `Close`.
/// Every stream stays carried by a live session or closing.
pub fn end_session(reg: &mut Registry, table: &mut StreamTable, client: &ClientId) -> (r: Vec<
    StreamId,
>)
    requires
        old(reg).wf(),
        old(table).wf(),
    ensures
        final(reg).wf(),
        final(table).wf(),
        final(reg)@ == removed(old(reg)@, client@),
        final(table)@ == closed_for(old(table)@, client@),
        forall|j: int|
            0 <= j < old(table)@.len() && old(table)@[j].owner == client@ ==> exists|k: int|
                0 <= k < r@.len() && #[trigger] r@[k]@ == old(table)@[j].id,
        streams_owned(old(reg)@, old(table)@) ==> streams_owned(final(reg)@, final(table)@),
{
    reg.remove(client);
    let ids = table.close_owned_by(client);
    proof {
        if streams_owned(old(reg)@, old(table)@) {
            crate::streams::lemma_session_end_keeps_streams_owned(
                old(reg)@,
                old(table)@,
                client@,
            );
        }
    }
    ids
}

} // verus!
