use vstd::prelude::*;

use crate::buffers::{OutboundQueue, OUTBOUND_FRAMES};
use crate::codec::{ControlPacket, PacketView};
use crate::ident::ClientId;

verus! {

/// Seconds of silence after which a session counts as gone.
pub const PING_TIMEOUT_SECS: u64 = 30;

/// The server-side state of one connected client.
#[derive(Debug)]
pub struct ControlSession {
    pub client_id: ClientId,
    pub sub_domain: String,
    /// Time of the last heartbeat, in seconds.
    pub last_ping: u64,
    /// The server instance that accepted the client.
    pub instance_id: String,
    /// Frames waiting to go out to the client.
    pub outbound: OutboundQueue,
}

pub struct SessionView {
    pub client: Seq<u8>,
    pub sub: Seq<char>,
    pub last_ping: u64,
    pub instance: Seq<char>,
    pub queue: Seq<PacketView>,
}

impl View for ControlSession {
    type V = SessionView;

    open spec fn view(&self) -> SessionView {
        SessionView {
            client: self.client_id@,
            sub: self.sub_domain@,
            last_ping: self.last_ping,
            instance: self.instance_id@,
            queue: self.outbound@,
        }
    }
}

impl ControlSession {
    pub fn new(client_id: ClientId, sub_domain: String, now: u64, instance_id: String) -> (r:
        ControlSession)
        ensures
            r@ == (SessionView {
                client: client_id@,
                sub: sub_domain@,
                last_ping: now,
                instance: instance_id@,
                queue: Seq::<PacketView>::empty(),
            }),
    {
        ControlSession { client_id, sub_domain, last_ping: now, instance_id, outbound: OutboundQueue::new() }
    }
}

/// What became of a frame handed to `send`.
#[derive(Debug)]
pub enum SendOutcome {
    Sent,
    /// No session holds the subdomain; the frame comes back.
    NotFound(ControlPacket),
    /// The session's queue is full; the frame comes back.
    Full(ControlPacket),
}

/// Which sessions a removal takes out.
pub enum Criterion {
    Client(ClientId),
    SubDomain(String),
    /// Sessions whose last heartbeat is at least the timeout before this time.
    StaleAt(u64),
}

pub enum CriterionView {
    Client(Seq<u8>),
    SubDomain(Seq<char>),
    StaleAt(u64),
}

impl View for Criterion {
    type V = CriterionView;

    open spec fn view(&self) -> CriterionView {
        match self {
            Criterion::Client(c) => CriterionView::Client(c@),
            Criterion::SubDomain(s) => CriterionView::SubDomain(s@),
            Criterion::StaleAt(t) => CriterionView::StaleAt(*t),
        }
    }
}

pub open spec fn is_stale(s: SessionView, now: u64) -> bool {
    s.last_ping + PING_TIMEOUT_SECS <= now
}

pub open spec fn selects(c: CriterionView, s: SessionView) -> bool {
    match c {
        CriterionView::Client(id) => s.client == id,
        CriterionView::SubDomain(sub) => s.sub == sub,
        CriterionView::StaleAt(now) => is_stale(s, now),
    }
}

pub open spec fn keep_pred(c: CriterionView) -> spec_fn(SessionView) -> bool {
    |s: SessionView| !selects(c, s)
}

pub open spec fn take_pred(c: CriterionView) -> spec_fn(SessionView) -> bool {
    |s: SessionView| selects(c, s)
}

/// The sessions that a criterion leaves in place.
pub open spec fn kept(v: Seq<SessionView>, c: CriterionView) -> Seq<SessionView> {
    v.filter(keep_pred(c))
}

/// The sessions that a criterion takes out.
pub open spec fn taken(v: Seq<SessionView>, c: CriterionView) -> Seq<SessionView> {
    v.filter(take_pred(c))
}

/// No two sessions share a subdomain.
pub open spec fn subs_unique(v: Seq<SessionView>) -> bool {
    forall|i: int, j: int| 0 <= i < v.len() && 0 <= j < v.len() && i != j ==> v[i].sub != v[j].sub
}

/// No session has more frames waiting than its queue's bound.
pub open spec fn queues_bounded(v: Seq<SessionView>) -> bool {
    forall|i: int| 0 <= i < v.len() ==> #[trigger] v[i].queue.len() <= OUTBOUND_FRAMES
}

/// Taking sessions out keeps every queue within its bound.
proof fn lemma_kept_bounded(v: Seq<SessionView>, c: CriterionView)
    requires
        queues_bounded(v),
    ensures
        queues_bounded(kept(v, c)),
{
    let k = kept(v, c);
    lemma_filter_members(v, keep_pred(c));
    assert forall|i: int| 0 <= i < k.len() implies #[trigger] k[i].queue.len() <= OUTBOUND_FRAMES by {
        assert(k.contains(k[i]));
    }
}

/// A session of the client with a frame waiting.
pub open spec fn ready(s: SessionView, client: Seq<u8>) -> bool {
    s.client == client && s.queue.len() > 0
}

/// `i` is the first session, in registry order, of the client with a frame
/// waiting.
pub open spec fn first_ready(v: Seq<SessionView>, client: Seq<u8>, i: int) -> bool {
    &&& 0 <= i < v.len()
    &&& ready(v[i], client)
    &&& forall|j: int| 0 <= j < i ==> !ready(#[trigger] v[j], client)
}

/// The registry once the oldest frame of session `i` is taken out.
pub open spec fn popped_at(v: Seq<SessionView>, i: int) -> Seq<SessionView> {
    v.update(i, SessionView { queue: v[i].queue.skip(1), ..v[i] })
}

/// What `send` does to a registry that holds the subdomain at `i`.
pub open spec fn sent_at(v: Seq<SessionView>, i: int, p: PacketView) -> Seq<SessionView> {
    v.update(i, SessionView { queue: v[i].queue.push(p), ..v[i] })
}

/// The registry after `add`: the incumbent of the subdomain, if any, is gone
/// and the new session is last.
pub open spec fn added(v: Seq<SessionView>, s: SessionView) -> Seq<SessionView> {
    kept(v, CriterionView::SubDomain(s.sub)).push(s)
}

/// The registry after `remove` of a client.
pub open spec fn removed(v: Seq<SessionView>, c: Seq<u8>) -> Seq<SessionView> {
    kept(v, CriterionView::Client(c))
}

/// Whether some session holds the subdomain.
pub open spec fn holds(v: Seq<SessionView>, sub: Seq<char>) -> bool {
    exists|i: int| 0 <= i < v.len() && v[i].sub == sub
}

/// A filter by a predicate that every element meets changes nothing.
proof fn lemma_filter_all(v: Seq<SessionView>, p: spec_fn(SessionView) -> bool)
    requires
        forall|i: int| 0 <= i < v.len() ==> p(v[i]),
    ensures
        v.filter(p) == v,
    decreases v.len(),
{
    reveal(Seq::filter);
    if v.len() > 0 {
        lemma_filter_all(v.drop_last(), p);
        assert(v.drop_last().push(v.last()) =~= v);
    }
}

/// Filtering one more element of a prefix.
proof fn lemma_filter_take_step(v: Seq<SessionView>, p: spec_fn(SessionView) -> bool, k: int)
    requires
        0 <= k < v.len(),
    ensures
        v.take(k + 1).filter(p) == (if p(v[k]) {
            v.take(k).filter(p).push(v[k])
        } else {
            v.take(k).filter(p)
        }),
{
    reveal(Seq::filter);
    assert(v.take(k + 1).drop_last() =~= v.take(k));
}

/// Every element of a filtered sequence meets the predicate, and an element
/// that meets it stays.
proof fn lemma_filter_members(v: Seq<SessionView>, p: spec_fn(SessionView) -> bool)
    ensures
        forall|i: int| 0 <= i < v.filter(p).len() ==> p(#[trigger] v.filter(p)[i]),
        forall|x: SessionView| #[trigger] v.filter(p).contains(x) ==> v.contains(x),
    decreases v.len(),
{
    reveal(Seq::filter);
    if v.len() > 0 {
        lemma_filter_members(v.drop_last(), p);
        let f = v.drop_last().filter(p);
        assert forall|x: SessionView| #[trigger] v.filter(p).contains(x) implies v.contains(x) by {
            let j = choose|j: int| 0 <= j < v.filter(p).len() && v.filter(p)[j] == x;
            if j < f.len() {
                assert(f[j] == x);
                assert(f.contains(x));
                let m = choose|m: int| 0 <= m < v.drop_last().len() && v.drop_last()[m] == x;
                assert(v[m] == x);
            } else {
                assert(v[v.len() - 1] == x);
            }
        }
        assert forall|i: int| 0 <= i < v.filter(p).len() implies p(#[trigger] v.filter(p)[i]) by {
            if i < f.len() {
                assert(v.filter(p)[i] == f[i]);
            }
        }
    }
}

/// In a registry whose subdomains are unique, which every operation of
/// `Registry` keeps, two sessions holding the same subdomain are the same
/// session.
pub proof fn lemma_one_session_per_sub(v: Seq<SessionView>, sub: Seq<char>, i: int, j: int)
    requires
        subs_unique(v),
        0 <= i < v.len(),
        0 <= j < v.len(),
        v[i].sub == sub,
        v[j].sub == sub,
    ensures
        i == j,
{
}

/// Frames of one session leave in the order they were sent: a frame sent
/// behind waiting ones does not change which frame leaves next, and taking
/// that frame then sending gives the same registry as sending then taking.
pub proof fn lemma_send_then_take_in_order(v: Seq<SessionView>, i: int, p: PacketView)
    requires
        0 <= i < v.len(),
        v[i].queue.len() > 0,
    ensures
        sent_at(v, i, p)[i].queue[0] == v[i].queue[0],
        popped_at(sent_at(v, i, p), i) == sent_at(popped_at(v, i), i, p),
{
    assert(sent_at(v, i, p)[i].queue.skip(1) =~= v[i].queue.skip(1).push(p));
    assert(popped_at(sent_at(v, i, p), i) =~= sent_at(popped_at(v, i), i, p));
}

/// A session whose last heartbeat is less than the timeout before `now`
/// stays registered when stale sessions are expired at `now`.
pub proof fn lemma_live_session_survives_expiry(v: Seq<SessionView>, i: int, now: u64)
    requires
        0 <= i < v.len(),
        !is_stale(v[i], now),
    ensures
        kept(v, CriterionView::StaleAt(now)).contains(v[i]),
{
    let p = keep_pred(CriterionView::StaleAt(now));
    assert(p(v[i]));
    v.lemma_filter_contains(p, i);
}

/// Removing a client twice leaves the registry as removing it once does.
pub proof fn lemma_remove_idempotent(v: Seq<SessionView>, c: Seq<u8>)
    ensures
        removed(removed(v, c), c) == removed(v, c),
{
    let p = keep_pred(CriterionView::Client(c));
    lemma_filter_members(v, p);
    lemma_filter_all(v.filter(p), p);
}

/// `add; remove; remove` of the same session and client ends where
/// `add; remove` does.
pub proof fn lemma_add_remove_remove(v: Seq<SessionView>, s: SessionView, c: Seq<u8>)
    ensures
        removed(removed(added(v, s), c), c) == removed(added(v, s), c),
{
    lemma_remove_idempotent(added(v, s), c);
}

/// Adding keeps subdomains unique, and the new session is the one holding its
/// subdomain.
pub proof fn lemma_added_unique(v: Seq<SessionView>, s: SessionView)
    requires
        subs_unique(v),
    ensures
        subs_unique(added(v, s)),
        added(v, s).last() == s,
        forall|i: int| 0 <= i < added(v, s).len() - 1 ==> added(v, s)[i].sub != s.sub,
{
    let p = keep_pred(CriterionView::SubDomain(s.sub));
    lemma_kept_unique(v, CriterionView::SubDomain(s.sub));
    lemma_filter_members(v, p);
}

/// Taking sessions out keeps subdomains unique.
pub proof fn lemma_kept_unique(v: Seq<SessionView>, c: CriterionView)
    requires
        subs_unique(v),
    ensures
        subs_unique(kept(v, c)),
    decreases v.len(),
{
    reveal(Seq::filter);
    let p = keep_pred(c);
    if v.len() > 0 {
        let w = v.drop_last();
        assert(subs_unique(w));
        lemma_kept_unique(w, c);
        lemma_filter_members(w, p);
        let f = w.filter(p);
        if p(v.last()) {
            assert forall|i: int| 0 <= i < f.len() implies f[i].sub != v.last().sub by {
                assert(f.contains(f[i]));
                let m = choose|m: int| 0 <= m < w.len() && w[m] == f[i];
                assert(v[m] == f[i]);
            }
        }
    }
}

/// The registry of live sessions on this instance, keyed by subdomain.
///
/// The sessions sit in a `Vec` whose view is the sequence of sessions. A
/// concurrent map changes its contents through a shared reference, which no
/// contract can describe; the registry is meant to sit behind one lock.
pub struct Registry {
    sessions: Vec<ControlSession>,
}

impl View for Registry {
    type V = Seq<SessionView>;

    closed spec fn view(&self) -> Seq<SessionView> {
        self.sessions@.map_values(|s: ControlSession| s@)
    }
}

fn selects_exec(c: &Criterion, s: &ControlSession) -> (r: bool)
    ensures
        r == selects(c@, s@),
{
    match c {
        Criterion::Client(id) => s.client_id.same(id),
        Criterion::SubDomain(sub) => s.sub_domain == *sub,
        Criterion::StaleAt(now) => s.last_ping as u128 + PING_TIMEOUT_SECS as u128 <= *now as u128,
    }
}

impl Registry {
    /// At most one session per subdomain.
    pub open spec fn wf(&self) -> bool {
        subs_unique(self@) && queues_bounded(self@)
    }

    pub fn new() -> (r: Registry)
        ensures
            r@ == Seq::<SessionView>::empty(),
            r.wf(),
    {
        let r = Registry { sessions: Vec::new() };
        assert(r@ =~= Seq::<SessionView>::empty());
        r
    }

    pub fn len(&self) -> (r: usize)
        ensures
            r == self@.len(),
    {
        self.sessions.len()
    }

    /// Takes out every session that the criterion selects and hands them back
    /// in registry order.
    pub fn remove_where(&mut self, c: &Criterion) -> (r: Vec<ControlSession>)
        requires
            old(self).wf(),
        ensures
            final(self).wf(),
            final(self)@ == kept(old(self)@, c@),
            r@.map_values(|s: ControlSession| s@) == taken(old(self)@, c@),
    {
        let ghost v = self@;
        let ghost p = keep_pred(c@);
        let ghost q = take_pred(c@);
        let mut out: Vec<ControlSession> = Vec::new();
        let mut i: usize = 0;
        let ghost mut k: int = 0;
        while i < self.sessions.len()
            invariant
                0 <= i <= self@.len(),
                0 <= k <= v.len(),
                p == keep_pred(c@),
                q == take_pred(c@),
                v == old(self)@,
                self@.take(i as int) == v.take(k).filter(p),
                self@.skip(i as int) == v.skip(k),
                out@.map_values(|s: ControlSession| s@) == v.take(k).filter(q),
            decreases self@.len() - i,
        {
            proof {
                assert(self@.skip(i as int).len() > 0);
                assert(v.skip(k)[0] == v[k]);
                assert(self@.skip(i as int)[0] == self@[i as int]);
                assert(self@[i as int] == self.sessions@[i as int]@);
                lemma_filter_take_step(v, p, k);
                lemma_filter_take_step(v, q, k);
            }
            if selects_exec(c, &self.sessions[i]) {
                let ghost before = self@;
                let s = self.sessions.remove(i);
                out.push(s);
                proof {
                    assert(selects(c@, v[k]));
                    assert(!p(v[k]) && q(v[k]));
                    assert(v.take(k + 1).filter(p) == v.take(k).filter(p));
                    assert(self@ =~= before.remove(i as int));
                    assert(self@.take(i as int) =~= before.take(i as int));
                    assert(self@.skip(i as int) =~= before.skip(i as int + 1));
                    assert(v.skip(k + 1) =~= v.skip(k).skip(1));
                    assert(before.skip(i as int + 1) =~= before.skip(i as int).skip(1));
                    assert(out@.map_values(|s: ControlSession| s@) =~= v.take(k).filter(q).push(
                        v[k],
                    ));
                    k = k + 1;
                }
            } else {
                proof {
                    assert(!selects(c@, v[k]));
                    assert(p(v[k]) && !q(v[k]));
                    assert(v.take(k + 1).filter(q) == v.take(k).filter(q));
                    assert(self@.take(i as int + 1) =~= self@.take(i as int).push(self@[i as int]));
                    assert(self@.skip(i as int + 1) =~= self@.skip(i as int).skip(1));
                    assert(v.skip(k + 1) =~= v.skip(k).skip(1));
                    k = k + 1;
                }
                i = i + 1;
            }
        }
        proof {
            assert(v.skip(k).len() == 0);
            assert(k == v.len());
            assert(v.take(k) =~= v);
            assert(self@.take(i as int) =~= self@);
            lemma_kept_unique(v, c@);
            lemma_kept_bounded(v, c@);
        }
        out
    }

    /// Registers a session. A session that already holds the same subdomain is
    /// displaced: it leaves the registry and is handed back, so that the
    /// caller can send it a shutdown before the new one serves.
    pub fn add(&mut self, session: ControlSession) -> (displaced: Vec<ControlSession>)
        requires
            old(self).wf(),
            session@.queue.len() <= OUTBOUND_FRAMES,
        ensures
            final(self).wf(),
            final(self)@ == added(old(self)@, session@),
            displaced@.map_values(|s: ControlSession| s@) == taken(
                old(self)@,
                CriterionView::SubDomain(session@.sub),
            ),
    {
        let c = Criterion::SubDomain(session.sub_domain.clone());
        let displaced = self.remove_where(&c);
        let ghost mid = self@;
        self.sessions.push(session);
        proof {
            assert(self@ =~= mid.push(session@));
            lemma_added_unique(old(self)@, session@);
            lemma_kept_bounded(old(self)@, CriterionView::SubDomain(session@.sub));
        }
        displaced
    }

    /// Removes the sessions of a client; a client that is absent changes
    /// nothing.
    pub fn remove(&mut self, client_id: &ClientId) -> (r: Vec<ControlSession>)
        requires
            old(self).wf(),
        ensures
            final(self).wf(),
            final(self)@ == removed(old(self)@, client_id@),
            r@.map_values(|s: ControlSession| s@) == taken(
                old(self)@,
                CriterionView::Client(client_id@),
            ),
    {
        let c = Criterion::Client(client_id.duplicate());
        self.remove_where(&c)
    }

    /// Removes every session whose last heartbeat is the timeout or more
    /// before `now`, and hands them back.
    pub fn expire(&mut self, now: u64) -> (r: Vec<ControlSession>)
        requires
            old(self).wf(),
        ensures
            final(self).wf(),
            final(self)@ == kept(old(self)@, CriterionView::StaleAt(now)),
            forall|i: int| 0 <= i < final(self)@.len() ==> !is_stale(#[trigger] final(self)@[i], now),
            r@.map_values(|s: ControlSession| s@) == taken(old(self)@, CriterionView::StaleAt(now)),
    {
        let c = Criterion::StaleAt(now);
        let r = self.remove_where(&c);
        proof {
            lemma_filter_members(old(self)@, keep_pred(CriterionView::StaleAt(now)));
        }
        r
    }

    /// The session that holds a subdomain, if any.
    pub fn find(&self, sub: &String) -> (r: Option<&ControlSession>)
        ensures
            r.is_some() == holds(self@, sub@),
            r matches Some(s) ==> self@.contains(s@) && s@.sub == sub@,
    {
        let mut i: usize = 0;
        while i < self.sessions.len()
            invariant
                0 <= i <= self@.len(),
                forall|j: int| 0 <= j < i ==> self@[j].sub != sub@,
            decreases self@.len() - i,
        {
            if self.sessions[i].sub_domain == *sub {
                assert(self@[i as int] == self.sessions@[i as int]@);
                return Some(&self.sessions[i]);
            }
            i = i + 1;
        }
        None
    }

    /// Records a heartbeat from a client at time `now`.
    pub fn touch(&mut self, client_id: &ClientId, now: u64)
        requires
            old(self).wf(),
        ensures
            final(self).wf(),
            final(self)@.len() == old(self)@.len(),
            forall|i: int|
                0 <= i < old(self)@.len() ==> #[trigger] final(self)@[i] == (if old(self)@[i].client
                    == client_id@ {
                    SessionView { last_ping: now, ..old(self)@[i] }
                } else {
                    old(self)@[i]
                }),
    {
        let ghost v = self@;
        let mut i: usize = 0;
        while i < self.sessions.len()
            invariant
                0 <= i <= self@.len(),
                self@.len() == v.len(),
                subs_unique(v),
                queues_bounded(v),
                forall|j: int|
                    0 <= j < v.len() ==> #[trigger] self@[j] == (if j < i && v[j].client
                        == client_id@ {
                        SessionView { last_ping: now, ..v[j] }
                    } else {
                        v[j]
                    }),
            decreases self@.len() - i,
        {
            let ghost before = self@;
            if self.sessions[i].client_id.same(client_id) {
                let ghost vb = self.sessions@;
                assert(before[i as int] == vb[i as int]@);
                let mut s = self.sessions.remove(i);
                assert(s@ == v[i as int]);
                s.last_ping = now;
                self.sessions.insert(i, s);
                proof {
                    assert(self.sessions@ =~= vb.update(i as int, s));
                    assert(self@ =~= before.update(i as int, s@));
                }
            } else {
                assert(before[i as int] == self.sessions@[i as int]@);
            }
            i = i + 1;
        }
        proof {
            assert forall|a: int, b: int|
                0 <= a < self@.len() && 0 <= b < self@.len() && a != b implies self@[a].sub
                != self@[b].sub by {
                assert(self@[a].sub == v[a].sub);
                assert(self@[b].sub == v[b].sub);
            }
            assert forall|a: int| 0 <= a < self@.len() implies #[trigger] self@[a].queue.len()
                <= OUTBOUND_FRAMES by {
                assert(self@[a].queue == v[a].queue);
            }
        }
    }

    fn index_of_sub(&self, sub: &String) -> (r: Option<usize>)
        ensures
            r.is_none() == !holds(self@, sub@),
            r matches Some(i) ==> i < self@.len() && self@[i as int].sub == sub@,
    {
        let mut i: usize = 0;
        while i < self.sessions.len()
            invariant
                0 <= i <= self@.len(),
                forall|j: int| 0 <= j < i ==> self@[j].sub != sub@,
            decreases self@.len() - i,
        {
            assert(self@[i as int] == self.sessions@[i as int]@);
            if self.sessions[i].sub_domain == *sub {
                return Some(i);
            }
            i = i + 1;
        }
        None
    }

    /// Queues a frame for the session that holds a subdomain. A full queue
    /// hands the frame back, for the producer to offer again once it drains;
    /// no other session is touched either way.
    pub fn send(&mut self, sub: &String, packet: ControlPacket) -> (r: SendOutcome)
        requires
            old(self).wf(),
        ensures
            final(self).wf(),
            !holds(old(self)@, sub@) ==> (r matches SendOutcome::NotFound(p) && p@ == packet@
                && final(self)@ == old(self)@),
            forall|i: int|
                0 <= i < old(self)@.len() && #[trigger] old(self)@[i].sub == sub@ ==> if old(
                    self,
                )@[i].queue.len() < OUTBOUND_FRAMES {
                    (r matches SendOutcome::Sent && final(self)@ == sent_at(old(self)@, i, packet@))
                } else {
                    (r matches SendOutcome::Full(p) && p@ == packet@ && final(self)@ == old(self)@)
                },
    {
        let i = match self.index_of_sub(sub) {
            None => return SendOutcome::NotFound(packet),
            Some(i) => i,
        };
        let ghost v = self@;
        let ghost vs = self.sessions@;
        assert(v[i as int] == vs[i as int]@);
        let mut s = self.sessions.remove(i);
        assert(s@ == v[i as int]);
        assert(v[i as int].queue.len() <= OUTBOUND_FRAMES);
        let (r, pushed) = match s.outbound.push(packet) {
            Ok(()) => (SendOutcome::Sent, true),
            Err(p) => (SendOutcome::Full(p), false),
        };
        self.sessions.insert(i, s);
        proof {
            assert(self.sessions@ =~= vs.update(i as int, s));
            assert(self@ =~= v.update(i as int, s@));
            assert(pushed == (v[i as int].queue.len() < OUTBOUND_FRAMES));
            if pushed {
                assert(self@ =~= sent_at(v, i as int, packet@));
            } else {
                assert(self@ =~= v);
            }
            assert forall|a: int, b: int|
                0 <= a < self@.len() && 0 <= b < self@.len() && a != b implies self@[a].sub
                != self@[b].sub by {
                assert(self@[a].sub == v[a].sub);
                assert(self@[b].sub == v[b].sub);
            }
            let k = i as int;
            assert(0 <= k < v.len() && v[k].sub == sub@ && if v[k].queue.len() < OUTBOUND_FRAMES {
                (r matches SendOutcome::Sent && self@ == sent_at(v, k, packet@))
            } else {
                (r matches SendOutcome::Full(p) && p@ == packet@ && self@ == v)
            });
            assert(v == old(self)@);
            assert forall|j: int| 0 <= j < v.len() && #[trigger] v[j].sub == sub@ implies j == k by {
                if j != k {
                    assert(v[j].sub != v[k].sub);
                }
            }
        }
        r
    }

    /// Takes the oldest frame waiting for a client: from the first session of
    /// that client, in registry order, whose queue is not empty. There is
    /// none exactly when every session of the client has an empty queue.
    pub fn next_frame(&mut self, client_id: &ClientId) -> (r: Option<ControlPacket>)
        requires
            old(self).wf(),
        ensures
            final(self).wf(),
            r.is_none() <==> forall|i: int|
                0 <= i < old(self)@.len() && #[trigger] old(self)@[i].client == client_id@
                    ==> old(self)@[i].queue.len() == 0,
            r.is_none() ==> final(self)@ == old(self)@,
            forall|i: int|
                #[trigger] first_ready(old(self)@, client_id@, i) ==> (r matches Some(p) && p@
                    == old(self)@[i].queue[0] && final(self)@ == popped_at(old(self)@, i)),
    {
        let mut i: usize = 0;
        while i < self.sessions.len()
            invariant
                0 <= i <= self@.len(),
                self@ == old(self)@,
                subs_unique(self@),
                queues_bounded(self@),
                forall|j: int| 0 <= j < i ==> !ready(#[trigger] self@[j], client_id@),
            decreases self@.len() - i,
        {
            assert(self@[i as int] == self.sessions@[i as int]@);
            if self.sessions[i].client_id.same(client_id) && self.sessions[i].outbound.len() > 0 {
                let ghost v = self@;
                let ghost vs = self.sessions@;
                assert(v[i as int] == vs[i as int]@);
                let mut s = self.sessions.remove(i);
                assert(s@ == v[i as int]);
                assert(v[i as int].queue.len() <= OUTBOUND_FRAMES);
                let p = s.outbound.pop();
                self.sessions.insert(i, s);
                proof {
                    assert(self.sessions@ =~= vs.update(i as int, s));
                    assert(self@ =~= v.update(i as int, s@));
                    assert forall|a: int, b: int|
                        0 <= a < self@.len() && 0 <= b < self@.len() && a != b implies self@[a].sub
                        != self@[b].sub by {
                        assert(self@[a].sub == v[a].sub);
                        assert(self@[b].sub == v[b].sub);
                    }
                    assert(self@[i as int].queue == v[i as int].queue.skip(1));
                    assert(self@ =~= popped_at(v, i as int));
                    assert forall|k: int| #[trigger] first_ready(v, client_id@, k) implies k
                        == i by {
                        if k < i {
                            assert(!ready(v[k], client_id@));
                        } else if k > i {
                            assert(ready(v[i as int], client_id@));
                        }
                    }
                    assert forall|a: int| 0 <= a < self@.len() implies #[trigger] self@[a].queue.len()
                        <= OUTBOUND_FRAMES by {
                        if a != i {
                            assert(self@[a] == v[a]);
                        }
                    }
                }
                return p;
            }
            i = i + 1;
        }
        proof {
            assert forall|k: int|
                0 <= k < self@.len() && #[trigger] self@[k].client == client_id@ implies self@[k].queue.len()
                == 0 by {
                assert(!ready(self@[k], client_id@));
            }
        }
        None
    }
}

} // verus!
