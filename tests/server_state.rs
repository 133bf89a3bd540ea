use tunnelto::buffers::{OutboundQueue, StreamBuffer, OUTBOUND_FRAMES, STREAM_BUFFER_BYTES};
use tunnelto::codec::ControlPacket;
use tunnelto::ident::{ClientId, StreamId};
use tunnelto::registry::{ControlSession, Registry, SendOutcome};
use tunnelto::session::{end_session, session_step, SessionAction};
use tunnelto::streams::{ActiveStream, StreamTable};

fn cid(b: u8) -> ClientId {
    ClientId { bytes: vec![b; 16] }
}

fn sid(b: u8) -> StreamId {
    StreamId { bytes: vec![b; 16] }
}

fn session(c: u8, sub: &str, now: u64) -> ControlSession {
    ControlSession::new(cid(c), sub.to_string(), now, "inst-a".to_string())
}

#[test]
fn registry_add_and_find() {
    let mut reg = Registry::new();
    assert!(reg.add(session(1, "alpha", 0)).is_empty());
    assert!(reg.add(session(2, "beta", 0)).is_empty());
    assert_eq!(reg.len(), 2);
    let found = reg.find(&"alpha".to_string()).unwrap();
    assert!(found.client_id.same(&cid(1)));
    assert!(reg.find(&"gamma".to_string()).is_none());
}

#[test]
fn displacement_hands_back_incumbent() {
    let mut reg = Registry::new();
    reg.add(session(1, "alpha", 0));
    let displaced = reg.add(session(2, "alpha", 5));
    assert_eq!(displaced.len(), 1);
    assert!(displaced[0].client_id.same(&cid(1)));
    assert_eq!(reg.len(), 1);
    assert!(reg.find(&"alpha".to_string()).unwrap().client_id.same(&cid(2)));
}

#[test]
fn remove_twice_equals_remove_once() {
    let mut reg = Registry::new();
    reg.add(session(1, "alpha", 0));
    reg.add(session(2, "beta", 0));
    let first = reg.remove(&cid(1));
    assert_eq!(first.len(), 1);
    let second = reg.remove(&cid(1));
    assert!(second.is_empty());
    assert_eq!(reg.len(), 1);
    assert!(reg.find(&"alpha".to_string()).is_none());
    assert!(reg.find(&"beta".to_string()).is_some());
}

#[test]
fn ping_timeout_removes_session() {
    let mut reg = Registry::new();
    reg.add(session(1, "alpha", 100));
    reg.add(session(2, "beta", 100));
    reg.touch(&cid(2), 120);
    assert!(reg.expire(129).is_empty());
    let gone = reg.expire(130);
    assert_eq!(gone.len(), 1);
    assert_eq!(gone[0].sub_domain, "alpha");
    assert!(reg.find(&"alpha".to_string()).is_none());
    assert!(reg.find(&"beta".to_string()).is_some());
    assert_eq!(reg.find(&"beta".to_string()).unwrap().last_ping, 120);
}

#[test]
fn stream_table_insert_get_remove() {
    let mut t = StreamTable::new();
    assert!(t.insert(ActiveStream::new(sid(1), cid(1))).is_ok());
    assert!(t.insert(ActiveStream::new(sid(1), cid(2))).is_err());
    assert!(t.get(&sid(1)).is_some());
    assert!(t.remove(&sid(1)).is_some());
    assert!(t.remove(&sid(1)).is_none());
    assert_eq!(t.len(), 0);
}

#[test]
fn ending_session_closes_its_streams() {
    let mut t = StreamTable::new();
    t.insert(ActiveStream::new(sid(1), cid(1))).unwrap();
    t.insert(ActiveStream::new(sid(2), cid(2))).unwrap();
    t.insert(ActiveStream::new(sid(3), cid(1))).unwrap();
    let ids = t.close_owned_by(&cid(1));
    assert_eq!(ids.len(), 2);
    assert!(ids[0].same(&sid(1)));
    assert!(ids[1].same(&sid(3)));
    assert!(t.get(&sid(1)).unwrap().closing);
    assert!(!t.get(&sid(2)).unwrap().closing);
    assert!(t.get(&sid(3)).unwrap().closing);
}

#[test]
fn bytes_delivered_equal_bytes_sent() {
    let mut b = StreamBuffer::new();
    assert!(b.push(b"HTTP/1.1 200 OK\r\n\r\n"));
    assert!(b.push(b"pong"));
    let mut seen = Vec::new();
    seen.extend(b.take(10));
    seen.extend(b.take(100));
    assert_eq!(seen, b"HTTP/1.1 200 OK\r\n\r\npong".to_vec());
    assert_eq!(b.delivered_count(), b.received_count());
    assert_eq!(b.pending_len(), 0);
}

#[test]
fn stream_buffer_refuses_overflow() {
    let mut b = StreamBuffer::new();
    let big = vec![0u8; STREAM_BUFFER_BYTES];
    assert!(b.push(&big));
    assert!(!b.push(&[1]));
    assert_eq!(b.received_count(), STREAM_BUFFER_BYTES as u64);
    assert_eq!(b.take(1).len(), 1);
    assert!(b.push(&[1]));
}

#[test]
fn outbound_queue_fills_at_bound_without_dropping() {
    let mut q = OutboundQueue::new();
    for _ in 0..OUTBOUND_FRAMES {
        assert!(q.push(ControlPacket::Ping).is_ok());
    }
    assert!(q.is_full());
    match q.push(ControlPacket::End(sid(9))) {
        Err(ControlPacket::End(id)) => assert!(id.same(&sid(9))),
        _ => panic!("full queue must hand the frame back"),
    }
    assert_eq!(q.len(), 1024);
    assert!(q.pop().is_some());
    assert!(q.push(ControlPacket::End(sid(9))).is_ok());
    let other = OutboundQueue::new();
    assert_eq!(other.len(), 0);
}

#[test]
fn outbound_queue_keeps_order() {
    let mut q = OutboundQueue::new();
    q.push(ControlPacket::Init(sid(1))).unwrap();
    q.push(ControlPacket::Data(sid(1), vec![1])).unwrap();
    q.push(ControlPacket::End(sid(1))).unwrap();
    assert!(matches!(q.pop(), Some(ControlPacket::Init(_))));
    assert!(matches!(q.pop(), Some(ControlPacket::Data(_, _))));
    assert!(matches!(q.pop(), Some(ControlPacket::End(_))));
    assert!(q.pop().is_none());
}

#[test]
fn session_frames_map_to_actions() {
    let ping = ControlPacket::Ping.serialize();
    assert!(matches!(session_step(&ping), SessionAction::Heartbeat));
    let data = ControlPacket::Data(sid(1), vec![7]).serialize();
    assert!(matches!(session_step(&data), SessionAction::Deliver(_, ref d) if d == &vec![7]));
    let end = ControlPacket::End(sid(1)).serialize();
    assert!(matches!(session_step(&end), SessionAction::CloseAfterLinger(_)));
    let refused = ControlPacket::Refused(sid(1)).serialize();
    assert!(matches!(session_step(&refused), SessionAction::CloseNow(_)));
    let init = ControlPacket::Init(sid(1)).serialize();
    assert!(matches!(session_step(&init), SessionAction::Acknowledge(_)));
    assert!(matches!(session_step(&[0xff, 1]), SessionAction::Terminate));
}

#[test]
fn ending_a_session_removes_then_closes() {
    let mut reg = Registry::new();
    let mut t = StreamTable::new();
    reg.add(session(1, "alpha", 0));
    reg.add(session(2, "beta", 0));
    t.insert(ActiveStream::new(sid(1), cid(1))).unwrap();
    t.insert(ActiveStream::new(sid(2), cid(2))).unwrap();
    let ids = end_session(&mut reg, &mut t, &cid(1));
    assert_eq!(ids.len(), 1);
    assert!(ids[0].same(&sid(1)));
    assert!(reg.find(&"alpha".to_string()).is_none());
    assert!(reg.find(&"beta".to_string()).is_some());
    assert!(t.get(&sid(1)).unwrap().closing);
    assert!(!t.get(&sid(2)).unwrap().closing);
}

#[test]
fn registry_send_queues_per_session() {
    let mut reg = Registry::new();
    reg.add(session(1, "alpha", 0));
    reg.add(session(2, "beta", 0));
    assert!(matches!(reg.send(&"alpha".to_string(), ControlPacket::Ping), SendOutcome::Sent));
    assert!(matches!(
        reg.send(&"gamma".to_string(), ControlPacket::Init(sid(4))),
        SendOutcome::NotFound(ControlPacket::Init(_))
    ));
    assert!(reg.next_frame(&cid(2)).is_none());
    assert!(matches!(reg.next_frame(&cid(1)), Some(ControlPacket::Ping)));
    assert!(reg.next_frame(&cid(1)).is_none());
}

#[test]
fn full_session_queue_leaves_others_alone() {
    let mut reg = Registry::new();
    reg.add(session(1, "slow", 0));
    reg.add(session(2, "fast", 0));
    for _ in 0..OUTBOUND_FRAMES {
        assert!(matches!(reg.send(&"slow".to_string(), ControlPacket::Ping), SendOutcome::Sent));
    }
    assert!(matches!(
        reg.send(&"slow".to_string(), ControlPacket::End(sid(5))),
        SendOutcome::Full(ControlPacket::End(_))
    ));
    assert!(matches!(reg.send(&"fast".to_string(), ControlPacket::Ping), SendOutcome::Sent));
    assert!(matches!(reg.next_frame(&cid(2)), Some(ControlPacket::Ping)));
    assert!(reg.next_frame(&cid(1)).is_some());
    assert!(matches!(reg.send(&"slow".to_string(), ControlPacket::Ping), SendOutcome::Sent));
}

#[test]
fn second_end_changes_nothing() {
    let mut t = StreamTable::new();
    t.insert(ActiveStream::new(sid(1), cid(1))).unwrap();
    t.insert(ActiveStream::new(sid(2), cid(1))).unwrap();
    assert!(t.mark_closing(&sid(1)));
    assert!(t.mark_closing(&sid(1)));
    assert!(t.get(&sid(1)).unwrap().closing);
    assert!(!t.get(&sid(2)).unwrap().closing);
    assert!(t.remove(&sid(1)).is_some());
    assert!(!t.mark_closing(&sid(1)));
    assert_eq!(t.len(), 1);
}
