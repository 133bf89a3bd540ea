use tunnelto::buffers::StreamBuffer;
use tunnelto::codec::ControlPacket;
use tunnelto::gossip::{decode_answer, PeerCommand};
use tunnelto::host::{
    extract_host, first_owner, not_found_response, route, sub_domain_of_host, PeerAnswer, Route,
};
use tunnelto::ident::{ClientId, StreamId};
use tunnelto::registry::{ControlSession, Registry};
use tunnelto::streams::{ActiveStream, StreamTable};

#[test]
fn host_header_is_found() {
    let head = b"GET /ping HTTP/1.1\r\nHost: aB3xK9pL.example.test\r\nAccept: */*\r\n\r\n";
    assert_eq!(extract_host(head), Some(b"ab3xk9pl.example.test".to_vec()));
}

#[test]
fn host_header_case_port_and_blanks() {
    let head = b"GET / HTTP/1.1\r\nUser-Agent: x\r\nhOsT:   Alpha.Example.Test:8080  \r\n\r\n";
    assert_eq!(extract_host(head), Some(b"alpha.example.test".to_vec()));
    assert_eq!(extract_host(b"GET / HTTP/1.1\r\nAccept: */*\r\n\r\n"), None);
    assert_eq!(extract_host(b""), None);
    assert_eq!(extract_host(b"Host: a.b\r\n"), None);
    assert_eq!(extract_host(b"GET / HTTP/1.1\r\nHost:"), Some(vec![]));
}

#[test]
fn sub_domain_from_host() {
    let allowed = vec!["example.test".to_string(), "tunnelto.dev".to_string()];
    assert_eq!(sub_domain_of_host(b"alpha.example.test", &allowed), Some("alpha".to_string()));
    assert_eq!(sub_domain_of_host(b"alpha.tunnelto.dev", &allowed), Some("alpha".to_string()));
    assert_eq!(sub_domain_of_host(b"alpha.other.test", &allowed), None);
    assert_eq!(sub_domain_of_host(b"example.test", &allowed), None);
    assert_eq!(sub_domain_of_host(b"a.example.test", &allowed), None);
    assert_eq!(sub_domain_of_host(b"x.alpha.example.test", &allowed), None);
}

#[test]
fn routing_decisions() {
    let blocked = vec!["dashboard".to_string()];
    assert_eq!(route(&"alpha".to_string(), &blocked, false, true), Route::Local);
    assert_eq!(route(&"alpha".to_string(), &blocked, false, false), Route::AskPeers);
    assert_eq!(route(&"alpha".to_string(), &blocked, true, true), Route::NotFound);
    assert_eq!(route(&"dashboard".to_string(), &blocked, false, true), Route::NotFound);
}

#[test]
fn first_yes_wins() {
    let (yes, no, late) = (PeerAnswer::Yes, PeerAnswer::No, PeerAnswer::TimedOut);
    assert_eq!(first_owner(&vec![no, late, yes, yes]), Some(2));
    assert_eq!(first_owner(&vec![no, late]), None);
    assert_eq!(first_owner(&vec![]), None);
}

#[test]
fn canned_not_found() {
    let r = not_found_response("alpha");
    assert!(r.starts_with("HTTP/1.1 404 Not Found\r\n"));
    assert!(r.ends_with("no tunnel for alpha\n"));
}

#[test]
fn ping_timeout_then_not_found() {
    let mut reg = Registry::new();
    let c = ClientId::generate();
    reg.add(ControlSession::new(c, "alpha".to_string(), 0, "a".to_string()));
    reg.expire(30);
    let held = reg.find(&"alpha".to_string()).is_some();
    assert!(!held);
    assert_eq!(route(&"alpha".to_string(), &vec![], false, held), Route::AskPeers);
    assert_eq!(first_owner(&vec![PeerAnswer::No]), None);
}

#[test]
fn cross_instance_route() {
    let mut instance_a = Registry::new();
    instance_a.add(ControlSession::new(ClientId::generate(), "alpha".to_string(), 0, "a".to_string()));
    let instance_b = Registry::new();
    let host = extract_host(b"GET / HTTP/1.1\r\nHost: alpha.example.test\r\n\r\n").unwrap();
    let sub = sub_domain_of_host(&host, &vec!["example.test".to_string()]).unwrap();
    let held_on_b = instance_b.find(&sub).is_some();
    assert_eq!(route(&sub, &vec![], false, held_on_b), Route::AskPeers);
    let query = PeerCommand::WhoHas(sub.clone()).serialize();
    let on_a = match PeerCommand::deserialize(&query).unwrap() {
        PeerCommand::WhoHas(s) => instance_a.find(&s).is_some(),
        _ => panic!("expected WhoHas"),
    };
    let answer = if decode_answer(if on_a { 1 } else { 0 }) == Some(true) {
        PeerAnswer::Yes
    } else {
        PeerAnswer::No
    };
    assert_eq!(first_owner(&vec![answer]), Some(0));
    let fwd = PeerCommand::ForwardStream(sub).serialize();
    assert_eq!(fwd, vec![2, 0, 5, b'a', b'l', b'p', b'h', b'a']);
    let mut pipe = StreamBuffer::new();
    assert!(pipe.push(b"GET / HTTP/1.1\r\n\r\n"));
    assert_eq!(pipe.take(1000).len(), 18);
    assert_eq!(pipe.delivered_count(), pipe.received_count());
}

#[test]
fn displacement_closes_old_streams() {
    let mut reg = Registry::new();
    let mut streams = StreamTable::new();
    let first = ClientId::generate();
    let second = ClientId::generate();
    reg.add(ControlSession::new(first.duplicate(), "alpha".to_string(), 0, "a".to_string()));
    let s1 = StreamId::generate();
    streams.insert(ActiveStream::new(s1.duplicate(), first.duplicate())).unwrap();
    let displaced = reg.add(ControlSession::new(second.duplicate(), "alpha".to_string(), 1, "a".to_string()));
    assert_eq!(displaced.len(), 1);
    let closed = streams.close_owned_by(&displaced[0].client_id);
    assert_eq!(closed.len(), 1);
    assert!(closed[0].same(&s1));
    assert!(streams.get(&s1).unwrap().closing);
    assert!(reg.find(&"alpha".to_string()).unwrap().client_id.same(&second));
}

#[test]
fn anonymous_happy_path_bytes() {
    let mut reg = Registry::new();
    let client = ClientId::generate();
    reg.add(ControlSession::new(client.duplicate(), "ab3xk9pl".to_string(), 0, "a".to_string()));
    let head = b"GET /ping HTTP/1.1\r\nHost: aB3xK9pL.example.test\r\n\r\n";
    let host = extract_host(head).unwrap();
    let sub = sub_domain_of_host(&host, &vec!["example.test".to_string()]).unwrap();
    assert_eq!(sub, "ab3xk9pl");
    assert!(reg.find(&sub).is_some());
    let id = StreamId::generate();
    let init = ControlPacket::Init(id.duplicate()).serialize();
    assert_eq!(init.len(), 17);
    let reply = ControlPacket::Data(id.duplicate(), b"HTTP/1.1 200 OK\r\n\r\npong".to_vec()).serialize();
    let mut pipe = StreamBuffer::new();
    match ControlPacket::deserialize(&reply).unwrap() {
        ControlPacket::Data(_, d) => assert!(pipe.push(&d)),
        _ => panic!("expected Data"),
    }
    let end = ControlPacket::End(id).serialize();
    assert!(matches!(ControlPacket::deserialize(&end), Ok(ControlPacket::End(_))));
    assert_eq!(pipe.take(usize::MAX), b"HTTP/1.1 200 OK\r\n\r\npong".to_vec());
}
