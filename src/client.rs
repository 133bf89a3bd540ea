use vstd::prelude::*;
use vstd::string::StringExecFns;

use crate::codec::{ControlPacket, PacketView};
use crate::hello::{ascii_string, ServerHello};
use crate::ident::{ClientId, StreamId};

verus! {

/// A chunk for a local stream, or the order to close it.
#[derive(Debug, Clone)]
pub enum StreamMessage {
    Data(Vec<u8>),
    Close,
}

/// What the client does with one packet from the server.
#[derive(Debug, Clone)]
pub enum ClientAction {
    /// Nothing beyond noting it (an acknowledged stream, or the server's
    /// echo of a heartbeat).
    Nothing,
    /// Send this packet back to the server.
    Reply(ControlPacket),
    /// Close the local stream after the linger delay.
    CloseAfterLinger(StreamId),
    /// Hand the bytes to the local stream, which exists.
    Forward(StreamId, Vec<u8>),
    /// Open a local stream for the id first, then hand it the bytes.
    OpenThenForward(StreamId, Vec<u8>),
}

/// A packet that the client must never receive.
#[derive(Debug, Clone, Copy, PartialEq, Eq, Structural)]
pub enum ClientError {
    UnexpectedPacket,
}

pub enum ActionView {
    Nothing,
    Reply(PacketView),
    CloseAfterLinger(Seq<u8>),
    Forward(Seq<u8>, Seq<u8>),
    OpenThenForward(Seq<u8>, Seq<u8>),
}

impl View for ClientAction {
    type V = ActionView;

    open spec fn view(&self) -> ActionView {
        match self {
            ClientAction::Nothing => ActionView::Nothing,
            ClientAction::Reply(p) => ActionView::Reply(p@),
            ClientAction::CloseAfterLinger(id) => ActionView::CloseAfterLinger(id@),
            ClientAction::Forward(id, d) => ActionView::Forward(id@, d@),
            ClientAction::OpenThenForward(id, d) => ActionView::OpenThenForward(id@, d@),
        }
    }
}

/// The client's reaction to a packet, given whether a local stream with the
/// packet's id is open.
pub open spec fn client_reaction(p: PacketView, stream_open: bool) -> Result<ActionView, ClientError> {
    match p {
        PacketView::Init(_) => Ok(ActionView::Nothing),
        PacketView::Ping => Ok(ActionView::Nothing),
        PacketView::Refused(_) => Err(ClientError::UnexpectedPacket),
        PacketView::End(id) => Ok(ActionView::CloseAfterLinger(id)),
        PacketView::Data(id, d) => if stream_open {
            Ok(ActionView::Forward(id, d))
        } else {
            Ok(ActionView::OpenThenForward(id, d))
        },
    }
}

/// Decides what to do with a packet from the server: close a stream that
/// ended, forward data (opening the local stream first when needed); a
/// `Ping` is the server's echo of the client's own heartbeat and needs no
/// answer; a `Refused` is a protocol error.
pub fn process_control_flow_message(packet: ControlPacket, stream_open: bool) -> (r: Result<
    ClientAction,
    ClientError,
>)
    ensures
        match (r, client_reaction(packet@, stream_open)) {
            (Ok(a), Ok(b)) => a@ == b,
            (Err(e), Err(f)) => e == f,
            _ => false,
        },
{
    match packet {
        ControlPacket::Init(_) => Ok(ClientAction::Nothing),
        ControlPacket::Ping => Ok(ClientAction::Nothing),
        ControlPacket::Refused(_) => Err(ClientError::UnexpectedPacket),
        ControlPacket::End(id) => Ok(ClientAction::CloseAfterLinger(id)),
        ControlPacket::Data(id, d) => if stream_open {
            Ok(ClientAction::Forward(id, d))
        } else {
            Ok(ClientAction::OpenThenForward(id, d))
        },
    }
}

/// After trying to open a local stream for incoming data: forward the data
/// when it opened, otherwise tell the server the stream is refused.
pub fn after_open_attempt(id: StreamId, data: Vec<u8>, opened: bool) -> (r: ClientAction)
    ensures
        opened ==> r@ == ActionView::Forward(id@, data@),
        !opened ==> r@ == ActionView::Reply(PacketView::Refused(id@)),
{
    if opened {
        ClientAction::Forward(id, data)
    } else {
        ClientAction::Reply(ControlPacket::Refused(id))
    }
}

/// Why the server turned the client away.
#[derive(Debug, Clone, Copy, PartialEq, Eq, Structural)]
pub enum HelloError {
    AuthenticationFailed,
    InvalidSubDomain,
    SubDomainInUse,
}

/// Reads the server's answer to the hello: the subdomain it assigned, or why
/// it refused.
pub fn accept_server_hello(h: ServerHello) -> (r: Result<String, HelloError>)
    ensures
        match h {
            ServerHello::Success { sub_domain } => (r matches Ok(s) && s@ == sub_domain@),
            ServerHello::AuthFailed => r == Err::<String, HelloError>(HelloError::AuthenticationFailed),
            ServerHello::InvalidSubDomain => r == Err::<String, HelloError>(HelloError::InvalidSubDomain),
            ServerHello::SubDomainInUse => r == Err::<String, HelloError>(HelloError::SubDomainInUse),
        },
{
    match h {
        ServerHello::Success { sub_domain } => Ok(sub_domain),
        ServerHello::AuthFailed => Err(HelloError::AuthenticationFailed),
        ServerHello::InvalidSubDomain => Err(HelloError::InvalidSubDomain),
        ServerHello::SubDomainInUse => Err(HelloError::SubDomainInUse),
    }
}

/// Whether the tunnel's address is worth announcing: on the first run, or
/// when the server assigned another subdomain than the one asked for.
pub fn announce_tunnel(first_run: bool, requested: &Option<String>, assigned: &String) -> (r: bool)
    ensures
        r == (first_run || match requested {
            Some(q) => q@ != assigned@,
            None => true,
        }),
{
    if first_run {
        return true;
    }
    match requested {
        Some(q) => *q != *assigned,
        None => true,
    }
}

/// The decimal digits of a number.
pub open spec fn decimal(n: nat) -> Seq<char>
    decreases n,
{
    if n < 10 {
        seq![('0' as u8 + n) as char]
    } else {
        decimal(n / 10).push(('0' as u8 + n % 10) as char)
    }
}

/// Writes a number in decimal.
pub fn decimal_string(n: u16) -> (r: String)
    ensures
        r@ == decimal(n as nat),
{
    let mut out: Vec<u8> = Vec::new();
    let mut x: u16 = n;
    while x >= 10
        invariant
            decimal(n as nat) == decimal(x as nat) + out@.map_values(|c: u8| c as char),
            forall|i: int| 0 <= i < out@.len() ==> #[trigger] out@[i] < 128,
        decreases x,
    {
        let d: u8 = (x % 10) as u8;
        let ghost before = out@;
        out.insert(0, 48 + d);
        proof {
            assert(out@.map_values(|c: u8| c as char) =~= seq![('0' as u8 + d) as char]
                + before.map_values(|c: u8| c as char));
            assert(decimal(x as nat) == decimal((x / 10) as nat).push(('0' as u8 + d) as char));
            assert(decimal((x / 10) as nat) + out@.map_values(|c: u8| c as char) =~= decimal(
                (x / 10) as nat,
            ).push(('0' as u8 + d) as char) + before.map_values(|c: u8| c as char));
        }
        x = x / 10;
    }
    let ghost before = out@;
    out.insert(0, 48 + x as u8);
    proof {
        assert(out@.map_values(|c: u8| c as char) =~= decimal(x as nat) + before.map_values(
            |c: u8| c as char,
        ));
        assert forall|i: int| 0 <= i < out@.len() implies #[trigger] out@[i] < 128 by {
            if i > 0 {
                assert(out@[i] == before[i - 1]);
            }
        }
    }
    let s = ascii_string(out);
    assert(s@ =~= out@.map_values(|c: u8| c as char));
    s
}

/// Whether a URL's bytes begin with `ws://`: a plain WebSocket link.
pub open spec fn is_plain_ws(b: Seq<u8>) -> bool {
    b.len() >= 5 && b.take(5) == seq![119u8, 115u8, 58u8, 47u8, 47u8]
}

/// Whether a URL names a plain WebSocket link.
pub fn starts_plain_ws(url: &str) -> (r: bool)
    ensures
        r == is_plain_ws(vstd::utf8::encode_utf8(url@)),
{
    let b = url.as_bytes();
    if b.len() < 5 {
        return false;
    }
    let r = b[0] == 119 && b[1] == 115 && b[2] == 58 && b[3] == 47 && b[4] == 47;
    proof {
        if r {
            assert(b@.take(5) =~= seq![119u8, 115u8, 58u8, 47u8, 47u8]);
        } else {
            let t = b@.take(5);
            assert(t[0] == b@[0] && t[1] == b@[1] && t[2] == b@[2] && t[3] == b@[3] && t[4]
                == b@[4]);
        }
    }
    r
}

/// The client's settings.
#[derive(Debug, Clone)]
pub struct Config {
    pub client_id: ClientId,
    /// The control server's URL, as text, with its scheme in lower case.
    pub control_url: String,
    pub use_tls: bool,
    pub local_host: String,
    pub local_port: u16,
    pub sub_domain: Option<String>,
    pub secret_key: Option<String>,
    pub first_run: bool,
    pub dashboard_port: u16,
    pub verbose: bool,
}

impl Config {
    /// The public URL of a tunnel: plain HTTP when the control link is a plain
    /// WebSocket, HTTPS otherwise.
    pub fn activation_url(&self, full_hostname: &str) -> (r: String)
        ensures
            r@ == (if is_plain_ws(vstd::utf8::encode_utf8(self.control_url@)) {
                "http"@
            } else {
                "https"@
            }) + "://"@ + full_hostname@,
    {
        let mut s = if starts_plain_ws(self.control_url.as_str()) {
            String::from_str("http")
        } else {
            String::from_str("https")
        };
        s.append("://");
        s.append(full_hostname);
        s
    }

    /// The URL of the local service for HTTP.
    pub fn forward_url(&self) -> (r: String)
        ensures
            r@ == (if self.use_tls {
                "https"@
            } else {
                "http"@
            }) + "://"@ + self.local_host@ + ":"@ + decimal(self.local_port as nat),
    {
        let mut s = if self.use_tls {
            String::from_str("https")
        } else {
            String::from_str("http")
        };
        s.append("://");
        s.append(self.local_host.as_str());
        s.append(":");
        let port = decimal_string(self.local_port);
        s.append(port.as_str());
        s
    }

    /// The URL of the local service for WebSocket.
    pub fn ws_forward_url(&self) -> (r: String)
        ensures
            r@ == (if self.use_tls {
                "wss"@
            } else {
                "ws"@
            }) + "://"@ + self.local_host@ + ":"@ + decimal(self.local_port as nat),
    {
        let mut s = if self.use_tls {
            String::from_str("wss")
        } else {
            String::from_str("ws")
        };
        s.append("://");
        s.append(self.local_host.as_str());
        s.append(":");
        let port = decimal_string(self.local_port);
        s.append(port.as_str());
        s
    }
}

} // verus!
