use vstd::prelude::*;
use vstd::string::StringSliceAdditionalSpecFns;

use crate::ident::{random_id_bytes, ClientId};

verus! {

/// Length of a subdomain handed to an anonymous client.
pub const ANON_SUB_LEN: usize = 8;

/// How a client identifies itself in its hello.
#[derive(Debug, Clone)]
pub enum ClientType {
    Anonymous,
    Auth { key: String },
}

/// The first frame a client sends.
#[derive(Debug, Clone)]
pub struct ClientHello {
    pub id: ClientId,
    pub sub_domain: Option<String>,
    pub typ: ClientType,
}

impl ClientHello {
    /// A hello with a fresh client id.
    pub fn generate(sub_domain: Option<String>, typ: ClientType) -> (r: ClientHello)
        ensures
            r.id.wf(),
            r.sub_domain == sub_domain,
            r.typ == typ,
    {
        ClientHello { id: ClientId::generate(), sub_domain, typ }
    }
}

/// The server's answer to a hello.
#[derive(Debug, Clone)]
pub enum ServerHello {
    Success { sub_domain: String },
    AuthFailed,
    InvalidSubDomain,
    SubDomainInUse,
}

pub open spec fn is_label_start(c: char) -> bool {
    ('a' <= c && c <= 'z') || ('0' <= c && c <= '9')
}

pub open spec fn is_label_char(c: char) -> bool {
    is_label_start(c) || c == '-'
}

/// A subdomain is a lower-case letter or digit followed by two to
/// sixty-two letters, digits or hyphens.
pub open spec fn valid_sub_domain(s: Seq<char>) -> bool {
    &&& 3 <= s.len() <= 63
    &&& is_label_start(s[0])
    &&& forall|i: int| 1 <= i < s.len() ==> is_label_char(#[trigger] s[i])
}

fn is_label_start_byte(b: u8) -> (r: bool)
    ensures
        r == is_label_start(b as char),
{
    (b >= 97 && b <= 122) || (b >= 48 && b <= 57)
}

fn is_label_byte(b: u8) -> (r: bool)
    ensures
        r == is_label_char(b as char),
{
    is_label_start_byte(b) || b == 45
}

/// Whether a text is a well-formed subdomain.
pub fn is_valid_sub_domain(s: &str) -> (r: bool)
    ensures
        r == valid_sub_domain(s@),
{
    if !s.is_ascii() {
        proof {
            if valid_sub_domain(s@) {
                assert forall|i: int| 0 <= i < s@.len() implies '\0' <= #[trigger] s@[i]
                    <= '\u{7f}' by {
                    if i > 0 {
                        assert(is_label_char(s@[i]));
                    }
                }
            }
        }
        return false;
    }
    let b = s.as_bytes();
    proof {
        vstd::string::is_ascii_spec_bytes(s);
    }
    let n = b.len();
    if n < 3 || n > 63 {
        return false;
    }
    if !is_label_start_byte(b[0]) {
        return false;
    }
    let mut i: usize = 1;
    while i < n
        invariant
            n == b@.len(),
            b@ == s.spec_bytes(),
            s.spec_bytes() =~= Seq::new(s@.len(), |k: int| s@[k] as u8),
            vstd::string::is_ascii(s),
            1 <= i <= n,
            forall|k: int| 1 <= k < i ==> is_label_char(#[trigger] s@[k]),
        decreases n - i,
    {
        assert(b@[i as int] as char == s@[i as int]);
        if !is_label_byte(b[i]) {
            return false;
        }
        i = i + 1;
    }
    assert(b@[0] as char == s@[0]);
    true
}

/// Relies on String::from_utf8: it succeeds exactly on valid UTF-8, and the
/// string then holds those bytes.
#[verifier::external_body]
pub(crate) fn string_from_utf8(b: Vec<u8>) -> (r: Option<String>)
    ensures
        r.is_some() == vstd::utf8::valid_utf8(b@),
        r matches Some(s) ==> vstd::utf8::encode_utf8(s@) == b@,
{
    String::from_utf8(b).ok()
}

/// Turns ASCII bytes into the string of those characters.
pub fn ascii_string(b: Vec<u8>) -> (r: String)
    requires
        forall|i: int| 0 <= i < b@.len() ==> #[trigger] b@[i] < 128,
    ensures
        r@ == Seq::new(b@.len(), |i: int| b@[i] as char),
{
    let ghost chars = Seq::new(b@.len(), |i: int| b@[i] as char);
    proof {
        assert(vstd::utf8::is_ascii_chars(chars));
        vstd::utf8::is_ascii_chars_encode_utf8(chars);
        assert(vstd::utf8::encode_utf8(chars) =~= b@);
        vstd::utf8::encode_utf8_valid_utf8(chars);
    }
    match string_from_utf8(b) {
        Some(s) => {
            proof {
                vstd::utf8::encode_utf8_decode_utf8(s@);
                vstd::utf8::encode_utf8_decode_utf8(chars);
            }
            s
        },
        None => {
            proof {
                assert(false);
            }
            String::new()
        },
    }
}

/// The character that a random byte picks from the lower-case letters and
/// digits.
pub open spec fn label_char_of(b: u8) -> char {
    let k = b % 36;
    if k < 26 {
        ('a' as u8 + k) as char
    } else {
        ('0' as u8 + (k - 26)) as char
    }
}

fn label_byte_of(b: u8) -> (r: u8)
    ensures
        r as char == label_char_of(b),
        is_label_start(r as char),
        r < 128,
{
    let k = b % 36;
    if k < 26 {
        97 + k
    } else {
        48 + (k - 26)
    }
}

/// The subdomain that sixteen random bytes give: each of the first eight
/// picks a letter or digit.
pub open spec fn sub_domain_from_bytes(b: Seq<u8>) -> Seq<char> {
    Seq::new(ANON_SUB_LEN as nat, |i: int| label_char_of(b[i]))
}

/// Draws a subdomain for an anonymous client from random bytes.
pub fn anonymous_sub_domain(seed: &[u8]) -> (r: String)
    requires
        seed@.len() >= ANON_SUB_LEN,
    ensures
        r@ == sub_domain_from_bytes(seed@),
        valid_sub_domain(r@),
{
    let mut out: Vec<u8> = Vec::new();
    let mut i: usize = 0;
    while i < ANON_SUB_LEN
        invariant
            seed@.len() >= ANON_SUB_LEN,
            i <= ANON_SUB_LEN,
            out@.len() == i,
            forall|k: int| 0 <= k < i ==> #[trigger] out@[k] < 128 && out@[k] as char == label_char_of(seed@[k]),
        decreases ANON_SUB_LEN - i,
    {
        let c = label_byte_of(seed[i]);
        out.push(c);
        i = i + 1;
    }
    let s = ascii_string(out);
    assert(s@ =~= sub_domain_from_bytes(seed@));
    proof {
        assert forall|k: int| 0 <= k < s@.len() implies is_label_start(#[trigger] s@[k]) by {
            let x = seed@[k];
            assert(is_label_start(label_char_of(x))) by {
                let m = x % 36;
                if m < 26 {
                    assert('a' as u8 + m <= 'z' as u8);
                } else {
                    assert('0' as u8 + (m - 26) <= '9' as u8);
                }
            }
        }
    }
    s
}

/// A fresh random subdomain for an anonymous client.
pub fn fresh_sub_domain() -> (r: String)
    ensures
        valid_sub_domain(r@),
        r@.len() == ANON_SUB_LEN,
{
    let seed = random_id_bytes();
    anonymous_sub_domain(seed.as_slice())
}

/// What the credential check concluded about a client.
#[derive(Debug, Clone, Copy, PartialEq, Eq, Structural)]
pub enum AuthOutcome {
    Anonymous,
    /// The credential permits the requested subdomain.
    Granted,
    /// The credential is valid but does not permit the requested subdomain:
    /// another one is substituted.
    Reassigned,
    Denied,
}

/// The first stage of the handshake: either an answer that ends it, or the
/// subdomain the client is to hold, to be checked against other instances.
#[derive(Debug, Clone)]
pub enum HelloStep {
    Reply(ServerHello),
    Claim(String),
}

pub open spec fn listed(v: Seq<String>, s: Seq<char>) -> bool {
    exists|i: int| 0 <= i < v.len() && v[i]@ == s
}

/// Whether a string is among the listed ones.
pub fn is_listed(v: &Vec<String>, s: &String) -> (r: bool)
    ensures
        r == listed(v@, s@),
{
    let mut i: usize = 0;
    while i < v.len()
        invariant
            0 <= i <= v@.len(),
            forall|j: int| 0 <= j < i ==> v@[j]@ != s@,
        decreases v@.len() - i,
    {
        if v[i] == *s {
            return true;
        }
        i = i + 1;
    }
    false
}

/// Decides the first stage of a hello. In order: a blocked requested
/// subdomain is in use; a malformed one is invalid; a refused credential
/// fails; an anonymous or reassigned client, or one that asked for nothing,
/// gets the fresh subdomain; a granted client gets the one it asked for.
///
/// A reassigned client holds a valid credential whose patterns do not
/// permit the subdomain it asked for. Those patterns are regular
/// expressions, not names, so no permitted name can be read off them in
/// general; the client gets the fresh random subdomain instead, which its
/// credential is not checked against.
pub fn begin_hello(
    requested: &Option<String>,
    auth: AuthOutcome,
    blocked: &Vec<String>,
    fresh: String,
) -> (r: HelloStep)
    ensures
        match requested {
            Some(s) => {
                if listed(blocked@, s@) {
                    r matches HelloStep::Reply(ServerHello::SubDomainInUse)
                } else if !valid_sub_domain(s@) {
                    r matches HelloStep::Reply(ServerHello::InvalidSubDomain)
                } else if auth == AuthOutcome::Denied {
                    r matches HelloStep::Reply(ServerHello::AuthFailed)
                } else if auth == AuthOutcome::Anonymous || auth == AuthOutcome::Reassigned {
                    (r matches HelloStep::Claim(c) && c@ == fresh@)
                } else {
                    (r matches HelloStep::Claim(c) && c@ == s@)
                }
            },
            None => {
                if auth == AuthOutcome::Denied {
                    r matches HelloStep::Reply(ServerHello::AuthFailed)
                } else {
                    (r matches HelloStep::Claim(c) && c@ == fresh@)
                }
            },
        },
{
    match requested {
        Some(s) => {
            if is_listed(blocked, s) {
                return HelloStep::Reply(ServerHello::SubDomainInUse);
            }
            if !is_valid_sub_domain(s.as_str()) {
                return HelloStep::Reply(ServerHello::InvalidSubDomain);
            }
            match auth {
                AuthOutcome::Denied => HelloStep::Reply(ServerHello::AuthFailed),
                AuthOutcome::Anonymous | AuthOutcome::Reassigned => HelloStep::Claim(fresh),
                AuthOutcome::Granted => HelloStep::Claim(s.clone()),
            }
        },
        None => match auth {
            AuthOutcome::Denied => HelloStep::Reply(ServerHello::AuthFailed),
            _ => HelloStep::Claim(fresh),
        },
    }
}

/// Ends a hello once the other instances were asked about the claimed
/// subdomain: held by another instance, it is in use; otherwise the client
/// gets it, and an incumbent on this instance is displaced when the session
/// is added to the registry.
pub fn finish_hello(claimed: String, held_elsewhere: bool) -> (r: ServerHello)
    ensures
        held_elsewhere ==> r matches ServerHello::SubDomainInUse,
        !held_elsewhere ==> (r matches ServerHello::Success { sub_domain } && sub_domain@
            == claimed@),
{
    if held_elsewhere {
        ServerHello::SubDomainInUse
    } else {
        ServerHello::Success { sub_domain: claimed }
    }
}

} // verus!
