use vstd::prelude::*;
use vstd::string::{StringExecFns, StringSliceAdditionalSpecFns};
use vstd::utf8::{encode_utf8, valid_utf8};

use crate::hello::{is_listed, listed, string_from_utf8};

verus! {

pub const COMMA: u8 = 44;

/// The pieces of a byte string between separators, as `str::split` gives
/// them: an empty input is one empty piece.
pub open spec fn split_on(b: Seq<u8>, sep: u8) -> Seq<Seq<u8>>
    decreases b.len(),
{
    if b.len() == 0 {
        seq![Seq::<u8>::empty()]
    } else {
        let prev = split_on(b.drop_last(), sep);
        if b.last() == sep {
            prev.push(Seq::<u8>::empty())
        } else {
            prev.update(prev.len() - 1, prev.last().push(b.last()))
        }
    }
}

/// A stretch of valid UTF-8 that follows an ASCII byte, or starts the text,
/// and ends before an ASCII byte, or at the end, is valid UTF-8.
proof fn lemma_piece_valid(b: Seq<u8>, start: int, end: int)
    requires
        valid_utf8(b),
        0 <= start <= end <= b.len(),
        start == 0 || b[start - 1] < 128,
        end == b.len() || b[end] < 128,
    ensures
        valid_utf8(b.subrange(start, end)),
{
    let s = if start == 0 {
        assert(b.subrange(0, b.len() as int) =~= b);
        b
    } else {
        vstd::utf8::is_char_boundary_iff_not_is_continuation_byte(b, start - 1);
        vstd::utf8::valid_utf8_split(b, start - 1);
        let t = b.subrange(start - 1, b.len() as int);
        assert(vstd::utf8::pop_first_scalar(t) =~= b.subrange(start, b.len() as int));
        b.subrange(start, b.len() as int)
    };
    assert(valid_utf8(s));
    if end == b.len() {
        assert(s =~= b.subrange(start, end));
    } else {
        let k = end - start;
        assert(s[k] == b[end]);
        vstd::utf8::is_char_boundary_iff_not_is_continuation_byte(s, k);
        vstd::utf8::valid_utf8_split(s, k);
        assert(s.subrange(0, k) =~= b.subrange(start, end));
    }
}

pub open spec fn bytes_of_strings(v: Seq<String>) -> Seq<Seq<u8>> {
    v.map_values(|s: String| encode_utf8(s@))
}

/// Splits a text at each comma.
pub fn split_commas(s: &str) -> (r: Vec<String>)
    ensures
        bytes_of_strings(r@) == split_on(s.spec_bytes(), COMMA),
{
    let b = s.as_bytes();
    let n = b.len();
    proof {
        vstd::utf8::encode_utf8_valid_utf8(s@);
    }
    let mut out: Vec<String> = Vec::new();
    let mut cur: Vec<u8> = Vec::new();
    let mut i: usize = 0;
    let ghost mut start: int = 0;
    while i < n
        invariant
            n == b@.len(),
            b@ == s.spec_bytes(),
            valid_utf8(b@),
            0 <= start <= i <= n,
            start == 0 || b@[start - 1] == COMMA,
            cur@ == b@.subrange(start, i as int),
            bytes_of_strings(out@).push(cur@) == split_on(b@.take(i as int), COMMA),
        decreases n - i,
    {
        let c = b[i];
        proof {
            assert(b@.take(i as int + 1).drop_last() =~= b@.take(i as int));
            assert(b@.take(i as int + 1).last() == c);
        }
        if c == COMMA {
            proof {
                lemma_piece_valid(b@, start, i as int);
            }
            let piece = cur;
            let ghost pv = piece@;
            cur = Vec::new();
            match string_from_utf8(piece) {
                Some(p) => {
                    let ghost before = out@;
                    out.push(p);
                    proof {
                        assert(bytes_of_strings(out@) =~= bytes_of_strings(before).push(pv));
                        start = i + 1;
                        assert(cur@ =~= b@.subrange(start, i as int + 1));
                    }
                },
                None => {
                    proof {
                        assert(false);
                    }
                },
            }
        } else {
            cur.push(c);
            proof {
                assert(cur@ =~= b@.subrange(start, i as int + 1));
                let prev = split_on(b@.take(i as int), COMMA);
                assert(bytes_of_strings(out@).push(cur@) =~= prev.update(
                    prev.len() - 1,
                    prev.last().push(c),
                ));
            }
        }
        i = i + 1;
    }
    proof {
        lemma_piece_valid(b@, start, n as int);
        assert(b@.take(n as int) =~= b@);
    }
    let ghost pv = cur@;
    match string_from_utf8(cur) {
        Some(p) => {
            let ghost before = out@;
            out.push(p);
            proof {
                assert(bytes_of_strings(out@) =~= bytes_of_strings(before).push(pv));
            }
        },
        None => {
            proof {
                assert(false);
            }
        },
    }
    out
}

/// The number that a run of ASCII digits stands for.
pub open spec fn digits_value(b: Seq<u8>) -> nat
    decreases b.len(),
{
    if b.len() == 0 {
        0
    } else {
        digits_value(b.drop_last()) * 10 + (b.last() - 48) as nat
    }
}

pub open spec fn all_digits(b: Seq<u8>) -> bool {
    forall|i: int| 0 <= i < b.len() ==> 48 <= #[trigger] b[i] <= 57
}

/// The digits of a port setting: after an optional plus sign.
pub open spec fn port_digits(b: Seq<u8>) -> Seq<u8> {
    if b.len() > 0 && b[0] == 43 {
        b.subrange(1, b.len() as int)
    } else {
        b
    }
}

/// The port that a setting names: one or more decimal digits, after an
/// optional plus sign, for a number that fits in 16 bits.
pub open spec fn port_value(b: Seq<u8>) -> Option<u16> {
    let d = port_digits(b);
    if d.len() > 0 && all_digits(d) && digits_value(d) <= u16::MAX {
        Some(digits_value(d) as u16)
    } else {
        None
    }
}

proof fn lemma_digits_value_monotone(b: Seq<u8>, i: int)
    requires
        0 <= i <= b.len(),
        all_digits(b),
    ensures
        digits_value(b.take(i)) <= digits_value(b),
    decreases b.len() - i,
{
    if i < b.len() {
        lemma_digits_value_monotone(b, i + 1);
        assert(b.take(i + 1).drop_last() =~= b.take(i));
    } else {
        assert(b.take(i) =~= b);
    }
}

/// Reads a port number.
pub fn parse_port(s: &str) -> (r: Option<u16>)
    ensures
        r == port_value(s.spec_bytes()),
{
    let b = s.as_bytes();
    let n = b.len();
    let first: usize = if n > 0 && b[0] == 43 {
        1
    } else {
        0
    };
    let ghost d = port_digits(b@);
    assert(d =~= b@.subrange(first as int, n as int));
    if first >= n {
        return None;
    }
    let mut v: u32 = 0;
    let mut i: usize = first;
    while i < n
        invariant
            n == b@.len(),
            first <= i <= n,
            d == b@.subrange(first as int, n as int),
            b@ == s.spec_bytes(),
            d == port_digits(b@),
            forall|k: int| first <= k < i ==> 48 <= #[trigger] b@[k] <= 57,
            v as nat == digits_value(d.take(i - first)),
            v <= u16::MAX,
        decreases n - i,
    {
        let c = b[i];
        if c < 48 || c > 57 {
            proof {
                let k = i - first;
                assert(d[k] == c);
                assert(!(48 <= d[k] <= 57));
                assert(!all_digits(d));
            }
            return None;
        }
        let next: u32 = v * 10 + (c - 48) as u32;
        proof {
            assert(d.take(i - first + 1).drop_last() =~= d.take(i - first));
            assert(d.take(i - first + 1).last() == c);
        }
        if next > 65535 {
            proof {
                let j = i - first + 1;
                assert(digits_value(d.take(j)) == next);
                if all_digits(d) {
                    lemma_digits_value_monotone(d, j);
                }
            }
            return None;
        }
        v = next;
        i = i + 1;
    }
    proof {
        assert(d.take(n - first) =~= d);
        assert forall|k: int| 0 <= k < d.len() implies 48 <= #[trigger] d[k] <= 57 by {
            assert(d[k] == b@[first + k]);
        }
    }
    Some(v as u16)
}

/// A port setting: the default when it is absent, else the port it names,
/// or `None` when it names none.
pub fn port_setting(value: &Option<String>, default: u16) -> (r: Option<u16>)
    ensures
        r == (match value {
            None => Some(default),
            Some(s) => port_value(encode_utf8(s@)),
        }),
{
    match value {
        None => Some(default),
        Some(s) => parse_port(s.as_str()),
    }
}

pub open spec fn hex_digit_value(c: u8) -> Option<u8> {
    if 48 <= c <= 57 {
        Some((c - 48) as u8)
    } else if 97 <= c <= 102 {
        Some((c - 87) as u8)
    } else if 65 <= c <= 70 {
        Some((c - 55) as u8)
    } else {
        None
    }
}

fn hex_digit(c: u8) -> (r: Option<u8>)
    ensures
        r == hex_digit_value(c),
{
    if c >= 48 && c <= 57 {
        Some(c - 48)
    } else if c >= 97 && c <= 102 {
        Some(c - 87)
    } else if c >= 65 && c <= 70 {
        Some(c - 55)
    } else {
        None
    }
}

/// Every character of a hex text is a hex digit, and they come in pairs.
pub open spec fn is_hex(b: Seq<u8>) -> bool {
    b.len() % 2 == 0 && forall|i: int| 0 <= i < b.len() ==> (#[trigger] hex_digit_value(b[i])).is_some()
}

/// The bytes that a hex text spells, two digits each, high digit first.
pub open spec fn hex_bytes(b: Seq<u8>) -> Seq<u8> {
    Seq::new(
        b.len() / 2,
        |i: int|
            (hex_digit_value(b[2 * i]).unwrap() * 16 + hex_digit_value(b[2 * i + 1]).unwrap()) as u8,
    )
}

/// Reads a key written in hex.
pub fn decode_hex(s: &str) -> (r: Option<Vec<u8>>)
    ensures
        r.is_some() == is_hex(s.spec_bytes()),
        r matches Some(k) ==> k@ == hex_bytes(s.spec_bytes()),
{
    let b = s.as_bytes();
    let n = b.len();
    if n % 2 != 0 {
        return None;
    }
    let mut out: Vec<u8> = Vec::new();
    let mut i: usize = 0;
    while i < n / 2
        invariant
            n == b@.len(),
            b@ == s.spec_bytes(),
            n % 2 == 0,
            0 <= i <= n / 2,
            out@.len() == i,
            forall|k: int| 0 <= k < 2 * i ==> (#[trigger] hex_digit_value(b@[k])).is_some(),
            forall|k: int| 0 <= k < i ==> #[trigger] out@[k] == hex_bytes(b@)[k],
        decreases n / 2 - i,
    {
        let hi = hex_digit(b[2 * i]);
        let lo = hex_digit(b[2 * i + 1]);
        match (hi, lo) {
            (Some(h), Some(l)) => {
                out.push(h * 16 + l);
            },
            _ => {
                proof {
                    let bad = if hi.is_none() {
                        2 * i as int
                    } else {
                        2 * i as int + 1
                    };
                    assert((hex_digit_value(b@[bad])).is_none());
                    assert(!is_hex(b@));
                }
                return None;
            },
        }
        i = i + 1;
    }
    assert(out@ =~= hex_bytes(b@));
    Some(out)
}

/// The DNS name under which the instances of an application find each other.
pub fn gossip_host(app_name: &str) -> (r: String)
    ensures
        r@ == "global."@ + app_name@ + ".internal"@,
{
    let mut s = String::from_str("global.");
    s.append(app_name);
    s.append(".internal");
    s
}

/// The server's settings.
#[derive(Debug, Clone)]
pub struct Config {
    /// Hosts under which tunnels are served: `foo.bar` serves `*.foo.bar`.
    pub allowed_hosts: Vec<String>,
    /// Subdomains that are never served.
    pub blocked_sub_domains: Vec<String>,
    /// Port for end users.
    pub remote_port: u16,
    /// Port for the control server.
    pub control_port: u16,
    /// Internal port between instances.
    pub internal_network_port: u16,
    /// The signature key.
    pub master_sig_key: Vec<u8>,
    /// DNS name under which the instances find each other.
    pub gossip_dns_host: Option<String>,
    /// The identifier of this instance.
    pub instance_id: String,
    /// Source addresses that are refused, in their canonical text form.
    pub blocked_ips: Vec<String>,
    /// The host under which tunnels are created.
    pub tunnel_host: String,
    /// The token shared with clients.
    pub env_token: String,
}

impl Config {
    pub fn is_blocked_sub_domain(&self, sub: &String) -> (r: bool)
        ensures
            r == listed(self.blocked_sub_domains@, sub@),
    {
        is_listed(&self.blocked_sub_domains, sub)
    }

    pub fn is_blocked_ip(&self, ip: &String) -> (r: bool)
        ensures
            r == listed(self.blocked_ips@, ip@),
    {
        is_listed(&self.blocked_ips, ip)
    }
}

} // verus!
