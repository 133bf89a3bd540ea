use vstd::prelude::*;
use vstd::string::{StringExecFns, StringSliceAdditionalSpecFns};

use crate::hello::{ascii_string, is_listed, listed, valid_sub_domain};

verus! {

pub const CR: u8 = 13;

pub const LF: u8 = 10;

pub const COLON: u8 = 58;

pub const DOT: u8 = 46;

pub open spec fn lower(c: u8) -> u8 {
    if 65 <= c <= 90 {
        (c + 32) as u8
    } else {
        c
    }
}

pub open spec fn is_blank(c: u8) -> bool {
    c == 32 || c == 9
}

/// A line that starts at `i`, after a line break, with a `Host:` header name
/// in any letter case.
pub open spec fn host_line_at(b: Seq<u8>, i: int) -> bool {
    &&& 2 <= i
    &&& i + 5 <= b.len()
    &&& b[i - 2] == CR
    &&& b[i - 1] == LF
    &&& lower(b[i]) == 104
    &&& lower(b[i + 1]) == 111
    &&& lower(b[i + 2]) == 115
    &&& lower(b[i + 3]) == 116
    &&& b[i + 4] == COLON
}

/// The first host line at or after `i`, or -1.
pub open spec fn find_host_line(b: Seq<u8>, i: int) -> int
    decreases b.len() - i,
{
    if i + 5 > b.len() {
        -1
    } else if host_line_at(b, i) {
        i
    } else {
        find_host_line(b, i + 1)
    }
}

/// The first carriage return at or after `j`, or the end.
pub open spec fn line_end(b: Seq<u8>, j: int) -> int
    decreases b.len() - j,
{
    if j >= b.len() || j < 0 {
        b.len() as int
    } else if b[j] == CR {
        j
    } else {
        line_end(b, j + 1)
    }
}

/// The first non-blank position in `[j, e)`, or `e`.
pub open spec fn skip_blank(b: Seq<u8>, j: int, e: int) -> int
    decreases e - j,
{
    if j >= e {
        e
    } else if is_blank(b[j]) {
        skip_blank(b, j + 1, e)
    } else {
        j
    }
}

/// The end of `[s, e)` once trailing blanks are dropped.
pub open spec fn trim_end(b: Seq<u8>, s: int, e: int) -> int
    decreases e - s,
{
    if e <= s {
        s
    } else if is_blank(b[e - 1]) {
        trim_end(b, s, e - 1)
    } else {
        e
    }
}

/// The first colon in `[j, e)`, or `e`.
pub open spec fn port_start(b: Seq<u8>, j: int, e: int) -> int
    decreases e - j,
{
    if j >= e {
        e
    } else if b[j] == COLON {
        j
    } else {
        port_start(b, j + 1, e)
    }
}

/// The host named by the first `Host` header of a request head: its value
/// without surrounding blanks, without a port, in lower case.
pub open spec fn host_of(b: Seq<u8>) -> Option<Seq<u8>> {
    let i = find_host_line(b, 2);
    if i < 0 {
        None
    } else {
        let e = line_end(b, i + 5);
        let s = skip_blank(b, i + 5, e);
        let t = trim_end(b, s, e);
        let p = port_start(b, s, t);
        Some(b.subrange(s, p).map_values(|c: u8| lower(c)))
    }
}

fn lower_byte(c: u8) -> (r: u8)
    ensures
        r == lower(c),
{
    if c >= 65 && c <= 90 {
        c + 32
    } else {
        c
    }
}

/// Reads the host from the head of an HTTP request, as `host_of` states.
pub fn extract_host(b: &[u8]) -> (r: Option<Vec<u8>>)
    ensures
        r.is_some() == host_of(b@).is_some(),
        r matches Some(h) ==> Some(h@) == host_of(b@),
{
    let n = b.len();
    let mut i: usize = 2;
    while n >= 5 && i <= n - 5 && !(b[i - 2] == CR && b[i - 1] == LF && lower_byte(b[i]) == 104
        && lower_byte(b[i + 1]) == 111 && lower_byte(b[i + 2]) == 115 && lower_byte(b[i + 3])
        == 116 && b[i + 4] == COLON)
        invariant
            n == b@.len(),
            2 <= i,
            find_host_line(b@, 2) == find_host_line(b@, i as int),
        decreases n - i,
    {
        i = i + 1;
    }
    if n < 5 || i > n - 5 {
        return None;
    }
    let mut e: usize = i + 5;
    while e < n && b[e] != CR
        invariant
            n == b@.len(),
            i + 5 <= e <= n,
            line_end(b@, i as int + 5) == line_end(b@, e as int),
        decreases n - e,
    {
        e = e + 1;
    }
    let mut s: usize = i + 5;
    while s < e && (b[s] == 32 || b[s] == 9)
        invariant
            n == b@.len(),
            i + 5 <= s <= e <= n,
            skip_blank(b@, i as int + 5, e as int) == skip_blank(b@, s as int, e as int),
        decreases e - s,
    {
        s = s + 1;
    }
    let mut t: usize = e;
    while t > s && (b[t - 1] == 32 || b[t - 1] == 9)
        invariant
            n == b@.len(),
            s <= t <= e <= n,
            trim_end(b@, s as int, e as int) == trim_end(b@, s as int, t as int),
        decreases t - s,
    {
        t = t - 1;
    }
    let mut p: usize = s;
    while p < t && b[p] != COLON
        invariant
            n == b@.len(),
            s <= p <= t <= n,
            port_start(b@, s as int, t as int) == port_start(b@, p as int, t as int),
        decreases t - p,
    {
        p = p + 1;
    }
    let mut out: Vec<u8> = Vec::new();
    let mut k: usize = s;
    while k < p
        invariant
            n == b@.len(),
            s <= k <= p <= n,
            out@ == b@.subrange(s as int, k as int).map_values(|c: u8| lower(c)),
        decreases p - k,
    {
        out.push(lower_byte(b[k]));
        k = k + 1;
        assert(out@ =~= b@.subrange(s as int, k as int).map_values(|c: u8| lower(c)));
    }
    Some(out)
}

/// The position of the first dot, or the length.
pub open spec fn first_dot(h: Seq<u8>, j: int) -> int
    decreases h.len() - j,
{
    if j >= h.len() || j < 0 {
        h.len() as int
    } else if h[j] == DOT {
        j
    } else {
        first_dot(h, j + 1)
    }
}

/// Whether the bytes after position `from` spell one of the allowed hosts.
pub open spec fn allowed_tail(h: Seq<u8>, from: int, allowed: Seq<String>) -> bool {
    exists|i: int|
        0 <= i < allowed.len() && vstd::utf8::encode_utf8(#[trigger] allowed[i]@) == h.subrange(
            from,
            h.len() as int,
        )
}

/// The subdomain that a host names under one of the allowed tunnel hosts:
/// the part before the first dot, when the part after it is an allowed host
/// and the part before it is a well-formed subdomain.
pub open spec fn sub_domain_of(h: Seq<u8>, allowed: Seq<String>) -> Option<Seq<char>> {
    let d = first_dot(h, 0);
    let label = h.subrange(0, d).map_values(|c: u8| c as char);
    if d < h.len() && allowed_tail(h, d + 1, allowed) && valid_sub_domain(label) {
        Some(label)
    } else {
        None
    }
}

/// Whether the UTF-8 bytes of a string are exactly `h[from..]`.
fn tail_equals(h: &[u8], from: usize, s: &String) -> (r: bool)
    requires
        from <= h@.len(),
    ensures
        r == (vstd::utf8::encode_utf8(s@) == h@.subrange(from as int, h@.len() as int)),
{
    let ss: &str = s.as_str();
    let sb = ss.as_bytes();
    let n = h.len();
    if sb.len() != n - from {
        return false;
    }
    let mut k: usize = 0;
    while k < sb.len()
        invariant
            n == h@.len(),
            sb@ == vstd::utf8::encode_utf8(s@),
            sb@.len() == h@.len() - from,
            from <= h@.len(),
            0 <= k <= sb@.len(),
            forall|j: int| 0 <= j < k ==> #[trigger] sb@[j] == h@[from + j],
        decreases sb@.len() - k,
    {
        if sb[k] != h[from + k] {
            assert(sb@[k as int] != h@.subrange(from as int, h@.len() as int)[k as int]);
            return false;
        }
        k = k + 1;
    }
    assert(sb@ =~= h@.subrange(from as int, h@.len() as int));
    true
}

/// Whether the bytes after position `from` spell one of the allowed hosts.
fn is_allowed_tail(h: &[u8], from: usize, allowed: &Vec<String>) -> (r: bool)
    requires
        from <= h@.len(),
    ensures
        r == allowed_tail(h@, from as int, allowed@),
{
    let mut i: usize = 0;
    while i < allowed.len()
        invariant
            from <= h@.len(),
            0 <= i <= allowed@.len(),
            forall|j: int|
                0 <= j < i ==> vstd::utf8::encode_utf8(#[trigger] allowed@[j]@) != h@.subrange(
                    from as int,
                    h@.len() as int,
                ),
        decreases allowed@.len() - i,
    {
        if tail_equals(h, from, &allowed[i]) {
            return true;
        }
        i = i + 1;
    }
    false
}

/// The subdomain named by a host, as `sub_domain_of` states.
pub fn sub_domain_of_host(h: &[u8], allowed: &Vec<String>) -> (r: Option<String>)
    ensures
        r.is_some() == sub_domain_of(h@, allowed@).is_some(),
        r matches Some(s) ==> Some(s@) == sub_domain_of(h@, allowed@),
{
    let n = h.len();
    let mut d: usize = 0;
    while d < n && h[d] != DOT
        invariant
            n == h@.len(),
            d <= n,
            first_dot(h@, 0) == first_dot(h@, d as int),
            forall|k: int| 0 <= k < d ==> h@[k] != DOT,
        decreases n - d,
    {
        d = d + 1;
    }
    if d >= n {
        return None;
    }
    if !is_allowed_tail(h, d + 1, allowed) {
        return None;
    }
    let mut label: Vec<u8> = Vec::new();
    let mut k: usize = 0;
    while k < d
        invariant
            d < n == h@.len(),
            0 <= k <= d,
            label@ == h@.subrange(0, k as int),
        decreases d - k,
    {
        label.push(h[k]);
        k = k + 1;
        assert(label@ =~= h@.subrange(0, k as int));
    }
    let ghost lv = Seq::new(label@.len(), |j: int| label@[j] as char);
    assert(lv =~= h@.subrange(0, d as int).map_values(|c: u8| c as char));
    let mut ok = true;
    let mut j: usize = 0;
    while j < d
        invariant
            label@.len() == d,
            0 <= j <= d,
            ok == (forall|m: int| 0 <= m < j ==> #[trigger] label@[m] < 128),
        decreases d - j,
    {
        if label[j] >= 128 {
            ok = false;
        }
        j = j + 1;
    }
    if !ok {
        proof {
            let m = choose|m: int| 0 <= m < d && !(#[trigger] label@[m] < 128);
            assert(!crate::hello::is_label_char(lv[m]));
        }
        return None;
    }
    let s = ascii_string(label);
    if crate::hello::is_valid_sub_domain(s.as_str()) {
        Some(s)
    } else {
        None
    }
}

/// Where an end-user connection goes.
#[derive(Debug, Clone, Copy, PartialEq, Eq, Structural)]
pub enum Route {
    /// A session on this instance serves the subdomain.
    Local,
    /// No session here: ask the other instances.
    AskPeers,
    /// Refused: answer with the canned 404.
    NotFound,
}

/// Decides where an end-user connection goes: nowhere for a blocked source
/// or subdomain, here when this instance holds the subdomain, else to the
/// peers.
pub fn route(sub: &String, blocked_subs: &Vec<String>, source_blocked: bool, held_here: bool) -> (r:
    Route)
    ensures
        r == (if source_blocked || listed(blocked_subs@, sub@) {
            Route::NotFound
        } else if held_here {
            Route::Local
        } else {
            Route::AskPeers
        }),
{
    if source_blocked || is_listed(blocked_subs, sub) {
        Route::NotFound
    } else if held_here {
        Route::Local
    } else {
        Route::AskPeers
    }
}

/// A peer's answer to a `WhoHas` query.
#[derive(Debug, Clone, Copy, PartialEq, Eq, Structural)]
pub enum PeerAnswer {
    Yes,
    No,
    TimedOut,
}

/// The first peer that answered `Yes`, by position; none when all answered
/// `No` or timed out.
pub fn first_owner(answers: &Vec<PeerAnswer>) -> (r: Option<usize>)
    ensures
        r.is_none() == (forall|i: int| 0 <= i < answers@.len() ==> answers@[i] != PeerAnswer::Yes),
        r matches Some(i) ==> i < answers@.len() && answers@[i as int] == PeerAnswer::Yes && forall|
            j: int,
        | 0 <= j < i ==> answers@[j] != PeerAnswer::Yes,
{
    let mut i: usize = 0;
    while i < answers.len()
        invariant
            0 <= i <= answers@.len(),
            forall|j: int| 0 <= j < i ==> answers@[j] != PeerAnswer::Yes,
        decreases answers@.len() - i,
    {
        if answers[i] == PeerAnswer::Yes {
            return Some(i);
        }
        i = i + 1;
    }
    None
}

/// The canned answer to an end user whose subdomain nobody serves.
pub open spec fn not_found_body(sub: Seq<char>) -> Seq<char> {
    "HTTP/1.1 404 Not Found\r\nContent-Type: text/plain\r\nConnection: close\r\n\r\nno tunnel for "@
        + sub + "\n"@
}

pub fn not_found_response(sub: &str) -> (r: String)
    ensures
        r@ == not_found_body(sub@),
{
    let mut s = String::from_str(
        "HTTP/1.1 404 Not Found\r\nContent-Type: text/plain\r\nConnection: close\r\n\r\nno tunnel for ",
    );
    s.append(sub);
    s.append("\n");
    s
}

} // verus!
