use vstd::prelude::*;
use vstd::string::StringExecFns;

use crate::config::split_commas;
use crate::hello::AuthOutcome;

verus! {

/// Whether the regex crate accepts a pattern text.
pub uninterp spec fn pattern_compiles(p: Seq<char>) -> bool;

/// Whether a compiled pattern finds a match somewhere in a text.
pub uninterp spec fn pattern_finds(p: Seq<char>, text: Seq<char>) -> bool;

/// A compiled subdomain pattern, together with the text it was compiled from.
pub struct SubDomainPattern {
    re: regex::Regex,
    source: String,
}

#[verifier::external_type_specification]
#[verifier::external_body]
pub struct ExRegex(regex::Regex);

impl View for SubDomainPattern {
    type V = Seq<char>;

    closed spec fn view(&self) -> Seq<char> {
        self.source@
    }
}

/// Relies on regex::Regex::new: it succeeds exactly on the pattern texts that
/// the crate accepts, which depends on the text alone.
#[verifier::external_body]
fn compile_pattern(p: String) -> (r: Option<SubDomainPattern>)
    ensures
        r.is_some() == pattern_compiles(p@),
        r matches Some(c) ==> c@ == p@,
{
    match regex::Regex::new(&p) {
        Ok(re) => Some(SubDomainPattern { re, source: p }),
        Err(_) => None,
    }
}

impl SubDomainPattern {
    /// Relies on regex::Regex::is_match: whether the pattern matches somewhere
    /// in the text, which depends on the pattern and the text alone.
    #[verifier::external_body]
    fn finds(&self, text: &str) -> (r: bool)
        ensures
            r == pattern_finds(self@, text@),
    {
        self.re.is_match(text)
    }
}

/// The pattern text that matches what `p` matches, over the whole subject.
pub open spec fn anchored(p: Seq<char>) -> Seq<char> {
    "^(?:"@ + p + ")$"@
}

/// Whether one carried pattern, anchored at both ends, compiles and matches
/// the subdomain.
pub open spec fn pattern_allows(p: Seq<char>, sub: Seq<char>) -> bool {
    pattern_compiles(anchored(p)) && pattern_finds(anchored(p), sub)
}

pub open spec fn patterns_allow(ps: Seq<Seq<char>>, sub: Seq<char>) -> bool {
    exists|i: int| 0 <= i < ps.len() && pattern_allows(ps[i], sub)
}

pub open spec fn strings_view(v: Seq<String>) -> Seq<Seq<char>> {
    v.map_values(|s: String| s@)
}

/// Anchors a pattern text at both ends.
pub fn anchor_pattern(p: &str) -> (r: String)
    ensures
        r@ == anchored(p@),
{
    let mut s = String::from_str("^(?:");
    s.append(p);
    s.append(")$");
    s
}

/// Whether any of the patterns, each anchored at both ends, compiles and
/// matches the subdomain. A pattern that does not compile is passed over.
pub fn subdomain_permitted(patterns: &Vec<String>, sub: &str) -> (r: bool)
    ensures
        r == patterns_allow(strings_view(patterns@), sub@),
{
    let mut i: usize = 0;
    while i < patterns.len()
        invariant
            0 <= i <= patterns@.len(),
            forall|j: int| 0 <= j < i ==> !pattern_allows(#[trigger] patterns@[j]@, sub@),
        decreases patterns@.len() - i,
    {
        let a = anchor_pattern(patterns[i].as_str());
        match compile_pattern(a) {
            Some(re) => {
                if re.finds(sub) {
                    assert(strings_view(patterns@)[i as int] == patterns@[i as int]@);
                    return true;
                }
            },
            None => {},
        }
        i = i + 1;
    }
    assert forall|j: int| 0 <= j < strings_view(patterns@).len() implies !pattern_allows(
        strings_view(patterns@)[j],
        sub@,
    ) by {
        assert(strings_view(patterns@)[j] == patterns@[j]@);
    }
    false
}

/// The claims of a signed token whose signature was checked.
#[derive(Debug, Clone)]
pub struct TokenClaims {
    pub iss: String,
    pub aud: String,
    /// Expiry, in seconds since the epoch.
    pub exp: i64,
    /// Issue time, in seconds since the epoch.
    pub iat: i64,
    /// Subdomain patterns carried at the top level of the token.
    pub top_level_subdomains: Option<Vec<String>>,
    /// Subdomain patterns carried in the nested claims object.
    pub nested_subdomains: Option<Vec<String>>,
}

/// Why a signed token was refused.
#[derive(Debug, Clone, Copy, PartialEq, Eq, Structural)]
pub enum ClaimError {
    InvalidIssuer,
    InvalidAudience,
    Expired,
    IssuedInFuture,
    NoSubDomains,
    NoMatchingSubDomain,
}

/// The patterns that decide: the top-level list when present, else the
/// nested one.
pub open spec fn carried_patterns(c: TokenClaims) -> Option<Seq<Seq<char>>> {
    match c.top_level_subdomains {
        Some(v) => Some(strings_view(v@)),
        None => match c.nested_subdomains {
            Some(v) => Some(strings_view(v@)),
            None => None,
        },
    }
}

/// The verdict on a token's claims, checked in order: issuer, audience,
/// expiry, issue time, then the subdomain patterns.
pub open spec fn claims_verdict(
    c: TokenClaims,
    issuer: Seq<char>,
    client_id: Seq<char>,
    now: i64,
    sub: Seq<char>,
) -> Result<(), ClaimError> {
    if c.iss@ != issuer {
        Err(ClaimError::InvalidIssuer)
    } else if c.aud@ != client_id {
        Err(ClaimError::InvalidAudience)
    } else if c.exp < now {
        Err(ClaimError::Expired)
    } else if c.iat > now {
        Err(ClaimError::IssuedInFuture)
    } else {
        match carried_patterns(c) {
            None => Err(ClaimError::NoSubDomains),
            Some(ps) => if patterns_allow(ps, sub) {
                Ok(())
            } else {
                Err(ClaimError::NoMatchingSubDomain)
            },
        }
    }
}

/// Checks the claims of a token, at time `now`, for the requested subdomain.
pub fn check_claims(
    claims: &TokenClaims,
    issuer: &String,
    client_id: &String,
    now: i64,
    sub: &str,
) -> (r: Result<(), ClaimError>)
    ensures
        r == claims_verdict(*claims, issuer@, client_id@, now, sub@),
{
    if claims.iss != *issuer {
        return Err(ClaimError::InvalidIssuer);
    }
    if claims.aud != *client_id {
        return Err(ClaimError::InvalidAudience);
    }
    if claims.exp < now {
        return Err(ClaimError::Expired);
    }
    if claims.iat > now {
        return Err(ClaimError::IssuedInFuture);
    }
    let patterns = match &claims.top_level_subdomains {
        Some(v) => v,
        None => match &claims.nested_subdomains {
            Some(v) => v,
            None => return Err(ClaimError::NoSubDomains),
        },
    };
    if subdomain_permitted(patterns, sub) {
        Ok(())
    } else {
        Err(ClaimError::NoMatchingSubDomain)
    }
}

/// Relies on chrono::Utc::now and DateTime::timestamp: the current time in
/// seconds since the epoch. Nothing is known of its value.
#[verifier::external_body]
fn now_timestamp() -> (r: i64) {
    chrono::Utc::now().timestamp()
}

/// Checks the claims of a token at the current time. Whatever the clock
/// reads, the outcome is the verdict of the claims at some time.
pub fn check_claims_now(claims: &TokenClaims, issuer: &String, client_id: &String, sub: &str) -> (r:
    Result<(), ClaimError>)
    ensures
        exists|now: i64| r == claims_verdict(*claims, issuer@, client_id@, now, sub@),
{
    let now = now_timestamp();
    check_claims(claims, issuer, client_id, now, sub)
}

/// Outcome of authenticating a subdomain.
#[derive(Debug, Clone, Copy, PartialEq, Eq, Structural)]
pub enum AuthResult {
    Available,
}

/// Compares two byte strings of equal length without stopping at the first
/// difference.
pub fn constant_time_eq(a: &[u8], b: &[u8]) -> (r: bool)
    ensures
        r == (a@ == b@),
{
    if a.len() != b.len() {
        return false;
    }
    let mut acc: u8 = 0;
    let mut i: usize = 0;
    while i < a.len()
        invariant
            a@.len() == b@.len(),
            0 <= i <= a@.len(),
            (acc == 0) == (forall|j: int| 0 <= j < i ==> a@[j] == b@[j]),
        decreases a@.len() - i,
    {
        let x = a[i];
        let y = b[i];
        let next = acc | (x ^ y);
        assert((next == 0) == (acc == 0 && x == y)) by (bit_vector)
            requires
                next == acc | (x ^ y),
        ;
        acc = next;
        i = i + 1;
    }
    if acc == 0 {
        assert(a@ =~= b@);
    }
    acc == 0
}

/// Authenticates clients by a token shared with the server.
#[derive(Debug, Clone)]
pub struct AuthTokenService {
    token: String,
}

impl View for AuthTokenService {
    type V = Seq<char>;

    closed spec fn view(&self) -> Seq<char> {
        self.token@
    }
}

impl AuthTokenService {
    pub fn new(token: &str) -> (r: Result<AuthTokenService, ()>)
        ensures
            r matches Ok(s) && s@ == token@,
    {
        Ok(AuthTokenService { token: token.to_owned() })
    }

    /// Grants any subdomain to a key equal to the shared token, compared in
    /// constant time; refuses every other key.
    pub fn auth_sub_domain(&self, auth_key: &String, _subdomain: &str) -> (r: Result<
        AuthResult,
        (),
    >)
        ensures
            r == (if auth_key@ == self@ {
                Ok::<AuthResult, ()>(AuthResult::Available)
            } else {
                Err(())
            }),
    {
        let k = auth_key.as_str();
        let t = self.token.as_str();
        let same = constant_time_eq(k.as_bytes(), t.as_bytes());
        proof {
            vstd::utf8::encode_utf8_decode_utf8(k@);
            vstd::utf8::encode_utf8_decode_utf8(t@);
        }
        if same {
            Ok(AuthResult::Available)
        } else {
            Err(())
        }
    }
}

#[verifier::external_type_specification]
#[verifier::external_body]
pub struct ExJwkSet(jsonwebtoken::jwk::JwkSet);

/// Why the identity-provider verifier refused a token's claims.
#[derive(Debug, Clone, Copy, PartialEq, Eq, Structural)]
pub enum OidcError {
    /// The provider's issuer is not known yet.
    NotInitialized,
    Claims(ClaimError),
}

/// Authenticates clients by tokens that an OpenID Connect provider signed.
#[derive(Debug, Clone)]
pub struct AuthOidcService {
    oidc_discovery_url: String,
    client_id: String,
    scopes: Vec<String>,
    jwks: Option<jsonwebtoken::jwk::JwkSet>,
    issuer: Option<String>,
}

/// Copies a list of strings.
pub fn copy_strings(v: &Vec<String>) -> (r: Vec<String>)
    ensures
        r@ == v@,
{
    let mut out: Vec<String> = Vec::new();
    let mut i: usize = 0;
    while i < v.len()
        invariant
            0 <= i <= v@.len(),
            out@ == v@.take(i as int),
        decreases v@.len() - i,
    {
        out.push(v[i].clone());
        i = i + 1;
        assert(out@ =~= v@.take(i as int));
    }
    assert(v@.take(i as int) =~= v@);
    out
}

impl AuthOidcService {
    pub closed spec fn discovery_url_view(&self) -> Seq<char> {
        self.oidc_discovery_url@
    }

    pub closed spec fn client_id_view(&self) -> Seq<char> {
        self.client_id@
    }

    pub closed spec fn scopes_view(&self) -> Seq<String> {
        self.scopes@
    }

    pub closed spec fn has_keys(&self) -> bool {
        self.jwks.is_some()
    }

    pub closed spec fn jwks_view(&self) -> Option<jsonwebtoken::jwk::JwkSet> {
        self.jwks
    }

    pub closed spec fn issuer_view(&self) -> Option<Seq<char>> {
        match self.issuer {
            Some(i) => Some(i@),
            None => None,
        }
    }

    /// A verifier for a provider and client id; `scopes` is a comma-separated
    /// list. It knows no keys and no issuer until `set_provider` is called.
    pub fn new(oidc_discovery_url: &str, client_id: &str, scopes: &str) -> (r: AuthOidcService)
        ensures
            r.discovery_url_view() == oidc_discovery_url@,
            r.client_id_view() == client_id@,
            crate::config::bytes_of_strings(r.scopes_view()) == crate::config::split_on(
                vstd::string::StringSliceAdditionalSpecFns::spec_bytes(scopes),
                crate::config::COMMA,
            ),
            r.issuer_view().is_none(),
            !r.has_keys(),
            r.jwks_view().is_none(),
    {
        AuthOidcService {
            oidc_discovery_url: oidc_discovery_url.to_owned(),
            client_id: client_id.to_owned(),
            jwks: None,
            issuer: None,
            scopes: split_commas(scopes),
        }
    }

    /// Records what the provider's discovery document gave: its key set and
    /// its issuer.
    pub fn set_provider(&mut self, jwks: jsonwebtoken::jwk::JwkSet, issuer: String)
        ensures
            final(self).issuer_view() == Some(issuer@),
            final(self).has_keys(),
            final(self).jwks_view() == Some(jwks),
            final(self).discovery_url_view() == old(self).discovery_url_view(),
            final(self).client_id_view() == old(self).client_id_view(),
            final(self).scopes_view() == old(self).scopes_view(),
    {
        self.jwks = Some(jwks);
        self.issuer = Some(issuer);
    }

    /// The provider's key set, once known.
    pub fn jwks(&self) -> (r: Option<&jsonwebtoken::jwk::JwkSet>)
        ensures
            r.is_some() == self.has_keys(),
            match r {
                Some(k) => self.jwks_view() == Some(*k),
                None => self.jwks_view().is_none(),
            },
    {
        self.jwks.as_ref()
    }

    /// The discovery URL, the client id and the scopes.
    pub fn get_configuration(&self) -> (r: (String, String, Vec<String>))
        ensures
            r.0@ == self.discovery_url_view(),
            r.1@ == self.client_id_view(),
            r.2@ == self.scopes_view(),
    {
        (self.oidc_discovery_url.clone(), self.client_id.clone(), copy_strings(&self.scopes))
    }

    /// Checks the claims of a token whose signature was verified, against
    /// this provider's issuer and this client id, at time `now`.
    pub fn verify_claims(&self, claims: &TokenClaims, now: i64, sub: &str) -> (r: Result<
        (),
        OidcError,
    >)
        ensures
            match self.issuer_view() {
                None => r == Err::<(), OidcError>(OidcError::NotInitialized),
                Some(iss) => r == (match claims_verdict(*claims, iss, self.client_id_view(), now, sub@) {
                    Ok(()) => Ok::<(), OidcError>(()),
                    Err(e) => Err(OidcError::Claims(e)),
                }),
            },
    {
        match &self.issuer {
            None => Err(OidcError::NotInitialized),
            Some(iss) => match check_claims(claims, iss, &self.client_id, now, sub) {
                Ok(()) => Ok(()),
                Err(e) => Err(OidcError::Claims(e)),
            },
        }
    }

    /// Checks the claims of a verified token at the current time. Whatever
    /// the clock reads, the outcome is what `verify_claims` gives at some
    /// time.
    pub fn verify_claims_now(&self, claims: &TokenClaims, sub: &str) -> (r: Result<(), OidcError>)
        ensures
            match self.issuer_view() {
                None => r == Err::<(), OidcError>(OidcError::NotInitialized),
                Some(iss) => exists|now: i64|
                    r == (match #[trigger] claims_verdict(*claims, iss, self.client_id_view(), now, sub@) {
                        Ok(()) => Ok::<(), OidcError>(()),
                        Err(e) => Err(OidcError::Claims(e)),
                    }),
            },
    {
        let now = now_timestamp();
        self.verify_claims(claims, now, sub)
    }
}

/// What a signed token's verdict means for the hello: valid for the
/// subdomain grants it; valid but for other subdomains reassigns; anything
/// else denies.
pub fn outcome_of_verdict(v: Result<(), OidcError>) -> (r: AuthOutcome)
    ensures
        r == outcome_of_verdict_spec(v),
{
    match v {
        Ok(()) => AuthOutcome::Granted,
        Err(OidcError::Claims(ClaimError::NoMatchingSubDomain)) => AuthOutcome::Reassigned,
        Err(_) => AuthOutcome::Denied,
    }
}

/// A token whose expiry has passed is never accepted, whatever subdomain it
/// is offered for: its verdict is an error, and the hello is not granted.
pub proof fn lemma_expired_never_granted(
    c: TokenClaims,
    issuer: Seq<char>,
    client_id: Seq<char>,
    now: i64,
    sub: Seq<char>,
)
    requires
        c.exp < now,
    ensures
        claims_verdict(c, issuer, client_id, now, sub) is Err,
        forall|e: ClaimError|
            claims_verdict(c, issuer, client_id, now, sub) == Err::<(), ClaimError>(e)
                ==> outcome_of_verdict_spec(Err(OidcError::Claims(e))) != AuthOutcome::Granted,
{
}

pub open spec fn outcome_of_verdict_spec(v: Result<(), OidcError>) -> AuthOutcome {
    match v {
        Ok(()) => AuthOutcome::Granted,
        Err(OidcError::Claims(ClaimError::NoMatchingSubDomain)) => AuthOutcome::Reassigned,
        Err(_) => AuthOutcome::Denied,
    }
}

} // verus!
