use tunnelto::auth::{
    anchor_pattern, check_claims, outcome_of_verdict, constant_time_eq, subdomain_permitted, AuthOidcService,
    AuthResult, AuthTokenService, ClaimError, OidcError, TokenClaims,
};
use tunnelto::hello::{
    anonymous_sub_domain, begin_hello, finish_hello, fresh_sub_domain, is_valid_sub_domain,
    AuthOutcome, ClientHello, ClientType, HelloStep, ServerHello,
};

fn claims(exp: i64, top: Option<Vec<&str>>, nested: Option<Vec<&str>>) -> TokenClaims {
    TokenClaims {
        iss: "https://idp.example.test".to_string(),
        aud: "portalgun".to_string(),
        exp,
        iat: 1000,
        top_level_subdomains: top.map(|v| v.into_iter().map(String::from).collect()),
        nested_subdomains: nested.map(|v| v.into_iter().map(String::from).collect()),
    }
}

fn iss() -> String {
    "https://idp.example.test".to_string()
}

fn aud() -> String {
    "portalgun".to_string()
}

#[test]
fn preset_token_grants_matching_key() {
    let svc = AuthTokenService::new("SECRET-REDACTED").unwrap();
    assert_eq!(svc.auth_sub_domain(&"SECRET-REDACTED".to_string(), "alpha"), Ok(AuthResult::Available));
    assert_eq!(svc.auth_sub_domain(&"SECRET-REDACTEX".to_string(), "alpha"), Err(()));
    assert_eq!(svc.auth_sub_domain(&"".to_string(), "alpha"), Err(()));
}

#[test]
fn constant_time_comparison() {
    assert!(constant_time_eq(b"abc", b"abc"));
    assert!(!constant_time_eq(b"abc", b"abd"));
    assert!(!constant_time_eq(b"abc", b"ab"));
    assert!(constant_time_eq(b"", b""));
}

#[test]
fn expired_token_is_refused() {
    let c = claims(1500, Some(vec!["alpha"]), None);
    assert_eq!(check_claims(&c, &iss(), &aud(), 2000, "alpha"), Err(ClaimError::Expired));
    assert_eq!(check_claims(&c, &iss(), &aud(), 1200, "alpha"), Ok(()));
}

#[test]
fn claims_are_checked_in_order() {
    let c = claims(5000, Some(vec!["alpha"]), None);
    assert_eq!(
        check_claims(&c, &"other".to_string(), &aud(), 2000, "alpha"),
        Err(ClaimError::InvalidIssuer)
    );
    assert_eq!(
        check_claims(&c, &iss(), &"other".to_string(), 2000, "alpha"),
        Err(ClaimError::InvalidAudience)
    );
    assert_eq!(check_claims(&c, &iss(), &aud(), 999, "alpha"), Err(ClaimError::IssuedInFuture));
    let none = claims(5000, None, None);
    assert_eq!(check_claims(&none, &iss(), &aud(), 2000, "alpha"), Err(ClaimError::NoSubDomains));
    assert_eq!(
        check_claims(&c, &iss(), &aud(), 2000, "beta"),
        Err(ClaimError::NoMatchingSubDomain)
    );
}

#[test]
fn top_level_patterns_win_over_nested() {
    let both = claims(5000, Some(vec!["alpha"]), Some(vec!["beta"]));
    assert_eq!(check_claims(&both, &iss(), &aud(), 2000, "alpha"), Ok(()));
    assert_eq!(
        check_claims(&both, &iss(), &aud(), 2000, "beta"),
        Err(ClaimError::NoMatchingSubDomain)
    );
    let nested = claims(5000, None, Some(vec!["beta"]));
    assert_eq!(check_claims(&nested, &iss(), &aud(), 2000, "beta"), Ok(()));
}

#[test]
fn patterns_are_anchored() {
    assert_eq!(anchor_pattern("a|b"), "^(?:a|b)$");
    let ps = vec!["alpha".to_string()];
    assert!(subdomain_permitted(&ps, "alpha"));
    assert!(!subdomain_permitted(&ps, "xalphay"));
    let alt = vec!["dev|prod".to_string()];
    assert!(!subdomain_permitted(&alt, "devx"));
    assert!(subdomain_permitted(&alt, "prod"));
}

#[test]
fn broken_pattern_is_passed_over() {
    let ps = vec!["(".to_string(), "team-[a-z]+".to_string()];
    assert!(subdomain_permitted(&ps, "team-red"));
    assert!(!subdomain_permitted(&vec!["(".to_string()], "("));
}

#[test]
fn oidc_service_configuration() {
    let svc = AuthOidcService::new("https://idp/.well-known", "portalgun", "openid,portalgun");
    let (url, client, scopes) = svc.get_configuration();
    assert_eq!(url, "https://idp/.well-known");
    assert_eq!(client, "portalgun");
    assert_eq!(scopes, vec!["openid".to_string(), "portalgun".to_string()]);
    assert!(svc.jwks().is_none());
    let c = claims(5000, Some(vec!["alpha"]), None);
    assert_eq!(svc.verify_claims(&c, 2000, "alpha"), Err(OidcError::NotInitialized));
}

#[test]
fn oidc_service_checks_claims_once_initialized() {
    let mut svc = AuthOidcService::new("https://idp/.well-known", "portalgun", "openid");
    let keys: jsonwebtoken::jwk::JwkSet = jsonwebtoken::jwk::JwkSet { keys: vec![] };
    svc.set_provider(keys, iss());
    assert!(svc.jwks().is_some());
    let c = claims(1500, Some(vec!["alpha"]), None);
    assert_eq!(svc.verify_claims(&c, 1200, "alpha"), Ok(()));
    assert_eq!(svc.verify_claims(&c, 2000, "alpha"), Err(OidcError::Claims(ClaimError::Expired)));
}

#[test]
fn sub_domain_syntax() {
    assert!(is_valid_sub_domain("alpha"));
    assert!(is_valid_sub_domain("a-1"));
    assert!(!is_valid_sub_domain("ab"));
    assert!(!is_valid_sub_domain("-abc"));
    assert!(!is_valid_sub_domain("Alpha"));
    assert!(!is_valid_sub_domain("al.pha"));
    assert!(!is_valid_sub_domain("älpha"));
    assert!(is_valid_sub_domain(&"a".repeat(63)));
    assert!(!is_valid_sub_domain(&"a".repeat(64)));
}

#[test]
fn anonymous_sub_domain_from_bytes() {
    let seed = [0u8, 25, 26, 35, 36, 61, 62, 255, 9, 9, 9, 9, 9, 9, 9, 9];
    assert_eq!(anonymous_sub_domain(&seed), "az09az0d");
    let fresh = fresh_sub_domain();
    assert_eq!(fresh.len(), 8);
    assert!(is_valid_sub_domain(&fresh));
}

#[test]
fn anonymous_happy_path_hello() {
    let hello = ClientHello::generate(None, ClientType::Anonymous);
    assert_eq!(hello.id.bytes.len(), 16);
    let step = begin_hello(&hello.sub_domain, AuthOutcome::Anonymous, &vec![], "ab3xk9pl".to_string());
    let claimed = match step {
        HelloStep::Claim(s) => s,
        other => panic!("unexpected {:?}", other),
    };
    assert_eq!(claimed, "ab3xk9pl");
    match finish_hello(claimed, false) {
        ServerHello::Success { sub_domain } => assert_eq!(sub_domain, "ab3xk9pl"),
        other => panic!("unexpected {:?}", other),
    }
}

#[test]
fn auth_failure_hello() {
    let step = begin_hello(&Some("alpha".to_string()), AuthOutcome::Denied, &vec![], "zzzzzzzz".to_string());
    assert!(matches!(step, HelloStep::Reply(ServerHello::AuthFailed)));
    let step = begin_hello(&None, AuthOutcome::Denied, &vec![], "zzzzzzzz".to_string());
    assert!(matches!(step, HelloStep::Reply(ServerHello::AuthFailed)));
}

#[test]
fn blocked_and_invalid_requests() {
    let blocked = vec!["dashboard".to_string()];
    let step = begin_hello(&Some("dashboard".to_string()), AuthOutcome::Granted, &blocked, "zzzzzzzz".to_string());
    assert!(matches!(step, HelloStep::Reply(ServerHello::SubDomainInUse)));
    let step = begin_hello(&Some("A!".to_string()), AuthOutcome::Granted, &blocked, "zzzzzzzz".to_string());
    assert!(matches!(step, HelloStep::Reply(ServerHello::InvalidSubDomain)));
}

#[test]
fn granted_client_keeps_its_sub_domain() {
    let step = begin_hello(&Some("alpha".to_string()), AuthOutcome::Granted, &vec![], "zzzzzzzz".to_string());
    assert!(matches!(step, HelloStep::Claim(ref s) if s == "alpha"));
    let step = begin_hello(&Some("alpha".to_string()), AuthOutcome::Anonymous, &vec![], "zzzzzzzz".to_string());
    assert!(matches!(step, HelloStep::Claim(ref s) if s == "zzzzzzzz"));
}

#[test]
fn valid_token_for_other_sub_domain_is_reassigned() {
    let c = claims(5000, Some(vec!["alpha"]), None);
    let mut svc = AuthOidcService::new("https://idp/.well-known", "portalgun", "openid");
    svc.set_provider(jsonwebtoken::jwk::JwkSet { keys: vec![] }, iss());
    let outcome = outcome_of_verdict(svc.verify_claims(&c, 2000, "beta"));
    assert_eq!(outcome, AuthOutcome::Reassigned);
    let step = begin_hello(&Some("beta".to_string()), outcome, &vec![], "qqqqqqqq".to_string());
    assert!(matches!(step, HelloStep::Claim(ref s) if s == "qqqqqqqq"));
    assert_eq!(outcome_of_verdict(svc.verify_claims(&c, 2000, "alpha")), AuthOutcome::Granted);
    assert_eq!(outcome_of_verdict(svc.verify_claims(&c, 9000, "alpha")), AuthOutcome::Denied);
}

#[test]
fn gossip_split_second_hello_in_use() {
    assert!(matches!(finish_hello("alpha".to_string(), true), ServerHello::SubDomainInUse));
}
