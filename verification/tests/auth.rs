use jsonwebtoken::{encode, Algorithm, DecodingKey, EncodingKey, Header, Validation};
use serde_json::Value;
use zed_web::request::{HeaderField, RequestHead};
use zed_web::serve::auth::{
    bearer_token, extract_token, query_pairs, redact_query, token_from_subprotocol,
    token_shape_is_plausible, AuthError, LEEWAY_SECS, MAX_TOKEN_BYTES, MAX_TTL_SECS,
};
use zed_web::serve::state::{Peer, ServeConfig, ServeState};
use zed_web::serve::token::{
    check_claims, decide, map_error, refuse, report, split_pem_blocks, token_rules, AuthConfig,
    KeyError, TokenFault, EXPECTED_ALG,
};

/// The base point of P-256: the public key of the number one.
const PUBLIC_PEM: &str = "-----BEGIN PUBLIC KEY-----\n\
MFkwEwYHKoZIzj0CAQYIKoZIzj0DAQcDQgAEaxfR8uEsQkf4vOblY6RA8ncDfYEt\n\
6zOg9KE5RdiYwpZP40Li/hp/m47n60p8D54WK84zV2sxXs7LtkBoN79R9Q==\n\
-----END PUBLIC KEY-----\n";
/// Twice the base point: the public key of the number two.
const OTHER_PUBLIC_PEM: &str = "-----BEGIN PUBLIC KEY-----\n\
MFkwEwYHKoZIzj0CAQYIKoZIzj0DAQcDQgAEfPJ7GI0DT36KUjgDBLUaw8CJaeJ3\n\
8hs1pgtI/EdmmXgHd1UQ247QQCk9msafdDDbun2t5jzpgimeBLedInhz0Q==\n\
-----END PUBLIC KEY-----\n";
/// The numbers that the two public keys belong to. Anyone can compute with them, so they
/// are good for tests only.
const NUMBER: u8 = 1;
const OTHER_NUMBER: u8 = 2;
const ISSUER: &str = "zs";
const AUDIENCE: &str = "sb_test";
const WORKSPACE: &str = "ws_test";

fn now() -> u64 {
    jsonwebtoken::get_current_timestamp()
}

fn claims(sid: &str) -> serde_json::Map<String, Value> {
    let issued = now();
    let mut claims = serde_json::Map::new();
    claims.insert("iss".into(), ISSUER.into());
    claims.insert("sub".into(), "user_1".into());
    claims.insert("ws".into(), WORKSPACE.into());
    claims.insert("sid".into(), sid.into());
    claims.insert("aud".into(), AUDIENCE.into());
    claims.insert("iat".into(), issued.into());
    claims.insert("exp".into(), (issued + 3600).into());
    claims.insert("jti".into(), format!("jti_{sid}").into());
    claims
}

/// The key of a number, as PKCS #8: the version, the algorithm and the curve, and then the
/// number in 32 bytes.
fn signing_key(number: u8) -> EncodingKey {
    let mut der: Vec<u8> = vec![0x30, 0x41, 0x02, 0x01, 0x00];
    der.extend([0x30, 0x13, 0x06, 0x07, 0x2a, 0x86, 0x48, 0xce, 0x3d, 0x02, 0x01]);
    der.extend([0x06, 0x08, 0x2a, 0x86, 0x48, 0xce, 0x3d, 0x03, 0x01, 0x07]);
    der.extend([0x04, 0x27, 0x30, 0x25, 0x02, 0x01, 0x01, 0x04, 0x20]);
    der.extend([0; 31]);
    der.push(number);
    EncodingKey::from_ec_der(&der)
}

fn sign_with(claims: &serde_json::Map<String, Value>, number: u8) -> String {
    let key = signing_key(number);
    encode(&Header::new(Algorithm::ES256), claims, &key).expect("signing a test token")
}

fn sign(claims: &serde_json::Map<String, Value>) -> String {
    sign_with(claims, NUMBER)
}

fn token(sid: &str) -> String {
    sign(&claims(sid))
}

fn config() -> AuthConfig {
    AuthConfig::from_pems(&[PUBLIC_PEM], ISSUER, AUDIENCE, WORKSPACE)
        .ok()
        .expect("test config")
}

fn refusal(config: &AuthConfig, token: &str) -> AuthError {
    match config.verify(token) {
        Ok(_) => panic!("the token was accepted"),
        Err(error) => error,
    }
}

fn request(target: &str, headers: &[(&str, &str)]) -> RequestHead {
    let (path, query) = match target.split_once('?') {
        Some((path, query)) => (path, Some(query.to_owned())),
        None => (target, None),
    };
    RequestHead {
        method: "GET".to_owned(),
        path: path.to_owned(),
        query,
        headers: headers
            .iter()
            .map(|(name, value)| HeaderField {
                name: name.to_string(),
                value: value.as_bytes().to_vec(),
            })
            .collect(),
    }
}

#[test]
fn provider_is_available() {
    let token = token("sid_1");
    let key = DecodingKey::from_ec_pem(PUBLIC_PEM.as_bytes()).unwrap();
    let mut validation = Validation::new(Algorithm::ES256);
    validation.set_audience(&[AUDIENCE]);
    jsonwebtoken::decode::<Value>(&token, &key, &validation).expect("decode must not panic");
    assert!(config().verify(&token).is_ok());
}

#[test]
fn valid_token_verifies() {
    let claims = config().verify(&token("sid_1")).unwrap();
    assert_eq!(claims.sid, "sid_1");
    assert_eq!(claims.sub, "user_1");
    assert_eq!(claims.jti, "jti_sid_1");
    assert_eq!(claims.iss, "zs");
    assert_eq!(claims.aud, "sb_test");
    assert_eq!(claims.ws, "ws_test");
    assert!(claims.pid.is_none());
}

#[test]
fn participant_identity_is_optional() {
    let mut with_pid = claims("sid_1");
    with_pid.insert("pid".into(), "p_1".into());
    assert_eq!(config().verify(&sign(&with_pid)).unwrap().pid.as_deref(), Some("p_1"));
    with_pid.insert("pid".into(), Value::Null);
    assert!(config().verify(&sign(&with_pid)).unwrap().pid.is_none());
    with_pid.insert("pid".into(), 7.into());
    assert_eq!(refusal(&config(), &sign(&with_pid)), AuthError::Malformed);
}

#[test]
fn expired_token_rejected() {
    let mut expired = claims("sid_1");
    expired.insert("exp".into(), (now() - 120).into());
    assert_eq!(refusal(&config(), &sign(&expired)), AuthError::Expired);

    let mut within_leeway = claims("sid_1");
    within_leeway.insert("exp".into(), (now() - 10).into());
    assert!(config().verify(&sign(&within_leeway)).is_ok());
}

#[test]
fn future_iat_rejected() {
    let mut future = claims("sid_1");
    future.insert("iat".into(), (now() + 120).into());
    assert_eq!(refusal(&config(), &sign(&future)), AuthError::Malformed);

    let mut near_future = claims("sid_1");
    near_future.insert("iat".into(), (now() + 10).into());
    assert!(config().verify(&sign(&near_future)).is_ok());
}

#[test]
fn wrong_audience_rejected() {
    let mut claims = claims("sid_1");
    claims.insert("aud".into(), "sb_other".into());
    assert_eq!(refusal(&config(), &sign(&claims)), AuthError::WrongAudience);
}

#[test]
fn wrong_issuer_rejected() {
    let mut claims = claims("sid_1");
    claims.insert("iss".into(), "evil".into());
    assert_eq!(refusal(&config(), &sign(&claims)), AuthError::WrongIssuer);
}

#[test]
fn wrong_workspace_rejected() {
    let mut claims = claims("sid_1");
    claims.insert("ws".into(), "ws_other".into());
    assert_eq!(refusal(&config(), &sign(&claims)), AuthError::WrongWorkspace);
}

#[test]
fn wrong_key_rejected() {
    let token = sign_with(&claims("sid_1"), OTHER_NUMBER);
    assert_eq!(refusal(&config(), &token), AuthError::BadSignature);
}

#[test]
fn rotation_accepts_either_key() {
    let config =
        AuthConfig::from_pems(&[PUBLIC_PEM, OTHER_PUBLIC_PEM], ISSUER, AUDIENCE, WORKSPACE)
            .ok()
            .unwrap();
    let rotated = sign_with(&claims("sid_2"), OTHER_NUMBER);
    assert_eq!(config.verify(&rotated).unwrap().sid, "sid_2");

    let joined = format!("{PUBLIC_PEM}\n{OTHER_PUBLIC_PEM}");
    let config = AuthConfig::from_pems(&[&joined], ISSUER, AUDIENCE, WORKSPACE).ok().unwrap();
    assert!(config.verify(&rotated).is_ok());
    assert!(config.verify(&token("sid_1")).is_ok());
}

#[test]
fn rotation_reports_specific_error() {
    let config =
        AuthConfig::from_pems(&[PUBLIC_PEM, OTHER_PUBLIC_PEM], ISSUER, AUDIENCE, WORKSPACE)
            .ok()
            .unwrap();
    let mut expired = claims("sid_2");
    expired.insert("exp".into(), (now() - 120).into());
    let token = sign_with(&expired, OTHER_NUMBER);
    assert_eq!(refusal(&config, &token), AuthError::Expired);
}

#[test]
fn hs256_with_public_key_rejected() {
    let token = encode(
        &Header::new(Algorithm::HS256),
        &claims("sid_1"),
        &EncodingKey::from_secret(PUBLIC_PEM.as_bytes()),
    )
    .unwrap();
    assert_eq!(refusal(&config(), &token), AuthError::WrongAlgorithm);
}

#[test]
fn missing_claim_rejected() {
    let mut without_sid = claims("sid_1");
    without_sid.remove("sid");
    assert_eq!(refusal(&config(), &sign(&without_sid)), AuthError::Malformed);
    // A claim that is missing counts before a claim that is wrong.
    without_sid.insert("exp".into(), (now() - 120).into());
    assert_eq!(refusal(&config(), &sign(&without_sid)), AuthError::Malformed);
    // A date must be a whole number.
    let mut fraction = claims("sid_1");
    fraction.insert("iat".into(), "yesterday".into());
    assert_eq!(refusal(&config(), &sign(&fraction)), AuthError::Malformed);
}

#[test]
fn garbage_is_malformed() {
    assert_eq!(refusal(&config(), "not-a-token"), AuthError::Malformed);
    assert_eq!(refusal(&config(), "a.b.c"), AuthError::Malformed);
}

#[test]
fn key_files_without_keys_are_refused() {
    let none = AuthConfig::from_pems(&["nothing here"], ISSUER, AUDIENCE, WORKSPACE);
    assert_eq!(none.err(), Some(KeyError::NoKey));
    let bad = "-----BEGIN PUBLIC KEY-----\nAAAA\n-----END PUBLIC KEY-----\n";
    let bad = AuthConfig::from_pems(&[PUBLIC_PEM, bad], ISSUER, AUDIENCE, WORKSPACE);
    assert_eq!(bad.err(), Some(KeyError::BadKey));
}

#[test]
fn pem_files_are_split_into_blocks() {
    let text = "preface\n-----BEGIN A-----\r\n  one \n\n two\n-----END A-----\n\
                between\n-----END B-----\n-----BEGIN C-----\nlost\n-----BEGIN D-----\nkept\n\
                -----END D-----\n-----BEGIN E-----\nopen";
    assert_eq!(
        split_pem_blocks(text),
        vec![
            "-----BEGIN A-----\none\ntwo\n-----END A-----".to_owned(),
            "-----BEGIN D-----\nkept\n-----END D-----".to_owned(),
        ]
    );
    // Two files written one after the other give the blocks of both.
    let both = format!("{PUBLIC_PEM}\n{OTHER_PUBLIC_PEM}");
    let mut apart = split_pem_blocks(PUBLIC_PEM);
    apart.extend(split_pem_blocks(OTHER_PUBLIC_PEM));
    assert_eq!(split_pem_blocks(&both), apart);
    assert_eq!(apart.len(), 2);
}

#[test]
fn faults_have_their_answers() {
    assert_eq!(map_error(&TokenFault::ExpiredSignature), AuthError::Expired);
    assert_eq!(map_error(&TokenFault::InvalidSignature), AuthError::BadSignature);
    assert_eq!(map_error(&TokenFault::InvalidAudience), AuthError::WrongAudience);
    assert_eq!(
        map_error(&TokenFault::MissingRequiredClaim("aud".to_owned())),
        AuthError::WrongAudience
    );
    assert_eq!(
        map_error(&TokenFault::MissingRequiredClaim("sub".to_owned())),
        AuthError::Malformed
    );
    assert_eq!(map_error(&TokenFault::InvalidIssuer), AuthError::WrongIssuer);
    assert_eq!(map_error(&TokenFault::InvalidAlgorithm), AuthError::WrongAlgorithm);
    assert_eq!(map_error(&TokenFault::InvalidAlgorithmName), AuthError::WrongAlgorithm);
    assert_eq!(map_error(&TokenFault::MissingAlgorithm), AuthError::WrongAlgorithm);
    assert_eq!(map_error(&TokenFault::Other), AuthError::Malformed);
    assert_eq!(refuse(&TokenFault::ExpiredSignature, false), AuthError::Malformed);
    assert_eq!(refuse(&TokenFault::InvalidSignature, false), AuthError::BadSignature);
}

#[test]
fn refusals_are_reported_as_one() {
    assert_eq!(report(&vec![]), AuthError::Malformed);
    let bad = AuthError::BadSignature;
    assert_eq!(report(&vec![bad, bad]), bad);
    assert_eq!(report(&vec![bad, AuthError::Expired, AuthError::Malformed]), AuthError::Expired);
    assert_eq!(report(&vec![AuthError::Malformed, AuthError::Expired]), AuthError::Malformed);
}

#[test]
fn the_first_accepting_key_decides() {
    let good = |sid: &str| Ok(config().verify(&token(sid)).unwrap());
    let time = now();
    let outcomes = vec![Err(TokenFault::InvalidSignature), good("sid_1"), good("sid_2")];
    assert_eq!(decide(outcomes, true, time, WORKSPACE).unwrap().sid, "sid_1");
    let outcomes = vec![good("sid_1"), good("sid_2")];
    let refused = decide(outcomes, true, time, "ws_other");
    assert_eq!(refused.err(), Some(AuthError::WrongWorkspace));

    let outcomes = vec![
        Err(TokenFault::InvalidSignature),
        Err(TokenFault::ExpiredSignature),
        Err(TokenFault::InvalidAudience),
    ];
    assert_eq!(decide(outcomes, true, time, WORKSPACE).err(), Some(AuthError::Expired));
    let outcomes = vec![Err(TokenFault::InvalidSignature), Err(TokenFault::ExpiredSignature)];
    assert_eq!(decide(outcomes, false, time, WORKSPACE).err(), Some(AuthError::Malformed));
    let outcomes = vec![Err(TokenFault::InvalidSignature), Err(TokenFault::InvalidSignature)];
    assert_eq!(decide(outcomes, true, time, WORKSPACE).err(), Some(AuthError::BadSignature));
    assert_eq!(decide(vec![], true, time, WORKSPACE).err(), Some(AuthError::Malformed));
}

#[test]
fn the_rules_name_what_is_required() {
    let rules = token_rules(ISSUER, AUDIENCE);
    assert_eq!(rules.algorithm, EXPECTED_ALG);
    assert_eq!(rules.issuer, ISSUER);
    assert_eq!(rules.audience, AUDIENCE);
    assert_eq!(rules.required, ["exp", "aud", "iss", "sub"]);
    assert_eq!(rules.leeway, 30);
    assert!(!rules.not_before);
}

#[test]
fn claims_are_checked_against_the_clock() {
    let claims = config().verify(&token("sid_1")).unwrap();
    let issued = claims.iat;
    assert!(check_claims(claims.clone(), issued - LEEWAY_SECS, WORKSPACE).is_ok());
    assert_eq!(
        check_claims(claims.clone(), issued - LEEWAY_SECS - 1, WORKSPACE).err(),
        Some(AuthError::Malformed)
    );
    assert_eq!(
        check_claims(claims.clone(), issued, "ws_tesT").err(),
        Some(AuthError::WrongWorkspace)
    );
    let mut long = claims.clone();
    long.exp = long.iat + MAX_TTL_SECS;
    assert!(check_claims(long.clone(), issued, WORKSPACE).is_ok());
    long.exp = long.iat + MAX_TTL_SECS + 1;
    assert_eq!(check_claims(long, issued, WORKSPACE).err(), Some(AuthError::Malformed));
}

#[test]
fn subprotocol_parsing() {
    assert_eq!(token_from_subprotocol("zs.v1, T").unwrap(), "T");
    assert_eq!(token_from_subprotocol("T, zs.v1").unwrap(), "T");
    assert_eq!(token_from_subprotocol(" zs.v1 ,T ").unwrap(), "T");
    assert_eq!(token_from_subprotocol("zs.v1"), Err(AuthError::Missing));
    assert_eq!(token_from_subprotocol("T"), Err(AuthError::MissingSubprotocol));
}

#[test]
fn extract_token_precedence() {
    let req = request(
        "/rpc?zs_token=Q",
        &[("sec-websocket-protocol", "zs.v1, H"), ("authorization", "Bearer A")],
    );
    assert_eq!(extract_token(&req).unwrap(), ("H".to_owned(), true));

    let req = request("/files?zs_token=Q", &[("authorization", "Bearer A")]);
    assert_eq!(extract_token(&req).unwrap(), ("A".to_owned(), false));

    let req = request("/rpc?zs_proto=zs.v1&zs_token=Q", &[]);
    assert_eq!(extract_token(&req).unwrap(), ("Q".to_owned(), true));

    let req = request("/rpc", &[]);
    assert_eq!(extract_token(&req), Err(AuthError::Missing));
}

#[test]
fn unreadable_header_values_are_passed_over() {
    let mut req = request("/rpc", &[("sec-websocket-protocol", "zs.v1, H")]);
    req.headers.insert(
        0,
        HeaderField { name: "sec-websocket-protocol".to_owned(), value: vec![b'x', 0xff] },
    );
    assert_eq!(extract_token(&req).unwrap(), ("H".to_owned(), true));
    req.headers.insert(0, HeaderField { name: "authorization".to_owned(), value: vec![0x80] });
    assert_eq!(bearer_token(&req), None);
}

#[test]
fn bearer_tokens_are_trimmed_and_their_scheme_has_no_case() {
    let bearer = |value: &str| bearer_token(&request("/", &[("authorization", value)]));
    assert_eq!(bearer("bEaReR   x "), Some("x".to_owned()));
    assert_eq!(bearer("Basic x"), None);
    assert_eq!(bearer("Bearer"), None);
    assert_eq!(bearer("Bearer  "), None);
}

#[test]
fn query_pairs_are_decoded() {
    assert_eq!(
        query_pairs("a%20b=c%2Fd&&flag&x=%FF"),
        vec![
            ("a b".to_owned(), "c/d".to_owned()),
            ("flag".to_owned(), String::new()),
            ("x".to_owned(), "\u{fffd}".to_owned()),
        ]
    );
}

#[test]
fn a_redacted_target_stays_as_it_is() {
    for target in ["/rpc", "/files?path=a&zs_token=T&x", "/f?zs%5Ftoken=T?&zs_token", "/f?&&"] {
        let logged = redact_query(target);
        assert!(!logged.contains('T'), "{logged}");
        assert_eq!(redact_query(&logged), logged);
    }
}

#[test]
fn redact_query_hides_token() {
    assert_eq!(redact_query("/files?path=a&zs_token=abc"), "/files?path=a&zs_token=***");
    assert_eq!(redact_query("/health"), "/health");
    assert_eq!(redact_query("/files?path=a"), "/files?path=a");
    let encoded_key = redact_query("/files?zs%5Ftoken=abc&path=a");
    assert!(!encoded_key.contains("abc"), "{encoded_key}");
    assert_eq!(encoded_key, "/files?zs_token=***&path=a");
    let req = request("/files?zs%5Ftoken=abc", &[]);
    assert_eq!(extract_token(&req).unwrap().0, "abc");
}

#[test]
fn lifetime_over_max_ttl_rejected() {
    let mut long_lived = claims("sid_1");
    long_lived.insert("exp".into(), (now() + MAX_TTL_SECS + LEEWAY_SECS + 60).into());
    assert_eq!(refusal(&config(), &sign(&long_lived)), AuthError::Malformed);

    let mut at_max = claims("sid_1");
    let issued = at_max["iat"].as_u64().unwrap();
    at_max.insert("exp".into(), (issued + MAX_TTL_SECS).into());
    assert!(config().verify(&sign(&at_max)).is_ok());

    let mut one_more = claims("sid_1");
    let issued = one_more["iat"].as_u64().unwrap();
    one_more.insert("exp".into(), (issued + MAX_TTL_SECS + 1).into());
    assert_eq!(refusal(&config(), &sign(&one_more)), AuthError::Malformed);
}

#[test]
fn token_shape_check() {
    assert!(token_shape_is_plausible(&token("sid_1")));
    assert!(token_shape_is_plausible("aa.bb.cc"));
    for bad in ["", "garbage", "a.b", "a.b.c.d", "a..c", "a.b/c.d", "a.b=.c"] {
        assert!(!token_shape_is_plausible(bad), "{bad:?}");
    }
    let huge = format!("{}.b.c", "a".repeat(MAX_TOKEN_BYTES));
    assert!(!token_shape_is_plausible(&huge));
}

#[test]
fn status_mapping() {
    assert_eq!(AuthError::Missing.status(), 401);
    assert_eq!(AuthError::WrongWorkspace.status(), 403);
    assert_eq!(AuthError::MissingSubprotocol.status(), 426);
    assert_eq!(AuthError::Expired.code(), "token_expired");
    assert_eq!(AuthError::Expired.message(), "token expired");
}

fn serve_state() -> ServeState<()> {
    ServeState::new(
        ServeConfig {
            build: "test-build".into(),
            version: "test-version".into(),
            workspace_id: WORKSPACE.into(),
            allowed_origins: Vec::new(),
            client_build: None,
        },
        0,
    )
}

#[test]
fn failure_penalty_is_per_peer_and_capped() {
    let mut state = serve_state();
    let config = config();
    let peer = Peer::V4(0x0a00_0007);
    let other = Peer::V4(0x0a00_0008);
    for step in 1..=10u64 {
        let (result, delay) = state.verify(&config, "garbage", peer, 1_000);
        assert!(result.is_err());
        assert_eq!(delay, 250 * step.min(8));
    }
    let (_, delay) = state.verify(&config, "garbage", other, 1_000);
    assert_eq!(delay, 250, "another peer starts at the base delay");
    let (result, delay) = state.verify(&config, &token("sid_1"), peer, 1_000);
    assert!(result.is_ok());
    assert_eq!(delay, 0, "a valid token is never delayed");
    let (_, delay) = state.verify(&config, "garbage", peer, 1_000);
    assert_eq!(delay, 250, "success resets the streak");
    assert_eq!(state.auth_failures(), 12);
}

#[test]
fn valid_token_not_blocked_after_failures() {
    let mut state = serve_state();
    let config = config();
    let peer = Peer::V4(0x7f00_0001);
    // Half of the flood is no token at all, half is signed by the wrong key.
    let wrong_key = sign_with(&claims("sid_x"), OTHER_NUMBER);
    for index in 0..64 {
        let bearer = if index % 2 == 0 { "garbage" } else { wrong_key.as_str() };
        let (result, _) = state.verify(&config, bearer, peer, 1_000);
        assert_eq!(result.unwrap_err().status(), 401);
    }
    let (result, delay) = state.verify(&config, &token("sid_1"), peer, 1_000);
    assert!(result.is_ok());
    assert_eq!(delay, 0, "valid token waited {delay} ms");
    assert_eq!(state.auth_failures(), 64);
}

#[test]
fn streaks_are_forgotten_after_a_minute() {
    let mut state = serve_state();
    let peer = Peer::V6(7);
    assert_eq!(state.settle_verification(false, peer, 0), 250);
    assert_eq!(state.settle_verification(false, peer, 59_999), 500);
    assert_eq!(state.settle_verification(false, peer, 119_999), 250);
}

#[test]
fn the_count_of_failures_begins_anew() {
    let mut state = serve_state();
    state.auth_failures = u64::MAX;
    assert_eq!(state.settle_verification(false, Peer::V4(1), 0), 250);
    assert_eq!(state.auth_failures(), 0);
}

#[test]
fn the_table_of_streaks_is_bounded() {
    let mut state = serve_state();
    for n in 0..1024u32 {
        assert_eq!(state.settle_verification(false, Peer::V4(n), 1_000 + n as u64), 250);
    }
    // The oldest streak is forgotten for a newcomer; the others stay.
    assert_eq!(state.settle_verification(false, Peer::V4(5_000), 3_000), 250);
    assert_eq!(state.penalties.table.len(), 1024);
    assert_eq!(state.settle_verification(false, Peer::V4(1), 3_000), 500);
    assert_eq!(state.settle_verification(false, Peer::V4(0), 3_000), 250);
    // Once they are over, all of them make room.
    assert_eq!(state.settle_verification(false, Peer::V4(6_000), 100_000), 250);
    assert_eq!(state.penalties.table.len(), 1);
}
