//! Verification of session tokens against the loaded public keys.

use vstd::prelude::*;
use vstd::string::*;

use jsonwebtoken::errors::ErrorKind;
use subtle::ConstantTimeEq;

use crate::json::{
    json_members, Member, member_number, member_option, member_text, MemberView, number_member,
    object_member, text_member,
};
use crate::serve::auth::{AuthError, Claims, LEEWAY_SECS, MAX_TTL_SECS};
use crate::text::{
    begins, join, joined, lemma_split_concat, same, split, split_on, starts_with, texts, trim,
    trimmed,
};

verus! {

/// A public key in the form in which `jsonwebtoken` checks signatures with it.
#[verifier::external_type_specification]
#[verifier::external_body]
pub struct ExDecodingKey(jsonwebtoken::DecodingKey);

/// The key that `jsonwebtoken::DecodingKey::from_ec_pem` reads from a PEM block, where
/// it accepts the block.
pub uninterp spec fn ec_pem_key(pem: Seq<char>) -> Option<jsonwebtoken::DecodingKey>;

/// Calls `jsonwebtoken::DecodingKey::from_ec_pem` on the bytes of a PEM block. The key
/// is a function of the block; the error is dropped.
#[verifier::external_body]
fn read_ec_key(pem: &str) -> (r: Option<jsonwebtoken::DecodingKey>)
    ensures
        r == ec_pem_key(pem@),
{
    jsonwebtoken::DecodingKey::from_ec_pem(pem.as_bytes()).ok()
}

/// How `jsonwebtoken` refused a token, as far as the answer depends on it.
pub enum TokenFault {
    ExpiredSignature,
    InvalidSignature,
    InvalidAudience,
    MissingRequiredClaim(String),
    InvalidIssuer,
    InvalidAlgorithm,
    InvalidAlgorithmName,
    MissingAlgorithm,
    Other,
}

/// A token fault on the level of specifications.
pub enum FaultView {
    ExpiredSignature,
    InvalidSignature,
    InvalidAudience,
    MissingRequiredClaim(Seq<char>),
    InvalidIssuer,
    InvalidAlgorithm,
    InvalidAlgorithmName,
    MissingAlgorithm,
    Other,
}

impl TokenFault {
    pub open spec fn view(self) -> FaultView {
        match self {
            TokenFault::ExpiredSignature => FaultView::ExpiredSignature,
            TokenFault::InvalidSignature => FaultView::InvalidSignature,
            TokenFault::InvalidAudience => FaultView::InvalidAudience,
            TokenFault::MissingRequiredClaim(claim) => FaultView::MissingRequiredClaim(claim@),
            TokenFault::InvalidIssuer => FaultView::InvalidIssuer,
            TokenFault::InvalidAlgorithm => FaultView::InvalidAlgorithm,
            TokenFault::InvalidAlgorithmName => FaultView::InvalidAlgorithmName,
            TokenFault::MissingAlgorithm => FaultView::MissingAlgorithm,
            TokenFault::Other => FaultView::Other,
        }
    }
}

/// An error of `jsonwebtoken`.
#[verifier::external_type_specification]
#[verifier::external_body]
pub struct ExError(jsonwebtoken::errors::Error);

/// The kind of an error of `jsonwebtoken`.
pub uninterp spec fn error_kind(error: jsonwebtoken::errors::Error) -> FaultView;

/// Calls `jsonwebtoken::errors::Error::into_kind` and tells the kinds apart that are
/// answered differently.
#[verifier::external_body]
fn fault_of(error: jsonwebtoken::errors::Error) -> (r: TokenFault)
    ensures
        r.view() == error_kind(error),
{
    match error.into_kind() {
        ErrorKind::ExpiredSignature => TokenFault::ExpiredSignature,
        ErrorKind::InvalidSignature => TokenFault::InvalidSignature,
        ErrorKind::InvalidAudience => TokenFault::InvalidAudience,
        ErrorKind::MissingRequiredClaim(claim) => TokenFault::MissingRequiredClaim(claim),
        ErrorKind::InvalidIssuer => TokenFault::InvalidIssuer,
        ErrorKind::InvalidAlgorithm => TokenFault::InvalidAlgorithm,
        ErrorKind::InvalidAlgorithmName => TokenFault::InvalidAlgorithmName,
        ErrorKind::MissingAlgorithm => TokenFault::MissingAlgorithm,
        _ => TokenFault::Other,
    }
}

/// The payload of a compact token, where the token has the shape of one and its payload
/// is JSON.
pub uninterp spec fn token_payload(token: Seq<char>) -> Option<serde_json::Value>;

/// Calls `jsonwebtoken::dangerous::insecure_decode`, which reads the payload of a token
/// and checks nothing else. The payload is a function of the token.
#[verifier::external_body]
fn read_payload(token: &str) -> (r: Option<serde_json::Value>)
    ensures
        r == token_payload(token@),
{
    jsonwebtoken::dangerous::insecure_decode::<serde_json::Value>(token).ok().map(|d| d.claims)
}

/// Whether the header of a token names ES256 and its signature is the key's.
pub uninterp spec fn es256_signed(token: Seq<char>, key: jsonwebtoken::DecodingKey) -> bool;

/// Whether `jsonwebtoken` can read the registered claims of a token's payload. One in which
/// such a claim is repeated cannot be read.
pub uninterp spec fn claims_readable(token: Seq<char>) -> bool;

/// How tokens are signed.
#[derive(Debug, Clone, Copy, PartialEq, Eq, Structural)]
pub enum SignatureAlgorithm {
    Es256,
}

/// The only algorithm that is accepted. A token that names another is refused before its
/// signature is looked at.
pub const EXPECTED_ALG: SignatureAlgorithm = SignatureAlgorithm::Es256;

/// What a token is held against.
#[derive(Debug)]
pub struct TokenRules {
    pub algorithm: SignatureAlgorithm,
    pub audience: String,
    pub issuer: String,
    /// The claims that must be there.
    pub required: Vec<String>,
    /// How far the clock may be off, in seconds.
    pub leeway: u64,
    /// Whether a token is refused before the date from which it is good.
    pub not_before: bool,
}

/// What a token is held against, on the level of specifications.
pub struct RulesView {
    pub algorithm: SignatureAlgorithm,
    pub audience: Seq<char>,
    pub issuer: Seq<char>,
    pub required: Seq<Seq<char>>,
    pub leeway: u64,
    pub not_before: bool,
}

impl TokenRules {
    pub open spec fn view(self) -> RulesView {
        RulesView {
            algorithm: self.algorithm,
            audience: self.audience@,
            issuer: self.issuer@,
            required: texts(self.required@),
            leeway: self.leeway,
            not_before: self.not_before,
        }
    }
}

/// What the tokens of an issuer for an audience are held against: they are signed with
/// ES256 and have an end, an audience, an issuer and a subject.
pub open spec fn rules_for(issuer: Seq<char>, audience: Seq<char>) -> RulesView {
    RulesView {
        algorithm: EXPECTED_ALG,
        audience,
        issuer,
        required: seq!["exp"@, "aud"@, "iss"@, "sub"@],
        leeway: LEEWAY_SECS,
        not_before: false,
    }
}

/// What the tokens of an issuer for an audience are held against.
pub fn token_rules(issuer: &str, audience: &str) -> (r: TokenRules)
    ensures
        r.view() == rules_for(issuer@, audience@),
{
    let mut required: Vec<String> = Vec::new();
    required.push("exp".to_owned());
    required.push("aud".to_owned());
    required.push("iss".to_owned());
    required.push("sub".to_owned());
    proof {
        assert(texts(required@) =~= seq!["exp"@, "aud"@, "iss"@, "sub"@]);
    }
    TokenRules {
        algorithm: EXPECTED_ALG,
        audience: audience.to_owned(),
        issuer: issuer.to_owned(),
        required,
        leeway: LEEWAY_SECS,
        not_before: false,
    }
}

/// A fault that is found only in the claims, after the signature held.
pub open spec fn fault_of_claims(fault: FaultView) -> bool {
    ||| fault is ExpiredSignature
    ||| fault is InvalidAudience
    ||| fault is InvalidIssuer
    ||| fault is MissingRequiredClaim
}

/// A claim that can be required.
pub open spec fn can_be_required(name: Seq<char>) -> bool {
    name == "exp"@ || name == "nbf"@ || name == "aud"@ || name == "iss"@ || name == "sub"@
}

/// Whether a payload has a claim in its plain form: a date as a whole unsigned number, any
/// other claim as a text.
pub open spec fn plain_claim(members: Map<Seq<char>, MemberView>, name: Seq<char>) -> bool {
    if name == "exp"@ || name == "nbf"@ {
        member_number(members, name) is Some
    } else {
        member_text(members, name) is Some
    }
}

/// What is known of a payload that was accepted at a time of the clock.
pub open spec fn accepted_fits(
    members: Map<Seq<char>, MemberView>,
    rules: RulesView,
    clock: u64,
) -> bool {
    &&& members != Map::<Seq<char>, MemberView>::empty() ==> forall|name: Seq<char>|
        rules.required.contains(name) && can_be_required(name)
            ==> #[trigger] members.dom().contains(name)
    &&& member_text(members, "aud"@) matches Some(aud) ==> aud == rules.audience
    &&& member_text(members, "iss"@) matches Some(iss) ==> iss == rules.issuer
    &&& member_number(members, "exp"@) matches Some(exp) ==> exp + rules.leeway >= clock
    &&& rules.not_before ==> (member_number(members, "nbf"@) matches Some(nbf) ==> nbf <= clock
        + rules.leeway)
}

/// What is known of a payload in which a fault was found at a time of the clock.
pub open spec fn refused_fits(
    members: Map<Seq<char>, MemberView>,
    rules: RulesView,
    clock: u64,
    fault: FaultView,
) -> bool {
    match fault {
        FaultView::ExpiredSignature => member_number(members, "exp"@) matches Some(exp) ==> exp
            + rules.leeway < clock,
        FaultView::InvalidAudience => member_text(members, "aud"@) != Some(rules.audience),
        FaultView::InvalidIssuer => member_text(members, "iss"@) != Some(rules.issuer),
        FaultView::MissingRequiredClaim(claim) => {
            &&& rules.required.contains(claim)
            &&& can_be_required(claim)
            &&& !plain_claim(members, claim)
        },
        _ => true,
    }
}

/// Whether a payload has every claim that the rules look at in its plain form.
pub open spec fn plainly_claimed(members: Map<Seq<char>, MemberView>, rules: RulesView) -> bool {
    &&& !rules.not_before
    &&& plain_claim(members, "exp"@)
    &&& plain_claim(members, "aud"@)
    &&& plain_claim(members, "iss"@)
    &&& forall|name: Seq<char>| #[trigger]
        rules.required.contains(name) && can_be_required(name) ==> plain_claim(members, name)
}

/// The fault that is found in plain claims at a time of the clock, if there is one: first the
/// date is looked at, then the issuer, then the audience.
pub open spec fn plain_fault(
    members: Map<Seq<char>, MemberView>,
    rules: RulesView,
    clock: u64,
) -> Option<FaultView> {
    if member_number(members, "exp"@)->0 + rules.leeway < clock {
        Some(FaultView::ExpiredSignature)
    } else if member_text(members, "iss"@) != Some(rules.issuer) {
        Some(FaultView::InvalidIssuer)
    } else if member_text(members, "aud"@) != Some(rules.audience) {
        Some(FaultView::InvalidAudience)
    } else {
        None
    }
}

/// What one key makes of a token: the payload, or the fault.
pub type KeyOutcome = Result<serde_json::Value, FaultView>;

/// Whether what a key makes of a token is a matter of its plain claims and the clock alone.
pub open spec fn rests_on_claims(
    token: Seq<char>,
    key: jsonwebtoken::DecodingKey,
    rules: RulesView,
) -> bool {
    &&& es256_signed(token, key)
    &&& claims_readable(token)
    &&& token_payload(token) matches Some(payload)
    &&& plainly_claimed(json_members(payload), rules)
}

/// What a key makes of such a token at a time of the clock.
pub open spec fn plain_outcome(token: Seq<char>, rules: RulesView, clock: u64) -> KeyOutcome {
    let payload = token_payload(token)->0;
    match plain_fault(json_members(payload), rules, clock) {
        Some(fault) => Err(fault),
        None => Ok(payload),
    }
}

/// What is known of what a key makes of a token at a time of the clock: a payload is the
/// token's own, signed with the key, and keeps to the rules; a fault of the signature is
/// found where the key did not sign, and one of the claims where it did. A token that the key
/// signed, and whose claims are readable and plain, is judged by them alone.
pub open spec fn outcome_fits(
    token: Seq<char>,
    key: jsonwebtoken::DecodingKey,
    rules: RulesView,
    clock: u64,
    outcome: KeyOutcome,
) -> bool {
    &&& rests_on_claims(token, key, rules) ==> outcome == plain_outcome(token, rules, clock)
    &&& match outcome {
        Ok(payload) => {
            &&& es256_signed(token, key)
            &&& token_payload(token) == Some(payload)
            &&& accepted_fits(json_members(payload), rules, clock)
        },
        Err(fault) => {
            &&& fault is InvalidSignature || fault is InvalidAlgorithm ==> !es256_signed(token, key)
            &&& fault_of_claims(fault) ==> {
                &&& es256_signed(token, key)
                &&& token_payload(token) is Some
                &&& refused_fits(json_members(token_payload(token)->0), rules, clock, fault)
            }
        },
    }
}

/// What came of decoding a token.
pub open spec fn outcome_of(
    decoded: Result<serde_json::Value, jsonwebtoken::errors::Error>,
) -> KeyOutcome {
    match decoded {
        Ok(payload) => Ok(payload),
        Err(error) => Err(error_kind(error)),
    }
}

/// Calls `jsonwebtoken::decode` with a `Validation` of the given algorithm, audience, issuer,
/// required claims and leeway. Whether the signature is the key's is a function of the token
/// and the key, and is only named; a token without it is refused, and it is checked before
/// the claims. An accepted token's payload is the one that [`read_payload`] gives; where it
/// has members, every required claim is one of them, and a plain audience, issuer or date in
/// it keeps to the rules. Of the claims, only a plain one that breaks the rules is reported as
/// such, and only a required one as missing. Dates are held against the clock, of which
/// nothing is known. A token with the key's signature whose registered claims the crate can
/// read, which is a function of the token and is only named, and whose claims are all there
/// and plain, is refused for its end, its issuer or its audience, in this order, and
/// otherwise accepted. What else makes the call refuse a token is not stated. The call panics
/// where the clock is before 1970, and may where it is after that by less than the leeway.
#[verifier::external_body]
fn decode_token(token: &str, key: &jsonwebtoken::DecodingKey, rules: &TokenRules) -> (r: Result<
    serde_json::Value,
    jsonwebtoken::errors::Error,
>)
    requires
        rules.leeway <= LEEWAY_SECS,
    ensures
        r is Ok ==> es256_signed(token@, *key),
        claims_readable(token@) && rests_on_claims(token@, *key, rules.view()) ==> exists|clock: u64|
            outcome_of(r) == #[trigger] plain_outcome(token@, rules.view(), clock),
        exists|clock: u64| #[trigger]
            outcome_fits(token@, *key, rules.view(), clock, outcome_of(r)),
{
    let algorithm = match rules.algorithm {
        SignatureAlgorithm::Es256 => jsonwebtoken::Algorithm::ES256,
    };
    let mut validation = jsonwebtoken::Validation::new(algorithm);
    validation.set_audience(&[rules.audience.as_str()]);
    validation.set_issuer(&[rules.issuer.as_str()]);
    validation.set_required_spec_claims(&rules.required);
    validation.leeway = rules.leeway;
    validation.validate_nbf = rules.not_before;
    jsonwebtoken::decode(token, key, &validation).map(|data| data.claims)
}

/// Calls `jsonwebtoken::get_current_timestamp`: unix seconds now. Nothing is stated of it;
/// it panics where the clock is before 1970.
#[verifier::external_body]
fn current_timestamp() -> u64 {
    jsonwebtoken::get_current_timestamp()
}

/// Calls `ct_eq` of `subtle` on two byte slices: true exactly where they hold the same
/// bytes.
#[verifier::external_body]
fn equal_in_constant_time(a: &[u8], b: &[u8]) -> (r: bool)
    ensures
        r == (a@ == b@),
{
    a.ct_eq(b).into()
}

/// The answer to a token fault.
pub open spec fn answer_to(fault: FaultView) -> AuthError {
    match fault {
        FaultView::ExpiredSignature => AuthError::Expired,
        FaultView::InvalidSignature => AuthError::BadSignature,
        FaultView::InvalidAudience => AuthError::WrongAudience,
        FaultView::MissingRequiredClaim(claim) => if claim == "aud"@ {
            AuthError::WrongAudience
        } else {
            AuthError::Malformed
        },
        FaultView::InvalidIssuer => AuthError::WrongIssuer,
        FaultView::InvalidAlgorithm
        | FaultView::InvalidAlgorithmName
        | FaultView::MissingAlgorithm => AuthError::WrongAlgorithm,
        FaultView::Other => AuthError::Malformed,
    }
}

/// The answer to a token fault.
pub fn map_error(fault: &TokenFault) -> (r: AuthError)
    ensures
        r == answer_to(fault.view()),
{
    match fault {
        TokenFault::ExpiredSignature => AuthError::Expired,
        TokenFault::InvalidSignature => AuthError::BadSignature,
        TokenFault::InvalidAudience => AuthError::WrongAudience,
        TokenFault::MissingRequiredClaim(claim) => if same(claim.as_str(), "aud") {
            AuthError::WrongAudience
        } else {
            AuthError::Malformed
        },
        TokenFault::InvalidIssuer => AuthError::WrongIssuer,
        TokenFault::InvalidAlgorithm
        | TokenFault::InvalidAlgorithmName
        | TokenFault::MissingAlgorithm => AuthError::WrongAlgorithm,
        TokenFault::Other => AuthError::Malformed,
    }
}

/// The answer to a token that one key refused. A payload that lacks a claim is malformed,
/// whatever its other claims say; the signature and the algorithm come before both.
pub open spec fn refusal(fault: FaultView, has_claims: bool) -> AuthError {
    let answer = answer_to(fault);
    if !has_claims && (answer == AuthError::Expired || answer == AuthError::WrongAudience || answer
        == AuthError::WrongIssuer) {
        AuthError::Malformed
    } else {
        answer
    }
}

/// The answer to a token that one key refused.
pub fn refuse(fault: &TokenFault, has_claims: bool) -> (r: AuthError)
    ensures
        r == refusal(fault.view(), has_claims),
{
    let answer = map_error(fault);
    match answer {
        AuthError::Expired | AuthError::WrongAudience | AuthError::WrongIssuer => if has_claims {
            answer
        } else {
            AuthError::Malformed
        },
        _ => answer,
    }
}

/// Claims on the level of specifications.
pub struct ClaimsView {
    pub pid: Option<Seq<char>>,
    pub iss: Seq<char>,
    pub sub: Seq<char>,
    pub ws: Seq<char>,
    pub sid: Seq<char>,
    pub aud: Seq<char>,
    pub iat: u64,
    pub exp: u64,
    pub jti: Seq<char>,
}

impl Claims {
    pub open spec fn view(self) -> ClaimsView {
        ClaimsView {
            pid: match self.pid {
                Some(pid) => Some(pid@),
                None => None,
            },
            iss: self.iss@,
            sub: self.sub@,
            ws: self.ws@,
            sid: self.sid@,
            aud: self.aud@,
            iat: self.iat,
            exp: self.exp,
            jti: self.jti@,
        }
    }
}

/// The claims in a payload: every claim but `pid` is required, texts are strings, and
/// dates are whole unsigned numbers. Of a member that is repeated, the last one counts.
pub open spec fn claims_in(members: Map<Seq<char>, MemberView>) -> Option<ClaimsView> {
    let pid = member_option(members, "pid"@);
    let iss = member_text(members, "iss"@);
    let sub = member_text(members, "sub"@);
    let ws = member_text(members, "ws"@);
    let sid = member_text(members, "sid"@);
    let aud = member_text(members, "aud"@);
    let iat = member_number(members, "iat"@);
    let exp = member_number(members, "exp"@);
    let jti = member_text(members, "jti"@);
    if pid is Some && iss is Some && sub is Some && ws is Some && sid is Some && aud is Some
        && iat is Some && exp is Some && jti is Some {
        Some(
            ClaimsView {
                pid: pid->0,
                iss: iss->0,
                sub: sub->0,
                ws: ws->0,
                sid: sid->0,
                aud: aud->0,
                iat: iat->0,
                exp: exp->0,
                jti: jti->0,
            },
        )
    } else {
        None
    }
}

/// The claims in the payload of a token.
pub fn claims_of(payload: &serde_json::Value) -> (r: Option<Claims>)
    ensures
        match r {
            Some(c) => claims_in(json_members(*payload)) == Some(c.view()),
            None => claims_in(json_members(*payload)) is None,
        },
{
    let pid = match object_member(payload, "pid") {
        None | Some(Member::Null) => None,
        Some(Member::Text(t)) => Some(t),
        _ => {
            return None;
        },
    };
    Some(
        Claims {
            pid,
            iss: text_member(payload, "iss")?,
            sub: text_member(payload, "sub")?,
            ws: text_member(payload, "ws")?,
            sid: text_member(payload, "sid")?,
            aud: text_member(payload, "aud")?,
            iat: number_member(payload, "iat")?,
            exp: number_member(payload, "exp")?,
            jti: text_member(payload, "jti")?,
        },
    )
}

/// What the claims of a token with a good signature lead to at a time: a refusal where
/// it is dated in the future, claims too long a life, or names another workspace. The leeway
/// is for clocks, so that a life is not longer for it.
pub open spec fn claims_fault(claims: ClaimsView, now: u64, workspace_id: Seq<char>) -> Option<
    AuthError,
> {
    if claims.iat > now + LEEWAY_SECS {
        Some(AuthError::Malformed)
    } else if claims.exp > claims.iat + MAX_TTL_SECS {
        Some(AuthError::Malformed)
    } else if claims.ws != workspace_id {
        Some(AuthError::WrongWorkspace)
    } else {
        None
    }
}

/// Checks the dates and the workspace of claims. The workspace is compared in constant
/// time.
pub fn check_claims(claims: Claims, now: u64, workspace_id: &str) -> (r: Result<Claims, AuthError>)
    ensures
        match r {
            Ok(c) => c == claims && claims_fault(claims.view(), now, workspace_id@) is None,
            Err(e) => claims_fault(claims.view(), now, workspace_id@) == Some(e),
        },
{
    if claims.iat > now.saturating_add(LEEWAY_SECS) {
        return Err(AuthError::Malformed);
    }
    if claims.exp > claims.iat.saturating_add(MAX_TTL_SECS) {
        return Err(AuthError::Malformed);
    }
    let same_bytes = equal_in_constant_time(claims.ws.as_str().as_bytes(), workspace_id.as_bytes());
    proof {
        broadcast use vstd::utf8::encode_utf8_decode_utf8;

        assert(vstd::utf8::decode_utf8(vstd::utf8::encode_utf8(claims.ws@)) == claims.ws@);
        assert(vstd::utf8::decode_utf8(vstd::utf8::encode_utf8(workspace_id@)) == workspace_id@);
    }
    if !same_bytes {
        return Err(AuthError::WrongWorkspace);
    }
    Ok(claims)
}

/// The refusal to report where every key refused a token: the first that is not a bad
/// signature, else a bad signature; without any key the token counts as malformed.
pub open spec fn reported(errors: Seq<AuthError>) -> AuthError
    decreases errors.len(),
{
    if errors.len() == 0 {
        AuthError::Malformed
    } else if errors[0] != AuthError::BadSignature || errors.len() == 1 {
        errors[0]
    } else {
        reported(errors.skip(1))
    }
}

/// The refusal to report where every key refused a token.
pub fn report(errors: &Vec<AuthError>) -> (r: AuthError)
    ensures
        r == reported(errors@),
{
    if errors.len() == 0 {
        return AuthError::Malformed;
    }
    let mut i: usize = 0;
    proof {
        assert(errors@.skip(0) =~= errors@);
    }
    while errors.len() - i > 1 && errors[i] == AuthError::BadSignature
        invariant
            i < errors@.len(),
            reported(errors@.skip(i as int)) == reported(errors@),
        decreases errors@.len() - i,
    {
        proof {
            assert(errors@.skip(i as int).skip(1) =~= errors@.skip(i + 1));
        }
        i = i + 1;
    }
    errors[i]
}

/// The claims that came of a verification, or the refusal, on the level of specifications.
pub open spec fn verdict_view(r: Result<Claims, AuthError>) -> Result<ClaimsView, AuthError> {
    match r {
        Ok(claims) => Ok(claims.view()),
        Err(e) => Err(e),
    }
}

/// What came of each key, on the level of specifications.
pub open spec fn outcome_views(outcomes: Seq<Result<Claims, TokenFault>>) -> Seq<
    Result<ClaimsView, FaultView>,
> {
    outcomes.map_values(
        |o: Result<Claims, TokenFault>|
            match o {
                Ok(claims) => Ok(claims.view()),
                Err(fault) => Err(fault.view()),
            },
    )
}

/// The claims that the first key accepted that accepted any.
pub open spec fn first_accepted(outcomes: Seq<Result<ClaimsView, FaultView>>) -> Option<ClaimsView>
    decreases outcomes.len(),
{
    if outcomes.len() == 0 {
        None
    } else {
        match outcomes[0] {
            Ok(claims) => Some(claims),
            Err(_) => first_accepted(outcomes.skip(1)),
        }
    }
}

/// How each key that refused a token is answered, in the order of the keys.
pub open spec fn refusals(outcomes: Seq<Result<ClaimsView, FaultView>>, has_claims: bool) -> Seq<
    AuthError,
> {
    outcomes.map_values(|o: Result<ClaimsView, FaultView>| refusal(o->Err_0, has_claims))
}

/// What accepted claims lead to at a time.
pub open spec fn judged(claims: ClaimsView, now: u64, workspace_id: Seq<char>) -> Result<
    ClaimsView,
    AuthError,
> {
    match claims_fault(claims, now, workspace_id) {
        Some(e) => Err(e),
        None => Ok(claims),
    }
}

/// What the outcomes of the keys lead to: the first key that accepts the token decides, and
/// its claims are checked; where every key refuses it, one of the refusals is reported.
pub open spec fn decided(
    outcomes: Seq<Result<ClaimsView, FaultView>>,
    has_claims: bool,
    now: u64,
    workspace_id: Seq<char>,
) -> Result<ClaimsView, AuthError> {
    match first_accepted(outcomes) {
        Some(claims) => judged(claims, now, workspace_id),
        None => Err(reported(refusals(outcomes, has_claims))),
    }
}

/// What the outcomes of the keys lead to, in the order of the keys. `has_claims` says
/// whether the payload of the token has every claim, and `now` is the time in unix seconds.
pub fn decide(
    outcomes: Vec<Result<Claims, TokenFault>>,
    has_claims: bool,
    now: u64,
    workspace_id: &str,
) -> (r: Result<Claims, AuthError>)
    ensures
        verdict_view(r) == decided(outcome_views(outcomes@), has_claims, now, workspace_id@),
{
    let ghost all = outcome_views(outcomes@);
    let mut rest = outcomes;
    let mut errors: Vec<AuthError> = Vec::new();
    proof {
        assert(all.skip(0) =~= all);
    }
    while rest.len() > 0
        invariant
            all == outcome_views(outcomes@),
            errors@.len() + rest@.len() == all.len(),
            outcome_views(rest@) == all.skip(errors@.len() as int),
            first_accepted(all) == first_accepted(all.skip(errors@.len() as int)),
            forall|k: int|
                0 <= k < errors@.len() ==> #[trigger] errors@[k] == refusals(all, has_claims)[k],
        decreases rest@.len(),
    {
        let ghost done = errors@.len() as int;
        let ghost before = rest@;
        let outcome = rest.remove(0);
        proof {
            assert(outcome_views(before)[0] == all[done]);
            assert(all.skip(done).skip(1) =~= all.skip(done + 1));
            assert(outcome_views(rest@) =~= outcome_views(before).skip(1));
        }
        match outcome {
            Ok(claims) => {
                proof {
                    assert(all.skip(done)[0] == Ok::<_, FaultView>(claims.view()));
                }
                return check_claims(claims, now, workspace_id);
            },
            Err(fault) => {
                errors.push(refuse(&fault, has_claims));
            },
        }
    }
    proof {
        assert(errors@ =~= refusals(all, has_claims));
    }
    Err(report(&errors))
}

/// The blocks found so far in a PEM file, and the lines of the block that is open.
pub struct PemScan {
    pub blocks: Seq<Seq<char>>,
    pub open_block: Option<Seq<Seq<char>>>,
}

/// One more line of a PEM file.
pub open spec fn pem_line(scan: PemScan, line: Seq<char>) -> PemScan {
    let line = trimmed(line);
    if begins(line, "-----BEGIN "@) {
        PemScan { open_block: Some(seq![line]), ..scan }
    } else if begins(line, "-----END "@) {
        match scan.open_block {
            Some(lines) => PemScan {
                blocks: scan.blocks.push(joined(lines.push(line), "\n"@)),
                open_block: None,
            },
            None => scan,
        }
    } else if line.len() > 0 && scan.open_block is Some {
        PemScan { open_block: Some(scan.open_block->0.push(line)), ..scan }
    } else {
        scan
    }
}

/// The lines of a PEM file, one after the other.
pub open spec fn pem_lines(scan: PemScan, lines: Seq<Seq<char>>) -> PemScan
    decreases lines.len(),
{
    if lines.len() == 0 {
        scan
    } else {
        pem_line(pem_lines(scan, lines.drop_last()), lines.last())
    }
}

/// Nothing scanned yet.
pub open spec fn pem_start() -> PemScan {
    PemScan { blocks: Seq::empty(), open_block: None }
}

/// The blocks of a PEM file, without the text around them and with every line trimmed.
pub open spec fn pem_blocks(pem: Seq<char>) -> Seq<Seq<char>> {
    pem_lines(pem_start(), split(pem, '\n')).blocks
}

/// Splits a PEM file into its blocks.
pub fn split_pem_blocks(pem: &str) -> (r: Vec<String>)
    ensures
        texts(r@) == pem_blocks(pem@),
{
    let lines = split_on(pem, '\n');
    let mut blocks: Vec<String> = Vec::new();
    let mut open_block: Option<Vec<String>> = None;
    let ghost all = texts(lines@);
    let mut i: usize = 0;
    proof {
        assert(texts(blocks@) =~= pem_start().blocks);
    }
    while i < lines.len()
        invariant
            i <= lines@.len(),
            all == texts(lines@),
            texts(blocks@) == pem_lines(pem_start(), all.take(i as int)).blocks,
            match open_block {
                Some(b) => pem_lines(pem_start(), all.take(i as int)).open_block == Some(
                    texts(b@),
                ),
                None => pem_lines(pem_start(), all.take(i as int)).open_block is None,
            },
        decreases lines@.len() - i,
    {
        proof {
            assert(all.take(i + 1).drop_last() =~= all.take(i as int));
            assert(all.take(i + 1).last() == lines@[i as int]@);
        }
        let ghost done = texts(blocks@);
        let line = trim(lines[i].as_str());
        if starts_with(line.as_str(), "-----BEGIN ") {
            let mut fresh: Vec<String> = Vec::new();
            fresh.push(line);
            proof {
                assert(texts(fresh@) =~= seq![line@]);
            }
            open_block = Some(fresh);
        } else if starts_with(line.as_str(), "-----END ") {
            if let Some(mut b) = open_block {
                let ghost body = texts(b@);
                b.push(line);
                proof {
                    assert(texts(b@) =~= body.push(line@));
                }
                let block = join(&b, "\n");
                blocks.push(block);
                proof {
                    assert(texts(blocks@) =~= done.push(block@));
                }
            }
            open_block = None;
        } else if !line.as_str().is_empty() {
            open_block = match open_block {
                Some(mut b) => {
                    let ghost body = texts(b@);
                    b.push(line);
                    proof {
                        assert(texts(b@) =~= body.push(line@));
                    }
                    Some(b)
                },
                None => None,
            };
        }
        i = i + 1;
    }
    proof {
        assert(all.take(i as int) =~= all);
    }
    blocks
}

/// Why no configuration could be made of PEM files.
#[derive(Debug, Clone, Copy, PartialEq, Eq, Structural)]
pub enum KeyError {
    /// A block is no ES256 public key.
    BadKey,
    /// There is no block at all.
    NoKey,
}

/// The blocks of several PEM files.
pub open spec fn all_blocks(pems: Seq<&str>) -> Seq<Seq<char>>
    decreases pems.len(),
{
    if pems.len() == 0 {
        Seq::empty()
    } else {
        all_blocks(pems.drop_last()) + pem_blocks(pems.last()@)
    }
}

/// The keys that the blocks hold, one for one.
pub open spec fn keys_match(keys: Seq<jsonwebtoken::DecodingKey>, blocks: Seq<Seq<char>>) -> bool {
    &&& keys.len() == blocks.len()
    &&& forall|i: int|
        0 <= i < keys.len() ==> ec_pem_key(#[trigger] blocks[i]) == Some(keys[i])
}

/// The loaded public keys and what a token must say.
pub struct AuthConfig {
    keys: Vec<jsonwebtoken::DecodingKey>,
    issuer: String,
    audience: String,
    workspace_id: String,
}

impl AuthConfig {
    /// The public keys.
    pub closed spec fn keys(self) -> Seq<jsonwebtoken::DecodingKey> {
        self.keys@
    }

    /// The issuer that a token must name.
    pub closed spec fn issuer(self) -> Seq<char> {
        self.issuer@
    }

    /// The audience that a token must name.
    pub closed spec fn audience(self) -> Seq<char> {
        self.audience@
    }

    /// The workspace that a token must name.
    pub closed spec fn workspace_id(self) -> Seq<char> {
        self.workspace_id@
    }

    /// Makes a configuration of PEM files; each may hold several keys.
    pub fn from_pems(
        pems: &[&str],
        issuer: &str,
        audience: &str,
        workspace_id: &str,
    ) -> (r: Result<AuthConfig, KeyError>)
        ensures
            match r {
                Ok(config) => {
                    &&& all_blocks(pems@).len() > 0
                    &&& keys_match(config.keys(), all_blocks(pems@))
                    &&& config.issuer() == issuer@
                    &&& config.audience() == audience@
                    &&& config.workspace_id() == workspace_id@
                },
                Err(KeyError::BadKey) => exists|i: int|
                    0 <= i < all_blocks(pems@).len() && ec_pem_key(#[trigger] all_blocks(pems@)[i]) is None,
                Err(KeyError::NoKey) => all_blocks(pems@).len() == 0,
            },
    {
        let mut keys: Vec<jsonwebtoken::DecodingKey> = Vec::new();
        let mut i: usize = 0;
        while i < pems.len()
            invariant
                i <= pems@.len(),
                keys_match(keys@, all_blocks(pems@.take(i as int))),
            decreases pems@.len() - i,
        {
            let blocks = split_pem_blocks(pems[i]);
            let ghost before = all_blocks(pems@.take(i as int));
            let ghost all = all_blocks(pems@.take(i + 1));
            proof {
                assert(pems@.take(i + 1).drop_last() =~= pems@.take(i as int));
                assert(all == before + texts(blocks@));
            }
            let mut j: usize = 0;
            while j < blocks.len()
                invariant
                    i < pems@.len(),
                    j <= blocks@.len(),
                    all == before + texts(blocks@),
                    all == all_blocks(pems@.take(i + 1)),
                    keys@.len() == before.len() + j,
                    forall|k: int|
                        0 <= k < keys@.len() ==> ec_pem_key(#[trigger] all[k]) == Some(keys@[k]),
                decreases blocks@.len() - j,
            {
                proof {
                    assert(all[before.len() + j] == blocks@[j as int]@);
                }
                match read_ec_key(blocks[j].as_str()) {
                    Some(key) => {
                        keys.push(key);
                    },
                    None => {
                        proof {
                            lemma_blocks_prefix(pems@, i + 1);
                            assert(all_blocks(pems@)[before.len() + j] == all[before.len() + j]);
                        }
                        return Err(KeyError::BadKey);
                    },
                }
                j = j + 1;
            }
            i = i + 1;
        }
        proof {
            assert(pems@.take(i as int) =~= pems@);
        }
        if keys.len() == 0 {
            return Err(KeyError::NoKey);
        }
        Ok(
            AuthConfig {
                keys,
                issuer: issuer.to_owned(),
                audience: audience.to_owned(),
                workspace_id: workspace_id.to_owned(),
            },
        )
    }

    /// Whether one of the loaded keys signed a token.
    pub open spec fn signed(self, token: Seq<char>) -> bool {
        exists|k: int| 0 <= k < self.keys().len() && es256_signed(token, #[trigger] self.keys()[k])
    }

    /// What tokens are held against.
    pub open spec fn rules(self) -> RulesView {
        rules_for(self.issuer(), self.audience())
    }

    /// Whether a token was tried with the keys in their order, up to the first that accepts
    /// it, each time under the rules.
    pub open spec fn tried(self, token: Seq<char>, attempts: Seq<Attempt>) -> bool {
        &&& attempts.len() <= self.keys().len()
        &&& forall|k: int|
            0 <= k < attempts.len() ==> outcome_fits(
                token,
                self.keys()[k],
                self.rules(),
                (#[trigger] attempts[k]).clock,
                attempts[k].outcome,
            )
        &&& forall|k: int|
            0 <= k < attempts.len() - 1 ==> claims_from((#[trigger] attempts[k]).outcome) is Err
        &&& attempts.len() < self.keys().len() ==> attempts.len() > 0 && claims_from(
            attempts.last().outcome,
        ) is Ok
    }

    /// Whether a verdict is the one that such tries of a token lead to at a time.
    pub open spec fn explains(
        self,
        token: Seq<char>,
        attempts: Seq<Attempt>,
        now: u64,
        verdict: Result<ClaimsView, AuthError>,
    ) -> bool {
        &&& self.tried(token, attempts)
        &&& verdict == decided(
            attempted(attempts),
            token_claims(token) is Some,
            now,
            self.workspace_id(),
        )
    }

    /// What is known of the verdict on a token, whatever the clock shows.
    ///
    /// It is the verdict of tries with the keys. Claims that come back are those of the
    /// token's own payload, signed by a loaded key, for this issuer, audience and workspace,
    /// and of a lifetime within the limit. A bad signature is reported only of a token that
    /// no loaded key signed, and a fault of the claims only of claims that have it. What a
    /// token is answered that is owed a judgement is said by [`owed`](Self::owed).
    pub open spec fn verified(self, token: Seq<char>, r: Result<Claims, AuthError>) -> bool {
        &&& exists|attempts: Seq<Attempt>, now: u64| #[trigger]
            self.explains(token, attempts, now, verdict_view(r))
        &&& match r {
            Ok(c) => {
                &&& self.signed(token)
                &&& token_claims(token) == Some(c.view())
                &&& c.iss@ == self.issuer()
                &&& c.aud@ == self.audience()
                &&& c.ws@ == self.workspace_id()
                &&& c.exp <= c.iat + MAX_TTL_SECS
            },
            Err(AuthError::Missing) | Err(AuthError::MissingSubprotocol) => false,
            Err(AuthError::BadSignature) => !self.signed(token),
            Err(AuthError::Expired) => self.signed(token) && token_claims(token) is Some,
            Err(AuthError::WrongAudience) => {
                &&& self.signed(token)
                &&& token_claims(token) matches Some(c)
                &&& c.aud != self.audience()
            },
            Err(AuthError::WrongIssuer) => {
                &&& self.signed(token)
                &&& token_claims(token) matches Some(c)
                &&& c.iss != self.issuer()
            },
            Err(AuthError::WrongWorkspace) => {
                &&& self.signed(token)
                &&& token_claims(token) matches Some(c)
                &&& c.ws != self.workspace_id()
            },
            Err(AuthError::Malformed) | Err(AuthError::WrongAlgorithm) => true,
        }
        &&& self.keys().len() == 0 ==> r == Err::<Claims, AuthError>(AuthError::Malformed)
        &&& forall|k: int, c: ClaimsView| #[trigger]
            self.owed(token, k, c) ==> exists|clock: u64, now: u64| #[trigger]
                self.answers(token, c, clock, now, verdict_view(r))
    }

    /// Whether a token is owed a judgement by its claims and the clock: a loaded key signed
    /// it, its claims are readable and all there, and it is for this issuer and audience.
    pub open spec fn owed(self, token: Seq<char>, k: int, c: ClaimsView) -> bool {
        &&& 0 <= k < self.keys().len()
        &&& es256_signed(token, self.keys()[k])
        &&& claims_readable(token)
        &&& token_claims(token) == Some(c)
        &&& c.iss == self.issuer()
        &&& c.aud == self.audience()
    }

    /// Whether a verdict is what such a token is answered, by two readings of the clock: as
    /// long as it is not over, the claims or what is wrong with them; once it is over, a
    /// refusal, which is that it is over where the first key signed it.
    pub open spec fn answers(
        self,
        token: Seq<char>,
        c: ClaimsView,
        clock: u64,
        now: u64,
        verdict: Result<ClaimsView, AuthError>,
    ) -> bool {
        if c.exp + LEEWAY_SECS >= clock {
            verdict == judged(c, now, self.workspace_id())
        } else {
            &&& verdict is Err
            &&& es256_signed(token, self.keys()[0]) ==> verdict == Err::<ClaimsView, AuthError>(
                AuthError::Expired,
            )
        }
    }

    /// Verifies a token. The first key that accepts it decides; where every key refuses
    /// it, a refusal other than a bad signature is reported first. Which dates are accepted
    /// is up to the clock.
    pub fn verify(&self, token: &str) -> (r: Result<Claims, AuthError>)
        ensures
            self.verified(token@, r),
    {
        let has_claims = match read_payload(token) {
            Some(payload) => claims_of(&payload).is_some(),
            None => false,
        };
        let rules = token_rules(self.issuer.as_str(), self.audience.as_str());
        let mut outcomes: Vec<Result<Claims, TokenFault>> = Vec::new();
        let ghost mut attempts: Seq<Attempt> = Seq::empty();
        let mut accepted = false;
        let mut i: usize = 0;
        while i < self.keys.len() && !accepted
            invariant
                i <= self.keys@.len(),
                rules.view() == self.rules(),
                outcomes@.len() == i,
                attempts.len() == i,
                outcome_views(outcomes@) == attempted(attempts),
                forall|k: int|
                    0 <= k < attempts.len() ==> outcome_fits(
                        token@,
                        self.keys@[k],
                        self.rules(),
                        (#[trigger] attempts[k]).clock,
                        attempts[k].outcome,
                    ),
                forall|k: int|
                    0 <= k < attempts.len() - 1 ==> claims_from(
                        (#[trigger] attempts[k]).outcome,
                    ) is Err,
                accepted ==> i > 0,
                i > 0 ==> accepted == (claims_from(attempts.last().outcome) is Ok),
            decreases self.keys@.len() - i,
        {
            let decoded = decode_token(token, &self.keys[i], &rules);
            let ghost outcome = outcome_of(decoded);
            let ghost views = outcome_views(outcomes@);
            let ghost tried = attempts;
            proof {
                let clock = choose|clock: u64| #[trigger]
                    outcome_fits(token@, self.keys@[i as int], rules.view(), clock, outcome);
                attempts = attempts.push(Attempt { clock, outcome });
                assert(attempted(attempts) =~= attempted(tried).push(claims_from(outcome)));
            }
            let result: Result<Claims, TokenFault> = match decoded {
                Ok(payload) => match claims_of(&payload) {
                    Some(claims) => {
                        accepted = true;
                        Ok(claims)
                    },
                    None => Err(TokenFault::Other),
                },
                Err(error) => Err(fault_of(error)),
            };
            outcomes.push(result);
            proof {
                assert(outcome_views(outcomes@) =~= views.push(claims_from(outcome)));
            }
            i = i + 1;
        }
        let now: u64 = if accepted {
            current_timestamp()
        } else {
            0
        };
        let r = decide(outcomes, has_claims, now, self.workspace_id.as_str());
        proof {
            let verdict = verdict_view(r);
            assert(self.explains(token@, attempts, now, verdict));
            self.lemma_explained(token@, attempts, now, verdict);
            assert forall|k: int, c: ClaimsView| #[trigger] self.owed(token@, k, c) implies exists|
                clock: u64,
                now: u64,
            | #[trigger] self.answers(token@, c, clock, now, verdict) by {
                self.lemma_answered(token@, attempts, now, verdict, k, c);
            }
        }
        r
    }

    /// What the tries of a token tell of the verdict.
    proof fn lemma_explained(
        self,
        token: Seq<char>,
        attempts: Seq<Attempt>,
        now: u64,
        verdict: Result<ClaimsView, AuthError>,
    )
        requires
            self.explains(token, attempts, now, verdict),
        ensures
            match verdict {
                Ok(c) => {
                    &&& self.signed(token)
                    &&& token_claims(token) == Some(c)
                    &&& c.iss == self.issuer()
                    &&& c.aud == self.audience()
                    &&& c.ws == self.workspace_id()
                    &&& c.exp <= c.iat + MAX_TTL_SECS
                },
                Err(AuthError::Missing) | Err(AuthError::MissingSubprotocol) => false,
                Err(AuthError::BadSignature) => !self.signed(token),
                Err(AuthError::Expired) => self.signed(token) && token_claims(token) is Some,
                Err(AuthError::WrongAudience) => {
                    &&& self.signed(token)
                    &&& token_claims(token) matches Some(c)
                    &&& c.aud != self.audience()
                },
                Err(AuthError::WrongIssuer) => {
                    &&& self.signed(token)
                    &&& token_claims(token) matches Some(c)
                    &&& c.iss != self.issuer()
                },
                Err(AuthError::WrongWorkspace) => {
                    &&& self.signed(token)
                    &&& token_claims(token) matches Some(c)
                    &&& c.ws != self.workspace_id()
                },
                Err(AuthError::Malformed) | Err(AuthError::WrongAlgorithm) => true,
            },
            self.keys().len() == 0 ==> verdict == Err::<ClaimsView, AuthError>(
                AuthError::Malformed,
            ),
    {
        let outcomes = attempted(attempts);
        let has_claims = token_claims(token) is Some;
        let last = attempts.len() - 1;
        if attempts.len() > 0 && claims_from(attempts[last].outcome) is Ok {
            assert forall|k: int| 0 <= k < last implies (#[trigger] outcomes[k]) is Err by {
                assert(claims_from(attempts[k].outcome) is Err);
            }
            assert(outcomes[last] == claims_from(attempts[last].outcome));
            lemma_first_accepted(outcomes, last);
            assert(es256_signed(token, self.keys()[last]));
        } else {
            assert forall|k: int| 0 <= k < outcomes.len() implies (#[trigger] outcomes[k]) is Err by {
                assert(claims_from(attempts[k].outcome) is Err);
            }
            lemma_none_accepted(outcomes);
            let errors = refusals(outcomes, has_claims);
            lemma_reported_is_one(errors);
            assert forall|k: int| 0 <= k < errors.len() implies refusal_fits(
                #[trigger] errors[k],
                es256_signed(token, self.keys()[k]),
                token_claims(token),
                self.rules(),
            ) by {
                assert(outcomes[k] == claims_from(attempts[k].outcome));
                assert(outcome_fits(
                    token,
                    self.keys()[k],
                    self.rules(),
                    attempts[k].clock,
                    attempts[k].outcome,
                ));
                self.lemma_refusal_fits(token, k, attempts[k]);
            }
            if errors.len() > 0 {
                let e = reported(errors);
                let k = choose|k: int| 0 <= k < errors.len() && errors[k] == e;
                assert(errors[k] == e);
                if es256_signed(token, self.keys()[k]) {
                    assert(self.signed(token));
                }
                if e == AuthError::BadSignature && self.signed(token) {
                    let j = choose|j: int|
                        0 <= j < self.keys().len() && es256_signed(
                            token,
                            #[trigger] self.keys()[j],
                        );
                    assert(errors[j] == AuthError::BadSignature);
                }
            }
        }
    }

    /// What the tries of a token that is owed a judgement tell of the verdict.
    proof fn lemma_answered(
        self,
        token: Seq<char>,
        attempts: Seq<Attempt>,
        now: u64,
        verdict: Result<ClaimsView, AuthError>,
        k: int,
        c: ClaimsView,
    )
        requires
            self.explains(token, attempts, now, verdict),
            self.owed(token, k, c),
        ensures
            exists|clock: u64, now: u64| #[trigger] self.answers(token, c, clock, now, verdict),
    {
        let outcomes = attempted(attempts);
        let last = attempts.len() - 1;
        if attempts.len() > 0 && claims_from(attempts[last].outcome) is Ok {
            assert forall|i: int| 0 <= i < last implies (#[trigger] outcomes[i]) is Err by {
                assert(claims_from(attempts[i].outcome) is Err);
            }
            assert(outcomes[last] == claims_from(attempts[last].outcome));
            lemma_first_accepted(outcomes, last);
            assert(self.answers(token, c, attempts[last].clock, now, verdict));
        } else {
            assert(attempts.len() == self.keys().len());
            assert forall|i: int| 0 <= i < outcomes.len() implies (#[trigger] outcomes[i]) is Err by {
                assert(claims_from(attempts[i].outcome) is Err);
            }
            lemma_none_accepted(outcomes);
            self.lemma_owed_outcome(token, k, c, attempts[k]);
            let first = attempts[0];
            if es256_signed(token, self.keys()[0]) {
                self.lemma_owed_outcome(token, 0, c, first);
                let errors = refusals(outcomes, true);
                assert(outcomes[0] == claims_from(first.outcome));
                assert(errors[0] == AuthError::Expired);
                assert(reported(errors) == errors[0]);
            }
            assert(self.answers(token, c, attempts[k].clock, now, verdict));
        }
    }

    /// What a key that signed a token makes of one that is owed a judgement.
    proof fn lemma_owed_outcome(self, token: Seq<char>, k: int, c: ClaimsView, attempt: Attempt)
        requires
            self.owed(token, k, c),
            outcome_fits(token, self.keys()[k], self.rules(), attempt.clock, attempt.outcome),
            claims_from(attempt.outcome) is Err,
        ensures
            attempt.outcome == Err::<serde_json::Value, FaultView>(FaultView::ExpiredSignature),
            c.exp + LEEWAY_SECS < attempt.clock,
    {
        reveal_strlit("exp");
        reveal_strlit("nbf");
        reveal_strlit("aud");
        reveal_strlit("iss");
        reveal_strlit("sub");
        assert("aud"@[0] != "exp"@[0]);
        assert("aud"@[0] != "nbf"@[0]);
        assert("iss"@[0] != "exp"@[0]);
        assert("iss"@[0] != "nbf"@[0]);
        assert("sub"@[0] != "exp"@[0]);
        assert("sub"@[0] != "nbf"@[0]);
        let members = json_members(token_payload(token)->0);
        let rules = self.rules();
        assert forall|name: Seq<char>| #[trigger]
            rules.required.contains(name) && can_be_required(name) implies plain_claim(
            members,
            name,
        ) by {
            let i = choose|i: int| 0 <= i < rules.required.len() && rules.required[i] == name;
            assert(name == "exp"@ || name == "aud"@ || name == "iss"@ || name == "sub"@);
        }
        assert(plainly_claimed(members, rules));
        assert(rests_on_claims(token, self.keys()[k], rules));
    }

    /// What one refused try tells of its answer.
    proof fn lemma_refusal_fits(self, token: Seq<char>, k: int, attempt: Attempt)
        requires
            0 <= k < self.keys().len(),
            outcome_fits(token, self.keys()[k], self.rules(), attempt.clock, attempt.outcome),
            claims_from(attempt.outcome) is Err,
        ensures
            refusal_fits(
                refusal(claims_from(attempt.outcome)->Err_0, token_claims(token) is Some),
                es256_signed(token, self.keys()[k]),
                token_claims(token),
                self.rules(),
            ),
    {
        reveal_strlit("exp");
        reveal_strlit("nbf");
        reveal_strlit("aud");
        reveal_strlit("iss");
        reveal_strlit("sub");
        assert("aud"@[0] != "exp"@[0]);
        assert("aud"@[0] != "nbf"@[0]);
    }
}

/// One try of a token with a key: the time that the clock showed, and what came of it.
pub struct Attempt {
    pub clock: u64,
    pub outcome: KeyOutcome,
}

/// The claims that a key accepted; a payload that lacks one counts as a fault.
pub open spec fn claims_from(outcome: KeyOutcome) -> Result<ClaimsView, FaultView> {
    match outcome {
        Ok(payload) => match claims_in(json_members(payload)) {
            Some(claims) => Ok(claims),
            None => Err(FaultView::Other),
        },
        Err(fault) => Err(fault),
    }
}

/// What came of the tries of a token.
pub open spec fn attempted(attempts: Seq<Attempt>) -> Seq<Result<ClaimsView, FaultView>> {
    attempts.map_values(|a: Attempt| claims_from(a.outcome))
}

/// The claims of a token's payload, whoever signed it.
pub open spec fn token_claims(token: Seq<char>) -> Option<ClaimsView> {
    match token_payload(token) {
        Some(payload) => claims_in(json_members(payload)),
        None => None,
    }
}

/// What is known of the answer of one key: a bad signature is reported only where the
/// signature is not the key's, and a fault of the claims only where it is and they have it.
pub open spec fn refusal_fits(
    e: AuthError,
    signed: bool,
    claims: Option<ClaimsView>,
    rules: RulesView,
) -> bool {
    match e {
        AuthError::BadSignature => !signed,
        AuthError::Expired => signed && claims is Some,
        AuthError::WrongAudience => signed && (claims matches Some(c) && c.aud != rules.audience),
        AuthError::WrongIssuer => signed && (claims matches Some(c) && c.iss != rules.issuer),
        AuthError::Malformed | AuthError::WrongAlgorithm => true,
        _ => false,
    }
}

proof fn lemma_first_accepted(outcomes: Seq<Result<ClaimsView, FaultView>>, k: int)
    requires
        0 <= k < outcomes.len(),
        outcomes[k] is Ok,
        forall|i: int| 0 <= i < k ==> (#[trigger] outcomes[i]) is Err,
    ensures
        first_accepted(outcomes) == Some(outcomes[k]->Ok_0),
    decreases k,
{
    if k > 0 {
        assert(outcomes[0] is Err);
        assert forall|i: int| 0 <= i < k - 1 implies (#[trigger] outcomes.skip(1)[i]) is Err by {
            assert(outcomes[i + 1] is Err);
        }
        lemma_first_accepted(outcomes.skip(1), k - 1);
    }
}

proof fn lemma_none_accepted(outcomes: Seq<Result<ClaimsView, FaultView>>)
    requires
        forall|i: int| 0 <= i < outcomes.len() ==> (#[trigger] outcomes[i]) is Err,
    ensures
        first_accepted(outcomes) is None,
    decreases outcomes.len(),
{
    if outcomes.len() > 0 {
        assert(outcomes[0] is Err);
        assert forall|i: int| 0 <= i < outcomes.len() - 1 implies (#[trigger] outcomes.skip(
            1,
        )[i]) is Err by {
            assert(outcomes[i + 1] is Err);
        }
        lemma_none_accepted(outcomes.skip(1));
    }
}

/// The first key that accepts a token decides: its claims are checked, whatever the keys
/// before it said and whatever those after it would.
pub proof fn law_the_first_accepting_key_decides(
    outcomes: Seq<Result<ClaimsView, FaultView>>,
    k: int,
    has_claims: bool,
    now: u64,
    workspace_id: Seq<char>,
)
    requires
        0 <= k < outcomes.len(),
        outcomes[k] is Ok,
        forall|i: int| 0 <= i < k ==> (#[trigger] outcomes[i]) is Err,
    ensures
        decided(outcomes, has_claims, now, workspace_id) == judged(
            outcomes[k]->Ok_0,
            now,
            workspace_id,
        ),
{
    lemma_first_accepted(outcomes, k);
}

/// Where every key refuses a token, the first refusal that is not a bad signature is
/// reported, and a bad signature exactly where there is no other.
pub proof fn law_a_bad_signature_is_reported_last(
    outcomes: Seq<Result<ClaimsView, FaultView>>,
    has_claims: bool,
    now: u64,
    workspace_id: Seq<char>,
)
    requires
        outcomes.len() > 0,
        forall|i: int| 0 <= i < outcomes.len() ==> (#[trigger] outcomes[i]) is Err,
    ensures
        ({
            let verdict = decided(outcomes, has_claims, now, workspace_id);
            let errors = refusals(outcomes, has_claims);
            &&& verdict == Err::<ClaimsView, AuthError>(AuthError::BadSignature) <==> forall|i: int|
                0 <= i < errors.len() ==> #[trigger] errors[i] == AuthError::BadSignature
            &&& forall|k: int|
                0 <= k < errors.len() && #[trigger] errors[k] != AuthError::BadSignature && (forall|
                    i: int,
                |
                    0 <= i < k ==> #[trigger] errors[i] == AuthError::BadSignature) ==> verdict
                    == Err::<ClaimsView, AuthError>(errors[k])
        }),
{
    let errors = refusals(outcomes, has_claims);
    lemma_none_accepted(outcomes);
    lemma_reported_is_one(errors);
    if forall|i: int| 0 <= i < errors.len() ==> #[trigger] errors[i] == AuthError::BadSignature {
        let k = choose|k: int| 0 <= k < errors.len() && errors[k] == reported(errors);
        assert(errors[k] == AuthError::BadSignature);
    }
    assert forall|k: int|
        0 <= k < errors.len() && #[trigger] errors[k] != AuthError::BadSignature && (forall|i: int|
            0 <= i < k ==> #[trigger] errors[i] == AuthError::BadSignature) implies reported(errors)
        == errors[k] by {
        law_specific_refusal_is_reported(errors, k);
    }
}

proof fn lemma_blocks_prefix(pems: Seq<&str>, k: int)
    requires
        0 <= k <= pems.len(),
    ensures
        all_blocks(pems.take(k)).is_prefix_of(all_blocks(pems)),
    decreases pems.len(),
{
    if k == pems.len() {
        assert(pems.take(k) =~= pems);
    } else {
        lemma_blocks_prefix(pems.drop_last(), k);
        assert(pems.drop_last().take(k) =~= pems.take(k));
    }
}

proof fn lemma_reported_is_one(errors: Seq<AuthError>)
    ensures
        errors.len() == 0 ==> reported(errors) == AuthError::Malformed,
        errors.len() > 0 ==> errors.contains(reported(errors)),
        errors.len() > 0 && reported(errors) == AuthError::BadSignature ==> forall|j: int|
            0 <= j < errors.len() ==> #[trigger] errors[j] == AuthError::BadSignature,
    decreases errors.len(),
{
    if errors.len() > 0 {
        if errors[0] != AuthError::BadSignature || errors.len() == 1 {
            assert(errors.contains(errors[0]));
        } else {
            lemma_reported_is_one(errors.skip(1));
            let k = choose|k: int|
                0 <= k < errors.skip(1).len() && errors.skip(1)[k] == reported(errors.skip(1));
            assert(errors[k + 1] == reported(errors));
            if reported(errors) == AuthError::BadSignature {
                assert forall|j: int| 0 <= j < errors.len() implies #[trigger] errors[j]
                    == AuthError::BadSignature by {
                    if j > 0 {
                        assert(errors.skip(1)[j - 1] == errors[j]);
                    }
                }
            }
        }
    }
}

proof fn lemma_pem_lines_append(scan: PemScan, a: Seq<Seq<char>>, b: Seq<Seq<char>>)
    ensures
        pem_lines(scan, a + b) == pem_lines(pem_lines(scan, a), b),
    decreases b.len(),
{
    if b.len() == 0 {
        assert(a + b =~= a);
    } else {
        lemma_pem_lines_append(scan, a, b.drop_last());
        assert((a + b).drop_last() =~= a + b.drop_last());
    }
}

proof fn lemma_pem_lines_earlier(blocks: Seq<Seq<char>>, lines: Seq<Seq<char>>)
    ensures
        pem_lines(PemScan { blocks, open_block: None }, lines).blocks == blocks + pem_lines(
            pem_start(),
            lines,
        ).blocks,
        pem_lines(PemScan { blocks, open_block: None }, lines).open_block == pem_lines(
            pem_start(),
            lines,
        ).open_block,
    decreases lines.len(),
{
    if lines.len() == 0 {
        assert(blocks + pem_start().blocks =~= blocks);
    } else {
        lemma_pem_lines_earlier(blocks, lines.drop_last());
        let now = pem_lines(PemScan { blocks, open_block: None }, lines);
        assert(now.blocks =~= blocks + pem_lines(pem_start(), lines).blocks);
    }
}

/// Two PEM files written into one give the blocks of both, provided that the first does
/// not end inside a block.
pub proof fn law_pem_files_can_be_joined(a: Seq<char>, b: Seq<char>)
    requires
        pem_lines(pem_start(), split(a, '\n')).open_block is None,
    ensures
        pem_blocks(a.push('\n') + b) == pem_blocks(a) + pem_blocks(b),
{
    lemma_split_concat(a, b, '\n');
    lemma_pem_lines_append(pem_start(), split(a, '\n'), split(b, '\n'));
    lemma_pem_lines_earlier(pem_blocks(a), split(b, '\n'));
}

/// While keys are rotated, a token that one loaded key signed is refused for what is
/// wrong with it, not for the signature that the other keys do not recognise.
pub proof fn law_specific_refusal_is_reported(errors: Seq<AuthError>, k: int)
    requires
        0 <= k < errors.len(),
        errors[k] != AuthError::BadSignature,
        forall|i: int| 0 <= i < k ==> errors[i] == AuthError::BadSignature,
    ensures
        reported(errors) == errors[k],
    decreases k,
{
    if k > 0 {
        law_specific_refusal_is_reported(errors.skip(1), k - 1);
    }
}

/// Claims are accepted exactly where they are not dated more than 30 seconds ahead, live no
/// longer than an hour, and are for the workspace; the workspace is looked at last.
pub proof fn law_claims_are_accepted_in_time(claims: ClaimsView, now: u64, workspace_id: Seq<char>)
    ensures
        ({
            let timely = claims.iat <= now + 30 && claims.exp <= claims.iat + 3600;
            let verdict = judged(claims, now, workspace_id);
            &&& timely && claims.ws == workspace_id <==> verdict == Ok::<ClaimsView, AuthError>(
                claims,
            )
            &&& timely && claims.ws != workspace_id ==> verdict == Err::<ClaimsView, AuthError>(
                AuthError::WrongWorkspace,
            )
            &&& !timely ==> verdict == Err::<ClaimsView, AuthError>(AuthError::Malformed)
            &&& verdict is Ok ==> verdict->Ok_0 == claims
        }),
{
}

/// A payload has claims where every one but that of the participant is there, texts as texts
/// and dates as numbers, and they are what the payload says.
pub proof fn law_claims_are_read(members: Map<Seq<char>, MemberView>, c: ClaimsView)
    ensures
        claims_in(members) == Some(c) <==> {
            &&& member_text(members, "iss"@) == Some(c.iss)
            &&& member_text(members, "sub"@) == Some(c.sub)
            &&& member_text(members, "ws"@) == Some(c.ws)
            &&& member_text(members, "sid"@) == Some(c.sid)
            &&& member_text(members, "aud"@) == Some(c.aud)
            &&& member_text(members, "jti"@) == Some(c.jti)
            &&& member_number(members, "iat"@) == Some(c.iat)
            &&& member_number(members, "exp"@) == Some(c.exp)
            &&& member_option(members, "pid"@) == Some(c.pid)
        },
{
}

/// What is wrong with a token is said by its own name; a payload that lacks a claim is
/// malformed whatever its other claims say, but for its signature and its algorithm.
pub proof fn law_faults_have_their_names(claim: Seq<char>)
    ensures
        refusal(FaultView::ExpiredSignature, true) == AuthError::Expired,
        refusal(FaultView::InvalidSignature, true) == AuthError::BadSignature,
        refusal(FaultView::InvalidAudience, true) == AuthError::WrongAudience,
        refusal(FaultView::InvalidIssuer, true) == AuthError::WrongIssuer,
        refusal(FaultView::InvalidAlgorithm, true) == AuthError::WrongAlgorithm,
        refusal(FaultView::InvalidAlgorithmName, true) == AuthError::WrongAlgorithm,
        refusal(FaultView::MissingAlgorithm, true) == AuthError::WrongAlgorithm,
        refusal(FaultView::Other, true) == AuthError::Malformed,
        refusal(FaultView::MissingRequiredClaim("aud"@), true) == AuthError::WrongAudience,
        claim != "aud"@ ==> refusal(FaultView::MissingRequiredClaim(claim), true)
            == AuthError::Malformed,
        refusal(FaultView::ExpiredSignature, false) == AuthError::Malformed,
        refusal(FaultView::InvalidAudience, false) == AuthError::Malformed,
        refusal(FaultView::InvalidIssuer, false) == AuthError::Malformed,
        refusal(FaultView::InvalidSignature, false) == AuthError::BadSignature,
        refusal(FaultView::InvalidAlgorithm, false) == AuthError::WrongAlgorithm,
{
}

/// Tokens are held against the issuer and the audience of the server, with a leeway of 30
/// seconds, and have to have an end, an audience, an issuer and a subject.
pub proof fn law_the_rules_are_strict(issuer: Seq<char>, audience: Seq<char>)
    ensures
        ({
            let rules = rules_for(issuer, audience);
            &&& rules.issuer == issuer
            &&& rules.audience == audience
            &&& rules.leeway == 30
            &&& rules.algorithm == SignatureAlgorithm::Es256
            &&& rules.required.contains("exp"@)
            &&& rules.required.contains("aud"@)
            &&& rules.required.contains("iss"@)
            &&& rules.required.contains("sub"@)
            &&& rules.required.len() == 4
            &&& !rules.not_before
        }),
{
    let required = rules_for(issuer, audience).required;
    assert(required[0] == "exp"@);
    assert(required[1] == "aud"@);
    assert(required[2] == "iss"@);
    assert(required[3] == "sub"@);
}

/// A block of a PEM file is everything from a line that begins it to one that ends it, line by
/// line and trimmed; empty lines and what is outside of blocks do not count.
pub proof fn law_blocks_are_read_line_by_line(scan: PemScan, line: Seq<char>)
    ensures
        ({
            let text = trimmed(line);
            let after = pem_line(scan, line);
            let begin = begins(text, "-----BEGIN "@);
            let end = begins(text, "-----END "@);
            &&& begin ==> after.open_block == Some(seq![text]) && after.blocks == scan.blocks
            &&& end && scan.open_block is Some ==> after.blocks == scan.blocks.push(
                joined(scan.open_block->0.push(text), "\n"@),
            ) && after.open_block is None
            &&& !begin && !end && text.len() > 0 && scan.open_block is Some ==> after.open_block
                == Some(scan.open_block->0.push(text)) && after.blocks == scan.blocks
            &&& !begin && !end && text.len() == 0 ==> after == scan
            &&& !begin && scan.open_block is None ==> after == scan
        }),
{
    reveal_strlit("-----BEGIN ");
    reveal_strlit("-----END ");
    let text = trimmed(line);
    if begins(text, "-----BEGIN "@) && begins(text, "-----END "@) {
        assert(text.take(11)[5] == 'B');
        assert(text.take(9)[5] == 'E');
        assert(text[5] == text.take(11)[5]);
        assert(text[5] == text.take(9)[5]);
    }
}

/// The lines of a file are read in their order.
pub proof fn law_lines_are_read_in_order(scan: PemScan, lines: Seq<Seq<char>>, line: Seq<char>)
    ensures
        pem_lines(scan, lines.push(line)) == pem_line(pem_lines(scan, lines), line),
        pem_lines(scan, Seq::empty()) == scan,
        pem_start().blocks.len() == 0,
        pem_start().open_block is None,
{
    assert(lines.push(line).drop_last() =~= lines);
}

/// The blocks of several files are those of each, one after the other.
pub proof fn law_files_add_their_blocks(pems: Seq<&str>, pem: &str)
    ensures
        all_blocks(pems.push(pem)) == all_blocks(pems) + pem_blocks(pem@),
        all_blocks(Seq::<&str>::empty()).len() == 0,
{
    assert(pems.push(pem).drop_last() =~= pems);
}

} // verus!
