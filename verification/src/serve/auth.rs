//! Session tokens: where a request carries one, what its claims must say, and how
//! it is kept out of the logs.

use vstd::prelude::*;
use vstd::string::*;

use crate::percent::{decoded_lossy, lemma_plain_text, percent_decode_lossy};
use crate::request::{first_text, RequestHead, text_values};
use crate::text::{
    alphanumeric, ascii_lower, byte_len, bytes_in, chars_of, concat3, cut, is_alphanumeric, join,
    joined, law_pieces_make_the_text, lemma_position, lemma_position_is, lemma_push_contains,
    lemma_split_concat, lemma_split_joined, lemma_split_pieces, same, same_ignoring_case, split, split_on, split_once, texts, trim,
    trimmed,
};

verus! {

/// The WebSocket subprotocol that the server speaks.
pub const SUBPROTOCOL: &'static str = "zs.v1";

/// The query parameter that may carry the token.
pub const TOKEN_QUERY_PARAM: &'static str = "zs_token";

/// The query parameter by which a client that cannot set headers offers the subprotocol.
pub const PROTOCOL_QUERY_PARAM: &'static str = "zs_proto";

/// Clock skew, in seconds, that is tolerated on `exp` and on `iat`.
pub const LEEWAY_SECS: u64 = 30;

/// The longest lifetime, in seconds, that a token may claim.
pub const MAX_TTL_SECS: u64 = 3600;

/// The longest token, in bytes, that is looked at.
pub const MAX_TOKEN_BYTES: usize = 4096;

/// The claims of a session token.
#[derive(Debug, Clone)]
pub struct Claims {
    /// Stable identity of an anonymous participant.
    pub pid: Option<String>,
    /// Issuer.
    pub iss: String,
    /// User id.
    pub sub: String,
    /// Workspace id.
    pub ws: String,
    /// Session id, new for every connection.
    pub sid: String,
    /// Audience.
    pub aud: String,
    /// Issued at, in unix seconds.
    pub iat: u64,
    /// Expiry, in unix seconds.
    pub exp: u64,
    /// Token id.
    pub jti: String,
}

/// Why a token was refused.
#[derive(Debug, Clone, Copy, PartialEq, Eq, Structural)]
pub enum AuthError {
    /// No token in any of the accepted places.
    Missing,
    /// The token cannot be read, lacks a claim, or is dated wrongly.
    Malformed,
    /// No key verifies the signature.
    BadSignature,
    /// The token has expired.
    Expired,
    /// The audience is another one.
    WrongAudience,
    /// The issuer is another one.
    WrongIssuer,
    /// The workspace is another one.
    WrongWorkspace,
    /// The header names another algorithm.
    WrongAlgorithm,
    /// The subprotocol was not offered.
    MissingSubprotocol,
}

impl AuthError {
    /// The HTTP status of a refusal.
    pub open spec fn status_of(self) -> u16 {
        match self {
            AuthError::WrongAudience | AuthError::WrongIssuer | AuthError::WrongWorkspace => 403,
            AuthError::MissingSubprotocol => 426,
            _ => 401,
        }
    }

    /// The name of a refusal in a response body.
    pub open spec fn code_of(self) -> Seq<char> {
        match self {
            AuthError::Missing => "missing_token"@,
            AuthError::Malformed => "malformed_token"@,
            AuthError::BadSignature => "bad_signature"@,
            AuthError::Expired => "token_expired"@,
            AuthError::WrongAudience => "wrong_audience"@,
            AuthError::WrongIssuer => "wrong_issuer"@,
            AuthError::WrongWorkspace => "wrong_workspace"@,
            AuthError::WrongAlgorithm => "unsupported_algorithm"@,
            AuthError::MissingSubprotocol => "subprotocol_not_offered"@,
        }
    }

    /// The HTTP status of a refusal.
    pub fn status(&self) -> (r: u16)
        ensures
            r == self.status_of(),
    {
        match self {
            AuthError::Missing
            | AuthError::Malformed
            | AuthError::BadSignature
            | AuthError::Expired
            | AuthError::WrongAlgorithm => 401,
            AuthError::WrongAudience | AuthError::WrongIssuer | AuthError::WrongWorkspace => 403,
            AuthError::MissingSubprotocol => 426,
        }
    }

    /// The name of a refusal in a response body.
    pub fn code(&self) -> (r: &'static str)
        ensures
            r@ == self.code_of(),
    {
        match self {
            AuthError::Missing => "missing_token",
            AuthError::Malformed => "malformed_token",
            AuthError::BadSignature => "bad_signature",
            AuthError::Expired => "token_expired",
            AuthError::WrongAudience => "wrong_audience",
            AuthError::WrongIssuer => "wrong_issuer",
            AuthError::WrongWorkspace => "wrong_workspace",
            AuthError::WrongAlgorithm => "unsupported_algorithm",
            AuthError::MissingSubprotocol => "subprotocol_not_offered",
        }
    }

    /// A sentence for the log.
    pub fn message(&self) -> (r: &'static str)
        ensures
            r@ == match *self {
                AuthError::Missing => "missing token"@,
                AuthError::Malformed => "malformed token"@,
                AuthError::BadSignature => "bad signature"@,
                AuthError::Expired => "token expired"@,
                AuthError::WrongAudience => "wrong audience"@,
                AuthError::WrongIssuer => "wrong issuer"@,
                AuthError::WrongWorkspace => "wrong workspace"@,
                AuthError::WrongAlgorithm => "unsupported algorithm"@,
                AuthError::MissingSubprotocol => "subprotocol not offered"@,
            },
    {
        match self {
            AuthError::Missing => "missing token",
            AuthError::Malformed => "malformed token",
            AuthError::BadSignature => "bad signature",
            AuthError::Expired => "token expired",
            AuthError::WrongAudience => "wrong audience",
            AuthError::WrongIssuer => "wrong issuer",
            AuthError::WrongWorkspace => "wrong workspace",
            AuthError::WrongAlgorithm => "unsupported algorithm",
            AuthError::MissingSubprotocol => "subprotocol not offered",
        }
    }
}

/// The texts, trimmed, without those that are then empty.
pub open spec fn kept_items(parts: Seq<Seq<char>>) -> Seq<Seq<char>>
    decreases parts.len(),
{
    if parts.len() == 0 {
        Seq::empty()
    } else {
        let rest = kept_items(parts.drop_last());
        let item = trimmed(parts.last());
        if item.len() == 0 {
            rest
        } else {
            rest.push(item)
        }
    }
}

/// The items of a comma-separated header value.
pub open spec fn header_items(value: Seq<char>) -> Seq<Seq<char>> {
    kept_items(split(value, ','))
}

/// The items of several header values, one value after the other.
pub open spec fn all_items(values: Seq<Seq<char>>) -> Seq<Seq<char>>
    decreases values.len(),
{
    if values.len() == 0 {
        Seq::empty()
    } else {
        all_items(values.drop_last()) + header_items(values.last())
    }
}

/// The first item that is not the subprotocol's name.
pub open spec fn first_token(items: Seq<Seq<char>>) -> Option<Seq<char>>
    decreases items.len(),
{
    if items.len() == 0 {
        None
    } else {
        match first_token(items.drop_last()) {
            Some(t) => Some(t),
            None => if items.last() == SUBPROTOCOL@ {
                None
            } else {
                Some(items.last())
            },
        }
    }
}

/// The items of a comma-separated header value.
pub fn items_of(value: &str) -> (r: Vec<String>)
    ensures
        texts(r@) == header_items(value@),
{
    let parts = split_on(value, ',');
    let mut r: Vec<String> = Vec::new();
    let mut i: usize = 0;
    while i < parts.len()
        invariant
            i <= parts@.len(),
            texts(r@) == kept_items(texts(parts@).take(i as int)),
        decreases parts@.len() - i,
    {
        let ghost before = texts(r@);
        proof {
            let all = texts(parts@);
            assert(all.take(i + 1).drop_last() =~= all.take(i as int));
            assert(all.take(i + 1).last() == parts@[i as int]@);
        }
        let item = trim(parts[i].as_str());
        if !item.as_str().is_empty() {
            r.push(item);
            proof {
                assert(texts(r@) =~= before.push(item@));
            }
        }
        i = i + 1;
    }
    proof {
        assert(texts(parts@).take(i as int) =~= texts(parts@));
    }
    r
}

/// What the items of header values say: the first token, and whether the subprotocol
/// is among them.
fn scan_items(items: &Vec<String>) -> (r: (Option<String>, bool))
    ensures
        match r.0 {
            Some(t) => first_token(texts(items@)) == Some(t@),
            None => first_token(texts(items@)) is None,
        },
        r.1 == texts(items@).contains(SUBPROTOCOL@),
{
    let mut token: Option<String> = None;
    let mut offered = false;
    let mut i: usize = 0;
    let ghost all = texts(items@);
    while i < items.len()
        invariant
            i <= items@.len(),
            all == texts(items@),
            match token {
                Some(t) => first_token(all.take(i as int)) == Some(t@),
                None => first_token(all.take(i as int)) is None,
            },
            offered == all.take(i as int).contains(SUBPROTOCOL@),
        decreases items@.len() - i,
    {
        proof {
            assert(all.take(i + 1).drop_last() =~= all.take(i as int));
            assert(all.take(i + 1) =~= all.take(i as int).push(items@[i as int]@));
            lemma_push_contains(all.take(i as int), items@[i as int]@, SUBPROTOCOL@);
        }
        if same(items[i].as_str(), SUBPROTOCOL) {
            offered = true;
        } else if token.is_none() {
            token = Some(items[i].clone());
        }
        i = i + 1;
    }
    proof {
        assert(all.take(i as int) =~= all);
    }
    (token, offered)
}

/// Reads a `Sec-WebSocket-Protocol` value that lists the subprotocol and a token, in
/// any order.
pub fn token_from_subprotocol(header: &str) -> (r: Result<String, AuthError>)
    ensures
        match r {
            Ok(t) => header_items(header@).contains(SUBPROTOCOL@) && first_token(
                header_items(header@),
            ) == Some(t@),
            Err(e) => if header_items(header@).contains(SUBPROTOCOL@) {
                e == AuthError::Missing && first_token(header_items(header@)) is None
            } else {
                e == AuthError::MissingSubprotocol
            },
        },
{
    let items = items_of(header);
    let (token, offered) = scan_items(&items);
    if !offered {
        return Err(AuthError::MissingSubprotocol);
    }
    match token {
        Some(t) => Ok(t),
        None => Err(AuthError::Missing),
    }
}

/// The key and the value of one `key=value` pair, decoded.
pub open spec fn decoded_pair(pair: Seq<char>) -> (Seq<char>, Seq<char>) {
    match cut(pair, '=') {
        Some((key, value)) => (decoded_lossy(key), decoded_lossy(value)),
        None => (decoded_lossy(pair), decoded_lossy(Seq::empty())),
    }
}

/// The decoded pairs of a query, without the empty ones.
pub open spec fn decoded_pairs(parts: Seq<Seq<char>>) -> Seq<(Seq<char>, Seq<char>)>
    decreases parts.len(),
{
    if parts.len() == 0 {
        Seq::empty()
    } else {
        let rest = decoded_pairs(parts.drop_last());
        if parts.last().len() == 0 {
            rest
        } else {
            rest.push(decoded_pair(parts.last()))
        }
    }
}

/// The decoded pairs of a query.
pub open spec fn pairs_of(query: Seq<char>) -> Seq<(Seq<char>, Seq<char>)> {
    decoded_pairs(split(query, '&'))
}

/// The views of pairs of strings.
pub open spec fn pair_texts(v: Seq<(String, String)>) -> Seq<(Seq<char>, Seq<char>)> {
    v.map_values(|p: (String, String)| (p.0@, p.1@))
}

/// The percent-decoded `key=value` pairs of a query.
pub fn query_pairs(query: &str) -> (r: Vec<(String, String)>)
    ensures
        pair_texts(r@) == pairs_of(query@),
{
    let parts = split_on(query, '&');
    let mut r: Vec<(String, String)> = Vec::new();
    let mut i: usize = 0;
    while i < parts.len()
        invariant
            i <= parts@.len(),
            pair_texts(r@) == decoded_pairs(texts(parts@).take(i as int)),
        decreases parts@.len() - i,
    {
        let ghost before = pair_texts(r@);
        proof {
            let all = texts(parts@);
            assert(all.take(i + 1).drop_last() =~= all.take(i as int));
            assert(all.take(i + 1).last() == parts@[i as int]@);
        }
        let part = parts[i].as_str();
        if !part.is_empty() {
            let pair = match split_once(part, '=') {
                Some((key, value)) => (
                    percent_decode_lossy(key.as_str()),
                    percent_decode_lossy(value.as_str()),
                ),
                None => {
                    let empty = String::new();
                    (percent_decode_lossy(part), percent_decode_lossy(empty.as_str()))
                },
            };
            r.push(pair);
            proof {
                assert(pair_texts(r@) =~= before.push((pair.0@, pair.1@)));
            }
        }
        i = i + 1;
    }
    proof {
        assert(texts(parts@).take(i as int) =~= texts(parts@));
    }
    r
}

/// The value of the first pair with this key whose value is not empty.
pub open spec fn first_value(
    pairs: Seq<(Seq<char>, Seq<char>)>,
    key: Seq<char>,
) -> Option<Seq<char>>
    decreases pairs.len(),
{
    if pairs.len() == 0 {
        None
    } else {
        match first_value(pairs.drop_last(), key) {
            Some(v) => Some(v),
            None => if pairs.last().0 == key && pairs.last().1.len() > 0 {
                Some(pairs.last().1)
            } else {
                None
            },
        }
    }
}

/// What a query says of the token and of the subprotocol.
fn scan_pairs(pairs: &Vec<(String, String)>) -> (r: (Option<String>, bool))
    ensures
        match r.0 {
            Some(t) => first_value(pair_texts(pairs@), TOKEN_QUERY_PARAM@) == Some(t@),
            None => first_value(pair_texts(pairs@), TOKEN_QUERY_PARAM@) is None,
        },
        r.1 == pair_texts(pairs@).contains((PROTOCOL_QUERY_PARAM@, SUBPROTOCOL@)),
{
    let mut token: Option<String> = None;
    let mut offered = false;
    let mut i: usize = 0;
    let ghost all = pair_texts(pairs@);
    let ghost offer = (PROTOCOL_QUERY_PARAM@, SUBPROTOCOL@);
    proof {
        reveal_strlit("zs_token");
        reveal_strlit("zs_proto");
        assert(TOKEN_QUERY_PARAM@[3] != PROTOCOL_QUERY_PARAM@[3]);
    }
    while i < pairs.len()
        invariant
            i <= pairs@.len(),
            all == pair_texts(pairs@),
            offer == (PROTOCOL_QUERY_PARAM@, SUBPROTOCOL@),
            TOKEN_QUERY_PARAM@ != PROTOCOL_QUERY_PARAM@,
            match token {
                Some(t) => first_value(all.take(i as int), TOKEN_QUERY_PARAM@) == Some(t@),
                None => first_value(all.take(i as int), TOKEN_QUERY_PARAM@) is None,
            },
            offered == all.take(i as int).contains(offer),
        decreases pairs@.len() - i,
    {
        proof {
            let pair = (pairs@[i as int].0@, pairs@[i as int].1@);
            assert(all.take(i + 1).drop_last() =~= all.take(i as int));
            assert(all.take(i + 1) =~= all.take(i as int).push(pair));
            lemma_push_contains(all.take(i as int), pair, offer);
        }
        let key = pairs[i].0.as_str();
        let value = pairs[i].1.as_str();
        if same(key, PROTOCOL_QUERY_PARAM) {
            if same(value, SUBPROTOCOL) {
                offered = true;
            }
        } else if same(key, TOKEN_QUERY_PARAM) && token.is_none() && !value.is_empty() {
            token = Some(pairs[i].1.clone());
        }
        i = i + 1;
    }
    proof {
        assert(all.take(i as int) =~= all);
    }
    (token, offered)
}

/// The token of an `Authorization` value of the scheme `Bearer`.
pub open spec fn bearer_of(value: Option<Seq<char>>) -> Option<Seq<char>> {
    match value {
        Some(v) => match cut(v, ' ') {
            Some((scheme, rest)) => if ascii_lower(scheme) == ascii_lower("bearer"@) && trimmed(
                rest,
            ).len() > 0 {
                Some(trimmed(rest))
            } else {
                None
            },
            None => None,
        },
        None => None,
    }
}

/// The token in the `Authorization` header of a request.
pub fn bearer_token(req: &RequestHead) -> (r: Option<String>)
    ensures
        match r {
            Some(t) => bearer_of(first_text(req.values("authorization"@))) == Some(t@),
            None => bearer_of(first_text(req.values("authorization"@))) is None,
        },
{
    let value = match req.first_header("authorization") {
        Some(value) => value,
        None => {
            return None;
        },
    };
    let (scheme, rest) = match split_once(value.as_str(), ' ') {
        Some(parts) => parts,
        None => {
            return None;
        },
    };
    if !same_ignoring_case(scheme.as_str(), "bearer") {
        return None;
    }
    let token = trim(rest.as_str());
    if token.as_str().is_empty() {
        None
    } else {
        Some(token)
    }
}

/// The items of every readable `Sec-WebSocket-Protocol` field.
pub open spec fn protocol_items(req: RequestHead) -> Seq<Seq<char>> {
    all_items(text_values(req.values("sec-websocket-protocol"@)))
}

/// The token that a request carries: an item of the protocol list comes first, then
/// the `Authorization` header, then the query.
pub open spec fn request_token(req: RequestHead) -> Option<Seq<char>> {
    match first_token(protocol_items(req)) {
        Some(t) => Some(t),
        None => match bearer_of(first_text(req.values("authorization"@))) {
            Some(t) => Some(t),
            None => first_value(pairs_of(req.query_text()), TOKEN_QUERY_PARAM@),
        },
    }
}

/// Whether a request offers the subprotocol, in the header or in the query.
pub open spec fn request_offers(req: RequestHead) -> bool {
    ||| protocol_items(req).contains(SUBPROTOCOL@)
    ||| pairs_of(req.query_text()).contains((PROTOCOL_QUERY_PARAM@, SUBPROTOCOL@))
}

/// The items of every readable `Sec-WebSocket-Protocol` field.
fn protocol_list(req: &RequestHead) -> (r: Vec<String>)
    ensures
        texts(r@) == protocol_items(*req),
{
    let values = req.header_texts("sec-websocket-protocol");
    let mut items: Vec<String> = Vec::new();
    let mut i: usize = 0;
    while i < values.len()
        invariant
            i <= values@.len(),
            texts(items@) == all_items(texts(values@).take(i as int)),
        decreases values@.len() - i,
    {
        proof {
            let all = texts(values@);
            assert(all.take(i + 1).drop_last() =~= all.take(i as int));
            assert(all.take(i + 1).last() == values@[i as int]@);
        }
        let ghost before = items@;
        let mut more = items_of(values[i].as_str());
        let ghost added = more@;
        items.append(&mut more);
        proof {
            assert(texts(items@) =~= texts(before) + texts(added));
        }
        i = i + 1;
    }
    proof {
        assert(texts(values@).take(i as int) =~= texts(values@));
    }
    items
}

/// The token of a request and whether the request offers the subprotocol.
pub fn extract_token(req: &RequestHead) -> (r: Result<(String, bool), AuthError>)
    ensures
        match r {
            Ok((token, offered)) => request_token(*req) == Some(token@) && offered
                == request_offers(*req),
            Err(e) => e == AuthError::Missing && request_token(*req) is None,
        },
{
    let items = protocol_list(req);
    let (item_token, item_offer) = scan_items(&items);
    let empty = String::new();
    let query = match &req.query {
        Some(query) => query.as_str(),
        None => empty.as_str(),
    };
    proof {
        assert(query@ =~= req.query_text());
    }
    let pairs = query_pairs(query);
    let (pair_token, pair_offer) = scan_pairs(&pairs);
    let offered = item_offer || pair_offer;
    if let Some(token) = item_token {
        return Ok((token, offered));
    }
    if let Some(token) = bearer_token(req) {
        return Ok((token, offered));
    }
    match pair_token {
        Some(token) => Ok((token, offered)),
        None => Err(AuthError::Missing),
    }
}

/// The text of a query pair before its first `=`.
pub open spec fn pair_key(pair: Seq<char>) -> Seq<char> {
    match cut(pair, '=') {
        Some((key, _)) => key,
        None => pair,
    }
}

/// A query pair as it may be logged.
pub open spec fn redacted_pair(pair: Seq<char>) -> Seq<char> {
    if decoded_lossy(pair_key(pair)) == TOKEN_QUERY_PARAM@ {
        "zs_token=***"@
    } else {
        pair
    }
}

/// A request target as it may be logged.
pub open spec fn redacted(target: Seq<char>) -> Seq<char> {
    match cut(target, '?') {
        Some((path, query)) => path + "?"@ + joined(
            split(query, '&').map_values(|pair: Seq<char>| redacted_pair(pair)),
            "&"@,
        ),
        None => target,
    }
}

/// A request target with the token taken out, for logging.
pub fn redact_query(path_and_query: &str) -> (r: String)
    ensures
        r@ == redacted(path_and_query@),
{
    let (path, query) = match split_once(path_and_query, '?') {
        Some(parts) => parts,
        None => {
            return path_and_query.to_owned();
        },
    };
    let parts = split_on(query.as_str(), '&');
    let mut out: Vec<String> = Vec::new();
    let mut i: usize = 0;
    while i < parts.len()
        invariant
            i <= parts@.len(),
            out@.len() == i,
            forall|j: int| 0 <= j < i ==> #[trigger] out@[j]@ == redacted_pair(parts@[j]@),
        decreases parts@.len() - i,
    {
        let pair = parts[i].as_str();
        let decoded_key = match split_once(pair, '=') {
            Some((key, _)) => percent_decode_lossy(key.as_str()),
            None => percent_decode_lossy(pair),
        };
        if same(decoded_key.as_str(), TOKEN_QUERY_PARAM) {
            out.push("zs_token=***".to_owned());
        } else {
            out.push(parts[i].clone());
        }
        i = i + 1;
    }
    proof {
        assert(texts(out@) =~= texts(parts@).map_values(|pair: Seq<char>| redacted_pair(pair)));
    }
    let list = join(&out, "&");
    concat3(path.as_str(), "?", list.as_str())
}

/// A character of base64url.
pub open spec fn base64url(c: char) -> bool {
    alphanumeric(c) || c == '-' || c == '_'
}

/// A non-empty run of base64url characters.
pub open spec fn segment_ok(s: Seq<char>) -> bool {
    s.len() > 0 && forall|i: int| 0 <= i < s.len() ==> base64url(#[trigger] s[i])
}

/// Whether a text could be a compact token: short enough, and three segments.
pub open spec fn plausible_token(token: Seq<char>) -> bool {
    let segments = split(token, '.');
    &&& byte_len(token) <= MAX_TOKEN_BYTES
    &&& segments.len() == 3
    &&& forall|i: int| 0 <= i < 3 ==> segment_ok(#[trigger] segments[i])
}

/// Whether a text is a non-empty run of base64url characters.
fn is_segment(s: &str) -> (r: bool)
    ensures
        r == segment_ok(s@),
{
    let v = chars_of(s);
    if v.len() == 0 {
        return false;
    }
    let mut i: usize = 0;
    while i < v.len()
        invariant
            i <= v@.len(),
            v@ == s@,
            forall|j: int| 0 <= j < i ==> base64url(#[trigger] v@[j]),
        decreases v@.len() - i,
    {
        let c = v[i];
        if !(is_alphanumeric(c) || c == '-' || c == '_') {
            return false;
        }
        i = i + 1;
    }
    true
}

/// Whether a text could be a compact token at all; anything else is refused before it
/// costs a verification.
pub fn token_shape_is_plausible(token: &str) -> (r: bool)
    ensures
        r == plausible_token(token@),
{
    if bytes_in(token) > MAX_TOKEN_BYTES {
        return false;
    }
    let segments = split_on(token, '.');
    if segments.len() != 3 {
        return false;
    }
    let r = is_segment(segments[0].as_str()) && is_segment(segments[1].as_str()) && is_segment(
        segments[2].as_str(),
    );
    proof {
        let all = split(token@, '.');
        assert(all[0] == segments@[0]@);
        assert(all[1] == segments@[1]@);
        assert(all[2] == segments@[2]@);
    }
    r
}

/// A token is kept out of the log: two request targets that differ only in the values
/// of pairs that count as the token parameter, in whatever spelling, are logged alike.
pub proof fn law_token_values_are_not_logged(
    path: Seq<char>,
    one: Seq<char>,
    other: Seq<char>,
    a: Seq<char>,
    b: Seq<char>,
)
    requires
        cut(a, '?') == Some((path, one)),
        cut(b, '?') == Some((path, other)),
        split(one, '&').len() == split(other, '&').len(),
        forall|i: int|
            0 <= i < split(one, '&').len() ==> {
                ||| #[trigger] split(one, '&')[i] == split(other, '&')[i]
                ||| decoded_pair(split(one, '&')[i]).0 == TOKEN_QUERY_PARAM@ && decoded_pair(
                    split(other, '&')[i],
                ).0 == TOKEN_QUERY_PARAM@
            },
    ensures
        redacted(a) == redacted(b),
{
    let f = |pair: Seq<char>| redacted_pair(pair);
    assert(split(one, '&').map_values(f) =~= split(other, '&').map_values(f));
}

/// The query parameter that a token is read from is the one that is redacted: a pair
/// whose decoded key is the token parameter never reaches the log with its value.
pub proof fn law_accepted_key_is_redacted(pair: Seq<char>)
    requires
        decoded_pair(pair).0 == TOKEN_QUERY_PARAM@,
    ensures
        redacted_pair(pair) == "zs_token=***"@,
{
}

/// The mark that stands for a token is redacted to itself.
proof fn lemma_mark_stays()
    ensures
        redacted_pair("zs_token=***"@) == "zs_token=***"@,
        !"zs_token=***"@.contains('&'),
{
    reveal_strlit("zs_token=***");
    reveal_strlit("zs_token");
    let mark = "zs_token=***"@;
    let key = "zs_token"@;
    lemma_position_is(mark, '=', 8);
    assert(pair_key(mark) =~= key);
    lemma_plain_text(key);
}

/// What is logged of a target can be redacted again, and stays as it is.
pub proof fn law_redaction_is_idempotent(target: Seq<char>)
    ensures
        redacted(redacted(target)) == redacted(target),
{
    if let Some((path, query)) = cut(target, '?') {
        let f = |pair: Seq<char>| redacted_pair(pair);
        let parts = split(query, '&').map_values(f);
        let list = joined(parts, "&"@);
        let red = redacted(target);
        reveal_strlit("?");
        reveal_strlit("&");
        lemma_position(target, '?');
        assert forall|i: int| 0 <= i < path.len() implies red[i] != '?' by {
            assert(target[i] == path[i]);
        }
        assert(red[path.len() as int] == '?');
        lemma_position_is(red, '?', path.len() as int);
        assert(red.take(path.len() as int) =~= path);
        assert(red.skip(path.len() as int + 1) =~= list);
        lemma_split_pieces(query, '&');
        lemma_mark_stays();
        assert forall|i: int| 0 <= i < parts.len() implies !(#[trigger] parts[i]).contains('&') by {
            assert(!split(query, '&')[i].contains('&'));
        }
        assert("&"@ =~= seq!['&']);
        lemma_split_joined(parts, "&"@, '&');
        assert(parts.map_values(f) =~= parts) by {
            assert forall|i: int| 0 <= i < parts.len() implies f(parts[i]) == parts[i] by {
                assert(parts[i] == redacted_pair(split(query, '&')[i]));
            }
        }
    }
}

/// The items of a header value are kept in their order, without the space around them; an
/// empty one is no item.
pub proof fn law_items_are_kept(a: Seq<Seq<char>>, part: Seq<char>)
    ensures
        trimmed(part).len() > 0 ==> kept_items(a.push(part)) == kept_items(a).push(trimmed(part)),
        trimmed(part).len() == 0 ==> kept_items(a.push(part)) == kept_items(a),
        kept_items(Seq::<Seq<char>>::empty()).len() == 0,
{
    assert(a.push(part).drop_last() =~= a);
}

/// The items of several values are those of each, one after the other.
pub proof fn law_values_add_their_items(values: Seq<Seq<char>>, value: Seq<char>)
    ensures
        all_items(values.push(value)) == all_items(values) + header_items(value),
        all_items(Seq::<Seq<char>>::empty()).len() == 0,
{
    assert(values.push(value).drop_last() =~= values);
}

/// The token among the items is the first that does not name the protocol.
pub proof fn law_the_first_other_item_is_the_token(items: Seq<Seq<char>>, k: int)
    requires
        0 <= k <= items.len(),
        forall|i: int| 0 <= i < k ==> #[trigger] items[i] == "zs.v1"@,
        k < items.len() ==> items[k] != "zs.v1"@,
    ensures
        k < items.len() ==> first_token(items) == Some(items[k]),
        k == items.len() ==> first_token(items) is None,
    decreases items.len(),
{
    if items.len() > 0 {
        let front = items.drop_last();
        if k < items.len() {
            if k < front.len() {
                law_the_first_other_item_is_the_token(front, k);
            } else {
                law_the_first_other_item_is_the_token(front, front.len() as int);
            }
        } else {
            law_the_first_other_item_is_the_token(front, front.len() as int);
            assert(items[items.len() - 1] == "zs.v1"@);
        }
    }
}

/// A token is looked for in the protocols, then in the authorization, then in the query, and
/// the first that is found counts; a request offers the protocol in its header or its query.
pub proof fn law_tokens_are_looked_for_in_order(req: RequestHead)
    ensures
        ({
            let items = all_items(text_values(req.values("sec-websocket-protocol"@)));
            let bearer = bearer_of(first_text(req.values("authorization"@)));
            let asked = first_value(pairs_of(req.query_text()), "zs_token"@);
            &&& first_token(items) is Some ==> request_token(req) == first_token(items)
            &&& first_token(items) is None && bearer is Some ==> request_token(req) == bearer
            &&& first_token(items) is None && bearer is None ==> request_token(req) == asked
            &&& request_offers(req) <==> items.contains("zs.v1"@) || pairs_of(
                req.query_text(),
            ).contains(("zs_proto"@, "zs.v1"@))
        }),
{
}

/// The token of an authorization is what is behind the scheme `Bearer`, in any case, without
/// the space around it; another scheme has none, and neither has a scheme alone.
pub proof fn law_bearer_tokens(scheme: Seq<char>, token: Seq<char>)
    requires
        !scheme.contains(' '),
    ensures
        ascii_lower(scheme) == ascii_lower("bearer"@) && trimmed(token).len() > 0 ==> bearer_of(
            Some(scheme.push(' ') + token),
        ) == Some(trimmed(token)),
        ascii_lower(scheme) != ascii_lower("bearer"@) || trimmed(token).len() == 0 ==> bearer_of(
            Some(scheme.push(' ') + token),
        ) is None,
        bearer_of(Some(scheme)) is None,
        bearer_of(None) is None,
{
    let value = scheme.push(' ') + token;
    assert(value[scheme.len() as int] == ' ');
    assert forall|i: int| 0 <= i < scheme.len() implies value[i] != ' ' by {
        assert(scheme.contains(scheme[i]));
    }
    lemma_position_is(value, ' ', scheme.len() as int);
    assert(value.take(scheme.len() as int) =~= scheme);
    assert(value.skip(scheme.len() as int + 1) =~= token);
    lemma_position(scheme, ' ');
}

/// A pair of a query is a key and a value, cut at the first equals sign; without one the value
/// is empty.
pub proof fn law_pairs_are_cut_at_the_first_sign(key: Seq<char>, value: Seq<char>)
    requires
        vstd::utf8::is_ascii_chars(key),
        vstd::utf8::is_ascii_chars(value),
        !key.contains('='),
        !key.contains('%'),
        !value.contains('%'),
    ensures
        decoded_pair(key.push('=') + value) == (key, value),
        decoded_pair(key) == (key, Seq::<char>::empty()),
{
    let pair = key.push('=') + value;
    assert(pair[key.len() as int] == '=');
    assert forall|i: int| 0 <= i < key.len() implies pair[i] != '=' by {
        assert(key.contains(key[i]));
    }
    lemma_position_is(pair, '=', key.len() as int);
    assert(pair.take(key.len() as int) =~= key);
    assert(pair.skip(key.len() as int + 1) =~= value);
    lemma_position(key, '=');
    lemma_plain_text(key);
    lemma_plain_text(value);
    lemma_plain_text(Seq::empty());
}

/// The pairs of a query are kept in their order; between two ampersands with nothing between
/// them there is none.
pub proof fn law_pairs_are_kept(parts: Seq<Seq<char>>, part: Seq<char>)
    ensures
        part.len() > 0 ==> decoded_pairs(parts.push(part)) == decoded_pairs(parts).push(
            decoded_pair(part),
        ),
        part.len() == 0 ==> decoded_pairs(parts.push(part)) == decoded_pairs(parts),
        decoded_pairs(Seq::<Seq<char>>::empty()).len() == 0,
{
    assert(parts.push(part).drop_last() =~= parts);
}

/// The first value of a key that is not empty counts.
pub proof fn law_the_first_value_counts(
    pairs: Seq<(Seq<char>, Seq<char>)>,
    key: Seq<char>,
    k: int,
)
    requires
        0 <= k <= pairs.len(),
        forall|i: int|
            0 <= i < k ==> (#[trigger] pairs[i]).0 != key || pairs[i].1.len() == 0,
        k < pairs.len() ==> pairs[k].0 == key && pairs[k].1.len() > 0,
    ensures
        k < pairs.len() ==> first_value(pairs, key) == Some(pairs[k].1),
        k == pairs.len() ==> first_value(pairs, key) is None,
    decreases pairs.len(),
{
    if pairs.len() > 0 {
        let front = pairs.drop_last();
        if k < front.len() {
            law_the_first_value_counts(front, key, k);
        } else {
            law_the_first_value_counts(front, key, front.len() as int);
            if k == pairs.len() {
                assert(pairs[pairs.len() - 1].0 != key || pairs[pairs.len() - 1].1.len() == 0);
            }
        }
    }
}

/// Nothing but tokens is kept out of the log: a target without one is logged as it is, and of
/// any other the path and every other pair are.
pub proof fn law_only_tokens_are_redacted(path: Seq<char>, query: Seq<char>)
    requires
        !path.contains('?'),
    ensures
        redacted(path) == path,
        (forall|i: int|
            0 <= i < split(query, '&').len() ==> decoded_pair(
                #[trigger] split(query, '&')[i],
            ).0 != "zs_token"@) ==> redacted(path.push('?') + query) == path.push('?') + query,
        redacted(path.push('?') + query).take(path.len() as int) == path,
{
    let target = path.push('?') + query;
    reveal_strlit("?");
    reveal_strlit("&");
    assert(target[path.len() as int] == '?');
    assert forall|i: int| 0 <= i < path.len() implies target[i] != '?' by {
        assert(path.contains(path[i]));
    }
    lemma_position(path, '?');
    lemma_position_is(target, '?', path.len() as int);
    assert(target.take(path.len() as int) =~= path);
    assert(target.skip(path.len() as int + 1) =~= query);
    let f = |pair: Seq<char>| redacted_pair(pair);
    let parts = split(query, '&');
    assert("&"@ =~= seq!['&']);
    if forall|i: int|
        0 <= i < parts.len() ==> decoded_pair(#[trigger] parts[i]).0 != "zs_token"@ {
        assert forall|i: int| 0 <= i < parts.len() implies f(parts[i]) == parts[i] by {
            assert(decoded_pair(parts[i]).0 != "zs_token"@);
        }
        assert(parts.map_values(f) =~= parts);
        law_pieces_make_the_text(query, '&');
        assert(path + "?"@ + query =~= target);
    }
    assert(redacted(target).take(path.len() as int) =~= path);
}

/// A text could be a token where it has three parts of letters, digits, hyphens and
/// underscores with dots between them, and at most 4096 bytes; every such text is.
pub proof fn law_token_shapes(a: Seq<char>, b: Seq<char>, c: Seq<char>)
    requires
        segment_ok(a),
        segment_ok(b),
        segment_ok(c),
    ensures
        ({
            let token = a.push('.') + (b.push('.') + c);
            plausible_token(token) <==> byte_len(token) <= 4096
        }),
        !plausible_token(a),
        !plausible_token(a.push('.') + b),
{
    lemma_no_dot(a);
    lemma_no_dot(b);
    lemma_no_dot(c);
    lemma_split_concat(b, c, '.');
    lemma_split_concat(a, b.push('.') + c, '.');
    lemma_split_concat(a, b, '.');
    let all = split(a.push('.') + (b.push('.') + c), '.');
    assert(all =~= seq![a, b, c]);
}

proof fn lemma_no_dot(s: Seq<char>)
    requires
        segment_ok(s),
    ensures
        split(s, '.') == seq![s],
{
    assert forall|i: int| 0 <= i < s.len() implies s[i] != '.' by {
        assert(base64url(s[i]));
    }
    lemma_position(s, '.');
}

/// A token that is for someone else is forbidden, a request that does not offer the protocol
/// has to, and any other token is not accepted.
pub proof fn law_refusals_have_their_status(e: AuthError)
    ensures
        e == AuthError::WrongAudience || e == AuthError::WrongIssuer || e
            == AuthError::WrongWorkspace <==> e.status_of() == 403,
        e == AuthError::MissingSubprotocol <==> e.status_of() == 426,
        e.status_of() == 401 || e.status_of() == 403 || e.status_of() == 426,
{
}

proof fn lemma_kept_concat(a: Seq<Seq<char>>, b: Seq<Seq<char>>)
    ensures
        kept_items(a + b) == kept_items(a) + kept_items(b),
    decreases b.len(),
{
    if b.len() == 0 {
        assert(a + b =~= a);
        assert(kept_items(a) + kept_items(b) =~= kept_items(a));
    } else {
        lemma_kept_concat(a, b.drop_last());
        assert((a + b).drop_last() =~= a + b.drop_last());
        assert(kept_items(a + b) =~= kept_items(a) + kept_items(b));
    }
}

/// A comma separates the items of a header value; a value without one is one item, without
/// the space around it, or none where it is blank.
pub proof fn law_commas_separate_items(a: Seq<char>, b: Seq<char>)
    ensures
        header_items(a.push(',') + b) == header_items(a) + header_items(b),
        !a.contains(',') && trimmed(a).len() > 0 ==> header_items(a) == seq![trimmed(a)],
        !a.contains(',') && trimmed(a).len() == 0 ==> header_items(a).len() == 0,
{
    lemma_split_concat(a, b, ',');
    lemma_kept_concat(split(a, ','), split(b, ','));
    if !a.contains(',') {
        lemma_position(a, ',');
        assert(split(a, ',') =~= seq![a]);
        law_items_are_kept(Seq::empty(), a);
        assert(Seq::<Seq<char>>::empty().push(a) =~= seq![a]);
        assert(kept_items(seq![a]) =~= kept_items(Seq::empty()) + if trimmed(a).len() > 0 {
            seq![trimmed(a)]
        } else {
            Seq::empty()
        });
    }
}

/// A text of three parts with dots between them could be a token exactly where every part has
/// something in it, and nothing but letters, digits, hyphens and underscores; a text with a
/// part more is none.
pub proof fn law_other_texts_are_no_tokens(
    a: Seq<char>,
    b: Seq<char>,
    c: Seq<char>,
    d: Seq<char>,
    x: char,
)
    requires
        !a.contains('.'),
        !b.contains('.'),
        !c.contains('.'),
        !d.contains('.'),
    ensures
        ({
            let token = a.push('.') + (b.push('.') + c);
            plausible_token(token) <==> segment_ok(a) && segment_ok(b) && segment_ok(c)
                && byte_len(token) <= 4096
        }),
        !plausible_token(a.push('.') + (b.push('.') + (c.push('.') + d))),
        segment_ok(a) && a.contains(x) ==> 'a' <= x <= 'z' || 'A' <= x <= 'Z' || '0' <= x <= '9'
            || x == '-' || x == '_',
        !segment_ok(Seq::empty()),
{
    lemma_split_concat(b, c, '.');
    lemma_split_concat(a, b.push('.') + c, '.');
    lemma_split_concat(c, d, '.');
    lemma_split_concat(b, c.push('.') + d, '.');
    lemma_split_concat(a, b.push('.') + (c.push('.') + d), '.');
    lemma_position(a, '.');
    lemma_position(b, '.');
    lemma_position(c, '.');
    lemma_position(d, '.');
    assert(split(a, '.') =~= seq![a]);
    assert(split(b, '.') =~= seq![b]);
    assert(split(c, '.') =~= seq![c]);
    assert(split(d, '.') =~= seq![d]);
    let all = split(a.push('.') + (b.push('.') + c), '.');
    assert(all =~= seq![a, b, c]);
    assert(all[0] == a && all[1] == b && all[2] == c);
    assert(split(a.push('.') + (b.push('.') + (c.push('.') + d)), '.').len() == 4);
    if segment_ok(a) && a.contains(x) {
        let i = choose|i: int| 0 <= i < a.len() && a[i] == x;
        assert(base64url(a[i]));
    }
}

} // verus!
