//! Routing: which request goes where, who may ask from elsewhere, and what is answered.

use vstd::prelude::*;
use vstd::string::*;

use crate::percent::{decoded_strict, lemma_plain_strict, percent_decode_strict};
use crate::request::{first_text, RequestHead, text_values};
use crate::serve::auth::{
    AuthError, bearer_of, bearer_token, extract_token, request_offers, request_token, SUBPROTOCOL,
};
use crate::serve::state::{Peer, ServeState};
use crate::text::{
    ascii_lower, begins, concat3, cut_text, law_cut_at_the_first_text, lemma_position,
    lemma_split_concat, same, same_ignoring_case, split, split_on, split_once_text, starts_with,
    strip_prefix, texts, trim, trimmed,
};

verus! {

/// How long reading the head of a request may take, in milliseconds.
pub const HEADER_READ_TIMEOUT_MS: u64 = 10_000;

/// The largest head of a request, in bytes.
pub const MAX_HEADER_BUF: usize = 65_536;

/// The largest body of a control request, in bytes.
pub const MAX_CONTROL_BODY_BYTES: usize = 1_048_576;

/// The largest archive of an extension, in bytes.
pub const MAX_EXTENSION_ARCHIVE_BYTES: usize = 67_108_864;

/// Where lifecycle notices are posted.
pub const CONTROL_LIFECYCLE_PATH: &'static str = "/control/lifecycle";

/// Where port updates are posted.
pub const CONTROL_PORTS_PATH: &'static str = "/control/ports";

/// Where requests to install an extension are posted.
pub const CONTROL_EXTENSIONS_PATH: &'static str = "/control/extensions";

/// What the origin of a request means.
#[derive(Debug)]
pub enum CorsDecision {
    /// No origins are configured: nothing is checked.
    Disabled,
    /// The request names no origin.
    NoOrigin,
    /// The origin may ask; it is repeated in the answer.
    Allowed(String),
    /// The origin may not ask.
    Denied,
}

/// What the origin of a request means, on the level of specifications.
pub enum CorsView {
    Disabled,
    NoOrigin,
    Allowed(Seq<char>),
    Denied,
}

impl CorsDecision {
    pub open spec fn view(self) -> CorsView {
        match self {
            CorsDecision::Disabled => CorsView::Disabled,
            CorsDecision::NoOrigin => CorsView::NoOrigin,
            CorsDecision::Allowed(o) => CorsView::Allowed(o@),
            CorsDecision::Denied => CorsView::Denied,
        }
    }
}

/// What an origin means, given the allowed ones.
pub open spec fn cors_of(allowed: Seq<Seq<char>>, origin: Option<Seq<char>>) -> CorsView {
    if allowed.len() == 0 {
        CorsView::Disabled
    } else {
        match origin {
            None => CorsView::NoOrigin,
            Some(o) => if allowed.contains(o) {
                CorsView::Allowed(o)
            } else {
                CorsView::Denied
            },
        }
    }
}

/// The text of an optional string.
pub open spec fn opt_str(s: Option<&str>) -> Option<Seq<char>> {
    match s {
        Some(s) => Some(s@),
        None => None,
    }
}

impl<L> ServeState<L> {
    /// What the origin of a request means.
    pub fn cors_decision(&self, origin: Option<&str>) -> (r: CorsDecision)
        ensures
            r.view() == cors_of(texts(self.allowed_origins@), opt_str(origin)),
    {
        if self.allowed_origins.len() == 0 {
            return CorsDecision::Disabled;
        }
        let name = match origin {
            Some(name) => name,
            None => {
                return CorsDecision::NoOrigin;
            },
        };
        let ghost all = texts(self.allowed_origins@);
        let mut i: usize = 0;
        while i < self.allowed_origins.len()
            invariant
                i <= self.allowed_origins@.len(),
                all == texts(self.allowed_origins@),
                forall|j: int| 0 <= j < i ==> #[trigger] all[j] != name@,
                opt_str(origin) == Some(name@),
            decreases self.allowed_origins@.len() - i,
        {
            if same(self.allowed_origins[i].as_str(), name) {
                proof {
                    assert(all[i as int] == name@);
                }
                return CorsDecision::Allowed(name.to_owned());
            }
            i = i + 1;
        }
        CorsDecision::Denied
    }
}

/// A header of a response, by name and value.
#[derive(Debug)]
pub struct HeaderLine {
    pub name: &'static str,
    pub value: String,
}

/// Headers, on the level of specifications.
pub open spec fn header_lines(v: Seq<HeaderLine>) -> Seq<(Seq<char>, Seq<char>)> {
    v.map_values(|h: HeaderLine| (h.name@, h.value@))
}

fn push_header(v: &mut Vec<HeaderLine>, name: &'static str, value: &str)
    ensures
        header_lines(final(v)@) == header_lines(old(v)@).push((name@, value@)),
{
    v.push(HeaderLine { name, value: value.to_owned() });
    proof {
        assert(header_lines(v@) =~= header_lines(old(v)@).push((name@, value@)));
    }
}

/// The headers that let an origin read an answer.
pub open spec fn cors_lines(origin: Seq<char>) -> Seq<(Seq<char>, Seq<char>)> {
    seq![
        ("access-control-allow-origin"@, origin),
        ("vary"@, "Origin"@),
        ("access-control-expose-headers"@, "content-disposition, content-length"@),
        ("cross-origin-resource-policy"@, "cross-origin"@),
    ]
}

/// Adds the headers that let an origin read an answer.
pub fn apply_cors_headers(headers: &mut Vec<HeaderLine>, origin: &str)
    ensures
        header_lines(final(headers)@) == header_lines(old(headers)@) + cors_lines(origin@),
{
    push_header(headers, "access-control-allow-origin", origin);
    push_header(headers, "vary", "Origin");
    push_header(headers, "access-control-expose-headers", "content-disposition, content-length");
    push_header(headers, "cross-origin-resource-policy", "cross-origin");
    proof {
        assert(header_lines(headers@) =~= header_lines(old(headers)@) + cors_lines(origin@));
    }
}

/// The headers of the answer to a preflight request.
pub open spec fn preflight_lines(cors: CorsView) -> Seq<(Seq<char>, Seq<char>)> {
    match cors {
        CorsView::Allowed(origin) => cors_lines(origin) + seq![
            ("access-control-allow-methods"@, "GET, POST"@),
            ("access-control-allow-headers"@, "authorization, content-type"@),
            ("access-control-max-age"@, "600"@),
        ],
        _ => Seq::empty(),
    }
}

/// The headers of the answer to a preflight request.
pub fn preflight_headers(cors: &CorsDecision) -> (r: Vec<HeaderLine>)
    ensures
        header_lines(r@) == preflight_lines(cors.view()),
{
    let mut headers: Vec<HeaderLine> = Vec::new();
    proof {
        assert(header_lines(headers@) =~= Seq::<(Seq<char>, Seq<char>)>::empty());
    }
    if let CorsDecision::Allowed(origin) = cors {
        apply_cors_headers(&mut headers, origin.as_str());
        push_header(&mut headers, "access-control-allow-methods", "GET, POST");
        push_header(&mut headers, "access-control-allow-headers", "authorization, content-type");
        push_header(&mut headers, "access-control-max-age", "600");
        proof {
            assert(header_lines(headers@) =~= preflight_lines(cors.view()));
        }
    }
    headers
}

/// A path whose answers other origins may read.
pub open spec fn cors_path(path: Seq<char>) -> bool {
    path == "/files"@ || begins(path, "/extensions/"@) || path == "/health"@
}

/// Whether other origins may read the answers of a path.
pub fn is_cors_route(path: &str) -> (r: bool)
    ensures
        r == cors_path(path@),
{
    same(path, "/files") || starts_with(path, "/extensions/") || same(path, "/health")
}

/// A path that an origin must be allowed for.
pub open spec fn origin_checked_path(path: Seq<char>) -> bool {
    path == "/files"@ || begins(path, "/extensions/"@) || path == "/rpc"@
}

/// Whether an origin must be allowed for a path.
pub fn is_origin_checked_route(path: &str) -> (r: bool)
    ensures
        r == origin_checked_path(path@),
{
    same(path, "/files") || starts_with(path, "/extensions/") || same(path, "/rpc")
}

/// The headers that every answer gets: it is never stored, and an allowed origin may read
/// it where the path lets others.
pub open spec fn common_lines(path: Seq<char>, cors: CorsView) -> Seq<(Seq<char>, Seq<char>)> {
    let stored = seq![("cache-control"@, "no-store"@)];
    match cors {
        CorsView::Allowed(origin) => if cors_path(path) {
            stored + cors_lines(origin)
        } else {
            stored
        },
        _ => stored,
    }
}

/// The headers that every answer gets.
pub fn common_headers(path: &str, cors: &CorsDecision) -> (r: Vec<HeaderLine>)
    ensures
        header_lines(r@) == common_lines(path@, cors.view()),
{
    let mut headers: Vec<HeaderLine> = Vec::new();
    proof {
        assert(header_lines(headers@) =~= Seq::<(Seq<char>, Seq<char>)>::empty());
    }
    push_header(&mut headers, "cache-control", "no-store");
    proof {
        assert(header_lines(headers@) =~= seq![("cache-control"@, "no-store"@)]);
    }
    if is_cors_route(path) {
        if let CorsDecision::Allowed(origin) = cors {
            apply_cors_headers(&mut headers, origin.as_str());
        }
    }
    headers
}

/// A refusal: a status, and a name for the body.
#[derive(Debug, Clone, Copy)]
pub struct Refusal {
    pub status: u16,
    pub code: &'static str,
}

impl Refusal {
    pub open spec fn view(self) -> (u16, Seq<char>) {
        (self.status, self.code@)
    }

    /// The refusal of a token.
    pub fn of_auth(error: &AuthError) -> (r: Refusal)
        ensures
            r.view() == (error.status_of(), error.code_of()),
    {
        Refusal { status: error.status(), code: error.code() }
    }

    /// The body of a refusal.
    pub fn body(&self) -> (r: String)
        ensures
            r@ == error_text(self.code@),
    {
        error_body(self.code)
    }
}

/// The body that names a refusal.
pub open spec fn error_text(code: Seq<char>) -> Seq<char> {
    "{\"error\":\""@ + code + "\"}"@
}

/// The body that names a refusal.
pub fn error_body(code: &str) -> (r: String)
    ensures
        r@ == error_text(code@),
{
    concat3("{\"error\":\"", code, "\"}")
}

/// What a request is answered by, once its token was verified.
#[derive(Debug)]
pub enum Guarded {
    Upload,
    Download,
    InstallDevExtension,
    /// An asset of an extension, where the path names one.
    Asset(Option<(String, String)>),
}

/// What a request is answered by.
#[derive(Debug)]
pub enum Route {
    Refuse(Refusal),
    /// No content, with the headers of a preflight.
    Preflight,
    Health,
    Rpc,
    /// Verify the token first.
    Guarded(Guarded),
}

/// What a request is answered by, on the level of specifications.
pub enum RouteView {
    Refuse(u16, Seq<char>),
    Preflight,
    Health,
    Rpc,
    Upload,
    Download,
    InstallDevExtension,
    Asset(Option<(Seq<char>, Seq<char>)>),
}

impl Route {
    pub open spec fn view(self) -> RouteView {
        match self {
            Route::Refuse(r) => RouteView::Refuse(r.status, r.code@),
            Route::Preflight => RouteView::Preflight,
            Route::Health => RouteView::Health,
            Route::Rpc => RouteView::Rpc,
            Route::Guarded(Guarded::Upload) => RouteView::Upload,
            Route::Guarded(Guarded::Download) => RouteView::Download,
            Route::Guarded(Guarded::InstallDevExtension) => RouteView::InstallDevExtension,
            Route::Guarded(Guarded::Asset(None)) => RouteView::Asset(None),
            Route::Guarded(Guarded::Asset(Some((id, rel)))) => RouteView::Asset(
                Some((id@, rel@)),
            ),
        }
    }
}

/// The refusal of a method.
pub open spec fn wrong_method() -> RouteView {
    RouteView::Refuse(405, "method_not_allowed"@)
}

/// The refusal of an origin.
pub open spec fn wrong_origin() -> RouteView {
    RouteView::Refuse(403, "origin_not_allowed"@)
}

/// The id of an extension and the path of its asset in the path of a request.
pub open spec fn asset_of(path: Seq<char>) -> Option<(Seq<char>, Seq<char>)> {
    if !begins(path, "/extensions/"@) {
        None
    } else {
        match cut_text(path.skip("/extensions/"@.len() as int), "/assets/"@) {
            None => None,
            Some((id, rel)) => match (decoded_strict(id), decoded_strict(rel)) {
                (Some(i), Some(r)) => if id.len() == 0 {
                    None
                } else {
                    Some(
                        (
                            i,
                            if r.len() == 0 {
                                "."@
                            } else {
                                r
                            },
                        ),
                    )
                },
                _ => None,
            },
        }
    }
}

/// The id of an extension and the path of its asset in the path of a request, decoded; an
/// empty path stands for the directory itself.
pub fn parse_extension_asset_path(path: &str) -> (r: Option<(String, String)>)
    ensures
        match r {
            Some((id, rel)) => asset_of(path@) == Some((id@, rel@)),
            None => asset_of(path@) is None,
        },
{
    let rest = match strip_prefix(path, "/extensions/") {
        Some(rest) => rest,
        None => {
            return None;
        },
    };
    proof {
        reveal_strlit("/assets/");
    }
    let (id, rel) = match split_once_text(rest.as_str(), "/assets/") {
        Some(parts) => parts,
        None => {
            return None;
        },
    };
    if id.as_str().is_empty() {
        return None;
    }
    let id = match percent_decode_strict(id.as_str()) {
        Some(id) => id,
        None => {
            return None;
        },
    };
    let rel = match percent_decode_strict(rel.as_str()) {
        Some(rel) => rel,
        None => {
            return None;
        },
    };
    if rel.as_str().is_empty() {
        Some((id, ".".to_owned()))
    } else {
        Some((id, rel))
    }
}

/// What a request is answered by. An origin that is not allowed is refused before anything
/// else is looked at, except on paths where it makes no difference.
pub open spec fn route_of(method: Seq<char>, path: Seq<char>, cors: CorsView) -> RouteView {
    if method == "OPTIONS"@ {
        if !cors_path(path) {
            wrong_method()
        } else if cors is Denied {
            wrong_origin()
        } else {
            RouteView::Preflight
        }
    } else if cors is Denied && origin_checked_path(path) {
        wrong_origin()
    } else if path == "/health"@ {
        if method == "GET"@ {
            RouteView::Health
        } else {
            wrong_method()
        }
    } else if path == "/rpc"@ {
        if method == "GET"@ {
            RouteView::Rpc
        } else {
            wrong_method()
        }
    } else if path == "/files"@ {
        if method == "POST"@ {
            RouteView::Upload
        } else if method == "GET"@ {
            RouteView::Download
        } else {
            wrong_method()
        }
    } else if path == "/extensions/dev"@ && method == "POST"@ {
        RouteView::InstallDevExtension
    } else if begins(path, "/extensions/"@) {
        if method == "GET"@ {
            RouteView::Asset(asset_of(path))
        } else {
            wrong_method()
        }
    } else {
        RouteView::Refuse(404, "not_found"@)
    }
}

/// What a request is answered by.
pub fn route(method: &str, path: &str, cors: &CorsDecision) -> (r: Route)
    ensures
        r.view() == route_of(method@, path@, cors.view()),
{
    proof {
        reveal_strlit("GET");
        reveal_strlit("POST");
    }
    let wrong_method = Refusal { status: 405, code: "method_not_allowed" };
    let wrong_origin = Refusal { status: 403, code: "origin_not_allowed" };
    let denied = match cors {
        CorsDecision::Denied => true,
        _ => false,
    };
    if same(method, "OPTIONS") {
        return if !is_cors_route(path) {
            Route::Refuse(wrong_method)
        } else if denied {
            Route::Refuse(wrong_origin)
        } else {
            Route::Preflight
        };
    }
    if denied && is_origin_checked_route(path) {
        return Route::Refuse(wrong_origin);
    }
    let get = same(method, "GET");
    let post = same(method, "POST");
    if same(path, "/health") {
        return if get {
            Route::Health
        } else {
            Route::Refuse(wrong_method)
        };
    }
    if same(path, "/rpc") {
        return if get {
            Route::Rpc
        } else {
            Route::Refuse(wrong_method)
        };
    }
    if same(path, "/files") {
        return if post {
            Route::Guarded(Guarded::Upload)
        } else if get {
            Route::Guarded(Guarded::Download)
        } else {
            Route::Refuse(wrong_method)
        };
    }
    if post && same(path, "/extensions/dev") {
        return Route::Guarded(Guarded::InstallDevExtension);
    }
    if starts_with(path, "/extensions/") {
        return if get {
            Route::Guarded(Guarded::Asset(parse_extension_asset_path(path)))
        } else {
            Route::Refuse(wrong_method)
        };
    }
    Route::Refuse(Refusal { status: 404, code: "not_found" })
}

/// The token that a guarded request is verified with, or the refusal where there is none.
pub fn authenticate_request(req: &RequestHead) -> (r: Result<String, Refusal>)
    ensures
        match r {
            Ok(token) => request_token(*req) == Some(token@),
            Err(refusal) => request_token(*req) is None && refusal.view() == (
                AuthError::Missing.status_of(),
                AuthError::Missing.code_of(),
            ),
        },
{
    match extract_token(req) {
        Ok((token, _)) => Ok(token),
        Err(error) => Err(Refusal::of_auth(&error)),
    }
}

/// How much of the health report a request may see.
#[derive(Debug)]
pub enum HealthAccess {
    Full,
    /// All of it if this token is good.
    IfGood(String),
    Minimal,
}

/// How much of the health report a request may see: the machine itself sees all of it,
/// others need a token in the `Authorization` header.
pub fn health_route(peer: &Peer, req: &RequestHead) -> (r: HealthAccess)
    ensures
        match r {
            HealthAccess::Full => peer.loopback(),
            HealthAccess::IfGood(token) => !peer.loopback() && bearer_of(
                first_text(req.values("authorization"@)),
            ) == Some(token@),
            HealthAccess::Minimal => !peer.loopback() && bearer_of(
                first_text(req.values("authorization"@)),
            ) is None,
        },
{
    if peer.is_loopback() {
        return HealthAccess::Full;
    }
    match bearer_token(req) {
        Some(token) => HealthAccess::IfGood(token),
        None => HealthAccess::Minimal,
    }
}

/// Some item of a comma-separated value is this word, in any case.
pub open spec fn lists_word(value: Seq<char>, word: Seq<char>) -> bool {
    exists|i: int|
        0 <= i < split(value, ',').len() && ascii_lower(trimmed(#[trigger] split(value, ',')[i]))
            == ascii_lower(word)
}

/// Whether an item of a comma-separated value is a word, in any case.
fn has_word(value: &str, word: &str) -> (r: bool)
    ensures
        r == lists_word(value@, word@),
{
    let parts = split_on(value, ',');
    let ghost all = texts(parts@);
    let mut i: usize = 0;
    while i < parts.len()
        invariant
            i <= parts@.len(),
            all == texts(parts@),
            all == split(value@, ','),
            forall|j: int|
                0 <= j < i ==> ascii_lower(trimmed(#[trigger] all[j])) != ascii_lower(word@),
        decreases parts@.len() - i,
    {
        let item = trim(parts[i].as_str());
        if same_ignoring_case(item.as_str(), word) {
            proof {
                assert(ascii_lower(trimmed(all[i as int])) == ascii_lower(word@));
            }
            return true;
        }
        i = i + 1;
    }
    false
}

/// A request to switch to a WebSocket.
pub open spec fn websocket_upgrade(req: RequestHead) -> bool {
    let upgrade = first_text(req.values("upgrade"@));
    let connection = first_text(req.values("connection"@));
    &&& upgrade is Some && ascii_lower(upgrade->0) == ascii_lower("websocket"@)
    &&& connection is Some && lists_word(connection->0, "upgrade"@)
}

/// Whether a request asks to switch to a WebSocket.
pub fn is_websocket_upgrade(req: &RequestHead) -> (r: bool)
    ensures
        r == websocket_upgrade(*req),
{
    let upgrade = match req.first_header("upgrade") {
        Some(value) => same_ignoring_case(value.as_str(), "websocket"),
        None => false,
    };
    let connection = match req.first_header("connection") {
        Some(value) => has_word(value.as_str(), "upgrade"),
        None => false,
    };
    upgrade && connection
}

/// Some item of a comma-separated value is exactly this word.
pub open spec fn lists_exactly(value: Seq<char>, word: Seq<char>) -> bool {
    exists|i: int|
        0 <= i < split(value, ',').len() && trimmed(#[trigger] split(value, ',')[i]) == word
}

/// Whether the subprotocol is among those that the header of a request lists.
pub open spec fn header_offers(req: RequestHead) -> bool {
    let values = text_values(req.values("sec-websocket-protocol"@));
    exists|i: int| 0 <= i < values.len() && lists_exactly(#[trigger] values[i], SUBPROTOCOL@)
}

/// Whether the subprotocol is among those that the header of a request lists, so that it is
/// repeated in the answer.
pub fn subprotocol_offered_in_header(req: &RequestHead) -> (r: bool)
    ensures
        r == header_offers(*req),
{
    let values = req.header_texts("sec-websocket-protocol");
    let ghost all = texts(values@);
    let mut i: usize = 0;
    while i < values.len()
        invariant
            i <= values@.len(),
            all == texts(values@),
            all == text_values(req.values("sec-websocket-protocol"@)),
            forall|j: int| 0 <= j < i ==> !lists_exactly(#[trigger] all[j], SUBPROTOCOL@),
        decreases values@.len() - i,
    {
        let parts = split_on(values[i].as_str(), ',');
        let ghost items = texts(parts@);
        let mut k: usize = 0;
        while k < parts.len()
            invariant
                k <= parts@.len(),
                i < values@.len(),
                all == texts(values@),
                all == text_values(req.values("sec-websocket-protocol"@)),
                items == texts(parts@),
                items == split(all[i as int], ','),
                forall|j: int| 0 <= j < k ==> trimmed(#[trigger] items[j]) != SUBPROTOCOL@,
            decreases parts@.len() - k,
        {
            let item = trim(parts[k].as_str());
            if same(item.as_str(), SUBPROTOCOL) {
                proof {
                    assert(trimmed(items[k as int]) == SUBPROTOCOL@);
                    assert(lists_exactly(all[i as int], SUBPROTOCOL@));
                }
                return true;
            }
            k = k + 1;
        }
        proof {
            assert(!lists_exactly(all[i as int], SUBPROTOCOL@));
        }
        i = i + 1;
    }
    false
}

/// What a request for a socket leads to once its token was verified.
#[derive(Debug)]
pub enum RpcStep {
    Refuse(Refusal),
    /// Switch to a WebSocket, and repeat the subprotocol if `echo`.
    Upgrade { echo: bool },
}

/// The refusal of a request for a socket whose token was verified with this result.
pub open spec fn rpc_refusal(req: RequestHead, verified: Result<(), AuthError>) -> Option<
    (u16, Seq<char>),
> {
    match verified {
        _ if request_token(req) is None => Some(
            (AuthError::Missing.status_of(), AuthError::Missing.code_of()),
        ),
        Err(error) => Some((error.status_of(), error.code_of())),
        Ok(()) => if !request_offers(req) {
            Some(
                (
                    AuthError::MissingSubprotocol.status_of(),
                    AuthError::MissingSubprotocol.code_of(),
                ),
            )
        } else if !websocket_upgrade(req) {
            Some((426, "upgrade_required"@))
        } else {
            None
        },
    }
}

/// What a request for a socket leads to. `verified` is what became of its token, where it
/// has one.
pub fn rpc_route(req: &RequestHead, verified: Result<(), AuthError>) -> (r: RpcStep)
    ensures
        match r {
            RpcStep::Refuse(refusal) => rpc_refusal(*req, verified) == Some(refusal.view()),
            RpcStep::Upgrade { echo } => rpc_refusal(*req, verified) is None && echo
                == header_offers(*req),
        },
{
    let offered = match extract_token(req) {
        Ok((_, offered)) => offered,
        Err(error) => {
            return RpcStep::Refuse(Refusal::of_auth(&error));
        },
    };
    if let Err(error) = verified {
        return RpcStep::Refuse(Refusal::of_auth(&error));
    }
    if !offered {
        return RpcStep::Refuse(Refusal::of_auth(&AuthError::MissingSubprotocol));
    }
    if !is_websocket_upgrade(req) {
        return RpcStep::Refuse(Refusal { status: 426, code: "upgrade_required" });
    }
    RpcStep::Upgrade { echo: subprotocol_offered_in_header(req) }
}

/// Whether the head of a request to install an extension is in order: one at a time, and an
/// archive.
pub fn begin_install(req: &RequestHead, build_in_progress: bool) -> (r: Result<(), Refusal>)
    ensures
        match r {
            Ok(()) => !build_in_progress && first_text(req.values("content-type"@)) == Some(
                "application/x-tar"@,
            ),
            Err(refusal) => if build_in_progress {
                refusal.view() == (409u16, "extension_build_in_progress"@)
            } else {
                &&& first_text(req.values("content-type"@)) != Some("application/x-tar"@)
                &&& refusal.view() == (415u16, "expected_tar_archive"@)
            },
        },
{
    if build_in_progress {
        return Err(Refusal { status: 409, code: "extension_build_in_progress" });
    }
    let tar = match req.first_header("content-type") {
        Some(value) => same(value.as_str(), "application/x-tar"),
        None => false,
    };
    if tar {
        Ok(())
    } else {
        Err(Refusal { status: 415, code: "expected_tar_archive" })
    }
}

/// How the installation of an extension ended.
#[derive(Debug)]
pub enum InstallOutcome {
    Installed,
    /// The archive was refused, for this reason.
    Failed(String),
    TooLarge,
    /// Nobody answers.
    Unavailable,
}

/// What an installation is answered.
#[derive(Debug)]
pub enum InstallAnswer {
    Installed,
    /// Status 400, with this reason as the error.
    Failed(String),
    Refuse(Refusal),
}

/// What an installation is answered.
pub fn install_dev_extension(outcome: InstallOutcome) -> (r: InstallAnswer)
    ensures
        install_answered(outcome, r),
{
    match outcome {
        InstallOutcome::Installed => InstallAnswer::Installed,
        InstallOutcome::Failed(reason) => InstallAnswer::Failed(reason),
        InstallOutcome::TooLarge => InstallAnswer::Refuse(
            Refusal { status: 413, code: "extension_upload_too_large" },
        ),
        InstallOutcome::Unavailable => InstallAnswer::Refuse(
            Refusal { status: 503, code: "extension_host_unavailable" },
        ),
    }
}

/// A control request.
#[derive(Debug)]
pub struct ControlRequest<'a> {
    pub method: &'a str,
    pub path: &'a str,
    /// The token of the `Authorization` header.
    pub bearer: Option<&'a str>,
    pub peer_is_loopback: bool,
    pub session_attached: bool,
    pub body: &'a [u8],
}

/// What a control request is answered.
#[derive(Debug)]
pub enum ControlResponse {
    NoContent,
    BadRequest(String),
    Unauthorized,
    NotFound,
}

/// A path that control requests are posted to.
pub open spec fn control_path(path: Seq<char>) -> bool {
    path == CONTROL_LIFECYCLE_PATH@ || path == CONTROL_PORTS_PATH@ || path
        == CONTROL_EXTENSIONS_PATH@
}

/// The refusal of a control request by its head. `authorized` is asked last.
pub open spec fn control_refusal(
    loopback: bool,
    method: Seq<char>,
    path: Seq<char>,
    authorized: bool,
) -> Option<(u16, Seq<char>)> {
    if !loopback {
        Some((401, "unauthorized"@))
    } else if !control_path(path) {
        Some((404, "not_found"@))
    } else if method != "POST"@ {
        Some((405, "method_not_allowed"@))
    } else if !authorized {
        Some((401, "unauthorized"@))
    } else {
        None
    }
}

/// Decides on a control request by its head, before its body is read.
pub fn route_control(loopback: bool, method: &str, path: &str, authorized: bool) -> (r: Option<
    Refusal,
>)
    ensures
        match r {
            Some(refusal) => control_refusal(loopback, method@, path@, authorized) == Some(
                refusal.view(),
            ),
            None => control_refusal(loopback, method@, path@, authorized) is None,
        },
{
    if !loopback {
        return Some(Refusal { status: 401, code: "unauthorized" });
    }
    if !(same(path, CONTROL_LIFECYCLE_PATH) || same(path, CONTROL_PORTS_PATH) || same(
        path,
        CONTROL_EXTENSIONS_PATH,
    )) {
        return Some(Refusal { status: 404, code: "not_found" });
    }
    if !same(method, "POST") {
        return Some(Refusal { status: 405, code: "method_not_allowed" });
    }
    if !authorized {
        return Some(Refusal { status: 401, code: "unauthorized" });
    }
    None
}

/// The answer to a control request.
#[derive(Debug)]
pub enum ControlAnswer {
    NoContent,
    /// Status 400, with a message.
    BadRequest { message: String },
    Refuse(Refusal),
}

/// The answer to a control request that was handled; `None` where its body was too large to
/// be.
pub fn control_answer(outcome: Option<ControlResponse>) -> (r: ControlAnswer)
    ensures
        match outcome {
            None => r matches ControlAnswer::Refuse(x) && x.view() == (413u16, "body_too_large"@),
            Some(ControlResponse::NoContent) => r is NoContent,
            Some(ControlResponse::BadRequest(m)) => r == (ControlAnswer::BadRequest { message: m }),
            Some(ControlResponse::Unauthorized) => r matches ControlAnswer::Refuse(x) && x.view()
                == (401u16, "unauthorized"@),
            Some(ControlResponse::NotFound) => r matches ControlAnswer::Refuse(x) && x.view() == (
                404u16,
                "not_found"@,
            ),
        },
{
    match outcome {
        None => ControlAnswer::Refuse(Refusal { status: 413, code: "body_too_large" }),
        Some(ControlResponse::NoContent) => ControlAnswer::NoContent,
        Some(ControlResponse::BadRequest(message)) => ControlAnswer::BadRequest { message },
        Some(ControlResponse::Unauthorized) => ControlAnswer::Refuse(
            Refusal { status: 401, code: "unauthorized" },
        ),
        Some(ControlResponse::NotFound) => ControlAnswer::Refuse(
            Refusal { status: 404, code: "not_found" },
        ),
    }
}

/// A control request that was seen.
#[derive(Debug)]
pub struct SeenControl {
    pub method: String,
    pub path: String,
    pub peer_is_loopback: bool,
    pub session_attached: bool,
    pub body_len: usize,
}

/// Keeps a list of the control requests that it saw, and accepts those with its secret.
pub struct RecordingControl {
    pub secret: String,
    pub seen: Vec<SeenControl>,
}

impl RecordingControl {
    /// Accepts requests with this secret.
    pub fn new(secret: &str) -> (r: RecordingControl)
        ensures
            r.secret@ == secret@,
            r.seen@.len() == 0,
    {
        RecordingControl { secret: secret.to_owned(), seen: Vec::new() }
    }

    /// The requests that were seen, in order.
    pub fn seen(&self) -> (r: &Vec<SeenControl>)
        ensures
            r@ == self.seen@,
    {
        &self.seen
    }

    /// Sees a request, and answers it.
    pub fn handle(&mut self, req: ControlRequest) -> (r: ControlResponse)
        ensures
            final(self).secret == old(self).secret,
            final(self).seen@.len() == old(self).seen@.len() + 1,
            final(self).seen@.drop_last() == old(self).seen@,
            final(self).seen@.last().method@ == req.method@,
            final(self).seen@.last().path@ == req.path@,
            final(self).seen@.last().peer_is_loopback == req.peer_is_loopback,
            final(self).seen@.last().session_attached == req.session_attached,
            final(self).seen@.last().body_len == req.body@.len(),
            r == if req.bearer is Some && req.bearer->0@ == old(self).secret@ {
                ControlResponse::NoContent
            } else {
                ControlResponse::Unauthorized
            },
    {
        self.seen.push(
            SeenControl {
                method: req.method.to_owned(),
                path: req.path.to_owned(),
                peer_is_loopback: req.peer_is_loopback,
                session_attached: req.session_attached,
                body_len: req.body.len(),
            },
        );
        proof {
            assert(self.seen@.drop_last() =~= old(self).seen@);
        }
        let authorized = match req.bearer {
            Some(bearer) => same(bearer, self.secret.as_str()),
            None => false,
        };
        if authorized {
            ControlResponse::NoContent
        } else {
            ControlResponse::Unauthorized
        }
    }
}

/// No control request gets through on the listener that browsers use.
pub proof fn law_control_paths_are_not_public(method: Seq<char>, path: Seq<char>, cors: CorsView)
    requires
        control_path(path),
    ensures
        route_of(method, path, cors) is Refuse,
{
    reveal_strlit("/control/lifecycle");
    reveal_strlit("/control/ports");
    reveal_strlit("/control/extensions");
    reveal_strlit("/health");
    reveal_strlit("/rpc");
    reveal_strlit("/files");
    reveal_strlit("/extensions/");
    reveal_strlit("/extensions/dev");
    assert(path[1] == 'c');
    assert("/health"@[1] == 'h');
    assert("/rpc"@[1] == 'r');
    assert("/files"@[1] == 'f');
    assert("/extensions/dev"@[1] == 'e');
    if begins(path, "/extensions/"@) {
        assert(path.take("/extensions/"@.len() as int)[1] == path[1]);
    }
}

/// An origin that is not allowed reaches no path at which something is done for it, whatever
/// the method.
pub proof fn law_foreign_origins_are_refused(method: Seq<char>, path: Seq<char>, cors: CorsView)
    requires
        cors is Denied,
        origin_checked_path(path),
    ensures
        route_of(method, path, cors) is Refuse,
{
}

/// An answer names an origin only where that origin is one of those allowed.
pub proof fn law_only_allowed_origins_are_named(
    allowed: Seq<Seq<char>>,
    origin: Option<Seq<char>>,
    path: Seq<char>,
    i: int,
)
    requires
        0 <= i < common_lines(path, cors_of(allowed, origin)).len(),
        common_lines(path, cors_of(allowed, origin))[i].0 == "access-control-allow-origin"@,
    ensures
        origin is Some,
        common_lines(path, cors_of(allowed, origin))[i].1 == origin->0,
        allowed.contains(origin->0),
{
    reveal_strlit("cache-control");
    reveal_strlit("access-control-allow-origin");
    reveal_strlit("vary");
    reveal_strlit("access-control-expose-headers");
    reveal_strlit("cross-origin-resource-policy");
    assert("cache-control"@.len() != "access-control-allow-origin"@.len());
    assert("vary"@.len() != "access-control-allow-origin"@.len());
    assert("access-control-expose-headers"@.len() != "access-control-allow-origin"@.len());
    assert("cross-origin-resource-policy"@.len() != "access-control-allow-origin"@.len());
}

/// The paths and methods of the server are told apart: each is answered by what it is for,
/// and a path that is known is refused another method.
pub proof fn law_requests_reach_their_handlers(method: Seq<char>, cors: CorsView)
    requires
        method != "OPTIONS"@,
        !(cors is Denied),
    ensures
        method == "GET"@ ==> {
            &&& route_of(method, "/health"@, cors) is Health
            &&& route_of(method, "/rpc"@, cors) is Rpc
            &&& route_of(method, "/files"@, cors) is Download
        },
        method == "POST"@ ==> {
            &&& route_of(method, "/files"@, cors) is Upload
            &&& route_of(method, "/extensions/dev"@, cors) is InstallDevExtension
        },
        method != "GET"@ ==> {
            &&& route_of(method, "/health"@, cors) == RouteView::Refuse(
                405,
                "method_not_allowed"@,
            )
            &&& route_of(method, "/rpc"@, cors) == RouteView::Refuse(405, "method_not_allowed"@)
            &&& method != "POST"@ ==> route_of(method, "/files"@, cors) == RouteView::Refuse(
                405,
                "method_not_allowed"@,
            )
            &&& method != "POST"@ ==> route_of(method, "/extensions/dev"@, cors)
                == RouteView::Refuse(405, "method_not_allowed"@)
        },
{
    lemma_paths_differ();
}

proof fn lemma_paths_differ()
    ensures
        "/health"@ != "/rpc"@,
        "/health"@ != "/files"@,
        "/rpc"@ != "/files"@,
        "/extensions/dev"@ != "/health"@,
        "/extensions/dev"@ != "/rpc"@,
        "/extensions/dev"@ != "/files"@,
        begins("/extensions/dev"@, "/extensions/"@),
        "GET"@ != "POST"@,
        "GET"@ != "OPTIONS"@,
        "POST"@ != "OPTIONS"@,
{
    reveal_strlit("/health");
    reveal_strlit("/rpc");
    reveal_strlit("/files");
    reveal_strlit("/extensions/");
    reveal_strlit("/extensions/dev");
    reveal_strlit("GET");
    reveal_strlit("POST");
    reveal_strlit("OPTIONS");
    assert("/health"@[1] == 'h');
    assert("/rpc"@[1] == 'r');
    assert("/files"@[1] == 'f');
    assert("/extensions/dev"@[1] == 'e');
    assert("/extensions/dev"@.take(12) =~= "/extensions/"@);
    assert("GET"@[0] == 'G');
    assert("POST"@[0] == 'P');
    assert("OPTIONS"@[0] == 'O');
}

/// A path that is none of the server's is not found, whatever the method and the origin, but
/// for what a browser asks before a request.
pub proof fn law_other_paths_are_not_found(method: Seq<char>, path: Seq<char>, cors: CorsView)
    requires
        path != "/health"@,
        path != "/rpc"@,
        path != "/files"@,
        path.len() < 12 || path.take(12) != "/extensions/"@,
    ensures
        method != "OPTIONS"@ ==> route_of(method, path, cors) == RouteView::Refuse(
            404,
            "not_found"@,
        ),
        method == "OPTIONS"@ ==> route_of(method, path, cors) == RouteView::Refuse(
            405,
            "method_not_allowed"@,
        ),
{
    lemma_paths_differ();
    reveal_strlit("/extensions/");
    assert("/extensions/"@.len() == 12);
    assert(!begins(path, "/extensions/"@));
    assert("/extensions/dev"@.take(12) == "/extensions/"@);
    reveal_strlit("/extensions/dev");
}

/// An asset of an extension is served from the path that names the extension and the asset,
/// unless the origin is denied; without a name the asset is the directory itself.
pub proof fn law_assets_are_served(id: Seq<char>, rel: Seq<char>, cors: CorsView)
    requires
        id.len() > 0,
        vstd::utf8::is_ascii_chars(id),
        vstd::utf8::is_ascii_chars(rel),
        !id.contains('/'),
        !id.contains('%'),
        !rel.contains('%'),
        !(cors is Denied),
    ensures
        ({
            let path = "/extensions/"@ + id + "/assets/"@ + rel;
            &&& rel.len() > 0 ==> route_of("GET"@, path, cors) == RouteView::Asset(Some((id, rel)))
            &&& rel.len() == 0 ==> route_of("GET"@, path, cors) == RouteView::Asset(
                Some((id, "."@)),
            )
        }),
{
    let path = "/extensions/"@ + id + "/assets/"@ + rel;
    let tail = id + "/assets/"@ + rel;
    lemma_paths_differ();
    reveal_strlit("/extensions/");
    reveal_strlit("/assets/");
    reveal_strlit("/health");
    reveal_strlit("/rpc");
    reveal_strlit("/files");
    assert(path.take(12) =~= "/extensions/"@);
    assert(path[1] == 'e');
    assert("/health"@[1] == 'h' && "/rpc"@[1] == 'r' && "/files"@[1] == 'f');
    assert(path.skip(12) =~= tail);
    law_cut_at_the_first_text(tail, "/assets/"@);
    assert(tail.skip(id.len() as int).take(8) =~= "/assets/"@);
    assert(begins(tail.skip(id.len() as int), "/assets/"@));
    let parts = cut_text(tail, "/assets/"@);
    assert(parts is Some);
    let (a, b) = parts->0;
    if a.len() < id.len() {
        assert(tail[a.len() as int] == (a + "/assets/"@ + b)[a.len() as int]);
        assert(tail[a.len() as int] == id[a.len() as int]);
        assert(id.contains('/'));
    }
    assert(a.len() <= id.len());
    assert(a =~= id) by {
        assert forall|i: int| 0 <= i < id.len() implies a[i] == id[i] by {
            assert(tail[i] == id[i]);
        }
    }
    assert(b =~= rel) by {
        assert forall|i: int| 0 <= i < rel.len() implies b[i] == rel[i] by {
            assert(tail[id.len() + 8 + i] == rel[i]);
            assert((a + "/assets/"@ + b)[id.len() + 8 + i] == b[i]);
        }
    }
    lemma_plain_strict(id);
    lemma_plain_strict(rel);
}

/// A denied origin is told so on every path that is checked, and on what a browser asks
/// before a request; health is for everyone.
pub proof fn law_denied_origins_are_told(method: Seq<char>, path: Seq<char>)
    requires
        path == "/files"@ || path == "/rpc"@ || (path.len() >= 12 && path.take(12)
            == "/extensions/"@),
    ensures
        method != "OPTIONS"@ ==> route_of(method, path, CorsView::Denied) == RouteView::Refuse(
            403,
            "origin_not_allowed"@,
        ),
        method == "OPTIONS"@ && path != "/rpc"@ ==> route_of(method, path, CorsView::Denied)
            == RouteView::Refuse(403, "origin_not_allowed"@),
        route_of("GET"@, "/health"@, CorsView::Denied) is Health,
{
    lemma_paths_differ();
    reveal_strlit("/extensions/");
    reveal_strlit("/health");
    assert(begins("/health"@, "/extensions/"@) ==> false);
}

/// What a browser asks before a request to another origin is answered on the paths that may
/// be asked from there.
pub proof fn law_preflights_are_answered(path: Seq<char>, cors: CorsView)
    requires
        !(cors is Denied),
    ensures
        path == "/files"@ || path == "/health"@ || (path.len() >= 12 && path.take(12)
            == "/extensions/"@) ==> route_of("OPTIONS"@, path, cors) is Preflight,
        path == "/rpc"@ ==> route_of("OPTIONS"@, path, cors) == RouteView::Refuse(
            405,
            "method_not_allowed"@,
        ),
{
    lemma_paths_differ();
    reveal_strlit("/extensions/");
    reveal_strlit("/rpc");
    assert(begins("/rpc"@, "/extensions/"@) ==> false);
}

/// Without a list of origins nothing is checked; with one, an origin is allowed exactly where
/// it is on the list.
pub proof fn law_listed_origins_are_allowed(allowed: Seq<Seq<char>>, origin: Seq<char>)
    ensures
        allowed.len() == 0 ==> cors_of(allowed, Some(origin)) is Disabled && cors_of(
            allowed,
            None,
        ) is Disabled,
        allowed.len() > 0 ==> cors_of(allowed, None) is NoOrigin,
        allowed.contains(origin) ==> cors_of(allowed, Some(origin)) == CorsView::Allowed(origin),
        allowed.len() > 0 && !allowed.contains(origin) ==> cors_of(allowed, Some(origin)) is Denied,
{
}

/// No answer may be stored, and an answer to an allowed origin names it on the paths that may
/// be asked from there.
pub proof fn law_answers_carry_their_headers(path: Seq<char>, cors: CorsView, origin: Seq<char>)
    ensures
        common_lines(path, cors).contains(("cache-control"@, "no-store"@)),
        path == "/files"@ || path == "/health"@ || (path.len() >= 12 && path.take(12)
            == "/extensions/"@) ==> {
            let lines = common_lines(path, CorsView::Allowed(origin));
            &&& lines.contains(("access-control-allow-origin"@, origin))
            &&& lines.contains(("vary"@, "Origin"@))
            &&& lines.contains(
                ("access-control-expose-headers"@, "content-disposition, content-length"@),
            )
            &&& lines.contains(("cross-origin-resource-policy"@, "cross-origin"@))
        },
        ({
            let lines = preflight_lines(CorsView::Allowed(origin));
            &&& lines.contains(("access-control-allow-origin"@, origin))
            &&& lines.contains(("access-control-allow-methods"@, "GET, POST"@))
            &&& lines.contains(("access-control-allow-headers"@, "authorization, content-type"@))
            &&& lines.contains(("access-control-max-age"@, "600"@))
        }),
        !(cors is Allowed) ==> preflight_lines(cors).len() == 0 && common_lines(path, cors).len()
            == 1,
{
    reveal_strlit("/extensions/");
    assert(common_lines(path, cors)[0] == ("cache-control"@, "no-store"@));
    let lines = common_lines(path, CorsView::Allowed(origin));
    if path == "/files"@ || path == "/health"@ || (path.len() >= 12 && path.take(12)
        == "/extensions/"@) {
        assert(lines[1] == ("access-control-allow-origin"@, origin));
        assert(lines[2] == ("vary"@, "Origin"@));
        assert(lines[3] == (
            "access-control-expose-headers"@,
            "content-disposition, content-length"@,
        ));
        assert(lines[4] == ("cross-origin-resource-policy"@, "cross-origin"@));
    }
    let asked = preflight_lines(CorsView::Allowed(origin));
    assert(asked[0] == ("access-control-allow-origin"@, origin));
    assert(asked[4] == ("access-control-allow-methods"@, "GET, POST"@));
    assert(asked[5] == ("access-control-allow-headers"@, "authorization, content-type"@));
    assert(asked[6] == ("access-control-max-age"@, "600"@));
}

/// A socket is opened exactly for a request with a good token that offers the protocol and
/// asks for a socket; a bad token is reported before anything else is looked at.
pub proof fn law_sockets_need_a_good_token(req: RequestHead, verified: Result<(), AuthError>)
    ensures
        rpc_refusal(req, verified) is None <==> {
            &&& request_token(req) is Some
            &&& verified is Ok
            &&& request_offers(req)
            &&& websocket_upgrade(req)
        },
        request_token(req) is None ==> rpc_refusal(req, verified) == Some(
            (401u16, "missing_token"@),
        ),
        request_token(req) is Some && verified is Err ==> rpc_refusal(req, verified) == Some(
            (verified->Err_0.status_of(), verified->Err_0.code_of()),
        ),
        request_token(req) is Some && verified is Ok && !request_offers(req) ==> rpc_refusal(
            req,
            verified,
        ) == Some((426u16, "subprotocol_not_offered"@)),
        request_token(req) is Some && verified is Ok && request_offers(req) && !websocket_upgrade(
            req,
        ) ==> rpc_refusal(req, verified) == Some((426u16, "upgrade_required"@)),
{
}

/// A control request gets through exactly where it comes from this machine, is a `POST` to
/// one of the three control paths, and is authorized; who is not on this machine learns
/// nothing else.
pub proof fn law_control_is_guarded(
    loopback: bool,
    method: Seq<char>,
    path: Seq<char>,
    authorized: bool,
)
    ensures
        control_refusal(loopback, method, path, authorized) is None <==> {
            &&& loopback
            &&& authorized
            &&& method == "POST"@
            &&& path == "/control/lifecycle"@ || path == "/control/ports"@ || path
                == "/control/extensions"@
        },
        !loopback ==> control_refusal(loopback, method, path, authorized) == Some(
            (401u16, "unauthorized"@),
        ),
        loopback && (path == "/control/lifecycle"@ || path == "/control/ports"@ || path
            == "/control/extensions"@) ==> {
            &&& method != "POST"@ ==> control_refusal(loopback, method, path, authorized) == Some(
                (405u16, "method_not_allowed"@),
            )
            &&& method == "POST"@ && !authorized ==> control_refusal(
                loopback,
                method,
                path,
                authorized,
            ) == Some((401u16, "unauthorized"@))
        },
        loopback && path != "/control/lifecycle"@ && path != "/control/ports"@ && path
            != "/control/extensions"@ ==> control_refusal(loopback, method, path, authorized)
            == Some((404u16, "not_found"@)),
{
}

/// Whether the answer to an installation says what came of it.
pub open spec fn install_answered(outcome: InstallOutcome, answer: InstallAnswer) -> bool {
    match outcome {
        InstallOutcome::Installed => answer is Installed,
        InstallOutcome::Failed(reason) => answer == InstallAnswer::Failed(reason),
        InstallOutcome::TooLarge => answer matches InstallAnswer::Refuse(x) && x.view() == (
            413u16,
            "extension_upload_too_large"@,
        ),
        InstallOutcome::Unavailable => answer matches InstallAnswer::Refuse(x) && x.view() == (
            503u16,
            "extension_host_unavailable"@,
        ),
    }
}

/// An extension counts as installed only where it was, and whoever built it is told why it was
/// not.
pub proof fn law_installations_are_reported(outcome: InstallOutcome, answer: InstallAnswer)
    requires
        install_answered(outcome, answer),
    ensures
        answer is Installed <==> outcome is Installed,
        outcome matches InstallOutcome::Failed(reason) ==> answer == InstallAnswer::Failed(reason),
        outcome is TooLarge ==> answer->Refuse_0.status == 413,
        outcome is Unavailable ==> answer->Refuse_0.status == 503,
{
}

/// No asset is found without a name of an extension and a part that says that an asset is
/// meant, or where one of the two names cannot be decoded; otherwise they are what the path
/// holds, decoded.
pub proof fn law_assets_need_names(tail: Seq<char>, cors: CorsView)
    requires
        !(cors is Denied),
    ensures
        ({
            let route = route_of("GET"@, "/extensions/"@ + tail, cors);
            let parts = cut_text(tail, "/assets/"@);
            &&& route matches RouteView::Asset(asset)
            &&& (forall|i: int|
                0 <= i <= tail.len() ==> !begins(#[trigger] tail.skip(i), "/assets/"@))
                ==> asset is None
            &&& begins(tail, "/assets/"@) ==> asset is None
            &&& parts matches Some((id, rel)) ==> {
                &&& decoded_strict(id) is None || decoded_strict(rel) is None ==> asset is None
                &&& asset is Some ==> Some((asset->0).0) == decoded_strict(id)
                &&& asset is Some && decoded_strict(rel)->0.len() > 0 ==> Some((asset->0).1)
                    == decoded_strict(rel)
            }
        }),
{
    let path = "/extensions/"@ + tail;
    lemma_paths_differ();
    reveal_strlit("/extensions/");
    reveal_strlit("/assets/");
    reveal_strlit("/health");
    reveal_strlit("/rpc");
    reveal_strlit("/files");
    assert(path.take(12) =~= "/extensions/"@);
    assert(path[1] == 'e');
    assert("/health"@[1] == 'h' && "/rpc"@[1] == 'r' && "/files"@[1] == 'f');
    assert(path.skip(12) =~= tail);
    law_cut_at_the_first_text(tail, "/assets/"@);
    assert(tail.skip(0) =~= tail);
    if let Some((id, rel)) = cut_text(tail, "/assets/"@) {
        assert(tail.skip(id.len() as int).take(8) =~= "/assets/"@);
        assert(begins(tail.skip(id.len() as int), "/assets/"@));
    }
}

/// A refusal names its code in its body, and nothing else.
pub proof fn law_refusals_are_named(code: Seq<char>)
    ensures
        error_text(code).len() == code.len() + 12,
        error_text(code).subrange(10, 10 + code.len() as int) == code,
        error_text(code).take(10) == "{\"error\":\""@,
        error_text(code).skip(10 + code.len() as int) == "\"}"@,
{
    reveal_strlit("{\"error\":\"");
    reveal_strlit("\"}");
    assert(error_text(code).subrange(10, 10 + code.len() as int) =~= code);
    assert(error_text(code).take(10) =~= "{\"error\":\""@);
    assert(error_text(code).skip(10 + code.len() as int) =~= "\"}"@);
}

/// A list holds a word where one of its items is the word, without the space around it; the
/// items of two lists with a comma between them are those of both.
pub proof fn law_lists_hold_their_items(a: Seq<char>, b: Seq<char>, word: Seq<char>)
    ensures
        lists_exactly(a.push(',') + b, word) <==> lists_exactly(a, word) || lists_exactly(b, word),
        !a.contains(',') ==> (lists_exactly(a, word) <==> trimmed(a) == word),
        lists_word(a.push(',') + b, word) <==> lists_word(a, word) || lists_word(b, word),
        !a.contains(',') ==> (lists_word(a, word) <==> ascii_lower(trimmed(a)) == ascii_lower(
            word,
        )),
{
    lemma_split_concat(a, b, ',');
    let p = split(a, ',');
    let q = split(b, ',');
    let all = split(a.push(',') + b, ',');
    assert(all == p + q);
    assert forall|i: int| 0 <= i < p.len() implies all[i] == #[trigger] p[i] by {}
    assert forall|i: int| 0 <= i < q.len() implies all[p.len() + i] == #[trigger] q[i] by {}
    assert forall|i: int| p.len() <= i < all.len() implies #[trigger] all[i] == q[i - p.len()] by {}
    if !a.contains(',') {
        lemma_position(a, ',');
        assert(p =~= seq![a]);
        assert(p[0] == a);
    }
}

/// A request offers the subprotocol exactly where one of the values of its header lists it.
pub proof fn law_subprotocols_are_offered(req: RequestHead, i: int)
    ensures
        ({
            let values = text_values(req.values("sec-websocket-protocol"@));
            &&& 0 <= i < values.len() && lists_exactly(values[i], "zs.v1"@) ==> header_offers(
                req,
            )
            &&& (forall|k: int|
                0 <= k < values.len() ==> !lists_exactly(#[trigger] values[k], "zs.v1"@))
                ==> !header_offers(req)
        }),
{
}

} // verus!
