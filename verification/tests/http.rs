use zed_web::request::{HeaderField, RequestHead};
use zed_web::serve::auth::AuthError;
use zed_web::serve::http::{
    authenticate_request, begin_install, common_headers, control_answer, error_body, health_route,
    install_dev_extension, is_cors_route, is_origin_checked_route, is_websocket_upgrade,
    parse_extension_asset_path, preflight_headers, route, route_control, rpc_route,
    subprotocol_offered_in_header, ControlAnswer, ControlRequest, ControlResponse, CorsDecision,
    Guarded, HeaderLine, HealthAccess, InstallAnswer, InstallOutcome, RecordingControl, Refusal,
    Route, RpcStep, CONTROL_EXTENSIONS_PATH, CONTROL_LIFECYCLE_PATH, CONTROL_PORTS_PATH,
};
use zed_web::serve::state::{clock_ms, unix_ms, Peer, ServeConfig, ServeState};

const LOOPBACK: Peer = Peer::V4(0x7f00_0001);

fn request(target: &str, headers: &[(&str, &str)]) -> RequestHead {
    let (path, query) = match target.split_once('?') {
        Some((path, query)) => (path, Some(query.to_owned())),
        None => (target, None),
    };
    RequestHead {
        method: "GET".to_owned(),
        path: path.to_owned(),
        query,
        headers: headers
            .iter()
            .map(|(name, value)| HeaderField {
                name: name.to_string(),
                value: value.as_bytes().to_vec(),
            })
            .collect(),
    }
}

fn state(origins: &[&str]) -> ServeState<()> {
    ServeState::new(
        ServeConfig {
            build: "test-build".into(),
            version: "test-version".into(),
            workspace_id: "ws_test".into(),
            allowed_origins: origins.iter().map(|origin| origin.to_string()).collect(),
            client_build: None,
        },
        10_000,
    )
}

fn refusal(route: Route) -> (u16, &'static str) {
    match route {
        Route::Refuse(Refusal { status, code }) => (status, code),
        other => panic!("not refused: {other:?}"),
    }
}

fn header(headers: &[HeaderLine], name: &str) -> Option<String> {
    headers.iter().rev().find(|line| line.name == name).map(|line| line.value.clone())
}

#[test]
fn health_minimal_vs_full() {
    let mut state = state(&[]);
    state.set_worktrees(vec!["/workspaces/app".into()]);
    state.set_dirty_buffers(2);
    assert_eq!(state.last_input_at(), None);
    state.touch_input(77);
    let full = state.health(true, 13_999);
    assert_eq!(full.build, "test-build");
    assert_eq!(full.version, "test-version");
    assert_eq!(full.workspace_id, "ws_test");
    assert_eq!(full.uptime_secs, 3);
    assert!(!full.session_active);
    assert_eq!(full.worktrees.as_deref(), Some(&["/workspaces/app".to_owned()][..]));
    assert_eq!(full.dirty_buffers, Some(2));
    assert_eq!(full.last_input_at, Some(77));
    assert_eq!(full.auth_failures, Some(0));
    let minimal = state.health(false, 0);
    assert_eq!(minimal.uptime_secs, 0);
    assert!(minimal.worktrees.is_none());
    assert!(minimal.last_input_at.is_none());
    assert!(minimal.dirty_buffers.is_none());
    assert!(minimal.auth_failures.is_none());
    assert!(minimal.session.is_none());

    let far = Peer::V4(0x0a00_0001);
    assert!(matches!(health_route(&LOOPBACK, &request("/health", &[])), HealthAccess::Full));
    assert!(matches!(health_route(&Peer::V6(1), &request("/health", &[])), HealthAccess::Full));
    assert!(matches!(health_route(&far, &request("/health", &[])), HealthAccess::Minimal));
    match health_route(&far, &request("/health", &[("authorization", "Bearer T")])) {
        HealthAccess::IfGood(token) => assert_eq!(token, "T"),
        other => panic!("{other:?}"),
    }
}

#[test]
fn rpc_without_token_is_401_after_the_failure_delay() {
    let step = rpc_route(&request("/rpc", &[]), Err(AuthError::Malformed));
    match step {
        RpcStep::Refuse(refusal) => {
            assert_eq!((refusal.status, refusal.code), (401, "missing_token"));
            assert_eq!(refusal.body(), "{\"error\":\"missing_token\"}");
        }
        other => panic!("{other:?}"),
    }
    let req = request("/rpc", &[("sec-websocket-protocol", "zs.v1, not-a-token")]);
    match rpc_route(&req, Err(AuthError::Malformed)) {
        RpcStep::Refuse(refusal) => assert_eq!(refusal.status, 401),
        other => panic!("{other:?}"),
    }
    assert_eq!(error_body("x"), "{\"error\":\"x\"}");
}

const UPGRADE: [(&str, &str); 2] = [("upgrade", "WebSocket"), ("connection", "keep-alive, Upgrade")];

#[test]
fn rpc_without_subprotocol_is_426() {
    let mut headers = UPGRADE.to_vec();
    headers.push(("authorization", "Bearer T"));
    match rpc_route(&request("/rpc", &headers), Ok(())) {
        RpcStep::Refuse(refusal) => {
            assert_eq!((refusal.status, refusal.code), (426, "subprotocol_not_offered"));
        }
        other => panic!("{other:?}"),
    }
    let req = request("/rpc?zs_proto=zs.v1&zs_token=T", &UPGRADE);
    assert!(matches!(rpc_route(&req, Ok(())), RpcStep::Upgrade { echo: false }));
    let req = request("/rpc?zs_proto=zs.v1&zs_token=T", &[]);
    match rpc_route(&req, Ok(())) {
        RpcStep::Refuse(refusal) => {
            assert_eq!((refusal.status, refusal.code), (426, "upgrade_required"));
        }
        other => panic!("{other:?}"),
    }
}

#[test]
fn rpc_echoes_the_subprotocol_when_offered_in_the_header() {
    let mut headers = UPGRADE.to_vec();
    headers.push(("sec-websocket-protocol", "zs.v1, T"));
    let req = request("/rpc", &headers);
    assert!(subprotocol_offered_in_header(&req));
    assert!(is_websocket_upgrade(&req));
    assert!(matches!(rpc_route(&req, Ok(())), RpcStep::Upgrade { echo: true }));
    let upgrade = |value| is_websocket_upgrade(&request("/rpc", &[UPGRADE[0], ("connection", value)]));
    assert!(upgrade("UPGRADE"));
    assert!(!upgrade("close"));
}

#[test]
fn rpc_disallowed_origin_is_403() {
    let state = state(&["https://app.test"]);
    let evil = state.cors_decision(Some("https://evil.test"));
    assert!(matches!(evil, CorsDecision::Denied));
    assert_eq!(refusal(route("GET", "/rpc", &evil)), (403, "origin_not_allowed"));
    let none = state.cors_decision(None);
    assert!(matches!(none, CorsDecision::NoOrigin));
    assert!(matches!(route("GET", "/rpc", &none), Route::Rpc));
}

#[test]
fn files_preflight_and_cors_headers() {
    let state = state(&["https://app.test"]);
    let app = state.cors_decision(Some("https://app.test"));
    for path in ["/files", "/extensions/x/assets/y", "/health"] {
        assert!(matches!(route("OPTIONS", path, &app), Route::Preflight), "{path}");
        assert!(is_cors_route(path));
    }
    let headers = preflight_headers(&app);
    for (name, value) in [
        ("access-control-allow-origin", "https://app.test"),
        ("vary", "Origin"),
        ("access-control-allow-methods", "GET, POST"),
        ("access-control-allow-headers", "authorization, content-type"),
        ("access-control-max-age", "600"),
    ] {
        assert_eq!(header(&headers, name).as_deref(), Some(value));
    }
    let headers = common_headers("/health", &app);
    for (name, value) in [
        ("cache-control", "no-store"),
        ("access-control-allow-origin", "https://app.test"),
        ("access-control-expose-headers", "content-disposition, content-length"),
        ("cross-origin-resource-policy", "cross-origin"),
    ] {
        assert_eq!(header(&headers, name).as_deref(), Some(value));
    }
    assert_eq!(common_headers("/rpc", &app).len(), 1);
    assert_eq!(refusal(route("OPTIONS", "/rpc", &app)), (405, "method_not_allowed"));
    let evil = state.cors_decision(Some("https://evil.test"));
    assert_eq!(refusal(route("OPTIONS", "/files", &evil)), (403, "origin_not_allowed"));
    assert!(header(&common_headers("/files", &evil), "access-control-allow-origin").is_none());
    assert!(preflight_headers(&evil).is_empty());
    // The health report is there for everyone.
    assert!(matches!(route("GET", "/health", &evil), Route::Health));
    assert!(!is_origin_checked_route("/health"));
}

#[test]
fn unknown_routes_and_methods() {
    let cors = state(&[]).cors_decision(Some("https://any.test"));
    assert!(matches!(cors, CorsDecision::Disabled));
    assert_eq!(refusal(route("GET", "/nope", &cors)), (404, "not_found"));
    assert_eq!(refusal(route("GET", "/extensions", &cors)), (404, "not_found"));
    for (method, path) in [
        ("POST", "/health"),
        ("POST", "/rpc"),
        ("PUT", "/files"),
        ("POST", "/extensions/x/assets/y"),
        ("DELETE", "/extensions/dev"),
    ] {
        assert_eq!(refusal(route(method, path, &cors)), (405, "method_not_allowed"));
    }
    assert!(matches!(route("POST", "/files", &cors), Route::Guarded(Guarded::Upload)));
    assert!(matches!(route("GET", "/files", &cors), Route::Guarded(Guarded::Download)));
    assert!(matches!(
        route("POST", "/extensions/dev", &cors),
        Route::Guarded(Guarded::InstallDevExtension)
    ));
    assert!(matches!(
        route("GET", "/extensions/dev", &cors),
        Route::Guarded(Guarded::Asset(None))
    ));
}

#[test]
fn control_routes_only_on_the_control_listener() {
    let cors = state(&[]).cors_decision(None);
    assert_eq!(refusal(route("POST", CONTROL_LIFECYCLE_PATH, &cors)), (404, "not_found"));
    let gate = |loopback, method, path, authorized| {
        route_control(loopback, method, path, authorized).map(|r| (r.status, r.code))
    };
    assert_eq!(gate(true, "POST", CONTROL_LIFECYCLE_PATH, true), None);
    assert_eq!(gate(true, "POST", CONTROL_EXTENSIONS_PATH, false), Some((401, "unauthorized")));
    assert_eq!(gate(true, "GET", CONTROL_PORTS_PATH, true), Some((405, "method_not_allowed")));
    assert_eq!(gate(true, "POST", "/control/other", true), Some((404, "not_found")));
    assert_eq!(gate(false, "POST", CONTROL_PORTS_PATH, true), Some((401, "unauthorized")));
    match control_answer(None) {
        ControlAnswer::Refuse(refusal) => {
            assert_eq!((refusal.status, refusal.code), (413, "body_too_large"));
        }
        other => panic!("{other:?}"),
    }
    assert!(matches!(
        control_answer(Some(ControlResponse::NoContent)),
        ControlAnswer::NoContent
    ));
    assert!(matches!(
        control_answer(Some(ControlResponse::BadRequest("why".into()))),
        ControlAnswer::BadRequest { message } if message == "why"
    ));
    assert!(matches!(
        control_answer(Some(ControlResponse::NotFound)),
        ControlAnswer::Refuse(Refusal { status: 404, .. })
    ));
    assert!(matches!(
        control_answer(Some(ControlResponse::Unauthorized)),
        ControlAnswer::Refuse(Refusal { status: 401, .. })
    ));
}

#[test]
fn control_reports_session_attached() {
    let mut control = RecordingControl::new("test-control-secret");
    let body = b"{\"kind\":\"stopping\"}";
    let mut ask = |bearer| {
        control.handle(ControlRequest {
            method: "POST",
            path: CONTROL_LIFECYCLE_PATH,
            bearer,
            peer_is_loopback: true,
            session_attached: true,
            body,
        })
    };
    assert!(matches!(ask(Some("test-control-secret")), ControlResponse::NoContent));
    assert!(matches!(ask(Some("nope")), ControlResponse::Unauthorized));
    assert!(matches!(ask(None), ControlResponse::Unauthorized));
    let seen = control.seen();
    assert_eq!(seen.len(), 3);
    assert_eq!(seen[0].method, "POST");
    assert_eq!(seen[0].path, CONTROL_LIFECYCLE_PATH);
    assert!(seen[0].peer_is_loopback);
    assert!(seen[0].session_attached);
    assert_eq!(seen[0].body_len, body.len());
}

#[test]
fn files_requests_require_a_valid_token() {
    let refusal = authenticate_request(&request("/files?path=x", &[])).err().unwrap();
    assert_eq!((refusal.status, refusal.code), (401, "missing_token"));
    let req = request("/files?path=x&zs_token=T", &[]);
    assert_eq!(authenticate_request(&req).unwrap(), "T");
    assert_eq!(Refusal::of_auth(&AuthError::WrongWorkspace).status, 403);
}

#[test]
fn extension_asset_path_parsing() {
    assert_eq!(
        parse_extension_asset_path("/extensions/theme-x/assets/themes/x.json"),
        Some(("theme-x".to_owned(), "themes/x.json".to_owned()))
    );
    assert_eq!(
        parse_extension_asset_path("/extensions/theme%2Dx/assets/a%2Fb.json"),
        Some(("theme-x".to_owned(), "a/b.json".to_owned()))
    );
    assert_eq!(
        parse_extension_asset_path("/extensions/theme-x/assets/"),
        Some(("theme-x".to_owned(), ".".to_owned()))
    );
    assert_eq!(parse_extension_asset_path("/extensions/theme-x"), None);
    assert_eq!(parse_extension_asset_path("/extensions//assets/x"), None);
    assert_eq!(parse_extension_asset_path("/extensions/%ff/assets/x"), None);
    assert_eq!(
        parse_extension_asset_path("/extensions/a/assets/b/assets/c"),
        Some(("a".to_owned(), "b/assets/c".to_owned()))
    );
}

#[test]
fn extensions_are_installed_one_at_a_time() {
    let tar = request("/extensions/dev", &[("content-type", "application/x-tar")]);
    assert!(begin_install(&tar, false).is_ok());
    let busy = begin_install(&tar, true).err().unwrap();
    assert_eq!((busy.status, busy.code), (409, "extension_build_in_progress"));
    let other = request("/extensions/dev", &[("content-type", "application/zip")]);
    let other = begin_install(&other, false).err().unwrap();
    assert_eq!((other.status, other.code), (415, "expected_tar_archive"));
    assert!(matches!(
        install_dev_extension(InstallOutcome::Installed),
        InstallAnswer::Installed
    ));
    assert!(matches!(
        install_dev_extension(InstallOutcome::Failed("bad".into())),
        InstallAnswer::Failed(reason) if reason == "bad"
    ));
    assert!(matches!(
        install_dev_extension(InstallOutcome::TooLarge),
        InstallAnswer::Refuse(Refusal { status: 413, .. })
    ));
    assert!(matches!(
        install_dev_extension(InstallOutcome::Unavailable),
        InstallAnswer::Refuse(Refusal { status: 503, .. })
    ));
}

#[test]
fn the_clock_is_read_in_milliseconds() {
    assert_eq!(clock_ms(None), 0);
    assert_eq!(clock_ms(Some(7)), 7);
    assert_eq!(clock_ms(Some(1 << 64)), 0);
    assert!(unix_ms() > 1_600_000_000_000);
}
