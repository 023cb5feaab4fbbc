use machine_code::hardware::{collect_machine_info, FieldResult, MachineInfo};
use machine_code::json::JsonValue;
use machine_code::server::{
    find_header_end, header_progress, is_preflight, parse_request_head, request_body, response_head,
    route_of, route_request, ApiAction, ApiResponse, HeaderProgress, Route, MAX_HEADER_BYTES,
};
use machine_code::state::AppState;

fn info() -> MachineInfo {
    let ok = |label: &str, v: &str| FieldResult::ok(label, v.to_string(), "test");
    let fail = |label: &str| FieldResult::fail(label, "multi-source", "n/a".to_string());
    collect_machine_info(
        ok("mac", "AA:BB:CC:DD:EE:FF"),
        ok("motherboard", "MB1"),
        fail("cpu"),
        fail("disk"),
        fail("system_uuid"),
        fail("bios"),
        ok("computer_name", "PC"),
        "0.1.0".to_string(),
    )
}

/// The members of an answer, rendered compactly for comparison.
fn members(r: &ApiResponse) -> Vec<(String, String)> {
    r.fields
        .iter()
        .map(|(k, v)| {
            let text = match v {
                JsonValue::String(s) => format!("\"{}\"", s),
                JsonValue::Bool(b) => b.to_string(),
                _ => "?".to_string(),
            };
            (k.clone(), text)
        })
        .collect()
}

fn pairs(p: &[(&str, &str)]) -> Vec<(String, String)> {
    p.iter().map(|(a, b)| (a.to_string(), b.to_string())).collect()
}

fn answer(a: ApiAction) -> ApiResponse {
    match a {
        ApiAction::Reply(r) => r,
        ApiAction::CollectMachineInfo => panic!("expected an answer"),
    }
}

#[test]
fn header_end_position() {
    assert_eq!(find_header_end(b"GET / HTTP/1.1\r\nHost: x\r\n\r\nbody"), Some(23));
    assert_eq!(find_header_end(b"\r\n\r\n"), Some(0));
    assert_eq!(find_header_end(b"a\r\n\r\nb\r\n\r\n"), Some(1));
    assert_eq!(find_header_end(b"GET / HTTP/1.1\r\n\r"), None);
    assert_eq!(find_header_end(b""), None);
}

#[test]
fn header_reading_progress() {
    assert!(matches!(header_progress(b"GET /"), HeaderProgress::NeedMore));
    assert!(matches!(header_progress(b"a\r\n\r\n"), HeaderProgress::Complete(1)));
    let big = vec![b'a'; MAX_HEADER_BYTES + 1];
    assert!(matches!(header_progress(&big), HeaderProgress::TooLarge));
    let limit = vec![b'a'; MAX_HEADER_BYTES];
    assert!(matches!(header_progress(&limit), HeaderProgress::NeedMore));
}

#[test]
fn request_line_and_length() {
    let h = parse_request_head(
        b"POST /api/set-auth?x=1 HTTP/1.1\r\nHost: a\r\n content-LENGTH : 17 \r\nContent-Length: 3",
    )
    .unwrap();
    assert_eq!(h.method, "POST");
    assert_eq!(h.path, "/api/set-auth");
    assert!(!parse_request_head(b"GET /a?b?c HTTP/1.1").unwrap().path.contains('?'));
    assert_eq!(h.content_length, 17);
}

#[test]
fn request_head_defaults() {
    let h = parse_request_head(b"GET").unwrap();
    assert_eq!(h.method, "GET");
    assert_eq!(h.path, "/");
    assert_eq!(h.content_length, 0);
    let h = parse_request_head(b"POST / HTTP/1.1\r\nContent-Length: abc\r\nContent-Length: 5").unwrap();
    assert_eq!(h.content_length, 0);
    let h = parse_request_head(b"\r\nHost: x").unwrap();
    assert_eq!(h.method, "");
    assert_eq!(h.path, "/");
    assert_eq!(parse_request_head(b"").err(), Some("缺少请求行".to_string()));
}

#[test]
fn routes() {
    assert!(route_of("GET", "/health") == Route::Health);
    assert!(route_of("GET", "/api/auth-status") == Route::AuthStatus);
    assert!(route_of("POST", "/api/set-auth") == Route::SetAuth);
    assert!(route_of("GET", "/api/machine-code") == Route::MachineCode);
    assert!(route_of("POST", "/health") == Route::NotFound);
    assert!(route_of("get", "/health") == Route::NotFound);
    assert!(is_preflight("OPTIONS"));
    assert!(!is_preflight("GET"));
}

#[test]
fn health_check() {
    let mut st = AppState::new();
    let r = answer(route_request(Route::Health, None, &mut st, "0.1.0", "C:\\log"));
    assert_eq!(r.status, 200);
    assert_eq!(r.reason, "OK");
    assert_eq!(
        members(&r),
        pairs(&[("status", "\"ok\""), ("version", "\"0.1.0\""), ("log_path", "\"C:\\log\"")])
    );
    assert!(r.machine_info.is_none());
}

#[test]
fn machine_code_needs_authorization() {
    let mut st = AppState::new();
    let r = answer(route_request(Route::MachineCode, None, &mut st, "v", "p"));
    assert_eq!(r.status, 403);
    assert_eq!(r.reason, "Forbidden");
    assert_eq!(
        members(&r),
        pairs(&[
            ("success", "false"),
            ("authorized", "false"),
            ("message", "\"未开启授权，请先在机器码工具中开启授权\""),
        ])
    );
}

#[test]
fn set_auth_then_machine_code() {
    let mut st = AppState::new();
    let r = answer(route_request(Route::SetAuth, Some(Ok(true)), &mut st, "v", "p"));
    assert_eq!(r.status, 200);
    assert_eq!(members(&r), pairs(&[("success", "true"), ("authorized", "true")]));
    assert!(st.authorized);

    let r = answer(route_request(Route::AuthStatus, None, &mut st, "v", "p"));
    assert_eq!(members(&r), pairs(&[("authorized", "true")]));

    assert!(matches!(
        route_request(Route::MachineCode, None, &mut st, "v", "p"),
        ApiAction::CollectMachineInfo
    ));
    st.set_machine_info(info());
    let r = answer(route_request(Route::MachineCode, None, &mut st, "v", "p"));
    assert_eq!(r.status, 200);
    let id = format!("\"{}\"", info().machine_id);
    assert_eq!(
        members(&r),
        pairs(&[
            ("mac", "\"AA:BB:CC:DD:EE:FF\""),
            ("motherboard", "\"MB1\""),
            ("cpu", "\"————\""),
            ("disk", "\"————\""),
            ("system_uuid", "\"————\""),
            ("bios", "\"————\""),
            ("computer_name", "\"PC\""),
            ("machine_id", &id),
            ("confidence", "\"medium\""),
            ("version", "\"0.1.0\""),
            ("success", "true"),
            ("authorized", "true"),
        ])
    );
    let m = r.machine_info.unwrap();
    assert_eq!(m.motherboard.value, "MB1");
    assert_eq!(m.confidence, "medium");
}

#[test]
fn withdrawing_drops_the_cache() {
    let mut st = AppState::new();
    st.set_authorized(true);
    st.set_machine_info(info());
    let r = answer(route_request(Route::SetAuth, Some(Ok(false)), &mut st, "v", "p"));
    assert_eq!(members(&r), pairs(&[("success", "true"), ("authorized", "false")]));
    assert!(!st.authorized);
    assert!(st.machine_info.is_none());
}

#[test]
fn bad_set_auth_body() {
    let mut st = AppState::new();
    let r = answer(route_request(
        Route::SetAuth,
        Some(Err("missing field `authorized`".to_string())),
        &mut st,
        "v",
        "p",
    ));
    assert_eq!(r.status, 400);
    assert_eq!(r.reason, "Bad Request");
    assert_eq!(
        members(&r),
        pairs(&[("success", "false"), ("message", "\"JSON 参数错误: missing field `authorized`\"")])
    );
    assert!(!st.authorized);
}

#[test]
fn unknown_endpoint() {
    let mut st = AppState::new();
    let r = answer(route_request(Route::NotFound, None, &mut st, "v", "p"));
    assert_eq!(r.status, 404);
    assert_eq!(r.reason, "Not Found");
    assert_eq!(members(&r), pairs(&[("success", "false"), ("message", "\"接口不存在\"")]));
}

#[test]
fn response_head_lines() {
    assert_eq!(
        response_head(204, "No Content", "text/plain", 0),
        "HTTP/1.1 204 No Content\r\nContent-Type: text/plain\r\nContent-Length: 0\r\nAccess-Control-Allow-Origin: *\r\nAccess-Control-Allow-Methods: GET, POST, OPTIONS\r\nAccess-Control-Allow-Headers: *\r\nAccess-Control-Allow-Private-Network: true\r\nConnection: close\r\n\r\n"
    );
    assert!(response_head(200, "OK", "application/json; charset=utf-8", 1234)
        .starts_with("HTTP/1.1 200 OK\r\nContent-Type: application/json; charset=utf-8\r\nContent-Length: 1234\r\n"));
}

#[test]
fn state_cache_and_toggle() {
    let mut st = AppState::new();
    assert!(!st.authorized);
    assert!(st.machine_info(false).is_none());
    assert!(st.toggle_authorized());
    st.set_machine_info(info());
    assert_eq!(st.machine_info(false).unwrap().machine_id, info().machine_id);
    assert!(st.machine_info(true).is_none());
    assert!(!st.toggle_authorized());
    assert!(st.machine_info(false).is_none());
    assert!(!st.authorized);
}

#[test]
fn body_cut_to_content_length() {
    assert_eq!(request_body(b"{\"authorized\":true}extra".to_vec(), 19), b"{\"authorized\":true}".to_vec());
    assert_eq!(request_body(b"abc".to_vec(), 10), b"abc".to_vec());
    assert_eq!(request_body(b"abc".to_vec(), 0), Vec::<u8>::new());
}
