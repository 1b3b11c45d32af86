use fluxor::bridge::{
    authorized, bridge_token, find_header_end, http_response, is_extension_origin,
    is_valid_token, json_app_error, json_error, parse_request_head, route, scan_request_head,
    status_response, BridgeError, BridgeRoute, HeadScan, MAX_REQUEST_BYTES,
};
use fluxor::error::AppError;

#[test]
fn responses_only_enable_cors_for_the_expected_extension() {
    let response = http_response(
        200,
        "application/json",
        "{}",
        Some("chrome-extension://example"),
    );
    assert!(response.contains("chrome-extension://example"));
    assert!(response.contains("Content-Length: 2"));

    let denied = json_error(403, "denied", None);
    assert!(!denied.contains("Access-Control-Allow-Origin"));
    assert!(is_extension_origin("moz-extension://example"));
    assert!(!is_extension_origin("https://example.com"));
    assert!(is_valid_token("0123456789abcdef0123456789abcdef"));
    assert!(!is_valid_token("short"));
}

#[test]
fn response_has_exact_status_line_headers_and_body() {
    let response = http_response(204, "text/plain", "", None);
    assert_eq!(
        response,
        "HTTP/1.1 204 No Content\r\nContent-Type: text/plain\r\nContent-Length: 0\r\nCache-Control: no-store\r\nX-Content-Type-Options: nosniff\r\nConnection: close\r\n\r\n"
    );
    let with_origin = http_response(418, "text/plain", "ñ", Some("moz-extension://x"));
    assert!(with_origin.starts_with("HTTP/1.1 418 Error\r\n"));
    assert!(with_origin.contains("Content-Length: 2\r\n"));
    assert!(with_origin.contains("Access-Control-Allow-Origin: moz-extension://x\r\nAccess-Control-Allow-Methods: GET, POST, OPTIONS\r\nAccess-Control-Allow-Headers: Content-Type, X-Fluxor-Token\r\nVary: Origin\r\n"));
    assert!(with_origin.ends_with("\r\n\r\nñ"));
}

#[test]
fn error_body_quotes_the_message_as_json() {
    let response = json_error(404, "Ruta \"no\" encontrada", None);
    assert!(response.starts_with("HTTP/1.1 404 Not Found\r\n"));
    assert!(response.ends_with("{\"ok\":false,\"data\":null,\"error\":\"Ruta \\\"no\\\" encontrada\"}"));
    let refused = json_app_error(&AppError::DownloadNotFound, None);
    assert!(refused.starts_with("HTTP/1.1 422 Unprocessable Content\r\n"));
    assert!(refused.ends_with("\"error\":\"Descarga no encontrada\"}"));
}

#[test]
fn status_reports_the_port_without_the_token() {
    let response = status_response(None);
    assert!(response.ends_with(
        "{\"ok\":true,\"data\":{\"available\":true,\"port\":17846,\"token\":\"\"},\"error\":null}"
    ));
}

#[test]
fn token_checks_count_hex_digits() {
    assert!(is_valid_token("ABCDEF0123456789abcdef0123456789"));
    assert!(!is_valid_token("0123456789abcdef0123456789abcdeg"));
    assert!(!is_valid_token("0123456789abcdef0123456789abcdef0"));
    let kept = bridge_token(Some("  0123456789abcdef0123456789abcdef\n"));
    assert_eq!(kept, "0123456789abcdef0123456789abcdef");
    let fresh = bridge_token(Some("broken"));
    assert!(is_valid_token(&fresh));
    assert_ne!(fresh, "broken");
    assert!(is_valid_token(&bridge_token(None)));
}

#[test]
fn requests_need_an_extension_origin_and_the_token() {
    let token = "0123456789abcdef0123456789abcdef";
    assert!(authorized("POST", Some("chrome-extension://a"), Some(token), token));
    assert!(authorized("GET", None, Some(token), token));
    assert!(!authorized("GET", Some("https://evil.example"), Some(token), token));
    assert!(!authorized("POST", None, Some("wrong"), token));
    assert!(!authorized("POST", None, None, token));
    assert!(authorized("OPTIONS", Some("moz-extension://b"), None, token));
    assert!(!authorized("OPTIONS", Some("https://evil.example"), None, token));
}

#[test]
fn routes_follow_method_and_path() {
    assert_eq!(route("OPTIONS", "/anything"), BridgeRoute::Preflight);
    assert_eq!(route("GET", "/v1/status"), BridgeRoute::Status);
    assert_eq!(route("POST", "/v1/downloads"), BridgeRoute::CreateDownload);
    assert_eq!(route("GET", "/v1/downloads"), BridgeRoute::NotFound);
}

#[test]
fn request_head_is_read_from_its_lines() {
    let raw = b"POST /v1/downloads?x=1 HTTP/1.1\r\nHost: 127.0.0.1\r\nContent-Length: 12\r\nORIGIN: chrome-extension://abc \r\nX-Fluxor-Token:  tok\r\n\r\n{\"input\":{}}".to_vec();
    let end = find_header_end(&raw).unwrap();
    assert_eq!(&raw[end - 4..end], b"\r\n\r\n");
    assert_eq!(scan_request_head(&raw), HeadScan::Complete(end));
    let head = parse_request_head(&raw, end).unwrap();
    assert_eq!(head.method, "POST");
    assert_eq!(head.path, "/v1/downloads");
    assert_eq!(head.content_length, 12);
    assert_eq!(head.origin.as_deref(), Some("chrome-extension://abc"));
    assert_eq!(head.token.as_deref(), Some("tok"));
}

#[test]
fn malformed_request_heads_are_refused() {
    let partial = b"GET / HTTP/1.1\r\nHost: x\r\n".to_vec();
    assert_eq!(scan_request_head(&partial), HeadScan::NeedMore);
    let bad_length = b"GET / HTTP/1.1\r\nContent-Length: many\r\n\r\n".to_vec();
    let end = find_header_end(&bad_length).unwrap();
    assert_eq!(
        parse_request_head(&bad_length, end).unwrap_err(),
        BridgeError::InvalidContentLength
    );
    let huge = b"POST / HTTP/1.1\r\nContent-Length: 2000000\r\n\r\n".to_vec();
    let end = find_header_end(&huge).unwrap();
    assert_eq!(parse_request_head(&huge, end).unwrap_err(), BridgeError::TooLarge);
    let not_utf8 = b"GET /\xff HTTP/1.1\r\n\r\n".to_vec();
    let end = find_header_end(&not_utf8).unwrap();
    assert_eq!(parse_request_head(&not_utf8, end).unwrap_err(), BridgeError::InvalidHeaders);
    let too_much = vec![b'a'; MAX_REQUEST_BYTES + 1];
    assert_eq!(scan_request_head(&too_much), HeadScan::TooLarge);
    assert_eq!(BridgeError::TooLarge.message(), "request too large");
}
