use ws_quiz::handshake::{
    build_handshake_response, classify_request, compute_accept_key, extract_client_key,
    ws_handshake_respond, HandshakeError, RequestKind,
};

const REQUEST: &str = "GET /ws HTTP/1.1\r\nHost: localhost:7878\r\nUpgrade: websocket\r\nConnection: Upgrade\r\nSec-WebSocket-Key: dGhlIHNhbXBsZSBub25jZQ==\r\nSec-WebSocket-Version: 13\r\n\r\n";

#[test]
fn rfc_accept_key_vector() {
    assert_eq!(compute_accept_key("dGhlIHNhbXBsZSBub25jZQ=="), "s3pPLMBiTxaQ9kYGzzhZRbK+xOo=");
}

#[test]
fn accept_key_is_not_the_client_key() {
    let k = compute_accept_key("x3JJHMbDL1EzLkh9GBhXDw==");
    assert_eq!(k, "HSmrc0sMlYUkAGmm5OPpG2HaGWk=");
    assert_eq!(k.len(), 28);
}

#[test]
fn response_text() {
    assert_eq!(
        build_handshake_response("s3pPLMBiTxaQ9kYGzzhZRbK+xOo="),
        "HTTP/1.1 101 Switching Protocols\r\nUpgrade: websocket\r\nConnection: Upgrade\r\nSec-WebSocket-Accept: s3pPLMBiTxaQ9kYGzzhZRbK+xOo=\r\n\r\n"
    );
}

#[test]
fn key_is_found_in_request() {
    assert_eq!(extract_client_key(REQUEST.as_bytes()).unwrap(), b"dGhlIHNhbXBsZSBub25jZQ==".to_vec());
}

#[test]
fn key_at_end_without_line_break() {
    let req = b"GET /ws HTTP/1.1\r\nSec-WebSocket-Key: dGhlIHNhbXBsZSBub25jZQ==";
    assert_eq!(extract_client_key(req).unwrap(), b"dGhlIHNhbXBsZSBub25jZQ==".to_vec());
}

#[test]
fn missing_key_is_refused() {
    let req = b"GET /ws HTTP/1.1\r\nHost: localhost\r\n\r\n";
    assert_eq!(extract_client_key(req), Err(HandshakeError::MissingKey));
    assert_eq!(ws_handshake_respond(req), Err(HandshakeError::MissingKey));
}

#[test]
fn short_key_is_malformed() {
    let req = b"GET /ws HTTP/1.1\r\nSec-WebSocket-Key: abc\r\n\r\n";
    assert_eq!(ws_handshake_respond(req), Err(HandshakeError::MalformedKey));
}

#[test]
fn full_handshake_response() {
    assert_eq!(
        ws_handshake_respond(REQUEST.as_bytes()).unwrap(),
        "HTTP/1.1 101 Switching Protocols\r\nUpgrade: websocket\r\nConnection: Upgrade\r\nSec-WebSocket-Accept: s3pPLMBiTxaQ9kYGzzhZRbK+xOo=\r\n\r\n"
    );
}

#[test]
fn requests_are_routed() {
    assert_eq!(classify_request(b"GET / HTTP/1.1\r\n\r\n"), RequestKind::Page);
    assert_eq!(classify_request(REQUEST.as_bytes()), RequestKind::Upgrade);
    assert_eq!(classify_request(b"GET /favicon.ico HTTP/1.1\r\n"), RequestKind::Unrouted);
    assert_eq!(classify_request(b"POST / HTTP/1.1\r\n"), RequestKind::NotGet);
    assert_eq!(classify_request(b""), RequestKind::NotGet);
}
