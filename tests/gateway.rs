use pixelflut::color::Color;
use pixelflut::gateway::{canvas_reply, handshake, initial_frame, on_message, route, Route};
use pixelflut::pixel_map::PixelMap;

const UPGRADE: &str = "GET /api/ws HTTP/1.1\r\nHost: localhost\r\nUpgrade: websocket\r\nConnection: Upgrade\r\nSec-WebSocket-Key: dGhlIHNhbXBsZSBub25jZQ==\r\nSec-WebSocket-Version: 13\r\n\r\n";

#[test]
fn routes_by_path() {
    assert!(matches!(route(b"GET /api/canvas HTTP/1.1\r\n\r\n"), Route::Canvas));
    assert!(matches!(route(b"GET /index.html HTTP/1.1\r\n\r\n"), Route::NotFound));
    assert!(matches!(route(b""), Route::Invalid));
    assert!(matches!(route(b"GET\r\n"), Route::Invalid));
    let mut long = b"GET /api/canvas HTTP/1.1\r\nX: ".to_vec();
    long.resize(8192, b'a');
    assert!(matches!(route(&long), Route::Invalid));
    long.truncate(8191);
    assert!(matches!(route(&long), Route::Canvas));
    assert!(matches!(route(b"GET /api/ws HTTP/1.1\r\n\r\n"), Route::Invalid));
    match route(UPGRADE.as_bytes()) {
        Route::Upgrade(key) => assert_eq!(key, b"dGhlIHNhbXBsZSBub25jZQ==".to_vec()),
        _ => panic!("expected an upgrade"),
    }
}

#[test]
fn key_header_name_is_matched_in_any_case() {
    let req = b"GET /ws HTTP/1.1\nsec-WEBSOCKET-key: abc\n\n";
    match route(req) {
        Route::Upgrade(key) => assert_eq!(key, b"abc".to_vec()),
        _ => panic!("expected an upgrade"),
    }
}

#[test]
fn handshake_accept_value() {
    let r = handshake(b"dGhlIHNhbXBsZSBub25jZQ==");
    assert_eq!(
        String::from_utf8(r).unwrap(),
        "HTTP/1.1 101 Switching Protocols\r\nUpgrade: websocket\r\nConnection: Upgrade\r\nSec-WebSocket-Accept: s3pPLMBiTxaQ9kYGzzhZRbK+xOo=\r\n\r\n"
    );
}

#[test]
fn canvas_response_headers_and_body() {
    let mut m = PixelMap::new(3, 2);
    let r = canvas_reply(&mut m);
    let (body, reused) = m.to_qoi();
    assert!(reused);
    let mut expected = format!(
        "HTTP/1.1 200 OK\r\nContent-Type: image/qoi\r\nDimensions: 3x2\r\nContent-Length: {}\r\n\r\n",
        body.len()
    )
    .into_bytes();
    expected.extend_from_slice(&body);
    assert_eq!(r, expected);
}

#[test]
fn update_sends_frame_then_no_change_byte() {
    let mut m = PixelMap::new(1280, 720);
    let first = on_message(&mut m, b"update").unwrap();
    assert!(first.len() > 1);
    assert_eq!(on_message(&mut m, b"please update").unwrap(), vec![0u8]);
    m.draw(3, 3, Color::new(0xffffffff));
    let changed = on_message(&mut m, b"update").unwrap();
    assert!(changed.len() > 1);
    assert_ne!(changed, first);
    assert!(on_message(&mut m, b"hello").is_none());
}

#[test]
fn initial_frame_is_compressed_canvas() {
    let mut m = PixelMap::new(1280, 720);
    let frame = initial_frame(&mut m);
    let (raw, reused) = m.to_qoi();
    assert!(reused);
    assert!(!frame.is_empty());
    assert!(frame.len() < raw.len());
    assert_ne!(frame, raw);
}
