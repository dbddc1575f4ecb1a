use pixelflut::color::Color;
use pixelflut::pixel_map::PixelMap;
use pixelflut::protocol::{Connection, HELP};

fn canvas() -> PixelMap {
    PixelMap::new(1280, 720)
}

fn send(conn: &mut Connection, map: &mut PixelMap, line: &str) -> Vec<u8> {
    let r = conn.handle_line(map, line.as_bytes());
    assert!(!r.close);
    r.bytes
}

#[test]
fn size_reports_dimensions() {
    let (mut c, mut m) = (Connection::new(), canvas());
    assert_eq!(send(&mut c, &mut m, "SIZE\n"), b"SIZE 1280 720\n".to_vec());
}

#[test]
fn write_then_read_returns_stored_color() {
    let (mut c, mut m) = (Connection::new(), canvas());
    assert_eq!(send(&mut c, &mut m, "PX 5 7 ff0000\n"), Vec::<u8>::new());
    assert_eq!(send(&mut c, &mut m, "PX 5 7\n"), b"PX 5 7 ff0000ff\n".to_vec());
    assert_eq!(send(&mut c, &mut m, "PX 5 7 00ff0080\r\n"), Vec::<u8>::new());
    let expected = Color::new(0xff0000ff).overlaid(Color::new(0x00ff0080));
    let reply = send(&mut c, &mut m, "PX 5 7");
    assert_eq!(reply, format!("PX 5 7 {}\n", expected.hex()).into_bytes());
}

#[test]
fn half_transparent_gray_on_black() {
    let (mut c, mut m) = (Connection::new(), canvas());
    send(&mut c, &mut m, "PX 10 10 80808080\n");
    assert_eq!(m.get_pixel(10, 10), 0x404040ff);
}

#[test]
fn two_digit_gray_defaults_alpha() {
    let (mut c, mut m) = (Connection::new(), canvas());
    send(&mut c, &mut m, "PX 0 0 ff\n");
    assert_eq!(m.get_pixel(0, 0), 0xffffffff);
}

#[test]
fn coordinate_equal_to_size_is_zero_based_error() {
    let (mut c, mut m) = (Connection::new(), canvas());
    let msg = b"ERR: 0 based index...\n".to_vec();
    assert_eq!(send(&mut c, &mut m, "PX 1280 5 ff0000\n"), msg);
    assert_eq!(send(&mut c, &mut m, "PX 5 720 ff0000\n"), msg);
    assert_eq!(send(&mut c, &mut m, "PX 1280 0\n"), msg);
    assert_eq!(m.version(), 1);
}

#[test]
fn coordinate_beyond_size_is_out_of_bounds() {
    let (mut c, mut m) = (Connection::new(), canvas());
    let msg = b"ERR: Out of Bounds (Tip: SIZE)\n".to_vec();
    assert_eq!(send(&mut c, &mut m, "PX 1281 5 ff0000\n"), msg);
    assert_eq!(send(&mut c, &mut m, "PX 5 9999\n"), msg);
}

#[test]
fn missing_and_malformed_fields() {
    let (mut c, mut m) = (Connection::new(), canvas());
    assert_eq!(send(&mut c, &mut m, "PX\n"), b"ERR: Missing X\n".to_vec());
    assert_eq!(send(&mut c, &mut m, "PX 3\n"), b"ERR: Missing Y\n".to_vec());
    assert_eq!(send(&mut c, &mut m, "PX a 3\n"), b"ERR: Bad Number\n".to_vec());
    assert_eq!(send(&mut c, &mut m, "PX 3 -1\n"), b"ERR: Bad Number\n".to_vec());
    assert_eq!(send(&mut c, &mut m, "PX 3 4 red\n"), b"ERR: Bad Number\n".to_vec());
    assert_eq!(send(&mut c, &mut m, "PX 99999999999 4\n"), b"ERR: Bad Number\n".to_vec());
}

#[test]
fn unknown_and_help() {
    let (mut c, mut m) = (Connection::new(), canvas());
    assert_eq!(send(&mut c, &mut m, "px 1 1\n"), b"ERR: Unknown Command\n".to_vec());
    assert_eq!(send(&mut c, &mut m, "\n"), b"ERR: Unknown Command\n".to_vec());
    assert_eq!(send(&mut c, &mut m, "HELP\n"), HELP.as_bytes().to_vec());
}

#[test]
fn exit_replies_and_closes() {
    let (mut c, mut m) = (Connection::new(), canvas());
    let r = c.handle_line(&mut m, b"EXIT\n");
    assert!(r.close);
    assert_eq!(r.bytes, b"EXITING\n".to_vec());
}

#[test]
fn debug_echoes_writes() {
    let (mut c, mut m) = (Connection::new(), canvas());
    assert_eq!(send(&mut c, &mut m, "DEBUG\n"), Vec::<u8>::new());
    assert!(c.debug);
    assert_eq!(send(&mut c, &mut m, "PX 1 2 00ff00\n"), b"PX 1 2 00ff00\n".to_vec());
    send(&mut c, &mut m, "DEBUG");
    assert!(!c.debug);
    assert_eq!(send(&mut c, &mut m, "PX 1 2 0000ff\n"), Vec::<u8>::new());
}

#[test]
fn binary_mode_acknowledges_and_writes_frames() {
    let (mut c, mut m) = (Connection::new(), canvas());
    assert_eq!(send(&mut c, &mut m, "BIN\n"), vec![0xac, 0xce, 0x91]);
    assert!(c.binary);
    let r = c.handle_frame(&mut m, &[0x05, 0x00, 0x07, 0x00, 0x00, 0xff, 0x00, 0xff]);
    assert_eq!(r.bytes, Vec::<u8>::new());
    assert_eq!(m.get_pixel(5, 7), 0x00ff00ff);
}

#[test]
fn binary_frame_errors() {
    let (mut c, mut m) = (Connection::new(), canvas());
    send(&mut c, &mut m, "BIN\n");
    let r = c.handle_frame(&mut m, &[1, 2, 3]);
    assert_eq!(r.bytes, b"ERR: Invalid Binary Length\n".to_vec());
    let r = c.handle_frame(&mut m, &[0x00, 0x05, 0x00, 0x00, 0xff, 0xff, 0xff, 0xff]);
    assert_eq!(r.bytes, b"ERR: Out of Bounds (Tip: SIZE)\n".to_vec());
    let r = c.handle_frame(&mut m, &[0x00, 0x00, 0xd0, 0x02, 0xff, 0xff, 0xff, 0xff]);
    assert_eq!(r.bytes, b"ERR: Out of Bounds (Tip: SIZE)\n".to_vec());
    assert_eq!(m.version(), 1);
}

#[test]
fn binary_debug_echoes_hex() {
    let (mut c, mut m) = (Connection::new(), canvas());
    send(&mut c, &mut m, "DEBUG\n");
    send(&mut c, &mut m, "BIN\n");
    let r = c.handle_frame(&mut m, &[0x2c, 0x01, 0x02, 0x00, 0x12, 0x34, 0x56, 0xff]);
    assert_eq!(r.bytes, b"PX 300 2 123456ff\n".to_vec());
    assert_eq!(m.get_pixel(300, 2), 0x123456ff);
}

#[test]
fn interleaved_clients_with_disjoint_cells() {
    let mut m = canvas();
    let (mut a, mut b) = (Connection::new(), Connection::new());
    for i in 0..10_000u32 {
        let (xa, ya) = (i % 640, i / 640);
        let (xb, yb) = (640 + i % 640, 360 + i / 640);
        let ca = 0x01000000u32.wrapping_mul(i % 200 + 1) | 0x0000ffff;
        let cb = (i << 8) | 0xff;
        send(&mut a, &mut m, &format!("PX {} {} {:08x}\n", xa, ya, ca));
        send(&mut b, &mut m, &format!("PX {} {} {:08x}\n", xb, yb, cb));
    }
    for i in 0..10_000u32 {
        let ca = 0x01000000u32.wrapping_mul(i % 200 + 1) | 0x0000ffff;
        let cb = (i << 8) | 0xff;
        assert_eq!(m.get_pixel(i % 640, i / 640), ca);
        assert_eq!(m.get_pixel(640 + i % 640, 360 + i / 640), cb);
    }
}
