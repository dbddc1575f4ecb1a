use pixelflut::color::{Color, ParseColorError};
use pixelflut::pixel::Pixel;

#[test]
fn channels_are_packed_red_first() {
    let c = Color::from_rgba(0x12, 0x34, 0x56, 0x78);
    assert_eq!(c.raw(), 0x12345678);
    assert_eq!((c.r(), c.g(), c.b(), c.a()), (0x12, 0x34, 0x56, 0x78));
    assert_eq!(Color::from_rgb(1, 2, 3).raw(), 0x010203ff);
    assert_eq!(Color::black().raw(), 0x000000ff);
    assert_eq!(Color::new(7).raw(), 7);
}

#[test]
fn hex_is_eight_lower_case_digits() {
    assert_eq!(Color::new(0xff0000ff).hex(), "ff0000ff");
    assert_eq!(Color::new(0x0a0b0c0d).hex(), "0a0b0c0d");
    assert_eq!(Color::new(0).hex(), "00000000");
    assert_eq!(Color::new(0xABCDEF01).hex_bytes(), b"abcdef01".to_vec());
}

#[test]
fn from_hex_accepts_eight_six_and_two_digits() {
    assert_eq!(Color::from_hex("12345678").unwrap().raw(), 0x12345678);
    assert_eq!(Color::from_hex("ff0000").unwrap().raw(), 0xff0000ff);
    assert_eq!(Color::from_hex("FF00aa").unwrap().raw(), 0xff00aaff);
    assert_eq!(Color::from_hex("ff").unwrap().raw(), 0xffffffff);
    assert_eq!(Color::from_hex("80").unwrap().raw(), 0x808080ff);
}

#[test]
fn from_hex_rejects_bad_text() {
    assert_eq!(Color::from_hex("fff").unwrap_err(), ParseColorError::InvalidLength);
    assert_eq!(Color::from_hex("").unwrap_err(), ParseColorError::InvalidLength);
    assert_eq!(Color::from_hex("123456789").unwrap_err(), ParseColorError::InvalidLength);
    assert_eq!(Color::from_hex("gg0000").unwrap_err(), ParseColorError::InvalidDigit);
    assert_eq!(Color::from_hex("+f0000").unwrap_err(), ParseColorError::InvalidDigit);
}

#[test]
fn hex_round_trips() {
    for v in [0u32, 1, 0xff, 0x12345678, 0xdeadbeef, 0xffffffff, 0x80808080] {
        let c = Color::new(v);
        assert!(Color::from_hex(&c.hex()).unwrap().equals(c));
        let six = &c.hex()[..6];
        assert_eq!(Color::from_hex(six).unwrap().raw(), (v & 0xffffff00) | 0xff);
    }
}

#[test]
fn overlay_of_half_gray_on_black() {
    let mut c = Color::new(0x000000ff);
    c.overlay_mut(Color::new(0x80808080));
    assert_eq!(c.raw(), 0x404040ff);
}

#[test]
fn overlay_mixes_each_channel() {
    let base = Color::from_rgba(200, 100, 0, 0x10);
    let c = base.overlaid(Color::from_rgba(0, 255, 255, 51));
    // (200*204 + 0*51)/255 = 160, (100*204 + 255*51)/255 = 131, (0 + 255*51)/255 = 51
    assert_eq!((c.r(), c.g(), c.b(), c.a()), (160, 131, 51, 0x10));
}

#[test]
fn overlay_transparent_keeps_destination() {
    for d in [0u32, 0x12345678, 0xffffffff, 0x80808001] {
        let c = Color::new(d).overlaid(Color::new(0xabcdef00));
        assert_eq!(c.raw(), d);
    }
}

#[test]
fn overlay_opaque_takes_source_color_and_keeps_alpha() {
    let c = Color::new(0x11223344).overlaid(Color::new(0xaabbccff));
    assert_eq!(c.raw(), 0xaabbcc44);
}

#[test]
fn equals_compares_packed_values() {
    assert!(Color::new(5).equals(Color::new(5)));
    assert!(!Color::new(5).equals(Color::new(6)));
}

#[test]
fn pixel_keeps_coordinates_and_prints_channels() {
    let mut p = Pixel::new(3, 4, 1, 20, 255);
    assert_eq!(p.as_string(), "1 20 255");
    p.set_color(0, 9, 10);
    assert_eq!((p.x, p.y), (3, 4));
    assert_eq!(p.as_string(), "0 9 10");
    let q = p;
    assert_eq!(q, p);
}
