use pixelflut::color::Color;
use pixelflut::pixel_map::PixelMap;

#[test]
fn new_canvas_is_black_at_version_one() {
    let m = PixelMap::new(4, 3);
    assert_eq!(m.get_size(), (4, 3));
    assert_eq!((m.get_width(), m.get_height()), (4, 3));
    assert_eq!(m.version(), 1);
    for y in 0..3 {
        for x in 0..4 {
            assert_eq!(m.get_pixel(x, y), 0x000000ff);
        }
    }
}

#[test]
fn store_writes_one_cell_and_counts_a_version() {
    let mut m = PixelMap::new(4, 3);
    m.store(2, 1, Color::new(0x11223344));
    assert_eq!(m.get_color(2, 1).raw(), 0x11223344);
    assert_eq!(m.get_pixel(1, 2), 0x000000ff);
    assert_eq!(m.get_pixel(2, 0), 0x000000ff);
    assert_eq!(m.version(), 2);
}

#[test]
fn draw_overlays_and_skips_unchanged_cells() {
    let mut m = PixelMap::new(4, 3);
    assert!(m.draw(1, 1, Color::new(0x80808080)));
    assert_eq!(m.get_pixel(1, 1), 0x404040ff);
    assert_eq!(m.version(), 2);
    // laying black over black changes nothing and keeps the version
    assert!(!m.draw(0, 0, Color::new(0x000000ff)));
    assert!(!m.draw(1, 1, Color::new(0xffffff00)));
    assert_eq!(m.version(), 2);
    assert!(m.draw(3, 2, Color::new(0x00ff00ff)));
    assert_eq!(m.get_pixel(3, 2), 0x00ff00ff);
    assert_eq!(m.version(), 3);
}

#[test]
fn rgba_is_row_major() {
    let mut m = PixelMap::new(2, 2);
    m.store(1, 0, Color::new(0x01020304));
    m.store(0, 1, Color::new(0x05060708));
    assert_eq!(
        m.rgba(),
        vec![0, 0, 0, 255, 1, 2, 3, 4, 5, 6, 7, 8, 0, 0, 0, 255]
    );
}

#[test]
fn frame_is_reused_until_a_write_changes_a_cell() {
    let mut m = PixelMap::new(8, 8);
    let (first, reused) = m.to_qoi();
    assert!(!reused);
    assert_eq!(&first[..4], b"qoif");
    let (again, reused) = m.to_qoi();
    assert!(reused);
    assert_eq!(again, first);
    // a write that changes nothing keeps the frame
    m.draw(0, 0, Color::new(0x00000000));
    assert!(m.to_qoi().1);
    m.draw(0, 0, Color::new(0xffffffff));
    let (third, reused) = m.to_qoi();
    assert!(!reused);
    assert_ne!(third, first);
    assert!(m.to_qoi().1);
}

#[test]
fn encoded_frame_loads_back() {
    let mut m = PixelMap::new(5, 4);
    m.store(4, 3, Color::new(0x12345678));
    m.store(0, 0, Color::new(0xff00ff80));
    let (bytes, _) = m.to_qoi();
    let loaded = PixelMap::load_image(&bytes);
    assert_eq!(loaded.get_size(), (5, 4));
    assert_eq!(loaded.version(), 1);
    for y in 0..4 {
        for x in 0..5 {
            assert_eq!(loaded.get_pixel(x, y), m.get_pixel(x, y));
        }
    }
}

#[test]
fn unreadable_image_gives_default_canvas() {
    let m = PixelMap::load_image(b"not an image");
    assert_eq!(m.get_size(), (1280, 720));
    assert_eq!(m.get_pixel(1279, 719), 0x000000ff);
    let empty = PixelMap::load_image(&[]);
    assert_eq!(empty.get_size(), (1280, 720));
    // a header announcing an enormous image is not decoded
    let mut huge = b"qoif".to_vec();
    huge.extend_from_slice(&[0xff, 0xff, 0xff, 0xff, 0xff, 0xff, 0xff, 0xff, 4, 1]);
    huge.extend_from_slice(&[0, 0, 0, 0, 0, 0, 0, 1]);
    assert_eq!(PixelMap::load_image(&huge).get_size(), (1280, 720));
}

#[test]
fn clone_is_independent() {
    let mut m = PixelMap::new(3, 3);
    m.store(1, 1, Color::new(0x11111111));
    let (frame, _) = m.to_qoi();
    let mut copy = m.clone();
    assert_eq!(copy.get_pixel(1, 1), 0x11111111);
    assert_eq!(copy.version(), m.version());
    assert!(copy.frame_is_current());
    assert_eq!(copy.to_qoi(), (frame, true));
    copy.store(0, 0, Color::new(0x22222222));
    assert_eq!(m.get_pixel(0, 0), 0x000000ff);
    assert!(m.frame_is_current());
    assert!(!copy.frame_is_current());
}
