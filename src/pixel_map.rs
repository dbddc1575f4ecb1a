//! The canvas: a fixed-size grid of packed colors with a version counter
//! and the last encoded frame.
use vstd::prelude::*;

use crate::codec::{
    decode_qoi, encode_qoi_rgba, be_u32_at, header_fits, qoi_decoded, qoi_rgba_image, QoiColors,
    MAX_CELLS,
};
use crate::color::{alpha, blue, green, overlay, pack, red, Color};
use crate::text::push_all;

verus! {

/// The width of the canvas made when no image can be loaded.
pub const DEFAULT_WIDTH: u32 = 1280;

/// The height of the canvas made when no image can be loaded.
pub const DEFAULT_HEIGHT: u32 = 720;

/// Black with full alpha, the color of a new canvas.
pub const BLACK: u32 = 0xff;

/// What a canvas holds.
pub struct Canvas {
    pub width: u32,
    pub height: u32,
    /// Row-major: the cell of `(x, y)` is at `x + y * width`.
    pub cells: Seq<u32>,
    /// Counts the writes that changed the canvas, wrapping at `u64::MAX`.
    pub version: u64,
    /// The version at which the last frame was encoded, and that frame.
    pub cached: Option<(u64, Seq<u8>)>,
}

pub open spec fn cell_index(width: u32, x: u32, y: u32) -> int {
    x + y * width
}

pub open spec fn in_bounds(c: Canvas, x: u32, y: u32) -> bool {
    x < c.width && y < c.height
}

/// The color at `(x, y)`.
pub open spec fn cell(c: Canvas, x: u32, y: u32) -> u32 {
    c.cells[cell_index(c.width, x, y)]
}

/// A canvas of `width` x `height` black cells at version 1, with no frame.
pub open spec fn blank(width: u32, height: u32) -> Canvas {
    Canvas {
        width,
        height,
        cells: Seq::new((width * height) as nat, |i: int| BLACK),
        version: 1,
        cached: None,
    }
}

/// The version after one more write.
pub open spec fn next_version(v: u64) -> u64 {
    if v == u64::MAX {
        0
    } else {
        (v + 1) as u64
    }
}

/// Byte `k` of a packed color in red, green, blue, alpha order.
pub open spec fn channel_byte(v: u32, k: int) -> u8 {
    (if k == 0 {
        red(v)
    } else if k == 1 {
        green(v)
    } else if k == 2 {
        blue(v)
    } else {
        alpha(v)
    }) as u8
}

/// The cells as tightly packed RGBA bytes, in row-major order.
pub open spec fn rgba_bytes(cells: Seq<u32>) -> Seq<u8> {
    Seq::new(cells.len() * 4, |k: int| channel_byte(cells[k / 4], k % 4))
}

/// The canvas as an encoded QOI image.
pub open spec fn encoded(c: Canvas) -> Seq<u8> {
    qoi_rgba_image(c.width, c.height, rgba_bytes(c.cells))
}

/// The cell that pixel `i` of decoded QOI bytes gives, with `ch` bytes per
/// pixel; three-byte pixels get full alpha.
pub open spec fn decoded_cell(px: Seq<u8>, ch: int, i: int) -> u32 {
    (if ch == 4 {
        pack(px[4 * i] as int, px[4 * i + 1] as int, px[4 * i + 2] as int, px[4 * i + 3] as int)
    } else {
        pack(px[3 * i] as int, px[3 * i + 1] as int, px[3 * i + 2] as int, 255)
    }) as u32
}

/// The canvas that an image file holds: a QOI image with linear color
/// channels, of positive size no larger than [`MAX_CELLS`], whose pixel
/// bytes match its size.
pub open spec fn canvas_from_file(data: Seq<u8>) -> Option<Canvas> {
    if !header_fits(data) {
        None
    } else {
        match qoi_decoded(data) {
            Some((w, h, colors, px)) => {
                let ch: int = if colors == QoiColors::Rgba { 4 } else { 3 };
                if (colors == QoiColors::Rgb || colors == QoiColors::Rgba) && w > 0 && h > 0 && (w
                    as nat) * (h as nat) <= MAX_CELLS && px.len() == (w as nat) * (h as nat) * ch {
                    Some(
                        Canvas {
                            width: w,
                            height: h,
                            cells: Seq::new(
                                (w as nat) * (h as nat),
                                |i: int| decoded_cell(px, ch, i),
                            ),
                            version: 1,
                            cached: None,
                        },
                    )
                } else {
                    None
                }
            },
            None => None,
        }
    }
}

/// The canvas after `col` is written to `(x, y)`.
pub open spec fn stored(c: Canvas, x: u32, y: u32, col: u32) -> Canvas {
    Canvas {
        cells: c.cells.update(cell_index(c.width, x, y), col),
        version: next_version(c.version),
        ..c
    }
}

/// Whether laying `col` over `(x, y)` changes the cell.
pub open spec fn draw_changes(c: Canvas, x: u32, y: u32, col: u32) -> bool {
    overlay(cell(c, x, y), col) != cell(c, x, y)
}

/// The canvas after `col` is laid over `(x, y)`: a write only where the
/// cell changes.
pub open spec fn drawn(c: Canvas, x: u32, y: u32, col: u32) -> Canvas {
    if draw_changes(c, x, y, col) {
        stored(c, x, y, overlay(cell(c, x, y), col))
    } else {
        c
    }
}

/// Whether the cached frame shows the current version.
pub open spec fn reuses(c: Canvas) -> bool {
    c.cached is Some && c.cached->Some_0.0 == c.version
}

/// The canvas after its frame was encoded anew.
pub open spec fn snapshotted(c: Canvas) -> Canvas {
    Canvas { cached: Some((c.version, encoded(c))), ..c }
}

/// After a color is laid over a cell, reading the cell gives the overlay of
/// that color on what the cell held before, and no other cell changes.
pub proof fn lemma_draw_then_read(c: Canvas, x: u32, y: u32, col: u32)
    requires
        well_formed(c),
        in_bounds(c, x, y),
    ensures
        well_formed(drawn(c, x, y, col)),
        cell(drawn(c, x, y, col), x, y) == overlay(cell(c, x, y), col),
        forall|x2: u32, y2: u32|
            in_bounds(c, x2, y2) && (x2 != x || y2 != y) ==> cell(drawn(c, x, y, col), x2, y2)
                == cell(c, x2, y2),
{
    lemma_index_in_range(c.width, c.height, x, y);
    assert forall|x2: u32, y2: u32|
        in_bounds(c, x2, y2) && (x2 != x || y2 != y) implies cell(drawn(c, x, y, col), x2, y2)
        == cell(c, x2, y2) by {
        lemma_index_in_range(c.width, c.height, x2, y2);
        lemma_index_distinct(c.width, x, y, x2, y2);
    }
}

proof fn lemma_index_distinct(w: u32, x: u32, y: u32, x2: u32, y2: u32)
    requires
        x < w,
        x2 < w,
        x2 != x || y2 != y,
    ensures
        cell_index(w, x, y) != cell_index(w, x2, y2),
{
    if y == y2 {
    } else if y < y2 {
        assert(y * w + w <= y2 * w) by (nonlinear_arith)
            requires
                y < y2,
        ;
    } else {
        assert(y2 * w + w <= y * w) by (nonlinear_arith)
            requires
                y2 < y,
        ;
    }
}

/// The version never goes down, and goes up by one on every write that
/// changes a cell (short of the wrap at `u64::MAX`).
pub proof fn lemma_version_monotonic(c: Canvas, x: u32, y: u32, col: u32)
    requires
        c.version < u64::MAX,
    ensures
        drawn(c, x, y, col).version >= c.version,
        draw_changes(c, x, y, col) ==> drawn(c, x, y, col).version == c.version + 1,
        !draw_changes(c, x, y, col) ==> drawn(c, x, y, col).version == c.version,
{
}

/// Right after a frame is encoded anew, the next request reuses it.
pub proof fn lemma_snapshot_then_reuse(c: Canvas)
    ensures
        reuses(snapshotted(c)),
        snapshotted(c).cached->Some_0.0 <= snapshotted(c).version,
{
}

/// While the version has not wrapped, the cached frame stays reusable
/// exactly as long as no write has changed a cell since it was encoded.
pub proof fn lemma_reuse_until_change(c: Canvas, x: u32, y: u32, col: u32)
    requires
        c.cached is Some,
        c.cached->Some_0.0 <= c.version < u64::MAX,
    ensures
        reuses(drawn(c, x, y, col)) <==> (reuses(c) && !draw_changes(c, x, y, col)),
        drawn(c, x, y, col).cached->Some_0.0 <= drawn(c, x, y, col).version,
{
}

/// The last encoded frame and the version it was taken at.
pub struct Frame {
    version: u64,
    bytes: Vec<u8>,
}

/// A canvas of packed colors, with a version counter and a frame cache.
pub struct PixelMap {
    pixels: Vec<u32>,
    width: u32,
    height: u32,
    version: u64,
    frame: Option<Frame>,
}

impl View for PixelMap {
    type V = Canvas;

    closed spec fn view(&self) -> Canvas {
        Canvas {
            width: self.width,
            height: self.height,
            cells: self.pixels@,
            version: self.version,
            cached: match self.frame {
                Some(f) => Some((f.version, f.bytes@)),
                None => None,
            },
        }
    }
}

/// The shape every canvas keeps: positive size, at most [`MAX_CELLS`]
/// cells, one cell per coordinate.
pub open spec fn well_formed(c: Canvas) -> bool {
    &&& c.width > 0
    &&& c.height > 0
    &&& (c.width as nat) * (c.height as nat) <= MAX_CELLS
    &&& c.cells.len() == (c.width as nat) * (c.height as nat)
}

proof fn lemma_index_in_range(w: u32, h: u32, x: u32, y: u32)
    requires
        x < w,
        y < h,
        (w as nat) * (h as nat) <= MAX_CELLS,
    ensures
        0 <= cell_index(w, x, y) < (w as nat) * (h as nat),
        cell_index(w, x, y) == (x as nat) + (y as nat) * (w as nat),
{
    assert(x + y * w < w * h) by (nonlinear_arith)
        requires
            x < w,
            y < h,
    ;
    assert(0 <= y * w) by (nonlinear_arith);
}

impl PixelMap {
    pub closed spec fn wf(&self) -> bool {
        &&& well_formed(self@)
        &&& self.pixels@.len() == self@.cells.len()
    }

    /// A black canvas of the given size at version 1.
    pub fn new(width: u32, height: u32) -> (r: PixelMap)
        requires
            width > 0,
            height > 0,
            (width as nat) * (height as nat) <= MAX_CELLS,
        ensures
            r.wf(),
            r@ == blank(width, height),
    {
        let n = width as usize * height as usize;
        let mut pixels: Vec<u32> = Vec::with_capacity(n);
        let mut i: usize = 0;
        while i < n
            invariant
                i <= n,
                pixels@ =~= Seq::new(i as nat, |k: int| BLACK),
            decreases n - i,
        {
            pixels.push(Color::black().raw());
            i = i + 1;
        }
        let r = PixelMap { pixels, width, height, version: 1, frame: None };
        proof {
            assert(r@.cells =~= blank(width, height).cells);
        }
        r
    }

    /// The canvas that an image file holds (see [`canvas_from_file`]), or a
    /// black canvas of the default size when it holds none.
    pub fn load_image(data: &[u8]) -> (r: PixelMap)
        ensures
            r.wf(),
            r@ == match canvas_from_file(data@) {
                Some(c) => c,
                None => blank(DEFAULT_WIDTH, DEFAULT_HEIGHT),
            },
    {
        if data.len() >= 14 {
            let w = (data[4] as u64) * 0x1000000 + (data[5] as u64) * 0x10000 + (data[6] as u64)
                * 0x100 + data[7] as u64;
            let h = (data[8] as u64) * 0x1000000 + (data[9] as u64) * 0x10000 + (data[10] as u64)
                * 0x100 + data[11] as u64;
            proof {
                assert(w * h <= 0xffff_ffff_ffff_ffff) by (nonlinear_arith)
                    requires
                        w <= 0xffff_ffff,
                        h <= 0xffff_ffff,
                ;
            }
            if w * h > MAX_CELLS {
                return PixelMap::new(DEFAULT_WIDTH, DEFAULT_HEIGHT);
            }
        }
        let img = match decode_qoi(data) {
            Some(img) => img,
            None => {
                return PixelMap::new(DEFAULT_WIDTH, DEFAULT_HEIGHT);
            },
        };
        let ch: usize = match img.colors {
            QoiColors::Rgba => 4,
            QoiColors::Rgb => 3,
            _ => {
                return PixelMap::new(DEFAULT_WIDTH, DEFAULT_HEIGHT);
            },
        };
        let (iw, ih) = (img.width as u64, img.height as u64);
        proof {
            assert(iw * ih <= 0xffff_ffff_ffff_ffff) by (nonlinear_arith)
                requires
                    iw <= 0xffff_ffff,
                    ih <= 0xffff_ffff,
            ;
        }
        if iw == 0 || ih == 0 || iw * ih > MAX_CELLS {
            return PixelMap::new(DEFAULT_WIDTH, DEFAULT_HEIGHT);
        }
        let n = img.width as usize * img.height as usize;
        if img.pixels.len() != n * ch {
            return PixelMap::new(DEFAULT_WIDTH, DEFAULT_HEIGHT);
        }
        let ghost px = img.pixels@;
        let mut pixels: Vec<u32> = Vec::with_capacity(n);
        let mut i: usize = 0;
        while i < n
            invariant
                i <= n,
                n <= MAX_CELLS,
                ch == 3 || ch == 4,
                px == img.pixels@,
                px.len() == n * ch,
                pixels@ =~= Seq::new(i as nat, |k: int| decoded_cell(px, ch as int, k)),
            decreases n - i,
        {
            let p = i * ch;
            let a = if ch == 4 {
                img.pixels[p + 3]
            } else {
                255
            };
            let c = Color::from_rgba(img.pixels[p], img.pixels[p + 1], img.pixels[p + 2], a);
            pixels.push(c.raw());
            i = i + 1;
        }
        let r = PixelMap { pixels, width: img.width, height: img.height, version: 1, frame: None };
        proof {
            assert(r@ == canvas_from_file(data@)->Some_0);
        }
        r
    }

    /// The color at `(x, y)`.
    pub fn get_color(&self, x: u32, y: u32) -> (c: Color)
        requires
            self.wf(),
            in_bounds(self@, x, y),
        ensures
            c@ == cell(self@, x, y),
    {
        Color::new(self.get_pixel(x, y))
    }

    /// The packed value at `(x, y)`.
    pub fn get_pixel(&self, x: u32, y: u32) -> (v: u32)
        requires
            self.wf(),
            in_bounds(self@, x, y),
        ensures
            v == cell(self@, x, y),
    {
        proof {
            lemma_index_in_range(self.width, self.height, x, y);
        }
        self.pixels[x as usize + y as usize * self.width as usize]
    }

    pub fn get_width(&self) -> (w: u32)
        ensures
            w == self@.width,
    {
        self.width
    }

    pub fn get_height(&self) -> (h: u32)
        ensures
            h == self@.height,
    {
        self.height
    }

    pub fn get_size(&self) -> (s: (u32, u32))
        ensures
            s == (self@.width, self@.height),
    {
        (self.width, self.height)
    }

    /// The number of writes that changed the canvas, wrapping at `u64::MAX`.
    pub fn version(&self) -> (v: u64)
        ensures
            v == self@.version,
    {
        self.version
    }

    /// Whether the cached frame shows the current version, so that the next
    /// encoding request reuses it.
    pub fn frame_is_current(&self) -> (r: bool)
        ensures
            r == reuses(self@),
    {
        match &self.frame {
            Some(f) => f.version == self.version,
            None => false,
        }
    }

    /// Sets the cell at `(x, y)` to `c` and counts one more version.
    pub fn store(&mut self, x: u32, y: u32, c: Color)
        requires
            old(self).wf(),
            in_bounds(old(self)@, x, y),
        ensures
            final(self).wf(),
            final(self)@ == stored(old(self)@, x, y, c@),
    {
        proof {
            lemma_index_in_range(self.width, self.height, x, y);
        }
        let i = x as usize + y as usize * self.width as usize;
        self.pixels.set(i, c.raw());
        self.version = self.version.wrapping_add(1);
    }

    /// Lays `c` over the cell at `(x, y)`; the cell and the version change
    /// only when the result differs from what the cell held. Returns whether
    /// it did.
    pub fn draw(&mut self, x: u32, y: u32, c: Color) -> (changed: bool)
        requires
            old(self).wf(),
            in_bounds(old(self)@, x, y),
        ensures
            final(self).wf(),
            changed == draw_changes(old(self)@, x, y, c@),
            final(self)@ == drawn(old(self)@, x, y, c@),
    {
        let current = self.get_color(x, y);
        let next = current.overlaid(c);
        if next.equals(current) {
            false
        } else {
            self.store(x, y, next);
            true
        }
    }

    /// The cells as tightly packed RGBA bytes in row-major order.
    pub fn rgba(&self) -> (r: Vec<u8>)
        requires
            self.wf(),
        ensures
            r@ == rgba_bytes(self@.cells),
    {
        let n = self.pixels.len();
        let mut out: Vec<u8> = Vec::with_capacity(n * 4);
        let mut i: usize = 0;
        while i < n
            invariant
                i <= n,
                n == self.pixels@.len(),
                n <= MAX_CELLS,
                out@ =~= rgba_bytes(self.pixels@.subrange(0, i as int)),
            decreases n - i,
        {
            let c = Color::new(self.pixels[i]);
            out.push(c.r());
            out.push(c.g());
            out.push(c.b());
            out.push(c.a());
            proof {
                let s = self.pixels@.subrange(0, i + 1);
                assert forall|k: int| 0 <= k < s.len() * 4 implies out@[k] == channel_byte(
                    s[k / 4],
                    k % 4,
                ) by {
                    if k < i * 4 {
                        assert(s[k / 4] == self.pixels@.subrange(0, i as int)[k / 4]);
                    }
                }
            }
            i = i + 1;
        }
        proof {
            assert(self.pixels@.subrange(0, n as int) =~= self.pixels@);
        }
        out
    }

    /// The canvas encoded as a QOI image, and whether that is the frame
    /// already cached. The cached frame is reused while no write changed the
    /// canvas since it was encoded; otherwise the canvas is encoded again
    /// and the new frame is cached together with the version it shows.
    pub fn to_qoi(&mut self) -> (r: (Vec<u8>, bool))
        requires
            old(self).wf(),
        ensures
            final(self).wf(),
            r.1 == reuses(old(self)@),
            r.1 ==> r.0@ == old(self)@.cached->Some_0.1 && final(self)@ == old(self)@,
            !r.1 ==> r.0@ == encoded(old(self)@) && final(self)@ == snapshotted(old(self)@),
    {
        if let Some(f) = &self.frame {
            if f.version == self.version {
                let mut copy: Vec<u8> = Vec::new();
                push_all(&mut copy, f.bytes.as_slice());
                return (copy, true);
            }
        }
        let version = self.version;
        let raw = self.rgba();
        match encode_qoi_rgba(self.width, self.height, raw.as_slice()) {
            Ok(bytes) => {
                let mut copy: Vec<u8> = Vec::new();
                push_all(&mut copy, bytes.as_slice());
                self.frame = Some(Frame { version, bytes });
                (copy, false)
            },
            Err(_) => {
                proof {
                    assert(false);
                }
                (Vec::new(), false)
            },
        }
    }
}

} // verus!

verus! {

impl Clone for PixelMap {
    /// An independent canvas with the same cells, version and frame.
    fn clone(&self) -> (r: Self)
        ensures
            r@ == self@,
            r.wf() == self.wf(),
    {
        let mut pixels: Vec<u32> = Vec::new();
        let mut i: usize = 0;
        while i < self.pixels.len()
            invariant
                i <= self.pixels@.len(),
                pixels@ =~= self.pixels@.subrange(0, i as int),
            decreases self.pixels@.len() - i,
        {
            pixels.push(self.pixels[i]);
            i = i + 1;
        }
        proof {
            assert(pixels@ =~= self.pixels@);
        }
        let frame = match &self.frame {
            Some(f) => {
                let mut bytes: Vec<u8> = Vec::new();
                push_all(&mut bytes, f.bytes.as_slice());
                Some(Frame { version: f.version, bytes })
            },
            None => None,
        };
        PixelMap { pixels, width: self.width, height: self.height, version: self.version, frame }
    }
}

} // verus!
