//! Calls into the image, compression, hashing and text-encoding crates
//! that the canvas and the gateway use.
use vstd::prelude::*;

use base64::Engine;
use sha1::Digest;

verus! {

/// The largest number of cells a canvas may hold.
pub const MAX_CELLS: u64 = 0x1000_0000;

#[verifier::external_type_specification]
#[verifier::external_body]
pub struct ExEncodeError(rapid_qoi::EncodeError);

/// The QOI file that `rapid_qoi` writes for a `width` x `height` image in
/// the linear RGBA color space from the given pixel bytes.
pub uninterp spec fn qoi_rgba_image(width: u32, height: u32, pixels: Seq<u8>) -> Seq<u8>;

/// Relies on `rapid_qoi::Qoi::encode_alloc` with `Colors::Rgba`: it fails
/// only when fewer than `width * height * 4` pixel bytes are given, and its
/// output depends on its arguments alone.
#[verifier::external_body]
pub(crate) fn encode_qoi_rgba(width: u32, height: u32, pixels: &[u8]) -> (r: Result<
    Vec<u8>,
    rapid_qoi::EncodeError,
>)
    requires
        (width as nat) * (height as nat) <= MAX_CELLS,
    ensures
        r is Ok <==> pixels@.len() >= (width as nat) * (height as nat) * 4,
        r is Ok ==> r->Ok_0@ == qoi_rgba_image(width, height, pixels@),
{
    rapid_qoi::Qoi { width, height, colors: rapid_qoi::Colors::Rgba }.encode_alloc(pixels)
}

/// The color space recorded in a QOI header.
#[derive(Clone, Copy, Debug, PartialEq, Eq, Structural)]
pub enum QoiColors {
    Srgb,
    SrgbLinA,
    Rgb,
    Rgba,
}

/// A decoded QOI image: its header and its raw pixel bytes.
pub struct QoiImage {
    pub width: u32,
    pub height: u32,
    pub colors: QoiColors,
    pub pixels: Vec<u8>,
}

/// The header and pixel bytes that `rapid_qoi` decodes from a file, if it
/// accepts the file.
pub uninterp spec fn qoi_decoded(data: Seq<u8>) -> Option<(u32, u32, QoiColors, Seq<u8>)>;

/// The big-endian `u32` at position `i`.
pub open spec fn be_u32_at(s: Seq<u8>, i: int) -> int {
    s[i] * 0x1000000 + s[i + 1] * 0x10000 + s[i + 2] * 0x100 + s[i + 3]
}

/// Whether the image size that a QOI header announces is small enough to
/// decode: `rapid_qoi` allocates the whole pixel buffer before it reads any
/// pixel.
pub open spec fn header_fits(data: Seq<u8>) -> bool {
    data.len() < 14 || be_u32_at(data, 4) * be_u32_at(data, 8) <= MAX_CELLS
}

/// Relies on `rapid_qoi::Qoi::decode_alloc`: on success the header's size
/// and color space and the pixel bytes; the result depends on the bytes
/// alone.
#[verifier::external_body]
pub(crate) fn decode_qoi(data: &[u8]) -> (r: Option<QoiImage>)
    requires
        header_fits(data@),
    ensures
        match r {
            Some(img) => qoi_decoded(data@) == Some((img.width, img.height, img.colors, img.pixels@)),
            None => qoi_decoded(data@) is None,
        },
{
    match rapid_qoi::Qoi::decode_alloc(data) {
        Ok((q, pixels)) => {
            let colors = match q.colors {
                rapid_qoi::Colors::Srgb => QoiColors::Srgb,
                rapid_qoi::Colors::SrgbLinA => QoiColors::SrgbLinA,
                rapid_qoi::Colors::Rgb => QoiColors::Rgb,
                rapid_qoi::Colors::Rgba => QoiColors::Rgba,
            };
            Some(QoiImage { width: q.width, height: q.height, colors, pixels })
        },
        Err(_) => None,
    }
}

/// The DEFLATE stream that `fdeflate` produces for the given bytes.
pub uninterp spec fn deflated(data: Seq<u8>) -> Seq<u8>;

/// Relies on `fdeflate::compress_to_vec`: compresses into a `Vec`, which
/// cannot fail; the output depends on the input alone.
#[verifier::external_body]
pub(crate) fn deflate(data: &[u8]) -> (r: Vec<u8>)
    ensures
        r@ == deflated(data@),
{
    fdeflate::compress_to_vec(data)
}

/// The SHA-1 digest of the given bytes.
pub uninterp spec fn sha1_digest(data: Seq<u8>) -> Seq<u8>;

/// Relies on `sha1::Sha1::digest`: the 20-byte SHA-1 digest of the input.
#[verifier::external_body]
pub(crate) fn sha1(data: &[u8]) -> (r: Vec<u8>)
    ensures
        r@ == sha1_digest(data@),
        r@.len() == 20,
{
    sha1::Sha1::digest(data).to_vec()
}

/// The character of the standard base64 alphabet for a 6-bit value.
pub open spec fn base64_char(v: int) -> u8 {
    if v < 26 {
        (65 + v) as u8
    } else if v < 52 {
        (71 + v) as u8
    } else if v < 62 {
        (v - 4) as u8
    } else if v == 62 {
        43
    } else {
        47
    }
}

/// Standard base64 with `=` padding: each group of three bytes becomes four
/// characters, a last group of one or two bytes is padded.
pub open spec fn base64_encoding(b: Seq<u8>) -> Seq<u8>
    decreases b.len(),
{
    let b0 = b[0] as int;
    let b1 = b[1] as int;
    let b2 = b[2] as int;
    if b.len() == 0 {
        Seq::empty()
    } else if b.len() == 1 {
        seq![base64_char(b0 / 4), base64_char((b0 % 4) * 16), 61u8, 61u8]
    } else if b.len() == 2 {
        seq![base64_char(b0 / 4), base64_char((b0 % 4) * 16 + b1 / 16), base64_char((b1 % 16) * 4), 61u8]
    } else {
        seq![
            base64_char(b0 / 4),
            base64_char((b0 % 4) * 16 + b1 / 16),
            base64_char((b1 % 16) * 4 + b2 / 64),
            base64_char(b2 % 64),
        ] + base64_encoding(b.subrange(3, b.len() as int))
    }
}

/// Relies on `base64::engine::general_purpose::STANDARD.encode`: standard
/// alphabet, with padding.
#[verifier::external_body]
pub(crate) fn base64_standard(b: &[u8]) -> (r: Vec<u8>)
    requires
        b@.len() <= 0x1000,
    ensures
        r@ == base64_encoding(b@),
{
    base64::engine::general_purpose::STANDARD.encode(b).into_bytes()
}

} // verus!
