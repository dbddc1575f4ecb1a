//! Packed 32-bit RGBA colors: channel access, hex text, and overlay.
use vstd::prelude::*;
use vstd::string::StringSliceAdditionalSpecFns;
use vstd::utf8::encode_utf8;

use crate::text::push_char;

verus! {

/// The red channel of a packed value (most significant byte).
pub open spec fn red(v: u32) -> int {
    v as int / 0x1000000
}

/// The green channel of a packed value.
pub open spec fn green(v: u32) -> int {
    (v as int / 0x10000) % 0x100
}

/// The blue channel of a packed value.
pub open spec fn blue(v: u32) -> int {
    (v as int / 0x100) % 0x100
}

/// The alpha channel of a packed value (least significant byte).
pub open spec fn alpha(v: u32) -> int {
    v as int % 0x100
}

/// Packs four channels, red in the most significant byte.
pub open spec fn pack(r: int, g: int, b: int, a: int) -> int {
    r * 0x1000000 + g * 0x10000 + b * 0x100 + a
}

/// One channel of `dst` with `src` laid over it at opacity `a / 255`,
/// rounded down: `dst * (1 - a/255) + src * a/255`.
pub open spec fn mix(dst: int, src: int, a: int) -> int {
    (dst * (255 - a) + src * a) / 255
}

/// `src` laid over `dst`: each color channel is mixed by the source's alpha,
/// the destination's alpha is kept.
pub open spec fn overlay(dst: u32, src: u32) -> u32 {
    pack(
        mix(red(dst), red(src), alpha(src)),
        mix(green(dst), green(src), alpha(src)),
        mix(blue(dst), blue(src), alpha(src)),
        alpha(dst),
    ) as u32
}

/// The value of an ASCII hex digit, either case.
pub open spec fn hex_digit_value(b: u8) -> Option<int> {
    if 48 <= b <= 57 {
        Some(b - 48)
    } else if 97 <= b <= 102 {
        Some(b - 87)
    } else if 65 <= b <= 70 {
        Some(b - 55)
    } else {
        None
    }
}

pub open spec fn all_hex_digits(s: Seq<u8>) -> bool {
    forall|i: int| 0 <= i < s.len() ==> (#[trigger] hex_digit_value(s[i])) is Some
}

/// The number written by a sequence of hex digits, most significant first.
pub open spec fn hex_value(s: Seq<u8>) -> int
    decreases s.len(),
{
    if s.len() == 0 {
        0
    } else {
        hex_value(s.drop_last()) * 16 + hex_digit_value(s.last())->Some_0
    }
}

/// Why a piece of text is not a color.
#[derive(Clone, Copy, Debug, PartialEq, Eq, Structural)]
pub enum ParseColorError {
    /// Not 2, 6 or 8 characters long.
    InvalidLength,
    /// A character that is not a hex digit.
    InvalidDigit,
}

/// The color that a hex text denotes: 8 digits are `RRGGBBAA`, 6 digits are
/// `RRGGBB` with full alpha, 2 digits are a gray level with full alpha.
pub open spec fn color_of_hex(s: Seq<u8>) -> Result<u32, ParseColorError> {
    if !(s.len() == 2 || s.len() == 6 || s.len() == 8) {
        Err(ParseColorError::InvalidLength)
    } else if !all_hex_digits(s) {
        Err(ParseColorError::InvalidDigit)
    } else if s.len() == 8 {
        Ok(hex_value(s) as u32)
    } else if s.len() == 6 {
        Ok((hex_value(s) * 0x100 + 0xff) as u32)
    } else {
        Ok((hex_value(s) * 0x1010100 + 0xff) as u32)
    }
}

/// The lower-case ASCII hex digit for `n` in `0..16`.
pub open spec fn hex_char(n: int) -> u8 {
    if n < 10 {
        (48 + n) as u8
    } else {
        (87 + n) as u8
    }
}

/// A packed value as 8 lower-case hex digits, most significant first.
pub open spec fn hex8(v: u32) -> Seq<u8> {
    Seq::new(8, |i: int| hex_char(((v >> ((28 - 4 * i) as u32)) & 0xf) as int))
}

/// The characters of an ASCII byte sequence.
pub open spec fn ascii_text(s: Seq<u8>) -> Seq<char> {
    s.map_values(|b: u8| b as char)
}

pub open spec fn pow16(n: nat) -> int
    decreases n,
{
    if n == 0 {
        1
    } else {
        16 * pow16((n - 1) as nat)
    }
}

proof fn lemma_hex_prefix(v: u32, k: int)
    requires
        0 <= k <= 8,
    ensures
        hex_value(hex8(v).subrange(0, k)) == if k == 0 {
            0
        } else {
            (v >> ((32 - 4 * k) as u32)) as int
        },
        all_hex_digits(hex8(v).subrange(0, k)),
    decreases k,
{
    let s = hex8(v).subrange(0, k);
    if k > 0 {
        lemma_hex_prefix(v, k - 1);
        assert(s.drop_last() =~= hex8(v).subrange(0, k - 1));
        let sh = (32 - 4 * k) as u32;
        let nib = (v >> sh) & 0xf;
        assert(nib < 16) by (bit_vector)
            requires
                nib == (v >> sh) & 0xf,
        ;
        assert(hex_digit_value(hex_char(nib as int)) == Some(nib as int));
        if k == 1 {
            assert(v >> 28u32 == (v >> 28u32) & 0xf) by (bit_vector);
        } else {
            assert((v >> ((sh + 4) as u32)) * 16 + ((v >> sh) & 0xf) == v >> sh) by (bit_vector)
                requires
                    sh <= 24,
            ;
        }
        assert forall|i: int| 0 <= i < s.len() implies (#[trigger] hex_digit_value(s[i])) is Some by {
            if i < k - 1 {
                assert(s[i] == hex8(v).subrange(0, k - 1)[i]);
            } else {
                assert(s[i] == hex_char(nib as int));
            }
        }
    } else {
        assert(s.len() == 0);
    }
}

proof fn lemma_hex_value_bound(s: Seq<u8>)
    requires
        all_hex_digits(s),
    ensures
        0 <= hex_value(s) < pow16(s.len()),
    decreases s.len(),
{
    if s.len() > 0 {
        let t = s.drop_last();
        assert(all_hex_digits(t)) by {
            assert forall|i: int| 0 <= i < t.len() implies (#[trigger] hex_digit_value(t[i])) is Some by {
                assert(t[i] == s[i]);
                assert(hex_digit_value(s[i]) is Some);
            }
        }
        lemma_hex_value_bound(t);
        assert(hex_digit_value(s[s.len() - 1]) is Some);
    }
}

/// Formatting a color as hex and parsing the text back gives the same color;
/// the first six digits alone give the color with full alpha.
pub proof fn lemma_hex_round_trip(v: u32, text: Seq<char>)
    requires
        text == ascii_text(hex8(v)),
    ensures
        encode_utf8(text) == hex8(v),
        color_of_hex(encode_utf8(text)) == Ok::<u32, ParseColorError>(v),
        color_of_hex(hex8(v).subrange(0, 6)) == Ok::<u32, ParseColorError>(
            pack(red(v), green(v), blue(v), 255) as u32,
        ),
{
    let s = hex8(v);
    assert(vstd::utf8::is_ascii_chars(text)) by {
        assert forall|i: int| 0 <= i < text.len() implies '\0' <= #[trigger] text[i] <= '\u{7f}' by {
            let sh = (28 - 4 * i) as u32;
            assert((v >> sh) & 0xf < 16) by (bit_vector);
            assert(text[i] == s[i] as char);
        }
    }
    vstd::utf8::is_ascii_chars_encode_utf8(text);
    assert(encode_utf8(text) =~= s);
    lemma_hex_prefix(v, 8);
    lemma_hex_prefix(v, 6);
    assert(s.subrange(0, 8) =~= s);
    assert(v >> 0u32 == v) by (bit_vector);
    let six = (v >> 8u32) as int;
    lemma_channels(v);
    assert((v >> 8u32) * 0x100 + 0xff == (v / 0x1000000) * 0x1000000 + ((v / 0x10000) % 0x100)
        * 0x10000 + ((v / 0x100) % 0x100) * 0x100 + 255) by (bit_vector);
}

/// Laying a fully transparent color over another leaves it unchanged.
pub proof fn lemma_overlay_transparent(dst: u32, src: u32)
    requires
        alpha(src) == 0,
    ensures
        overlay(dst, src) == dst,
{
    lemma_channels(dst);
    lemma_channels(src);
    assert(mix(red(dst), red(src), 0) == red(dst));
    assert(mix(green(dst), green(src), 0) == green(dst));
    assert(mix(blue(dst), blue(src), 0) == blue(dst));
}

/// Laying a fully opaque color over another gives the source's color
/// channels and keeps the destination's alpha.
pub proof fn lemma_overlay_opaque(dst: u32, src: u32)
    requires
        alpha(src) == 255,
    ensures
        red(overlay(dst, src)) == red(src),
        green(overlay(dst, src)) == green(src),
        blue(overlay(dst, src)) == blue(src),
        alpha(overlay(dst, src)) == alpha(dst),
{
    lemma_channels(dst);
    lemma_channels(src);
    assert(mix(red(dst), red(src), 255) == red(src));
    assert(mix(green(dst), green(src), 255) == green(src));
    assert(mix(blue(dst), blue(src), 255) == blue(src));
    lemma_pack(red(src) as u8, green(src) as u8, blue(src) as u8, alpha(dst) as u8);
}

/// A color, packed as `(R << 24) | (G << 16) | (B << 8) | A`.
#[derive(Clone, Copy, Debug, PartialEq, Eq, Structural)]
pub struct Color {
    pub value: u32,
}

impl View for Color {
    type V = u32;

    open spec fn view(&self) -> u32 {
        self.value
    }
}

proof fn lemma_channels(v: u32)
    ensures
        (v >> 24) & 0xff == red(v),
        (v >> 16) & 0xff == green(v),
        (v >> 8) & 0xff == blue(v),
        v & 0xff == alpha(v),
        pack(red(v), green(v), blue(v), alpha(v)) == v,
        0 <= red(v) < 256,
        0 <= green(v) < 256,
        0 <= blue(v) < 256,
        0 <= alpha(v) < 256,
{
    assert(v / 0x1000000 < 256) by (bit_vector);
    assert((v >> 24) & 0xff == v / 0x1000000) by (bit_vector);
    assert((v >> 16) & 0xff == (v / 0x10000) % 0x100) by (bit_vector);
    assert((v >> 8) & 0xff == (v / 0x100) % 0x100) by (bit_vector);
    assert(v & 0xff == v % 0x100) by (bit_vector);
    assert(v == (v / 0x1000000) * 0x1000000 + ((v / 0x10000) % 0x100) * 0x10000 + ((v / 0x100)
        % 0x100) * 0x100 + v % 0x100) by (bit_vector);
}

proof fn lemma_pack(r: u8, g: u8, b: u8, a: u8)
    ensures
        (a as u32) | (r as u32) << 24 | (g as u32) << 16 | (b as u32) << 8 == pack(
            r as int,
            g as int,
            b as int,
            a as int,
        ),
        pack(r as int, g as int, b as int, a as int) <= u32::MAX,
        red(pack(r as int, g as int, b as int, a as int) as u32) == r,
        green(pack(r as int, g as int, b as int, a as int) as u32) == g,
        blue(pack(r as int, g as int, b as int, a as int) as u32) == b,
        alpha(pack(r as int, g as int, b as int, a as int) as u32) == a,
{
    assert((a as u32) | (r as u32) << 24 | (g as u32) << 16 | (b as u32) << 8 == (r as u32)
        * 0x1000000 + (g as u32) * 0x10000 + (b as u32) * 0x100 + (a as u32)) by (bit_vector);
    assert((r as u32) * 0x1000000 + (g as u32) * 0x10000 + (b as u32) * 0x100 + (a as u32)
        == (r as int) * 0x1000000 + (g as int) * 0x10000 + (b as int) * 0x100 + (a as int))
        by (nonlinear_arith);
    let v = ((r as u32) * 0x1000000 + (g as u32) * 0x10000 + (b as u32) * 0x100 + (a as u32))
        as u32;
    assert(v / 0x1000000 == r && (v / 0x10000) % 0x100 == g && (v / 0x100) % 0x100 == b && v
        % 0x100 == a) by (bit_vector)
        requires
            v == (r as u32) * 0x1000000 + (g as u32) * 0x10000 + (b as u32) * 0x100 + (a as u32),
    ;
}

proof fn lemma_mix_bounds(dst: int, src: int, a: int)
    requires
        0 <= dst < 256,
        0 <= src < 256,
        0 <= a < 256,
    ensures
        0 <= mix(dst, src, a) < 256,
{
    assert(0 <= dst * (255 - a) + src * a <= 255 * 255) by (nonlinear_arith)
        requires
            0 <= dst < 256,
            0 <= src < 256,
            0 <= a < 256,
    ;
}

impl Color {
    pub fn new(value: u32) -> (r: Color)
        ensures
            r@ == value,
    {
        Color { value }
    }

    pub fn from_rgb(r: u8, g: u8, b: u8) -> (c: Color)
        ensures
            c@ == pack(r as int, g as int, b as int, 255),
            red(c@) == r,
            green(c@) == g,
            blue(c@) == b,
            alpha(c@) == 255,
    {
        Color::from_rgba(r, g, b, 255)
    }

    pub fn from_rgba(r: u8, g: u8, b: u8, a: u8) -> (c: Color)
        ensures
            c@ == pack(r as int, g as int, b as int, a as int),
            red(c@) == r,
            green(c@) == g,
            blue(c@) == b,
            alpha(c@) == a,
    {
        proof {
            lemma_pack(r, g, b, a);
        }
        Color { value: (a as u32) | (r as u32) << 24 | (g as u32) << 16 | (b as u32) << 8 }
    }

    pub fn r(&self) -> (r: u8)
        ensures
            r == red(self@),
    {
        proof {
            lemma_channels(self.value);
        }
        ((self.value >> 24) & 0xff) as u8
    }

    pub fn g(&self) -> (g: u8)
        ensures
            g == green(self@),
    {
        proof {
            lemma_channels(self.value);
        }
        ((self.value >> 16) & 0xff) as u8
    }

    pub fn b(&self) -> (b: u8)
        ensures
            b == blue(self@),
    {
        proof {
            lemma_channels(self.value);
        }
        ((self.value >> 8) & 0xff) as u8
    }

    pub fn a(&self) -> (a: u8)
        ensures
            a == alpha(self@),
    {
        proof {
            lemma_channels(self.value);
        }
        (self.value & 0xff) as u8
    }

    /// Parses 2, 6 or 8 ASCII hex digits (see [`color_of_hex`]).
    pub fn parse_hex(s: &[u8]) -> (r: Result<Color, ParseColorError>)
        ensures
            match r {
                Ok(c) => color_of_hex(s@) == Ok::<u32, ParseColorError>(c@),
                Err(e) => color_of_hex(s@) == Err::<u32, ParseColorError>(e),
            },
    {
        let n = s.len();
        if !(n == 2 || n == 6 || n == 8) {
            return Err(ParseColorError::InvalidLength);
        }
        let mut acc: u64 = 0;
        let mut i: usize = 0;
        while i < n
            invariant
                n == s@.len(),
                n == 2 || n == 6 || n == 8,
                i <= n,
                acc as int == hex_value(s@.subrange(0, i as int)),
                acc < pow16(i as nat),
                all_hex_digits(s@.subrange(0, i as int)),
            decreases n - i,
        {
            let b = s[i];
            let d: u64 = if 48 <= b && b <= 57 {
                (b - 48) as u64
            } else if 97 <= b && b <= 102 {
                (b - 87) as u64
            } else if 65 <= b && b <= 70 {
                (b - 55) as u64
            } else {
                proof {
                    assert(hex_digit_value(s@[i as int]) is None);
                    assert(!all_hex_digits(s@));
                }
                return Err(ParseColorError::InvalidDigit);
            };
            proof {
                let t = s@.subrange(0, i + 1);
                assert(t.drop_last() =~= s@.subrange(0, i as int));
                assert forall|j: int| 0 <= j < t.len() implies (#[trigger] hex_digit_value(t[j])) is Some by {
                    if j < i {
                        assert(t[j] == s@.subrange(0, i as int)[j]);
                    }
                }
                assert(pow16((i + 1) as nat) == 16 * pow16(i as nat));
                assert(pow16(i as nat) <= 0x10000000) by {
                    reveal_with_fuel(pow16, 9);
                }
            }
            acc = acc * 16 + d;
            i = i + 1;
        }
        proof {
            assert(s@.subrange(0, n as int) =~= s@);
            reveal_with_fuel(pow16, 9);
        }
        if n == 8 {
            Ok(Color::new(acc as u32))
        } else if n == 6 {
            Ok(Color::new((acc * 0x100 + 0xff) as u32))
        } else {
            Ok(Color::new((acc * 0x1010100 + 0xff) as u32))
        }
    }

    /// Parses a hex color given as text (see [`color_of_hex`]).
    pub fn from_hex(hex: &str) -> (r: Result<Color, ParseColorError>)
        ensures
            match r {
                Ok(c) => color_of_hex(hex.spec_bytes()) == Ok::<u32, ParseColorError>(c@),
                Err(e) => color_of_hex(hex.spec_bytes()) == Err::<u32, ParseColorError>(e),
            },
    {
        Color::parse_hex(hex.as_bytes())
    }

    /// The color as 8 lower-case ASCII hex digits.
    pub fn hex_bytes(&self) -> (r: Vec<u8>)
        ensures
            r@ == hex8(self@),
    {
        let v = self.value;
        let mut out: Vec<u8> = Vec::new();
        let mut i: u32 = 0;
        while i < 8
            invariant
                i <= 8,
                v == self@,
                out@ == hex8(v).subrange(0, i as int),
            decreases 8 - i,
        {
            let sh: u32 = 28 - 4 * i;
            let nib = ((v >> sh) & 0xf) as u8;
            proof {
                assert((v >> sh) & 0xf < 16) by (bit_vector);
            }
            let ch = if nib < 10 {
                48 + nib
            } else {
                87 + nib
            };
            out.push(ch);
            proof {
                assert(out@ =~= hex8(v).subrange(0, i + 1));
            }
            i = i + 1;
        }
        out
    }

    /// The color as 8 lower-case hex digits.
    pub fn hex(&self) -> (r: String)
        ensures
            r@ == ascii_text(hex8(self@)),
    {
        let digits = self.hex_bytes();
        let mut s = String::new();
        let mut i: usize = 0;
        while i < digits.len()
            invariant
                i <= digits@.len(),
                digits@ == hex8(self@),
                s@ == ascii_text(digits@.subrange(0, i as int)),
            decreases digits@.len() - i,
        {
            push_char(&mut s, digits[i] as char);
            proof {
                assert(s@ =~= ascii_text(digits@.subrange(0, i + 1)));
            }
            i = i + 1;
        }
        proof {
            assert(digits@.subrange(0, 8) =~= digits@);
        }
        s
    }

    pub fn black() -> (c: Color)
        ensures
            c@ == 0xff,
    {
        Color::from_rgb(0, 0, 0)
    }

    pub fn raw(&self) -> (v: u32)
        ensures
            v == self@,
    {
        self.value
    }

    pub fn equals(&self, other: Color) -> (eq: bool)
        ensures
            eq == (self@ == other@),
    {
        self.value == other.value
    }

    /// Lays `other` over this color (see [`overlay`]).
    pub fn overlay_mut(&mut self, other: Color)
        ensures
            final(self)@ == overlay(old(self)@, other@),
    {
        let a = other.a() as u32;
        let inv = 255 - a;
        let (r0, g0, b0) = (self.r() as u32, self.g() as u32, self.b() as u32);
        let (r1, g1, b1) = (other.r() as u32, other.g() as u32, other.b() as u32);
        proof {
            lemma_channels(self.value);
            lemma_channels(other.value);
            lemma_mix_bounds(r0 as int, r1 as int, a as int);
            lemma_mix_bounds(g0 as int, g1 as int, a as int);
            lemma_mix_bounds(b0 as int, b1 as int, a as int);
            assert(r0 * inv + r1 * a <= 255 * 255) by (nonlinear_arith)
                requires r0 < 256, r1 < 256, a < 256, inv == 255 - a;
            assert(g0 * inv + g1 * a <= 255 * 255) by (nonlinear_arith)
                requires g0 < 256, g1 < 256, a < 256, inv == 255 - a;
            assert(b0 * inv + b1 * a <= 255 * 255) by (nonlinear_arith)
                requires b0 < 256, b1 < 256, a < 256, inv == 255 - a;
        }
        let r = ((r0 * inv + r1 * a) / 255) as u8;
        let g = ((g0 * inv + g1 * a) / 255) as u8;
        let b = ((b0 * inv + b1 * a) / 255) as u8;
        let keep = self.a();
        *self = Color::from_rgba(r, g, b, keep);
    }

    /// The color `other` laid over this one.
    pub fn overlaid(&self, other: Color) -> (c: Color)
        ensures
            c@ == overlay(self@, other@),
    {
        let mut c = *self;
        c.overlay_mut(other);
        c
    }
}

} // verus!
