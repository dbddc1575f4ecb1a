//! The command protocol of drawing clients: text lines such as
//! `PX 5 7 ff0000`, and, after `BIN`, 8-byte binary pixel frames.
use vstd::prelude::*;
use vstd::string::StringSliceAdditionalSpecFns;

use crate::color::{color_of_hex, hex8, Color, ParseColorError};
use crate::pixel_map::{cell, drawn, in_bounds, Canvas, PixelMap};
use crate::text::{
    bytes_eq, decimal, lemma_split_nonempty, parse_u32, parse_u32_spec, push_all, push_decimal,
    split_space, split_spaces, trim, trim_bounds,
};

verus! {

/// The state of one client connection.
#[derive(Clone, Copy, Debug, PartialEq, Eq, Structural)]
pub struct Connection {
    /// Echo every pixel write back to the client.
    pub debug: bool,
    /// Read 8-byte binary frames instead of text lines.
    pub binary: bool,
}

/// What to send back for one line or frame, and whether to close the
/// connection after sending it.
pub struct Response {
    pub bytes: Vec<u8>,
    pub close: bool,
}

pub open spec fn msg_missing_x() -> Seq<u8> {
    "ERR: Missing X\n".spec_bytes()
}

pub open spec fn msg_missing_y() -> Seq<u8> {
    "ERR: Missing Y\n".spec_bytes()
}

pub open spec fn msg_bad_number() -> Seq<u8> {
    "ERR: Bad Number\n".spec_bytes()
}

pub open spec fn msg_zero_based() -> Seq<u8> {
    "ERR: 0 based index...\n".spec_bytes()
}

pub open spec fn msg_out_of_bounds() -> Seq<u8> {
    "ERR: Out of Bounds (Tip: SIZE)\n".spec_bytes()
}

pub open spec fn msg_unknown() -> Seq<u8> {
    "ERR: Unknown Command\n".spec_bytes()
}

pub open spec fn msg_invalid_length() -> Seq<u8> {
    "ERR: Invalid Binary Length\n".spec_bytes()
}

pub open spec fn msg_exiting() -> Seq<u8> {
    "EXITING\n".spec_bytes()
}

pub open spec fn msg_help() -> Seq<u8> {
    HELP.spec_bytes()
}

/// The three bytes that acknowledge `BIN`.
pub open spec fn bin_ack() -> Seq<u8> {
    seq![0xacu8, 0xce, 0x91]
}

/// The usage text sent for `HELP`.
pub const HELP: &'static str = "Commands:\nPX x y [hex]\nSIZE\nEXIT\nDEBUG\nBIN (changes channel mode: [x:u16 LE][y:u16 LE][r:u8][g:u8][b:u8][a:u8])\nHELP\n";

/// `PX x y <text>\n`.
pub open spec fn px_line(x: u32, y: u32, text: Seq<u8>) -> Seq<u8> {
    "PX ".spec_bytes() + decimal(x as nat) + seq![32u8] + decimal(y as nat) + seq![32u8] + text
        + seq![10u8]
}

/// `SIZE w h\n`.
pub open spec fn size_line(w: u32, h: u32) -> Seq<u8> {
    "SIZE ".spec_bytes() + decimal(w as nat) + seq![32u8] + decimal(h as nat) + seq![10u8]
}

/// The words of a text line: trimmed, then split at single spaces.
pub open spec fn fields_of(line: Seq<u8>) -> Seq<Seq<u8>> {
    split_space(trim(line))
}

/// The canvas after a `PX` command with the given words, and the reply.
/// Coordinates are checked before the cell is touched: equal to the size is
/// reported as an off-by-one, beyond it as out of bounds. Without a color
/// the reply is the cell's color; with one the color is laid over the cell,
/// echoed only in debug mode.
pub open spec fn px_effect(conn: Connection, c: Canvas, f: Seq<Seq<u8>>) -> (Canvas, Seq<u8>) {
    if f.len() < 2 {
        (c, msg_missing_x())
    } else if parse_u32_spec(f[1]) is None {
        (c, msg_bad_number())
    } else if f.len() < 3 {
        (c, msg_missing_y())
    } else if parse_u32_spec(f[2]) is None {
        (c, msg_bad_number())
    } else {
        let x = parse_u32_spec(f[1])->Some_0;
        let y = parse_u32_spec(f[2])->Some_0;
        if x == c.width || y == c.height {
            (c, msg_zero_based())
        } else if x > c.width || y > c.height {
            (c, msg_out_of_bounds())
        } else if f.len() < 4 {
            (c, px_line(x, y, hex8(cell(c, x, y))))
        } else {
            match color_of_hex(f[3]) {
                Ok(col) => (
                    drawn(c, x, y, col),
                    if conn.debug {
                        px_line(x, y, f[3])
                    } else {
                        Seq::empty()
                    },
                ),
                Err(_) => (c, msg_bad_number()),
            }
        }
    }
}

/// The state, canvas, reply and closing decision after one text line.
pub open spec fn line_effect(conn: Connection, c: Canvas, line: Seq<u8>) -> (
    Connection,
    Canvas,
    Seq<u8>,
    bool,
) {
    let f = fields_of(line);
    let cmd = f[0];
    if cmd == "PX".spec_bytes() {
        let (c2, out) = px_effect(conn, c, f);
        (conn, c2, out, false)
    } else if cmd == "SIZE".spec_bytes() {
        (conn, c, size_line(c.width, c.height), false)
    } else if cmd == "EXIT".spec_bytes() {
        (conn, c, msg_exiting(), true)
    } else if cmd == "DEBUG".spec_bytes() {
        (Connection { debug: !conn.debug, ..conn }, c, Seq::empty(), false)
    } else if cmd == "BIN".spec_bytes() {
        (Connection { binary: !conn.binary, ..conn }, c, bin_ack(), false)
    } else if cmd == "HELP".spec_bytes() {
        (conn, c, msg_help(), false)
    } else {
        (conn, c, msg_unknown(), false)
    }
}

/// The packed color of a binary frame: bytes 4 to 7 are red, green, blue
/// and alpha.
pub open spec fn frame_color(f: Seq<u8>) -> u32 {
    (f[4] * 0x1000000 + f[5] * 0x10000 + f[6] * 0x100 + f[7]) as u32
}

/// The canvas and reply after one binary frame: little-endian `u16` x and
/// y, then the color.
pub open spec fn frame_effect(conn: Connection, c: Canvas, f: Seq<u8>) -> (Canvas, Seq<u8>) {
    if f.len() != 8 {
        (c, msg_invalid_length())
    } else {
        let x = (f[0] + f[1] * 0x100) as u32;
        let y = (f[2] + f[3] * 0x100) as u32;
        if x >= c.width || y >= c.height {
            (c, msg_out_of_bounds())
        } else {
            (
                drawn(c, x, y, frame_color(f)),
                if conn.debug {
                    px_line(x, y, hex8(frame_color(f)))
                } else {
                    Seq::empty()
                },
            )
        }
    }
}

fn push_px_line(out: &mut Vec<u8>, x: u32, y: u32, text: &[u8])
    ensures
        final(out)@ == old(out)@ + px_line(x, y, text@),
{
    push_all(out, "PX ".as_bytes());
    push_decimal(out, x as u64);
    out.push(32);
    push_decimal(out, y as u64);
    out.push(32);
    push_all(out, text);
    out.push(10);
    proof {
        assert(out@ =~= old(out)@ + px_line(x, y, text@));
    }
}

fn message(s: &str) -> (r: Response)
    ensures
        r.bytes@ == s.spec_bytes(),
        !r.close,
{
    let mut bytes: Vec<u8> = Vec::new();
    push_all(&mut bytes, s.as_bytes());
    Response { bytes, close: false }
}

impl Connection {
    /// A new connection: text mode, no debug echo.
    pub fn new() -> (r: Connection)
        ensures
            !r.debug,
            !r.binary,
    {
        Connection { debug: false, binary: false }
    }

    fn handle_px(&self, map: &mut PixelMap, f: &Vec<Vec<u8>>, fields: Ghost<Seq<Seq<u8>>>) -> (r:
        Response)
        requires
            old(map).wf(),
            f@.len() == fields@.len(),
            forall|k: int| 0 <= k < f@.len() ==> (#[trigger] f@[k])@ == fields@[k],
        ensures
            final(map).wf(),
            (final(map)@, r.bytes@) == px_effect(*self, old(map)@, fields@),
            !r.close,
    {
        if f.len() < 2 {
            return message("ERR: Missing X\n");
        }
        let x = match parse_u32(f[1].as_slice()) {
            Some(x) => x,
            None => {
                return message("ERR: Bad Number\n");
            },
        };
        if f.len() < 3 {
            return message("ERR: Missing Y\n");
        }
        let y = match parse_u32(f[2].as_slice()) {
            Some(y) => y,
            None => {
                return message("ERR: Bad Number\n");
            },
        };
        let (w, h) = map.get_size();
        if x == w || y == h {
            return message("ERR: 0 based index...\n");
        }
        if x > w || y > h {
            return message("ERR: Out of Bounds (Tip: SIZE)\n");
        }
        let mut bytes: Vec<u8> = Vec::new();
        if f.len() < 4 {
            let current = map.get_color(x, y);
            let digits = current.hex_bytes();
            push_px_line(&mut bytes, x, y, digits.as_slice());
            return Response { bytes, close: false };
        }
        match Color::parse_hex(f[3].as_slice()) {
            Ok(col) => {
                map.draw(x, y, col);
                if self.debug {
                    push_px_line(&mut bytes, x, y, f[3].as_slice());
                }
                Response { bytes, close: false }
            },
            Err(_) => message("ERR: Bad Number\n"),
        }
    }

    /// Handles one text line (see [`line_effect`]).
    pub fn handle_line(&mut self, map: &mut PixelMap, line: &[u8]) -> (r: Response)
        requires
            old(map).wf(),
        ensures
            final(map).wf(),
            (*final(self), final(map)@, r.bytes@, r.close) == line_effect(
                *old(self),
                old(map)@,
                line@,
            ),
    {
        let (a, e) = trim_bounds(line);
        let f = split_spaces(&line[a..e]);
        proof {
            lemma_split_nonempty(trim(line@));
        }
        let cmd = f[0].as_slice();
        if bytes_eq(cmd, "PX".as_bytes()) {
            self.handle_px(map, &f, Ghost(fields_of(line@)))
        } else if bytes_eq(cmd, "SIZE".as_bytes()) {
            let (w, h) = map.get_size();
            let mut bytes: Vec<u8> = Vec::new();
            push_all(&mut bytes, "SIZE ".as_bytes());
            push_decimal(&mut bytes, w as u64);
            bytes.push(32);
            push_decimal(&mut bytes, h as u64);
            bytes.push(10);
            proof {
                assert(bytes@ =~= size_line(w, h));
            }
            Response { bytes, close: false }
        } else if bytes_eq(cmd, "EXIT".as_bytes()) {
            let r = message("EXITING\n");
            Response { bytes: r.bytes, close: true }
        } else if bytes_eq(cmd, "DEBUG".as_bytes()) {
            self.debug = !self.debug;
            Response { bytes: Vec::new(), close: false }
        } else if bytes_eq(cmd, "BIN".as_bytes()) {
            self.binary = !self.binary;
            let mut bytes: Vec<u8> = Vec::new();
            bytes.push(0xac);
            bytes.push(0xce);
            bytes.push(0x91);
            proof {
                assert(bytes@ =~= bin_ack());
            }
            Response { bytes, close: false }
        } else if bytes_eq(cmd, "HELP".as_bytes()) {
            message(HELP)
        } else {
            message("ERR: Unknown Command\n")
        }
    }

    /// Handles one binary frame (see [`frame_effect`]).
    pub fn handle_frame(&self, map: &mut PixelMap, frame: &[u8]) -> (r: Response)
        requires
            old(map).wf(),
        ensures
            final(map).wf(),
            (final(map)@, r.bytes@) == frame_effect(*self, old(map)@, frame@),
            !r.close,
    {
        if frame.len() != 8 {
            return message("ERR: Invalid Binary Length\n");
        }
        let x = frame[0] as u32 + frame[1] as u32 * 0x100;
        let y = frame[2] as u32 + frame[3] as u32 * 0x100;
        let (w, h) = map.get_size();
        if x >= w || y >= h {
            return message("ERR: Out of Bounds (Tip: SIZE)\n");
        }
        let col = Color::from_rgba(frame[4], frame[5], frame[6], frame[7]);
        map.draw(x, y, col);
        let mut bytes: Vec<u8> = Vec::new();
        if self.debug {
            let digits = col.hex_bytes();
            push_px_line(&mut bytes, x, y, digits.as_slice());
        }
        Response { bytes, close: false }
    }
}

} // verus!

verus! {

/// On one connection with no other writer, a `PX x y <hex>` write followed
/// by a `PX x y` read replies with the color the write stored: the written
/// color laid over what the cell held.
pub proof fn lemma_write_then_read(
    conn: Connection,
    c: Canvas,
    write: Seq<u8>,
    read: Seq<u8>,
    x: u32,
    y: u32,
    col: u32,
)
    requires
        crate::pixel_map::well_formed(c),
        in_bounds(c, x, y),
        fields_of(write).len() >= 4,
        fields_of(write)[0] == "PX".spec_bytes(),
        parse_u32_spec(fields_of(write)[1]) == Some(x),
        parse_u32_spec(fields_of(write)[2]) == Some(y),
        color_of_hex(fields_of(write)[3]) == Ok::<u32, ParseColorError>(col),
        fields_of(read).len() == 3,
        fields_of(read)[0] == "PX".spec_bytes(),
        parse_u32_spec(fields_of(read)[1]) == Some(x),
        parse_u32_spec(fields_of(read)[2]) == Some(y),
    ensures
        ({
            let (conn1, c1, _, _) = line_effect(conn, c, write);
            let (_, _, reply, _) = line_effect(conn1, c1, read);
            reply == px_line(x, y, hex8(crate::color::overlay(cell(c, x, y), col)))
        }),
{
    crate::pixel_map::lemma_draw_then_read(c, x, y, col);
}

} // verus!

verus! {

/// A `PX` command whose x equals the width or whose y equals the height is
/// answered with the zero-based reminder; one with a coordinate beyond the
/// size with the out-of-bounds error. Neither touches the canvas or the
/// connection.
pub proof fn lemma_px_bounds(conn: Connection, c: Canvas, line: Seq<u8>, x: u32, y: u32)
    requires
        fields_of(line).len() >= 3,
        fields_of(line)[0] == "PX".spec_bytes(),
        parse_u32_spec(fields_of(line)[1]) == Some(x),
        parse_u32_spec(fields_of(line)[2]) == Some(y),
    ensures
        (x == c.width || y == c.height) ==> line_effect(conn, c, line) == (
            conn,
            c,
            msg_zero_based(),
            false,
        ),
        (x != c.width && y != c.height && (x > c.width || y > c.height)) ==> line_effect(
            conn,
            c,
            line,
        ) == (conn, c, msg_out_of_bounds(), false),
{
}

} // verus!
