//! The viewer gateway: routing of the first HTTP request, the WebSocket
//! handshake, the canvas response, and the frames sent on `update`.
use vstd::prelude::*;
use vstd::string::StringSliceAdditionalSpecFns;

use crate::codec::{base64_encoding, base64_standard, deflate, deflated, sha1, sha1_digest};
use crate::pixel_map::{encoded, reuses, snapshotted, Canvas, PixelMap};
use crate::text::{
    ascii_lower, contains, lemma_find_from_occurs, occurs_at, contains_exec, find, find_from, is_space, push_all, push_decimal,
    to_ascii_lower, decimal,
};

verus! {

/// The GUID that RFC 6455 appends to a client's key.
pub const WEBSOCKET_GUID: &'static str = "258EAFA5-E914-47DA-95CA-C5AB0DC85B11";

/// The size of the buffer a viewer's first request is read into; a request
/// that fills it may have been cut off and is refused.
pub const REQUEST_BUFFER: usize = 8192;

/// The end of the line that starts at `i`: the position of the next `\n`,
/// or the end of the input.
pub open spec fn line_end(s: Seq<u8>, i: int) -> int
    decreases s.len() - i,
{
    if i >= s.len() || s[i] == 10 {
        i
    } else {
        line_end(s, i + 1)
    }
}

/// The line from `i` to `e`, without the `\r` of a `\r\n` ending.
pub open spec fn line_between(s: Seq<u8>, i: int, e: int) -> Seq<u8> {
    if e < s.len() && e > i && s[e - 1] == 13 {
        s.subrange(i, e - 1)
    } else {
        s.subrange(i, e)
    }
}

pub open spec fn skip_space(s: Seq<u8>, i: int) -> int
    decreases s.len() - i,
{
    if 0 <= i < s.len() && is_space(s[i]) {
        skip_space(s, i + 1)
    } else {
        i
    }
}

pub open spec fn skip_word(s: Seq<u8>, i: int) -> int
    decreases s.len() - i,
{
    if 0 <= i < s.len() && !is_space(s[i]) {
        skip_word(s, i + 1)
    } else {
        i
    }
}

/// The second white-space separated word of the first line: the path of
/// the request line `GET /path HTTP/1.1`.
pub open spec fn request_path(req: Seq<u8>) -> Option<Seq<u8>> {
    let l = line_between(req, 0, line_end(req, 0));
    let a = skip_space(l, 0);
    let b = skip_word(l, a);
    let c = skip_space(l, b);
    let d = skip_word(l, c);
    if c < l.len() {
        Some(l.subrange(c, d))
    } else {
        None
    }
}

/// The first line at or after `i` whose lower-cased text contains
/// `sec-websocket-key`.
pub open spec fn key_line_from(s: Seq<u8>, i: int) -> Option<Seq<u8>>
    decreases s.len() - i,
{
    if i < 0 || i >= s.len() || line_end(s, i) < i {
        None
    } else {
        let e = line_end(s, i);
        let l = line_between(s, i, e);
        if contains(ascii_lower(l), "sec-websocket-key".spec_bytes()) {
            Some(l)
        } else if e >= s.len() {
            None
        } else {
            key_line_from(s, e + 1)
        }
    }
}

/// The separator of a header's name and value, `": "`.
pub open spec fn colon_space() -> Seq<u8> {
    seq![58u8, 32u8]
}

/// The text after the first `": "` of a header line, up to the next
/// `": "` if there is one.
pub open spec fn header_value(l: Seq<u8>) -> Option<Seq<u8>> {
    match find_from(l, colon_space(), 0) {
        None => None,
        Some(p) => {
            let rest = l.subrange(p + 2, l.len() as int);
            match find_from(rest, colon_space(), 0) {
                None => Some(rest),
                Some(q) => Some(rest.subrange(0, q)),
            }
        },
    }
}

/// The client's WebSocket key, from the first line that names it.
pub open spec fn websocket_key(req: Seq<u8>) -> Option<Seq<u8>> {
    match key_line_from(req, 0) {
        None => None,
        Some(l) => header_value(l),
    }
}

/// Where a viewer's request goes.
pub enum Route {
    /// A path containing `canvas`: one response with the encoded canvas.
    Canvas,
    /// A path containing `ws`: a WebSocket upgrade with the client's key.
    Upgrade(Vec<u8>),
    /// Any other path.
    NotFound,
    /// A request that fills the whole read buffer, one without a request
    /// line with a path, or an upgrade without a key.
    Invalid,
}

/// The kinds of [`Route`], with the key as a sequence.
pub enum RouteSpec {
    Canvas,
    Upgrade(Seq<u8>),
    NotFound,
    Invalid,
}

pub open spec fn route_spec(req: Seq<u8>) -> RouteSpec {
    if req.len() >= REQUEST_BUFFER {
        RouteSpec::Invalid
    } else {
        route_of_path(req)
    }
}

pub open spec fn route_of_path(req: Seq<u8>) -> RouteSpec {
    match request_path(req) {
        None => RouteSpec::Invalid,
        Some(path) => if contains(path, "canvas".spec_bytes()) {
            RouteSpec::Canvas
        } else if contains(path, "ws".spec_bytes()) {
            match websocket_key(req) {
                Some(k) => RouteSpec::Upgrade(k),
                None => RouteSpec::Invalid,
            }
        } else {
            RouteSpec::NotFound
        },
    }
}

impl View for Route {
    type V = RouteSpec;

    open spec fn view(&self) -> RouteSpec {
        match self {
            Route::Canvas => RouteSpec::Canvas,
            Route::Upgrade(k) => RouteSpec::Upgrade(k@),
            Route::NotFound => RouteSpec::NotFound,
            Route::Invalid => RouteSpec::Invalid,
        }
    }
}

fn line_end_exec(s: &[u8], i: usize) -> (e: usize)
    requires
        i <= s@.len(),
    ensures
        e as int == line_end(s@, i as int),
        i <= e <= s@.len(),
{
    let mut e = i;
    while e < s.len() && s[e] != 10
        invariant
            i <= e <= s@.len(),
            line_end(s@, e as int) == line_end(s@, i as int),
        decreases s@.len() - e,
    {
        e = e + 1;
    }
    e
}

fn line_between_exec(s: &[u8], i: usize, e: usize) -> (r: &[u8])
    requires
        i <= e <= s@.len(),
    ensures
        r@ == line_between(s@, i as int, e as int),
{
    if e < s.len() && e > i && s[e - 1] == 13 {
        &s[i..e - 1]
    } else {
        &s[i..e]
    }
}

fn skip_space_exec(s: &[u8], i: usize) -> (r: usize)
    requires
        i <= s@.len(),
    ensures
        r as int == skip_space(s@, i as int),
        i <= r <= s@.len(),
{
    let mut j = i;
    while j < s.len() && (s[j] == 32 || (9 <= s[j] && s[j] <= 13))
        invariant
            i <= j <= s@.len(),
            skip_space(s@, j as int) == skip_space(s@, i as int),
        decreases s@.len() - j,
    {
        j = j + 1;
    }
    j
}

fn skip_word_exec(s: &[u8], i: usize) -> (r: usize)
    requires
        i <= s@.len(),
    ensures
        r as int == skip_word(s@, i as int),
        i <= r <= s@.len(),
{
    let mut j = i;
    while j < s.len() && !(s[j] == 32 || (9 <= s[j] && s[j] <= 13))
        invariant
            i <= j <= s@.len(),
            skip_word(s@, j as int) == skip_word(s@, i as int),
        decreases s@.len() - j,
    {
        j = j + 1;
    }
    j
}

fn request_path_exec(req: &[u8]) -> (r: Option<&[u8]>)
    ensures
        match r {
            Some(p) => request_path(req@) == Some(p@),
            None => request_path(req@) is None,
        },
{
    let e = line_end_exec(req, 0);
    let l = line_between_exec(req, 0, e);
    let a = skip_space_exec(l, 0);
    let b = skip_word_exec(l, a);
    let c = skip_space_exec(l, b);
    let d = skip_word_exec(l, c);
    if c < l.len() {
        Some(&l[c..d])
    } else {
        None
    }
}

fn header_value_exec(l: &[u8]) -> (r: Option<&[u8]>)
    ensures
        match r {
            Some(v) => header_value(l@) == Some(v@),
            None => header_value(l@) is None,
        },
{
    let mut sep: Vec<u8> = Vec::new();
    sep.push(58);
    sep.push(32);
    proof {
        assert(sep@ =~= colon_space());
    }
    let sep = sep.as_slice();
    match find(l, sep, 0) {
        None => None,
        Some(p) => {
            proof {
                lemma_find_from_occurs(l@, sep@, 0);
                assert(sep@.len() == 2);
                assert(occurs_at(l@, sep@, p as int));
            }
            let ll = l.len();
            let rest = &l[p + 2..ll];
            match find(rest, sep, 0) {
                None => Some(rest),
                Some(q) => {
                    proof {
                        lemma_find_from_occurs(rest@, sep@, 0);
                    }
                    Some(&rest[0..q])
                },
            }
        },
    }
}

fn websocket_key_exec(req: &[u8]) -> (r: Option<&[u8]>)
    ensures
        match r {
            Some(k) => websocket_key(req@) == Some(k@),
            None => websocket_key(req@) is None,
        },
{
    let needle = "sec-websocket-key".as_bytes();
    let mut i: usize = 0;
    while i < req.len()
        invariant
            i <= req@.len(),
            needle@ == "sec-websocket-key".spec_bytes(),
            key_line_from(req@, i as int) == key_line_from(req@, 0),
        decreases req@.len() - i,
    {
        let e = line_end_exec(req, i);
        let l = line_between_exec(req, i, e);
        let lower = to_ascii_lower(l);
        if contains_exec(lower.as_slice(), needle) {
            return header_value_exec(l);
        }
        if e >= req.len() {
            proof {
                assert(key_line_from(req@, e + 1) is None);
            }
            return None;
        }
        i = e + 1;
    }
    None
}

/// Where the first request of a viewer goes (see [`route_spec`]).
pub fn route(req: &[u8]) -> (r: Route)
    ensures
        r@ == route_spec(req@),
{
    if req.len() >= REQUEST_BUFFER {
        return Route::Invalid;
    }
    match request_path_exec(req) {
        None => Route::Invalid,
        Some(path) => {
            if contains_exec(path, "canvas".as_bytes()) {
                Route::Canvas
            } else if contains_exec(path, "ws".as_bytes()) {
                match websocket_key_exec(req) {
                    Some(k) => {
                        let mut key: Vec<u8> = Vec::new();
                        push_all(&mut key, k);
                        Route::Upgrade(key)
                    },
                    None => Route::Invalid,
                }
            } else {
                Route::NotFound
            }
        },
    }
}

/// The `Sec-WebSocket-Accept` value for a client's key: base64 of the
/// SHA-1 digest of the key followed by the GUID.
pub open spec fn accept_value(key: Seq<u8>) -> Seq<u8> {
    base64_encoding(sha1_digest(key + WEBSOCKET_GUID.spec_bytes()))
}

/// The response that completes the WebSocket handshake.
pub open spec fn handshake_response(key: Seq<u8>) -> Seq<u8> {
    "HTTP/1.1 101 Switching Protocols\r\nUpgrade: websocket\r\nConnection: Upgrade\r\nSec-WebSocket-Accept: ".spec_bytes()
        + accept_value(key) + "\r\n\r\n".spec_bytes()
}

/// Builds the handshake response for a client's key.
pub fn handshake(key: &[u8]) -> (r: Vec<u8>)
    ensures
        r@ == handshake_response(key@),
{
    let mut input: Vec<u8> = Vec::new();
    push_all(&mut input, key);
    push_all(&mut input, WEBSOCKET_GUID.as_bytes());
    let digest = sha1(input.as_slice());
    let accept = base64_standard(digest.as_slice());
    let mut out: Vec<u8> = Vec::new();
    push_all(
        &mut out,
        "HTTP/1.1 101 Switching Protocols\r\nUpgrade: websocket\r\nConnection: Upgrade\r\nSec-WebSocket-Accept: ".as_bytes(),
    );
    push_all(&mut out, accept.as_slice());
    push_all(&mut out, "\r\n\r\n".as_bytes());
    proof {
        assert(out@ =~= handshake_response(key@));
    }
    out
}

/// The HTTP response that carries an encoded canvas of `w` x `h` cells.
pub open spec fn canvas_response(w: u32, h: u32, body: Seq<u8>) -> Seq<u8> {
    "HTTP/1.1 200 OK\r\nContent-Type: image/qoi\r\n".spec_bytes() + "Dimensions: ".spec_bytes()
        + decimal(w as nat) + "x".spec_bytes() + decimal(h as nat) + "\r\n".spec_bytes()
        + "Content-Length: ".spec_bytes() + decimal(body.len()) + "\r\n\r\n".spec_bytes() + body
}

/// The frame a canvas request shows: the cached one while it is current,
/// otherwise a new encoding.
pub open spec fn current_frame(c: Canvas) -> Seq<u8> {
    if reuses(c) {
        c.cached->Some_0.1
    } else {
        encoded(c)
    }
}

/// The canvas after a frame was requested.
pub open spec fn after_frame(c: Canvas) -> Canvas {
    if reuses(c) {
        c
    } else {
        snapshotted(c)
    }
}

/// The response to a canvas request.
pub fn canvas_reply(map: &mut PixelMap) -> (r: Vec<u8>)
    requires
        old(map).wf(),
    ensures
        final(map).wf(),
        final(map)@ == after_frame(old(map)@),
        r@ == canvas_response(old(map)@.width, old(map)@.height, current_frame(old(map)@)),
{
    let (body, _) = map.to_qoi();
    let (w, h) = map.get_size();
    let mut out: Vec<u8> = Vec::new();
    push_all(&mut out, "HTTP/1.1 200 OK\r\nContent-Type: image/qoi\r\n".as_bytes());
    push_all(&mut out, "Dimensions: ".as_bytes());
    push_decimal(&mut out, w as u64);
    push_all(&mut out, "x".as_bytes());
    push_decimal(&mut out, h as u64);
    push_all(&mut out, "\r\n".as_bytes());
    push_all(&mut out, "Content-Length: ".as_bytes());
    push_decimal(&mut out, body.len() as u64);
    push_all(&mut out, "\r\n\r\n".as_bytes());
    push_all(&mut out, body.as_slice());
    proof {
        assert(out@ =~= canvas_response(old(map)@.width, old(map)@.height, current_frame(old(map)@)));
    }
    out
}

/// The first frame pushed after the handshake: the current canvas,
/// compressed.
pub fn initial_frame(map: &mut PixelMap) -> (r: Vec<u8>)
    requires
        old(map).wf(),
    ensures
        final(map).wf(),
        final(map)@ == after_frame(old(map)@),
        r@ == deflated(current_frame(old(map)@)),
{
    let (body, _) = map.to_qoi();
    deflate(body.as_slice())
}

/// What a viewer's message asks for: nothing unless it contains `update`;
/// then a single `0` byte while the cached frame is current, or else the
/// newly encoded canvas, compressed.
pub open spec fn update_reply(c: Canvas, msg: Seq<u8>) -> Option<Seq<u8>> {
    if !contains(msg, "update".spec_bytes()) {
        None
    } else if reuses(c) {
        Some(seq![0u8])
    } else {
        Some(deflated(encoded(c)))
    }
}

/// Answers one message of a viewer (see [`update_reply`]).
pub fn on_message(map: &mut PixelMap, msg: &[u8]) -> (r: Option<Vec<u8>>)
    requires
        old(map).wf(),
    ensures
        final(map).wf(),
        final(map)@ == if contains(msg@, "update".spec_bytes()) {
            after_frame(old(map)@)
        } else {
            old(map)@
        },
        match r {
            Some(v) => update_reply(old(map)@, msg@) == Some(v@),
            None => update_reply(old(map)@, msg@) is None,
        },
{
    if !contains_exec(msg, "update".as_bytes()) {
        return None;
    }
    let (body, reused) = map.to_qoi();
    if reused {
        let mut none: Vec<u8> = Vec::new();
        none.push(0);
        proof {
            assert(none@ =~= seq![0u8]);
        }
        Some(none)
    } else {
        Some(deflate(body.as_slice()))
    }
}

} // verus!
