//! A collaborative pixel canvas: packed RGBA colors, a fixed-size pixel grid
//! with a version counter and a cached encoded frame, the line and binary
//! command protocol spoken by drawing clients, and the request handling of
//! the viewer gateway.
pub mod codec;
pub mod color;
pub mod gateway;
pub mod pixel;
pub mod pixel_map;
pub mod protocol;
pub mod text;
