//! Edge detection, grayscale conversion and the payload handling around them.
//!
//! The gradient engine in [`gradient`] is the arithmetic core: it is proved
//! against an exact description of every output pixel, and [`laws`] proves
//! what follows from that description. Payloads are data URLs holding base64
//! images; their decoding and encoding is delegated to the `base64` and
//! `image` crates through the small trusted wrappers of [`codec`].

pub mod codec;
pub mod gradient;
pub mod grid;
pub mod laws;
pub mod pipeline;

pub use gradient::{edge_detect, rounded_root};
pub use grid::{LumaGrid, Rgba, RgbaGrid};
pub use codec::{GrayImage, LoadedImage};
pub use pipeline::{
    apply_edge_detection, apply_grayscale, decode_payload, encode_payload, payload_of, ErrorKind,
    ProcessError,
};
