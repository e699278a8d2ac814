//! An encoder and decoder for the QOI ("Quite OK Image") format.
//!
//! - `types`, `types16`: pixels, pixel differences, the header and the six
//!   operations with their byte layouts.
//! - `encoder`: the per-pixel choice of operation and the color cache, as a
//!   model (`encode_spec`) and as code proved to follow it.
//! - `decoder`: the dispatch on tag bytes, as a model (`decode_spec`) and as
//!   code proved to follow it.
//! - `theorems`: decoding an encoded image gives it back, and both sides keep
//!   the same color cache.
//! - `marker`: the end marker occurs only at the end of an encoded stream.
//! - `ppm`: reading and writing binary PPM (P6) images.

pub mod decoder;
pub mod encoder;
pub mod marker;
pub mod ppm;
pub mod theorems;
pub mod types;
pub mod types16;
