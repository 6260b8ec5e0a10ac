//! QR Code symbol encoder.
//!
//! Turns input text into a complete QR module grid: mode and version
//! resolution, per-mode bitstream construction, Reed-Solomon error
//! correction over GF(2^8), block interleaving, function-pattern
//! placement, zigzag data placement, and best-of-8 mask selection.

pub mod bits;
pub mod encode;
pub mod encoder;
pub mod final_structure;
pub mod gf;
pub mod matrix;
pub mod mode;
pub mod qrcode_info;
pub mod resolve;
pub mod reed_solomon;

pub use bits::decimal;
pub use bits::push_binary;
