//! Reading and writing PFM (Portable Float Map) images.
//!
//! A PFM file is an ASCII header (`PF` or `Pf`, width and height, a signed
//! scale whose sign picks the byte order) followed by four-byte IEEE-754
//! samples, rows stored from bottom to top.
//!
//! Samples and the scale factor are carried as single-precision bit patterns
//! (`u32`), so that every byte of the format can be stated and proved exactly.
//! Reading the scale token as a number and writing the scale as text are the
//! caller's: `decode` takes the scale as bits, `encode` takes its text.
pub mod common;
pub mod laws;
pub mod payload;
pub mod pfm;
pub mod text;

pub use common::Endian;
pub use common::PfmError;
pub use payload::flip_vertical;
pub use pfm::{decode, encode, parse_header, signed_scale, PFMBuilder, PfmHeader, PFM};
pub use text::{parse_token, read_until_space};
