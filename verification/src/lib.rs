//! Decoder for the binary "lay" sprite-layout format: a header with two
//! record counts, a table of sprite descriptors classified by compositing
//! role, and a table of placement chunks whose coordinates must be integral.
//! The whole stream may optionally be zlib-compressed; a little-endian peek
//! at the first four bytes decides which.

pub mod coord;
pub mod error;
pub mod flate;
pub mod layout;
pub mod parse;
pub mod wire;
