//! Codec for interest-point match files: the keypoints that a detector found
//! in the two images of a stereo pair, each with its attributes and its
//! descriptor vector, in a little-endian binary form and in a text form.
//!
//! - [`data`] holds the records and the match set, and their encoders.
//! - [`parser`] holds the decoders.
//! - [`binary`] and [`text`] say, over sequences of bytes and of characters,
//!   what the encoders write and what the decoders read; [`binary_laws`] and
//!   [`text_laws`] prove what holds of the two together.
//! - [`endian`] and [`decimal`] hold little-endian integers and decimal
//!   numerals.
//! - [`wire`] and [`lexer`] hold the calls into nom, which reads the numbers
//!   of both forms, with what is taken on trust of each call.
//!
//! Floats are carried as their bit patterns. The binary form keeps every
//! pattern. The text form writes a float as `Display` does, and so does not
//! give back negative infinity, nor any NaN but the plain one.

pub mod binary;
pub mod binary_laws;
pub mod data;
pub mod decimal;
pub mod endian;
pub mod error;
pub mod lexer;
pub mod parser;
pub mod text;
pub mod text_laws;
pub mod wire;

pub use data::{IPMatch, IPRecord};
pub use decimal::{decimal_text, signed_decimal_text};
pub use error::ASPMatchError;
pub use parser::{
    checked_descriptor, decode_binary, decode_text, ipmatch, ipmatch_text, iprecord, iprecord_text,
    split_records,
};
pub use text::join;
