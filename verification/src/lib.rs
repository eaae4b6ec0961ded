//! Turns a file's content into source text that declares a literal with the
//! same content: a multi-line string literal for text, a byte-array literal
//! for binary data.
//!
//! - `embed`: the request, and the run that serves it on the content of the
//!   input.
//! - `artifact`: the generated source text, header and literal.
//! - `text`, `binary`: the two literals, what they stand for, and the proofs
//!   that each stands for exactly what was embedded.
//! - `lines`, `hex`: lines of a text and hexadecimal digits.
//! - `clock`, `std_text`: what is taken on trust from chrono and from the
//!   standard library.
//!
//! The library reads and writes no file: the caller hands in the content of
//! the input and gets the text for the output.

pub mod artifact;
pub mod binary;
pub mod clock;
pub mod embed;
pub mod hex;
pub mod lines;
pub mod std_text;
pub mod text;

pub use embed::{run_embed, run_embed_bin, run_embed_text, Embed, EmbedError, Mode};
