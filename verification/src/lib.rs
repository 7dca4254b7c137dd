//! A password-protected note store.
//!
//! A note is a short document made of titled passages and embedded images.
//! On disk it is a record of three base64 lines: initialisation vector,
//! ciphertext, authentication tag. The ciphertext holds the note's payload,
//! a text segment with the passages followed by the images.
//!
//! - [`data_structures`]: the note in memory and what can be done to it.
//! - [`codec`]: the payload, as bytes, and how it is read.
//! - [`cipher`]: key derivation, sealing a payload and opening a record.
//! - [`safe_note`]: one-time import from another product's export.
//! - [`images`]: images, their digests and the lines that refer to them.
//! - [`png`]: the text that a PNG image carries.
//! - [`content`]: the state of a program that works on one note at a time.
//! - [`encode`]: base64 and UTF-8.
//! - [`primitives`]: the cryptographic primitives, which are not verified.
//! - [`round_trip`] and [`laws`]: what holds of all notes, payloads and
//!   records.
//! - [`error`]: what can go wrong.
//!
//! What a function returns is stated over the views of the types, which are
//! sequences of characters and bytes. Base64, AES, HMAC, PBKDF2, SHA-256 and
//! the PNG parser come from other crates; their results are named and not
//! defined, and everything else is verified for whatever they compute.

pub mod cipher;
pub mod codec;
pub mod content;
pub mod data_structures;
pub mod encode;
pub mod error;
pub mod images;
pub mod laws;
pub mod png;
pub mod primitives;
pub mod round_trip;
pub mod safe_note;
