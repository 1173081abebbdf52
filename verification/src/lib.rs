//! A toolkit for inspecting and repairing ISO base media (`.mp4`) files.
//!
//! The heart of the crate is a SAX-style traversal engine over the ISO-BMFF
//! box grammar, together with visitors that print, extract, strip, repair and
//! transplant boxes.  The engine works over an in-memory
//! [`source::ByteSource`]; callers read files into memory and write results
//! back out themselves.

pub mod boxtype;
pub mod bytes;
pub mod engine;
pub mod error;
pub mod events;
pub mod header;
pub mod inspect;
pub mod laws;
pub mod mangle;
pub mod moov_transplant;
pub mod recover;
pub mod source;
pub mod strip;
pub mod tables;
pub mod tree;
pub mod visitor;
