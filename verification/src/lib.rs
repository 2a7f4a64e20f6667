//! A verified codec for the Standard MIDI File (SMF) binary format.
//!
//! A byte buffer decodes into an in-memory model — header fields and a
//! track of delta-time-tagged events — and such a model serializes back to
//! wire-format bytes.  Both directions carry contracts stated over
//! specification-level encode and parse functions on byte sequences
//! (`wire`), and the laws relating the two directions, among them the
//! decode-encode round trip, are proved in `laws`.

pub mod error;
pub mod laws;
pub mod model;
pub mod parser;
pub mod reader;
pub mod text;
pub mod writer;
pub mod vlq;
pub mod wire;
