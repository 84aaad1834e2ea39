//! A bidirectional codec for a tree-structured, typed binary tag format:
//! it decodes a kind-tagged byte stream into a dynamic tree of typed values
//! and encodes such trees back, byte for byte, under the format's
//! deferred-header protocol. Every encoding and decoding step is specified
//! against a mathematical model of the wire format in `wire`, and the
//! round-trip law — decoding an encoding yields the value encoded — is
//! proved in `roundtrip`.

pub mod de;
pub mod error;
pub mod kind;
pub mod nbtreader;
pub mod parser;
pub mod roundtrip;
pub mod ser;
pub mod tag;
pub mod wire;
pub mod writer;
