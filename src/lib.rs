//! Marshaling and exchange logic between a managed host and a zero-knowledge
//! proving engine: witness parsing, the hexadecimal proof record codec, the
//! outcome of engine calls, and the reference string provisioning rules.
pub mod artifact;
pub mod exchange;
pub mod hex_text;
pub mod srs;
pub mod witness;
