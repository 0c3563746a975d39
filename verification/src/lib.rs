//! A canonical binary codec for composite data types.
//!
//! A caller describes the shape of a structure or tagged union together with
//! its encoding directives (tag strategy, explicit tag values, skipped
//! fields, TLV extension markers).  Compiling that description yields an
//! immutable codec plan; the plan drives a deterministic, byte-exact
//! `encode`, the inverse `decode`, and schema-time conflict detection.
//!
//! The wire contract is fixed: integers travel little-endian at their
//! declared width; a byte sequence carries a 16-bit little-endian length
//! prefix; a TLV entry is a 16-bit tag id, a 16-bit payload length, then
//! the payload; captured unknown entries re-encode in ascending id order.
//! Leaf types are fixed-width integers and byte sequences — a nested
//! composite travels as a byte-sequence field holding its own encoding,
//! with the outer length prefix as its framing.  There is no header and no
//! self-description; a decoder must know the expected plan out of band,
//! and input left over after a complete value is rejected.

pub mod prim;
pub mod schema;
pub mod values;
pub mod codec;
pub mod compile;
pub mod laws;
