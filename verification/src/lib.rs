//! A verified semantic-version bump library: a version value with an
//! `alpha.N` pre-release counter, a parser and serializer for the canonical
//! string form, the engine that maps a bump kind to the next version, the
//! choice of the version field out of a manifest, and the inference of a
//! bump kind from a commit message.
pub mod text;
pub mod version;
pub mod bump;
pub mod codec;
pub mod manifest;
pub mod infer;
