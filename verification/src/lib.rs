//! A small verified library around one rendered record and one fetched,
//! typed resource.
//!
//! `record` holds the in-memory user record and its fixed textual
//! rendering. `wire` states the wire format of the fetched resource as a
//! grammar over characters and parses response bodies against it.
//! `fetch` decides one fetch from the HTTP status and the body. `text`
//! holds the character-level helpers, and `laws` the proofs that tie the
//! renderings and the parser together. The network call itself, and the
//! printing, live outside the library and hand it plain values.

pub mod fetch;
pub mod laws;
pub mod record;
pub mod text;
pub mod wire;
