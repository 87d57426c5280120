//! Client-side engine for the A2S game-server query protocol: a field
//! reader over reply datagrams, the packet decoder with its per-type
//! parsers, the mod list that some servers hide inside rules replies, and
//! the challenge-retry decisions of a query.
//!
//! - `reader`: the byte cursor and its primitive decoders.
//! - `packet`: classification of replies and the info, players and
//!   challenge parsers.
//! - `rules`: the rules parser with the mod-chunk recognition, unescaping
//!   and mod records.
//! - `query`: the requests and the retry decisions, one reply at a time.
//! - `wire`: the wire form of well-formed replies, with the proofs that
//!   decoding gives back what was encoded.

pub mod packet;
pub mod query;
pub mod reader;
pub mod rules;
pub mod wire;
