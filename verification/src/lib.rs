//! A status list signed by a committee instead of by one root key.
//!
//! A committee of members, fixed in a trust anchor, publishes versions of a list
//! of 32-byte entries. A version counts once at least `t` distinct members have
//! signed it, and a verifier never goes back to an older one.

pub mod bench;
pub mod bytes;
pub mod bitlist;
pub mod crypto;
pub mod demo;
pub mod framing;
pub mod hash;
pub mod mldsa;
pub mod node;
pub mod params;
pub mod protocol;
pub mod state;
pub mod text;
