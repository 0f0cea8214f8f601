//! ML-DSA-65 committees: keys, the trust anchor, records and their verification.
//!
//! The quorum verifier is stateless. Accepted versions need a freshness mark of
//! their own.

pub mod committee;
pub mod signer;
pub mod status_list;
pub mod verification;
