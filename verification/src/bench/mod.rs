//! What the measuring programs compute: memory figures, sizes, whole rounds and the
//! records that a verifier must refuse.
pub mod fixture;
pub mod flow;
pub mod mem;
pub mod stats;
