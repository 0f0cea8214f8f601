//! The trust anchor, the published records and the statement that is signed.
use vstd::prelude::*;

pub mod committee;
pub mod record;
pub mod status_list;
pub mod xmss;

verus! {

/// The largest committee that anything published can name.
///
/// The raw form keeps its signers in a bitmap of bounded length. The anchor enforces
/// the same ceiling, so both forms of a record speak of the same committees.
pub const MAX_COMMITTEE_SIZE: usize = 2048;

} // verus!
