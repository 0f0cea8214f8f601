//! Sizes of what the holder verified: how large the evidence of a quorum is.
use crate::protocol::xmss::SIGNATURE_SSZ_LEN;
use vstd::prelude::*;

verus! {

/// Sizes of a raw record in bytes, by what occupies them.
#[derive(Clone, Copy, PartialEq, Eq, Structural, Debug)]
pub struct RawSizes {
    pub record: usize,
    pub signatures: usize,
    pub list: usize,
    /// What is neither signatures nor list.
    pub framing: usize,
    /// What one more signer costs.
    pub per_signer: usize,
}

/// Byte sizes of the raw form. The record is its signatures and little else, which
/// makes its size linear in the threshold.
pub fn raw_sizes(record_bytes: usize, entries: usize, signatures: usize, sig_len: usize) -> (sizes:
    RawSizes)
    requires
        signatures * sig_len + entries * 32 <= usize::MAX,
    ensures
        sizes == (RawSizes {
            record: record_bytes,
            signatures: (signatures * sig_len) as usize,
            list: (entries * 32) as usize,
            framing: if record_bytes >= signatures * sig_len + entries * 32 {
                (record_bytes - (signatures * sig_len + entries * 32)) as usize
            } else {
                0
            },
            per_signer: sig_len,
        }),
{
    assert(0 <= signatures * sig_len) by (nonlinear_arith);
    let sig_total: usize = signatures * sig_len;
    let list_total: usize = entries * 32;
    let content: usize = sig_total + list_total;
    let framing: usize = if record_bytes >= content {
        record_bytes - content
    } else {
        0
    };
    RawSizes {
        record: record_bytes,
        signatures: sig_total,
        list: list_total,
        framing,
        per_signer: sig_len,
    }
}

/// Sizes of a SNARK record in bytes, with the raw evidence it replaces for scale.
#[derive(Clone, Copy, PartialEq, Eq, Structural, Debug)]
pub struct SnarkSizes {
    pub record: usize,
    pub proven: usize,
    pub list: usize,
    /// What the same quorum's signatures would take.
    pub same_quorum_raw: usize,
}

/// Byte sizes of the SNARK form. One more signer costs nothing.
pub fn snark_sizes(record_bytes: usize, entries: usize, proof_bytes: usize, quorum: usize) -> (sizes:
    SnarkSizes)
    requires
        entries * 32 <= usize::MAX,
        quorum * SIGNATURE_SSZ_LEN <= usize::MAX,
    ensures
        sizes == (SnarkSizes {
            record: record_bytes,
            proven: proof_bytes,
            list: (entries * 32) as usize,
            same_quorum_raw: (quorum * SIGNATURE_SSZ_LEN) as usize,
        }),
{
    SnarkSizes {
        record: record_bytes,
        proven: proof_bytes,
        list: entries * 32,
        same_quorum_raw: quorum * SIGNATURE_SSZ_LEN,
    }
}

} // verus!
