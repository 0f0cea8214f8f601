//! One round of the SNARK path in a single process: the members sign, the signatures
//! are aggregated, and the record is verified under the anchor.
use crate::bytes::views;
use crate::node::snark_prover::{
    may_aggregate, may_ask, proven_by, repeated, sign_all, signed_by, AggregateRequest, PQSNARKProverModule,
    RepeatedSigner,
};
use crate::node::snark_verifier::{disproven, proven, Aggregate, PQSNARKVerifierModule};
use crate::protocol::committee::{Anchor, Committee};
use crate::protocol::status_list::{decode_snark, Algorithms, SnarkRecord, SnarkStatusList};
use crate::protocol::xmss::{XmssPublicKey, XmssSignature};
use vstd::prelude::*;

verus! {

/// Decodes a record and verifies it; only an authentic one comes back.
pub fn authenticate<D: Fn(&[u8]) -> Option<Aggregate>, C: Fn(&[u8]) -> bool>(
    module: &PQSNARKVerifierModule,
    bytes: &[u8],
    decode: &D,
    check: &C,
) -> (r: Option<SnarkStatusList>)
    requires
        forall|b: &[u8]| call_requires(*decode, (b,)),
        forall|b: &[u8]| call_requires(*check, (b,)),
    ensures
        match r {
            Some(record) => decode_snark(bytes@) is Ok && decode_snark(bytes@)->Ok_0 == record@
                && proven(module@, record@, *decode, *check),
            None => decode_snark(bytes@) is Err || disproven(
                module@,
                decode_snark(bytes@)->Ok_0,
                *decode,
                *check,
            ),
        },
{
    match SnarkStatusList::from_bytes(bytes) {
        Err(_) => None,
        Ok(record) => if module.verify(&record, decode, check) {
            Some(record)
        } else {
            None
        },
    }
}

/// Has `signers` sign `(list, version)` at `slot` and aggregates their signatures,
/// unless one of them is named twice. What comes out stands for that version alone.
pub fn make_signed_proof<
    S: Fn(usize, u32, &[u8; 32]) -> (XmssPublicKey, XmssSignature),
    A: FnOnce(&AggregateRequest) -> Vec<u8>,
>(
    prover: &PQSNARKProverModule,
    committee: &Committee,
    signers: &[usize],
    list: &[[u8; 32]],
    slot: u32,
    version: u32,
    log_inv_rate: usize,
    xmss_sign: S,
    aggregate: A,
) -> (r: Result<Vec<u8>, RepeatedSigner>)
    requires
        forall|message: [u8; 32], i: usize, s: u32, m: &[u8; 32]|
            message@ == committee@.message(Algorithms::WotsXmss, views(list@), version)
                && #[trigger] may_ask(signers@, slot, message, i, s, *m)
                ==> #[trigger] call_requires(xmss_sign, (i, s, m)),
        forall|message: [u8; 32], q: &AggregateRequest|
            message@ == committee@.message(Algorithms::WotsXmss, views(list@), version)
                && #[trigger] may_aggregate(
                xmss_sign,
                signers@,
                message,
                slot,
                log_inv_rate,
                *q,
            ) ==> #[trigger] call_requires(aggregate, (q,)),
    ensures
        match r {
            Err(e) => e.slot == slot && repeated(signers@, e.member) && forall|m: usize|
                m < e.member ==> !#[trigger] repeated(signers@, m),
            Ok(proof_bytes) => {
                &&& forall|m: usize| !#[trigger] repeated(signers@, m)
                &&& exists|message: [u8; 32]|
                    {
                        &&& message@ == committee@.message(
                            Algorithms::WotsXmss,
                            views(list@),
                            version,
                        )
                        &&& #[trigger] proven_by(
                            xmss_sign,
                            aggregate,
                            signers@,
                            message,
                            slot,
                            log_inv_rate,
                            proof_bytes,
                        )
                    }
            },
        },
{
    let message = committee.message_for(Algorithms::WotsXmss, list, version);
    prover.sign_and_prove(signers, message, slot, log_inv_rate, xmss_sign, aggregate)
}

/// Whether `record` is what a round came to: the list and the version, and behind them
/// the aggregate of what each of `signers` signed over both at `slot`.
pub open spec fn round_record<
    S: Fn(usize, u32, &[u8; 32]) -> (XmssPublicKey, XmssSignature),
    A: FnOnce(&AggregateRequest) -> Vec<u8>,
>(
    anchor: Anchor,
    signers: Seq<usize>,
    list: Seq<Seq<u8>>,
    slot: u32,
    version: u32,
    log_inv_rate: usize,
    sign: S,
    aggregate: A,
    record: SnarkRecord,
) -> bool {
    exists|q: &AggregateRequest, proof_bytes: Vec<u8>|
        {
            &&& record == (SnarkRecord {
                alg: Algorithms::WotsXmss,
                list,
                version,
                proof: proof_bytes@,
            })
            &&& q.slot == slot && q.log_inv_rate == log_inv_rate
            &&& q.message@ == anchor.message(Algorithms::WotsXmss, list, version)
            &&& signed_by(sign, signers, slot, q.message, q.raws@)
            &&& #[trigger] call_ensures(aggregate, (q,), proof_bytes)
        }
}

/// One round at an explicit slot: `signers` sign, the signatures become one aggregate,
/// and the record is verified under the module's anchor. Beside the record comes
/// whether it was authentic.
pub fn run_flow<
    S: Fn(usize, u32, &[u8; 32]) -> (XmssPublicKey, XmssSignature),
    A: FnOnce(&AggregateRequest) -> Vec<u8>,
    D: Fn(&[u8]) -> Option<Aggregate>,
    C: Fn(&[u8]) -> bool,
>(
    prover: &PQSNARKProverModule,
    module: &PQSNARKVerifierModule,
    signers: &[usize],
    list: Vec<[u8; 32]>,
    slot: u32,
    version: u32,
    log_inv_rate: usize,
    xmss_sign: S,
    aggregate: A,
    decode: &D,
    check: &C,
) -> (r: (SnarkStatusList, bool))
    requires
        forall|i: usize, s: u32, m: &[u8; 32]|
            signers@.contains(i) && s == slot && m@ == module@.message(
                Algorithms::WotsXmss,
                views(list@),
                version,
            ) ==> #[trigger] call_requires(xmss_sign, (i, s, m)),
        forall|q: &AggregateRequest|
            {
                &&& q.slot == slot && q.log_inv_rate == log_inv_rate
                &&& q.message@ == module@.message(Algorithms::WotsXmss, views(list@), version)
                &&& signed_by(xmss_sign, signers@, slot, q.message, q.raws@)
            } ==> #[trigger] call_requires(aggregate, (q,)),
        forall|b: &[u8]| call_requires(*decode, (b,)),
        forall|b: &[u8]| call_requires(*check, (b,)),
    ensures
        round_record(
            module@,
            signers@,
            views(list@),
            slot,
            version,
            log_inv_rate,
            xmss_sign,
            aggregate,
            r.0@,
        ),
        r.1 ==> proven(module@, r.0@, *decode, *check),
        !r.1 ==> disproven(module@, r.0@, *decode, *check),
{
    let alg = Algorithms::WotsXmss;
    let message = module.committee_as_ref().message_for(alg, list.as_slice(), version);
    let raws = sign_all(signers, &message, slot, xmss_sign);
    let ghost asked = AggregateRequest { raws, message, slot, log_inv_rate };
    let proof_bytes = prover.aggregate(raws, message, slot, log_inv_rate, aggregate);
    let ghost proven_bytes = proof_bytes;
    let record = SnarkStatusList::new(alg, list, version, proof_bytes);
    proof {
        let q = choose|q: &AggregateRequest|
            *q == asked && #[trigger] call_ensures(aggregate, (q,), proven_bytes);
        assert(signed_by(xmss_sign, signers@, slot, q.message, q.raws@));
        assert(call_ensures(aggregate, (q,), proven_bytes));
    }
    let authentic: bool = module.verify(&record, decode, check);
    (record, authentic)
}

/// A round comes to a record of its own list and version, and its proof is what the prover
/// made of what every signer in its turn signed over the statement of that list and version.
pub proof fn law_a_round_records_its_own_list<
    S: Fn(usize, u32, &[u8; 32]) -> (XmssPublicKey, XmssSignature),
    A: FnOnce(&AggregateRequest) -> Vec<u8>,
>(
    anchor: Anchor,
    signers: Seq<usize>,
    list: Seq<Seq<u8>>,
    slot: u32,
    version: u32,
    log_inv_rate: usize,
    sign: S,
    aggregate: A,
    record: SnarkRecord,
)
    requires
        round_record(
            anchor,
            signers,
            list,
            slot,
            version,
            log_inv_rate,
            sign,
            aggregate,
            record,
        ),
    ensures
        record.list == list,
        record.version == version,
        record.alg == Algorithms::WotsXmss,
        exists|q: &AggregateRequest, proof_bytes: Vec<u8>|
            {
                &&& #[trigger] call_ensures(aggregate, (q,), proof_bytes)
                &&& proof_bytes@ == record.proof
                &&& q.message@ == anchor.message(Algorithms::WotsXmss, list, version)
                &&& q.slot == slot
                &&& q.log_inv_rate == log_inv_rate
                &&& q.raws@.len() == signers.len()
                &&& forall|k: int|
                    0 <= k < signers.len() ==> call_ensures(
                        sign,
                        (signers[k], slot, &q.message),
                        #[trigger] q.raws@[k],
                    )
            },
{
}

} // verus!
