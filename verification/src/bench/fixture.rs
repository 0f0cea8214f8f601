//! Fixtures of the measurements: which files belong to one, and the records built
//! from an honest one that a verifier must refuse.
use crate::bitlist::as_ints;
use crate::bytes::{le32, push_all, push_le32, views};
use crate::demo::storage::text_views;
use crate::hash::{hash_any, sha3_256, sha3_256_digest};
use crate::mldsa::committee::{Committee as MlDsaCommittee, MlDsaAnchor};
use crate::mldsa::signer::{
    ml_dsa_65_public_key, ml_dsa_65_verifies, ml_dsa_signature_views, MlDsa65Signer, MlDsaError,
    Signature,
};
use crate::mldsa::status_list::{
    record_size, MlDsaStatusList, MlDsaStatusListError, MAX_RECORD_BYTES,
};
use crate::mldsa::verification::{
    authorized, law_an_honest_quorum_is_authorized, RawVerifier,
};
use crate::node::raw_verifier::{
    confirmed, quorum_shape, refuted, SignatureCheck, VerifierNode,
};
use crate::protocol::committee::{decode_anchor, Anchor, Committee, CommitteeError};
use crate::protocol::record::{
    assembled, distinct_indices, evidence_of, indices_below, law_every_signature_is_counted,
    law_evidence_is_put_together_again, lemma_evidence_of, named, Body,
};
use crate::protocol::status_list::{
    copy_entries, decode_raw, raw_record, signer_pairs, RawRecord, StatusList, StatusListError,
};
use crate::protocol::xmss::{signature_views, XmssSignature};
use crate::text::{
    begins_with, chars_less, chars_of, decimal, is_text, law_a_prefix_is_what_can_be_completed,
    law_texts_are_ordered_by_their_first_difference, lemma_text_less_asymmetric,
    lemma_parse_decimal, lemma_text_order_transitive, parse_upto, parse_usize, push_decimal, starts_with,
    text_less,
};
use vstd::prelude::*;
use vstd::string::*;

verus! {

/// The most updates a fixture holds.
pub const MAX_UPDATES: usize = 64;

// ---- files -------------------------------------------------------------------

/// Whether no name is followed by one that comes before it.
pub open spec fn in_order(names: Seq<Seq<char>>) -> bool {
    forall|i: int, j: int|
        0 <= i <= j < names.len() ==> !text_less(#[trigger] names[j], #[trigger] names[i])
}

/// The names that begin with `prefix`, in the order they were found.
pub open spec fn with_prefix(names: Seq<Seq<char>>, prefix: Seq<char>) -> Seq<Seq<char>>
    decreases names.len(),
{
    if names.len() == 0 {
        Seq::empty()
    } else {
        let before = with_prefix(names.drop_last(), prefix);
        if begins_with(names.last(), prefix) {
            before.push(names.last())
        } else {
            before
        }
    }
}

/// The place in an ordered list behind everything that `name` does not come before.
fn place_for(sorted: &[String], name: &[char]) -> (at: usize)
    requires
        in_order(text_views(sorted@)),
    ensures
        at <= sorted@.len(),
        forall|i: int| 0 <= i < at ==> !text_less(name@, #[trigger] text_views(sorted@)[i]),
        forall|i: int|
            at <= i < sorted@.len() ==> text_less(name@, #[trigger] text_views(sorted@)[i]),
{
    let ghost all = text_views(sorted@);
    let mut at: usize = sorted.len();
    while at > 0
        invariant_except_break
            at <= sorted@.len(),
            all == text_views(sorted@),
            in_order(all),
            forall|i: int| at <= i < sorted@.len() ==> text_less(name@, #[trigger] all[i]),
        ensures
            at <= sorted@.len(),
            forall|i: int| at <= i < sorted@.len() ==> text_less(name@, #[trigger] all[i]),
            at > 0 ==> !text_less(name@, all[at - 1]),
        decreases at,
    {
        let last = chars_of(sorted[at - 1].as_str());
        assert(all[at - 1] == last@);
        if !chars_less(name, last.as_slice()) {
            break;
        }
        at = at - 1;
    }
    proof {
        assert forall|i: int| 0 <= i < at implies !text_less(name@, #[trigger] all[i]) by {
            assert(!text_less(all[at - 1], all[i]));
            lemma_text_order_transitive(all[i], all[at - 1], name@);
        }
    }
    at
}

/// The names that begin with `prefix`, in the order of a dictionary.
pub fn fixture_files(names: &[String], prefix: &str) -> (found: Vec<String>)
    ensures
        in_order(text_views(found@)),
        text_views(found@).to_multiset() == with_prefix(
            text_views(names@),
            prefix@,
        ).to_multiset(),
{
    let start = chars_of(prefix);
    let mut found: Vec<String> = Vec::new();
    let ghost all = text_views(names@);
    let mut i: usize = 0;
    assert(all.subrange(0, 0) =~= Seq::<Seq<char>>::empty());
    assert(text_views(found@) =~= with_prefix(all.subrange(0, 0), prefix@));
    while i < names.len()
        invariant
            i <= names@.len(),
            all == text_views(names@),
            start@ == prefix@,
            in_order(text_views(found@)),
            text_views(found@).to_multiset() == with_prefix(
                all.subrange(0, i as int),
                prefix@,
            ).to_multiset(),
        decreases names@.len() - i,
    {
        proof {
            assert(all.subrange(0, i + 1).drop_last() =~= all.subrange(0, i as int));
            assert(all.subrange(0, i + 1).last() == names@[i as int]@);
        }
        let name = chars_of(names[i].as_str());
        if starts_with(name.as_slice(), start.as_slice()) {
            let at: usize = place_for(found.as_slice(), name.as_slice());
            let copy: String = names[i].clone();
            let ghost before = text_views(found@);
            let ghost seen = with_prefix(all.subrange(0, i as int), prefix@);
            found.insert(at, copy);
            proof {
                let after = text_views(found@);
                assert(after =~= before.insert(at as int, name@));
                vstd::seq_lib::to_multiset_insert(before, at as int, name@);
                vstd::seq_lib::to_multiset_build(seen, name@);
                assert(after.to_multiset() =~= with_prefix(
                    all.subrange(0, i + 1),
                    prefix@,
                ).to_multiset());
                lemma_inserted(before, at as int, name@);
            }
        }
        i = i + 1;
    }
    assert(all.subrange(0, i as int) =~= all);
    found
}

/// A name put in its place keeps a list in order.
proof fn lemma_inserted(before: Seq<Seq<char>>, at: int, name: Seq<char>)
    requires
        in_order(before),
        0 <= at <= before.len(),
        forall|i: int| 0 <= i < at ==> !text_less(name, #[trigger] before[i]),
        forall|i: int| at <= i < before.len() ==> text_less(name, #[trigger] before[i]),
    ensures
        in_order(before.insert(at, name)),
{
    let after = before.insert(at, name);
    lemma_text_less_irreflexive(name);
    assert forall|i: int, j: int| 0 <= i <= j < after.len() implies !text_less(
        #[trigger] after[j],
        #[trigger] after[i],
    ) by {
        if i == at {
            if j > at {
                assert(after[j] == before[j - 1]);
                lemma_text_less_asymmetric(name, before[j - 1]);
            }
        } else if i < at {
            assert(after[i] == before[i]);
            if j == at {
            } else if j < at {
                assert(after[j] == before[j]);
            } else {
                assert(after[j] == before[j - 1]);
            }
        } else {
            assert(after[i] == before[i - 1] && after[j] == before[j - 1]);
        }
    }
}

/// No text comes before itself.
proof fn lemma_text_less_irreflexive(a: Seq<char>)
    ensures
        !text_less(a, a),
    decreases a.len(),
{
    if a.len() > 0 {
        lemma_text_less_irreflexive(a.drop_first());
    }
}

// ---- the shape of a run ------------------------------------------------------

/// The `t` members that sign in a round when the signers rotate over `n`.
pub open spec fn rotating(round: int, t: nat, n: int) -> Seq<usize> {
    Seq::new(t, |j: int| ((round + j) % n) as usize)
}

/// The `t` members that sign in a round when the signers rotate over `n`.
pub fn rotating_quorum(round: usize, t: usize, n: usize) -> (signers: Vec<usize>)
    requires
        n > 0,
        round + t <= usize::MAX,
    ensures
        signers@ == rotating(round as int, t as nat, n as int),
{
    let mut signers: Vec<usize> = Vec::new();
    let mut j: usize = 0;
    while j < t
        invariant
            j <= t,
            n > 0,
            round + t <= usize::MAX,
            signers@.len() == j,
            forall|k: int|
                0 <= k < j ==> #[trigger] signers@[k] == rotating(
                    round as int,
                    t as nat,
                    n as int,
                )[k],
        decreases t - j,
    {
        signers.push((round + j) % n);
        j = j + 1;
    }
    assert(signers@ =~= rotating(round as int, t as nat, n as int));
    signers
}

/// A rotating quorum names `t` different members of the committee.
pub proof fn law_a_rotating_quorum_is_distinct(round: int, t: nat, n: int, j: int, k: int)
    requires
        0 <= round,
        0 < t <= n <= usize::MAX,
        0 <= j < k < t,
    ensures
        rotating(round, t, n)[j] != rotating(round, t, n)[k],
        rotating(round, t, n)[j] < n,
{
    let (a, b) = (round + j, round + k);
    vstd::arithmetic::div_mod::lemma_fundamental_div_mod(a, n);
    vstd::arithmetic::div_mod::lemma_fundamental_div_mod(b, n);
    let (p, q) = (a / n, b / n);
    assert(a % n != b % n) by {
        if a % n == b % n {
            assert(b - a == n * (q - p)) by (nonlinear_arith)
                requires
                    a == n * p + a % n,
                    b == n * q + b % n,
                    a % n == b % n,
            ;
            assert(false) by (nonlinear_arith)
                requires
                    b - a == n * (q - p),
                    0 < b - a < n,
            ;
        }
    }
}

/// What is wrong with a fixture for a committee of `n` with threshold `t` and `updates`
/// honest records, if anything.
pub open spec fn fixture_fault(
    anchor: Anchor,
    found: nat,
    n: nat,
    t: nat,
    updates: nat,
) -> Option<Seq<char>> {
    if anchor.members.len() != n {
        Some("fixture N/build N drift"@)
    } else if anchor.t != t {
        Some("fixture t/build t drift"@)
    } else if found != updates {
        Some("fixture must contain exactly N_UPDATES honest records"@)
    } else {
        None
    }
}

/// What is wrong with a fixture, if anything.
pub fn check_fixture(committee: &Committee, found: usize, n: usize, t: usize, updates: usize) -> (fault:
    Option<String>)
    ensures
        match fault {
            Some(text) => fixture_fault(
                committee@,
                found as nat,
                n as nat,
                t as nat,
                updates as nat,
            ) == Some(text@),
            None => fixture_fault(
                committee@,
                found as nat,
                n as nat,
                t as nat,
                updates as nat,
            ) is None,
        },
{
    if committee.size() != n {
        Some("fixture N/build N drift".to_owned())
    } else if committee.threshold() != t {
        Some("fixture t/build t drift".to_owned())
    } else if found != updates {
        Some("fixture must contain exactly N_UPDATES honest records".to_owned())
    } else {
        None
    }
}

/// Whether bytes are a record that a verifier authorizes.
pub fn accepts_bytes<V: Fn(&SignatureCheck) -> bool>(
    node: &VerifierNode,
    bytes: &[u8],
    xmss_verify: V,
) -> (r: bool)
    requires
        forall|c: &SignatureCheck| call_requires(xmss_verify, (c,)),
    ensures
        r ==> decode_raw(bytes@) is Ok && confirmed(
            node@,
            decode_raw(bytes@)->Ok_0,
            xmss_verify,
        ),
        !r ==> decode_raw(bytes@) is Err || refuted(
            node@,
            decode_raw(bytes@)->Ok_0,
            xmss_verify,
        ),
{
    match StatusList::from_bytes(bytes) {
        Ok(record) => node.verify_status_list(&record, xmss_verify),
        Err(_) => false,
    }
}

// ---- negative controls -------------------------------------------------------

/// The signatures of a record, each with the index of its signer.
pub fn indexed_signatures(record: &StatusList) -> (pairs: Vec<(usize, XmssSignature)>)
    ensures
        signer_pairs(pairs@) == evidence_of(record@.body()),
        record@.wf(),
{
    let indices = record.signer_indices();
    let signatures = record.signatures();
    proof {
        crate::bitlist::lemma_set_indices(record@.bits);
        assert(as_ints(indices@).len() == indices@.len());
        assert(signature_views(signatures@).len() == signatures@.len());
    }
    let mut pairs: Vec<(usize, XmssSignature)> = Vec::new();
    let mut k: usize = 0;
    while k < signatures.len()
        invariant
            k <= signatures@.len(),
            signatures@.len() == indices@.len(),
            pairs@.len() == k,
            forall|j: int|
                0 <= j < k ==> (#[trigger] pairs@[j]).0 == indices@[j] && pairs@[j].1@
                    == signatures@[j]@,
        decreases signatures@.len() - k,
    {
        pairs.push((indices[k], signatures[k].clone()));
        k = k + 1;
    }
    proof {
        let (a, b) = (signer_pairs(pairs@), evidence_of(record@.body()));
        assert forall|j: int| 0 <= j < a.len() implies #[trigger] a[j] == b[j] by {
            assert(as_ints(indices@)[j] == indices@[j]);
            assert(signature_views(signatures@)[j] == signatures@[j]@);
        }
        assert(a =~= b);
    }
    pairs
}

/// The first `n` of a quorum's signatures.
fn first_of(pairs: &[(usize, XmssSignature)], n: usize) -> (out: Vec<(usize, XmssSignature)>)
    ensures
        signer_pairs(out@) == signer_pairs(pairs@).subrange(
            0,
            if n <= pairs@.len() {
                n as int
            } else {
                pairs@.len() as int
            },
        ),
{
    let mut out: Vec<(usize, XmssSignature)> = Vec::new();
    let mut k: usize = 0;
    while k < pairs.len() && k < n
        invariant
            k <= pairs@.len(),
            k <= n,
            out@.len() == k,
            forall|j: int|
                0 <= j < k ==> (#[trigger] out@[j]).0 == pairs@[j].0 && out@[j].1@ == pairs@[j].1@,
        decreases pairs@.len() - k,
    {
        out.push((pairs[k].0, pairs[k].1.clone()));
        k = k + 1;
    }
    assert(signer_pairs(out@) =~= signer_pairs(pairs@).subrange(0, k as int));
    out
}

/// Records that carry genuine signatures and that a verifier must refuse nonetheless:
/// what fails is the binding under test and nothing else.
pub struct Controls {
    /// An entry nobody signed for, behind the honest list.
    pub tampered: StatusList,
    /// The honest evidence under the next version.
    pub relabelled: StatusList,
    /// One signature fewer than the threshold.
    pub short: StatusList,
}

/// How many signatures a short control keeps out of `len`.
pub open spec fn kept(len: nat, t: nat) -> int {
    if t - 1 <= len {
        t - 1
    } else {
        len as int
    }
}

/// Builds the negative controls for a committee of `n_members` with threshold `t` from
/// an honest record.
pub fn raw_controls(honest: &StatusList, extra: [u8; 32], n_members: usize, t: usize) -> (r: Result<
    Controls,
    StatusListError,
>)
    requires
        honest@.version < u32::MAX,
        t >= 1,
    ensures
        ({
            let pairs = evidence_of(honest@.body());
            let n = n_members as int;
            match r {
                Ok(c) => {
                    &&& indices_below(pairs, n)
                    &&& c.tampered@ == raw_record(
                        honest@.alg,
                        assembled(honest@.list.push(extra@), honest@.version, pairs, n),
                    )
                    &&& c.relabelled@ == raw_record(
                        honest@.alg,
                        assembled(honest@.list, (honest@.version + 1) as u32, pairs, n),
                    )
                    &&& c.short@ == raw_record(
                        honest@.alg,
                        assembled(
                            honest@.list,
                            honest@.version,
                            pairs.subrange(0, kept(pairs.len(), t as nat)),
                            n,
                        ),
                    )
                },
                Err(StatusListError::SignerOutside { index, members }) => {
                    &&& members == n_members <= index
                    &&& named(pairs, index as int)
                    &&& indices_below(pairs, index + 1)
                },
                Err(StatusListError::CommitteeTooLarge { members }) => {
                    &&& indices_below(pairs, n)
                    &&& members == n_members > crate::bitlist::MAX_BITS
                },
                Err(_) => false,
            }
        }),
{
    let ghost pairs = evidence_of(honest@.body());
    let for_tampered = indexed_signatures(honest);
    let for_relabelled = indexed_signatures(honest);
    let for_short = first_of(for_tampered.as_slice(), t - 1);
    proof {
        lemma_evidence_of(honest@.body());
        assert(signer_pairs(for_tampered@).len() == for_tampered@.len());
        lemma_prefix(pairs, kept(pairs.len(), t as nat), n_members as int);
    }
    let mut longer = honest.list_cloned();
    let ghost before = longer@;
    longer.push(extra);
    assert(views(longer@) =~= views(before).push(extra@));
    let tampered = match StatusList::new(
        honest.alg(),
        longer,
        honest.version(),
        n_members,
        for_tampered,
    ) {
        Ok(record) => record,
        Err(e) => {
            return Err(e);
        },
    };
    let relabelled = match StatusList::new(
        honest.alg(),
        honest.list_cloned(),
        honest.version() + 1,
        n_members,
        for_relabelled,
    ) {
        Ok(record) => record,
        Err(e) => {
            return Err(e);
        },
    };
    match StatusList::new(
        honest.alg(),
        honest.list_cloned(),
        honest.version(),
        n_members,
        for_short,
    ) {
        Ok(short) => Ok(Controls { tampered, relabelled, short }),
        Err(e) => Err(e),
    }
}

/// The first of some pairs are distinct and in range when all are.
proof fn lemma_prefix(pairs: Seq<(int, Seq<u8>)>, k: int, n: int)
    requires
        0 <= k <= pairs.len(),
        distinct_indices(pairs),
    ensures
        distinct_indices(pairs.subrange(0, k)),
        indices_below(pairs, n) ==> indices_below(pairs.subrange(0, k), n),
{
    let s = pairs.subrange(0, k);
    assert forall|i: int, j: int| 0 <= i < j < s.len() implies (#[trigger] s[i]).0 != (
    #[trigger] s[j]).0 by {
        assert(pairs[i].0 != pairs[j].0);
    }
    assert forall|i: int| indices_below(pairs, n) && 0 <= i < s.len() implies (
    #[trigger] s[i]).0 < n by {
        assert(pairs[i].0 < n);
    }
}

/// Whether each of the four controls was refused: tampered, relabelled, short, and one
/// in which an outsider claims a member's seat.
pub fn controls_refused<V: Fn(&SignatureCheck) -> bool + Copy>(
    node: &VerifierNode,
    controls: &Controls,
    outsider: &StatusList,
    xmss_verify: V,
) -> (refused: (bool, bool, bool, bool))
    requires
        forall|c: &SignatureCheck| call_requires(xmss_verify, (c,)),
    ensures
        refusal_is(node@, controls.tampered@, xmss_verify, refused.0),
        refusal_is(node@, controls.relabelled@, xmss_verify, refused.1),
        refusal_is(node@, controls.short@, xmss_verify, refused.2),
        refusal_is(node@, outsider@, xmss_verify, refused.3),
{
    (
        !node.verify_status_list(&controls.tampered, xmss_verify),
        !node.verify_status_list(&controls.relabelled, xmss_verify),
        !node.verify_status_list(&controls.short, xmss_verify),
        !node.verify_status_list(outsider, xmss_verify),
    )
}

/// Whether a record was refused, as far as the answers of `verify` say.
pub open spec fn refusal_is<V: Fn(&SignatureCheck) -> bool>(
    anchor: Anchor,
    r: RawRecord,
    verify: V,
    refused: bool,
) -> bool {
    if refused {
        refuted(anchor, r, verify)
    } else {
        confirmed(anchor, r, verify)
    }
}

/// A record with fewer signatures than the threshold is refused without looking at any
/// of them.
pub proof fn law_a_short_quorum_is_refused(
    anchor: Anchor,
    r: RawRecord,
    t: nat,
    list: Seq<Seq<u8>>,
    version: u32,
)
    requires
        r.wf(),
        1 <= t <= anchor.t,
    ensures
        ({
            let pairs = evidence_of(r.body());
            let short = pairs.subrange(0, kept(pairs.len(), t));
            !quorum_shape(
                anchor,
                raw_record(r.alg, assembled(list, version, short, r.bits.len() as int)),
            )
        }),
{
    let pairs = evidence_of(r.body());
    let k = kept(pairs.len(), t);
    let n = r.bits.len() as int;
    lemma_evidence_of(r.body());
    lemma_prefix(pairs, k, n);
    let short = pairs.subrange(0, k);
    assert forall|i: int| 0 <= i < short.len() implies 0 <= (#[trigger] short[i]).0 by {
        assert(0 <= pairs[i].0);
    }
    law_every_signature_is_counted(short, n);
}

// ---- negative controls under the stateless scheme ----------------------------

/// The signatures of a record, each with the index of its signer.
pub fn indexed_ml_dsa_signatures(record: &MlDsaStatusList) -> (pairs: Vec<(usize, Signature)>)
    ensures
        crate::mldsa::status_list::signer_pairs(pairs@) == evidence_of(record@),
        record@.balanced(),
{
    let indices = record.signer_indices();
    let signatures = record.signatures();
    proof {
        crate::bitlist::lemma_set_indices(record@.bits);
        assert(as_ints(indices@).len() == indices@.len());
        assert(ml_dsa_signature_views(signatures@).len() == signatures@.len());
    }
    let mut pairs: Vec<(usize, Signature)> = Vec::new();
    let mut k: usize = 0;
    while k < signatures.len()
        invariant
            k <= signatures@.len(),
            signatures@.len() == indices@.len(),
            pairs@.len() == k,
            forall|j: int|
                0 <= j < k ==> (#[trigger] pairs@[j]).0 == indices@[j] && pairs@[j].1@
                    == signatures@[j]@,
        decreases signatures@.len() - k,
    {
        pairs.push((indices[k], signatures[k].clone()));
        k = k + 1;
    }
    proof {
        let (a, b) = (crate::mldsa::status_list::signer_pairs(pairs@), evidence_of(record@));
        assert forall|j: int| 0 <= j < a.len() implies #[trigger] a[j] == b[j] by {
            assert(as_ints(indices@)[j] == indices@[j]);
            assert(ml_dsa_signature_views(signatures@)[j] == signatures@[j]@);
        }
        assert(a =~= b);
    }
    pairs
}

fn first_signatures(pairs: &[(usize, Signature)], n: usize) -> (out: Vec<(usize, Signature)>)
    ensures
        crate::mldsa::status_list::signer_pairs(out@) == crate::mldsa::status_list::signer_pairs(
            pairs@,
        ).subrange(
            0,
            if n <= pairs@.len() {
                n as int
            } else {
                pairs@.len() as int
            },
        ),
{
    let mut out: Vec<(usize, Signature)> = Vec::new();
    let mut k: usize = 0;
    while k < pairs.len() && k < n
        invariant
            k <= pairs@.len(),
            k <= n,
            out@.len() == k,
            forall|j: int|
                0 <= j < k ==> (#[trigger] out@[j]).0 == pairs@[j].0 && out@[j].1@ == pairs@[j].1@,
        decreases pairs@.len() - k,
    {
        out.push((pairs[k].0, pairs[k].1.clone()));
        k = k + 1;
    }
    assert(crate::mldsa::status_list::signer_pairs(out@)
        =~= crate::mldsa::status_list::signer_pairs(pairs@).subrange(0, k as int));
    out
}

/// Whether each of the four controls under the stateless scheme is refused: the honest
/// list with `extra` behind it, the honest evidence under the next version, one
/// signature fewer than the threshold, and a record in which an outsider claims a
/// member's seat. The first control is the longest: where it cannot be built its error
/// comes back, and where it can, all of them can.
pub fn negative_controls(
    node: &RawVerifier,
    honest: &MlDsaStatusList,
    extra: [u8; 32],
    outsider: &MlDsaStatusList,
) -> (r: Result<(bool, bool, bool, bool), MlDsaStatusListError>)
    requires
        honest@.version < u32::MAX,
    ensures
        ({
            let pairs = evidence_of(honest@);
            let n = node@.members.len() as int;
            let short = pairs.subrange(0, kept(pairs.len(), node@.threshold));
            let short_enough = record_size(n as nat, honest@.list.len() + 1, pairs.len())
                <= MAX_RECORD_BYTES;
            match r {
                Ok(refused) => {
                    &&& pairs.len() <= n && short_enough && indices_below(pairs, n)
                    &&& refused.0 == !authorized(
                        node@,
                        assembled(honest@.list.push(extra@), honest@.version, pairs, n),
                    )
                    &&& refused.1 == !authorized(
                        node@,
                        assembled(honest@.list, (honest@.version + 1) as u32, pairs, n),
                    )
                    &&& refused.2 == !authorized(
                        node@,
                        assembled(honest@.list, honest@.version, short, n),
                    )
                    &&& refused.3 == !authorized(node@, outsider@)
                },
                Err(MlDsaStatusListError::TooManySignatures) => pairs.len() > n,
                Err(MlDsaStatusListError::TooLong) => pairs.len() <= n && !short_enough,
                Err(MlDsaStatusListError::SignerOutside { index }) => {
                    &&& pairs.len() <= n && short_enough
                    &&& n <= index
                    &&& named(pairs, index as int)
                    &&& indices_below(pairs, index + 1)
                },
                Err(_) => false,
            }
        }),
{
    let n: usize = node.committee().member_count();
    let t: usize = node.committee().threshold();
    let ghost pairs = evidence_of(honest@);
    let for_tampered = indexed_ml_dsa_signatures(honest);
    let for_relabelled = indexed_ml_dsa_signatures(honest);
    let for_short = first_signatures(for_tampered.as_slice(), t - 1);
    proof {
        lemma_evidence_of(honest@);
        assert(crate::mldsa::status_list::signer_pairs(for_tampered@).len()
            == for_tampered@.len());
        lemma_prefix(pairs, kept(pairs.len(), t as nat), n as int);
    }
    let mut longer = copy_entries(honest.list());
    let ghost before = longer@;
    longer.push(extra);
    assert(views(longer@) =~= views(before).push(extra@));
    let same = copy_entries(honest.list());
    let again = copy_entries(honest.list());
    proof {
        assert(views(before).len() == before.len());
        assert(views(same@).len() == same@.len());
        assert(views(again@).len() == again@.len());
    }
    let tampered = match MlDsaStatusList::new(longer, honest.version(), n, for_tampered) {
        Ok(record) => record,
        Err(e) => {
            return Err(e);
        },
    };
    let relabelled = match MlDsaStatusList::new(same, honest.version() + 1, n, for_relabelled) {
        Ok(record) => record,
        Err(e) => {
            return Err(e);
        },
    };
    let short = match MlDsaStatusList::new(again, honest.version(), n, for_short) {
        Ok(record) => record,
        Err(e) => {
            return Err(e);
        },
    };
    Ok(
        (
            !node.verify_status_list(&tampered),
            !node.verify_status_list(&relabelled),
            !node.verify_status_list(&short),
            !node.verify_status_list(outsider),
        ),
    )
}

// ---- arguments and entries ---------------------------------------------------

/// Why an argument is no count.
#[derive(Clone, Copy, PartialEq, Eq, Structural, Debug)]
pub enum CountError {
    NotANumber,
    OutOfRange { max: usize },
}

impl CountError {
    /// The refusal of the argument `name` in words.
    pub fn text(&self, name: &str) -> (text: String)
        ensures
            text@ == match *self {
                CountError::NotANumber => name@ + " must be a positive decimal integer"@,
                CountError::OutOfRange { max } => name@ + " must lie in 1..="@ + decimal(
                    max as nat,
                ),
            },
    {
        let mut text: String = name.to_owned();
        match self {
            CountError::NotANumber => {
                text.append(" must be a positive decimal integer");
            },
            CountError::OutOfRange { max } => {
                text.append(" must lie in 1..=");
                push_decimal(&mut text, *max as u64);
            },
        }
        text
    }
}

/// The count from one to `max` that a text spells.
pub fn parse_count(text: &str, max: usize) -> (r: Result<usize, CountError>)
    ensures
        r == match parse_upto(text@, usize::MAX as nat) {
            None => Err::<usize, CountError>(CountError::NotANumber),
            Some(n) => if 1 <= n <= max {
                Ok(n as usize)
            } else {
                Err(CountError::OutOfRange { max })
            },
        },
{
    let chars = chars_of(text);
    match parse_usize(chars.as_slice()) {
        None => Err(CountError::NotANumber),
        Some(n) => if n >= 1 && n <= max {
            Ok(n)
        } else {
            Err(CountError::OutOfRange { max })
        },
    }
}

/// The entry that the measurements put at `index`.
pub fn fingerprint(index: u32) -> (entry: [u8; 32])
    ensures
        entry@ == sha3_256(
            "decentralized-root-of-trust/ml-dsa-benchmark-entry/v1\0".spec_bytes() + le32(index),
        ),
{
    let mut preimage: Vec<u8> = Vec::new();
    push_all(
        &mut preimage,
        "decentralized-root-of-trust/ml-dsa-benchmark-entry/v1\0".as_bytes(),
    );
    push_le32(&mut preimage, index);
    assert(preimage@ =~= "decentralized-root-of-trust/ml-dsa-benchmark-entry/v1\0".spec_bytes()
        + le32(index));
    sha3_256_digest(preimage.as_slice())
}

/// The text that says which run a fixture is for.
pub fn manifest(n: usize, threshold: usize, updates: usize) -> (text: String)
    ensures
        text@ == "N="@ + decimal(n as nat) + "\nt="@ + decimal(threshold as nat) + "\nupdates="@
            + decimal(updates as nat) + "\n"@,
{
    let mut text: String = "N=".to_owned();
    push_decimal(&mut text, n as u64);
    text.append("\nt=");
    push_decimal(&mut text, threshold as u64);
    text.append("\nupdates=");
    push_decimal(&mut text, updates as u64);
    text.append("\n");
    text
}

// ---- generating and running a fixture ----------------------------------------

/// Whether a file name is one that a committee's fixture consists of.
pub open spec fn known_file(name: Seq<char>) -> bool {
    ||| name == "anchor.bin"@
    ||| name == "outsider-anchor.bin"@
    ||| begins_with(name, "raw-update-"@)
    ||| begins_with(name, "raw-attack-"@)
}

/// Whether a file name is one that a committee's fixture consists of: a stale one is
/// removed before a new fixture is written.
pub fn is_known_file(name: &str) -> (known: bool)
    ensures
        known == known_file(name@),
{
    let chars = chars_of(name);
    let update = chars_of("raw-update-");
    let attack = chars_of("raw-attack-");
    is_text(chars.as_slice(), "anchor.bin") || is_text(chars.as_slice(), "outsider-anchor.bin")
        || starts_with(chars.as_slice(), update.as_slice()) || starts_with(
        chars.as_slice(),
        attack.as_slice(),
    )
}

/// Why a fixture's record could not be made.
#[derive(Clone, Copy, PartialEq, Eq, Structural, Debug)]
pub enum RecordFault {
    /// A member did not sign.
    Signing(MlDsaError),
    /// The signatures and the list make no record.
    Record(MlDsaStatusListError),
}

/// Whether `pairs` are the signatures of the rotating quorum of a round over a
/// statement, each by the signer of that index.
pub open spec fn rotating_signed(
    signers: Seq<MlDsa65Signer>,
    statement: Seq<u8>,
    quorum: Seq<usize>,
    pairs: Seq<(int, Seq<u8>)>,
) -> bool {
    &&& pairs.len() == quorum.len()
    &&& forall|j: int|
        0 <= j < pairs.len() ==> (#[trigger] pairs[j]).0 == quorum[j] && ml_dsa_65_verifies(
            ml_dsa_65_public_key(signers[quorum[j] as int].seed()),
            statement,
            Seq::empty(),
            pairs[j].1,
        )
}

/// Whether a record holds a list and a version with the rotating quorum's signatures.
pub open spec fn record_signed(
    signers: Seq<MlDsa65Signer>,
    anchor: MlDsaAnchor,
    list: Seq<Seq<u8>>,
    version: u32,
    record: Body,
) -> bool {
    exists|pairs: Seq<(int, Seq<u8>)>|
        {
            &&& #[trigger] rotating_signed(
                signers,
                anchor.statement(list, version),
                rotating(version as int, anchor.threshold, anchor.members.len() as int),
                pairs,
            )
            &&& record == assembled(list, version, pairs, anchor.members.len() as int)
        }
}

/// Whether the committee's seats are those of the signers.
pub open spec fn seated(signers: Seq<MlDsa65Signer>, anchor: MlDsaAnchor) -> bool {
    forall|i: int|
        0 <= i < anchor.members.len() ==> #[trigger] anchor.members[i] == ml_dsa_65_public_key(
            signers[i].seed(),
        )
}

/// A record of a list and a version, signed by the members whose turn it is.
pub fn signed_record(
    committee: &MlDsaCommittee,
    signers: &[MlDsa65Signer],
    list: &[[u8; 32]],
    version: u32,
) -> (r: Result<MlDsaStatusList, RecordFault>)
    requires
        signers@.len() >= committee@.members.len(),
    ensures
        match r {
            Ok(record) => {
                &&& record_signed(signers@, committee@, views(list@), version, record@)
                &&& seated(signers@, committee@) ==> authorized(committee@, record@)
            },
            Err(RecordFault::Signing(e)) => e == MlDsaError::Signing,
            Err(RecordFault::Record(e)) => e == MlDsaStatusListError::TooLong && record_size(
                committee@.members.len(),
                list@.len(),
                committee@.threshold,
            ) > MAX_RECORD_BYTES,
        },
{
    let n: usize = committee.member_count();
    let t: usize = committee.threshold();
    let statement = committee.statement_for(list, version);
    let ghost quorum = rotating(version as int, t as nat, n as int);
    let turn: usize = (version as u64 % n as u64) as usize;
    let indices = rotating_quorum(turn, t, n);
    proof {
        assert forall|j: int| 0 <= j < t implies #[trigger] indices@[j] == quorum[j] by {
            vstd::arithmetic::div_mod::lemma_add_mod_noop_right(j, version as int, n as int);
        }
        assert(indices@ =~= quorum);
        assert forall|j: int| 0 <= j < t implies (#[trigger] quorum[j]) < n by {
            vstd::arithmetic::div_mod::lemma_mod_bound(version + j, n as int);
        }
    }
    let mut pairs: Vec<(usize, Signature)> = Vec::new();
    let mut j: usize = 0;
    while j < t
        invariant
            j <= t,
            n <= signers@.len(),
            indices@ == quorum,
            quorum.len() == t,
            forall|k: int| 0 <= k < t ==> (#[trigger] quorum[k]) < n,
            pairs@.len() == j,
            forall|k: int|
                0 <= k < j ==> (#[trigger] pairs@[k]).0 == quorum[k] && ml_dsa_65_verifies(
                    ml_dsa_65_public_key(signers@[quorum[k] as int].seed()),
                    statement@,
                    Seq::empty(),
                    pairs@[k].1@,
                ),
        decreases t - j,
    {
        let index: usize = indices[j];
        assert(index == quorum[j as int]);
        match signers[index].sign(statement.as_slice()) {
            Ok(signature) => {
                pairs.push((index, signature));
            },
            Err(e) => {
                return Err(RecordFault::Signing(e));
            },
        }
        j = j + 1;
    }
    let ghost plain = crate::mldsa::status_list::signer_pairs(pairs@);
    proof {
        assert forall|k: int| 0 <= k < plain.len() implies (#[trigger] plain[k]).0 == quorum[k]
            && plain[k].1 == pairs@[k].1@ by {
            assert(pairs@[k].0 == quorum[k]);
        }
        assert(rotating_signed(signers@, statement@, quorum, plain));
        lemma_rotating_signed(signers@, committee@, views(list@), version, plain);
    }
    let entries = copy_entries(list);
    proof {
        assert(views(entries@).len() == entries@.len());
        assert(views(list@).len() == list@.len());
    }
    match MlDsaStatusList::new(entries, version, n, pairs) {
        Ok(record) => Ok(record),
        Err(e) => Err(RecordFault::Record(e)),
    }
}

/// The signatures of a rotating quorum come from different seats, and a committee of
/// the signers' own keys is satisfied by them.
proof fn lemma_rotating_signed(
    signers: Seq<MlDsa65Signer>,
    anchor: MlDsaAnchor,
    list: Seq<Seq<u8>>,
    version: u32,
    pairs: Seq<(int, Seq<u8>)>,
)
    requires
        0 < anchor.threshold <= anchor.members.len() <= usize::MAX,
        rotating_signed(
            signers,
            anchor.statement(list, version),
            rotating(version as int, anchor.threshold, anchor.members.len() as int),
            pairs,
        ),
    ensures
        distinct_indices(pairs),
        indices_below(pairs, anchor.members.len() as int),
        seated(signers, anchor) ==> authorized(
            anchor,
            assembled(list, version, pairs, anchor.members.len() as int),
        ),
{
    let (t, n) = (anchor.threshold, anchor.members.len() as int);
    let quorum = rotating(version as int, t, n);
    assert forall|i: int, j: int| 0 <= i < j < pairs.len() implies (#[trigger] pairs[i]).0 != (
    #[trigger] pairs[j]).0 by {
        law_a_rotating_quorum_is_distinct(version as int, t, n, i, j);
    }
    assert forall|j: int| 0 <= j < pairs.len() implies (#[trigger] pairs[j]).0 < n by {
        vstd::arithmetic::div_mod::lemma_mod_bound(version + j, n);
        assert(pairs[j].0 == quorum[j]);
    }
    if seated(signers, anchor) {
        assert forall|k: int| 0 <= k < pairs.len() implies 0 <= (#[trigger] pairs[k]).0
            && ml_dsa_65_verifies(
            anchor.members[pairs[k].0],
            anchor.statement(list, version),
            Seq::empty(),
            pairs[k].1,
        ) by {
            assert(anchor.members[pairs[k].0] == ml_dsa_65_public_key(
                signers[quorum[k] as int].seed(),
            ));
        }
        law_an_honest_quorum_is_authorized(anchor, list, version, pairs);
    }
}

/// Why a fixture could not be run, or what it showed.
#[derive(Debug)]
pub enum FixtureError {
    /// The anchor is malformed.
    Anchor(CommitteeError),
    /// The fixture was made for another committee or another number of updates.
    Drift(String),
    /// An honest record was refused.
    Refused { index: usize },
    /// A record that the controls are built from is malformed.
    Malformed(StatusListError),
    /// No control can be built from the honest record.
    Controls,
}

/// What a run over a fixture came to: the size of each record, and whether each of the
/// four controls was refused.
#[derive(Debug)]
pub struct FixtureReport {
    pub sizes: Vec<usize>,
    pub refused: (bool, bool, bool, bool),
}

impl FixtureReport {
    /// Whether every control was refused.
    pub fn all_refused(&self) -> (all: bool)
        ensures
            all == (self.refused.0 && self.refused.1 && self.refused.2 && self.refused.3),
    {
        self.refused.0 && self.refused.1 && self.refused.2 && self.refused.3
    }
}

/// Whether bytes are a record that was confirmed.
pub open spec fn bytes_confirmed<V: Fn(&SignatureCheck) -> bool>(
    anchor: Anchor,
    bytes: Seq<u8>,
    verify: V,
) -> bool {
    decode_raw(bytes) is Ok && confirmed(anchor, decode_raw(bytes)->Ok_0, verify)
}

/// Whether bytes are no record, or one that was refuted.
pub open spec fn bytes_refuted<V: Fn(&SignatureCheck) -> bool>(
    anchor: Anchor,
    bytes: Seq<u8>,
    verify: V,
) -> bool {
    decode_raw(bytes) is Err || refuted(anchor, decode_raw(bytes)->Ok_0, verify)
}

/// The four controls that a run puts to a verifier.
pub open spec fn control_records(
    honest: RawRecord,
    outsider: RawRecord,
    n: int,
    t: nat,
) -> Seq<RawRecord> {
    let pairs = evidence_of(honest.body());
    let fake = sha3_256("FAKE-REVOCATION".spec_bytes());
    seq![
        raw_record(honest.alg, assembled(honest.list.push(fake), honest.version, pairs, n)),
        raw_record(honest.alg, assembled(honest.list, (honest.version + 1) as u32, pairs, n)),
        raw_record(
            honest.alg,
            assembled(
                honest.list,
                honest.version,
                pairs.subrange(0, kept(pairs.len(), t)),
                n,
            ),
        ),
        outsider,
    ]
}

/// Whether every honest record of a fixture was confirmed.
pub open spec fn all_confirmed<V: Fn(&SignatureCheck) -> bool>(
    anchor: Anchor,
    updates: Seq<Vec<u8>>,
    k: int,
    verify: V,
) -> bool {
    forall|j: int| 0 <= j < k ==> #[trigger] bytes_confirmed(anchor, updates[j]@, verify)
}

/// Whether the verdicts over the controls are those of `verify`.
pub open spec fn controls_judged<V: Fn(&SignatureCheck) -> bool>(
    anchor: Anchor,
    honest: RawRecord,
    outsider: RawRecord,
    verify: V,
    refused: (bool, bool, bool, bool),
) -> bool {
    let controls = control_records(honest, outsider, anchor.members.len() as int, anchor.t);
    &&& refusal_is(anchor, controls[0], verify, refused.0)
    &&& refusal_is(anchor, controls[1], verify, refused.1)
    &&& refusal_is(anchor, controls[2], verify, refused.2)
    &&& refusal_is(anchor, controls[3], verify, refused.3)
}

/// Runs a relying party over a fixture: every honest record has to be confirmed, and
/// the controls built from one more of them are put to the same verifier. `observe` is
/// told the index of each record, once before it is looked at and once after.
pub fn run_fixture_verifier<V: Fn(&SignatureCheck) -> bool + Copy, O: Fn(usize, bool)>(
    anchor: &[u8],
    updates: &[Vec<u8>],
    controls: (&[u8], &[u8]),
    parameters: (usize, usize, usize),
    xmss_verify: V,
    observe: O,
) -> (r: Result<FixtureReport, FixtureError>)
    requires
        forall|c: &SignatureCheck| call_requires(xmss_verify, (c,)),
        forall|i: usize, done: bool| call_requires(observe, (i, done)),
    ensures
        ({
            let (honest, outsider) = (decode_raw(controls.0@), decode_raw(controls.1@));
            let of = decode_anchor(anchor@);
            let fault = fixture_fault(
                of->Ok_0,
                updates@.len(),
                parameters.0 as nat,
                parameters.1 as nat,
                parameters.2 as nat,
            );
            let sound = of is Ok && fault is None && all_confirmed(
                of->Ok_0,
                updates@,
                updates@.len() as int,
                xmss_verify,
            );
            match r {
                Err(FixtureError::Anchor(e)) => of is Err && of->Err_0 == e,
                Err(FixtureError::Drift(text)) => of is Ok && fault == Some(text@),
                Err(FixtureError::Refused { index }) => {
                    &&& of is Ok && fault is None
                    &&& index < updates@.len()
                    &&& all_confirmed(of->Ok_0, updates@, index as int, xmss_verify)
                    &&& bytes_refuted(of->Ok_0, updates@[index as int]@, xmss_verify)
                },
                Err(FixtureError::Malformed(e)) => {
                    &&& sound
                    &&& honest is Err ==> honest->Err_0 == e
                    &&& honest is Ok ==> outsider is Err && outsider->Err_0 == e
                },
                Err(FixtureError::Controls) => {
                    &&& sound && honest is Ok
                    &&& {
                        ||| honest->Ok_0.version == u32::MAX
                        ||| of->Ok_0.t == 0
                        ||| of->Ok_0.members.len() > crate::bitlist::MAX_BITS
                        ||| !indices_below(
                            evidence_of(honest->Ok_0.body()),
                            of->Ok_0.members.len() as int,
                        )
                    }
                },
                Ok(report) => {
                    &&& sound && honest is Ok && outsider is Ok
                    &&& report.sizes@.len() == updates@.len()
                    &&& forall|j: int|
                        0 <= j < updates@.len() ==> #[trigger] report.sizes@[j]
                            == updates@[j]@.len()
                    &&& controls_judged(
                        of->Ok_0,
                        honest->Ok_0,
                        outsider->Ok_0,
                        xmss_verify,
                        report.refused,
                    )
                },
            }
        }),
{
    let committee = match Committee::from_bytes(anchor) {
        Ok(committee) => committee,
        Err(e) => {
            return Err(FixtureError::Anchor(e));
        },
    };
    let (n, t) = (committee.size(), committee.threshold());
    match check_fixture(&committee, updates.len(), parameters.0, parameters.1, parameters.2) {
        Some(text) => {
            return Err(FixtureError::Drift(text));
        },
        None => {},
    }
    let node = VerifierNode::new(committee);
    let mut sizes: Vec<usize> = Vec::new();
    let mut k: usize = 0;
    while k < updates.len()
        invariant
            k <= updates@.len(),
            forall|c: &SignatureCheck| call_requires(xmss_verify, (c,)),
            forall|i: usize, done: bool| call_requires(observe, (i, done)),
            decode_anchor(anchor@) is Ok,
            node@ == decode_anchor(anchor@)->Ok_0,
            fixture_fault(
                node@,
                updates@.len(),
                parameters.0 as nat,
                parameters.1 as nat,
                parameters.2 as nat,
            ) is None,
            all_confirmed(node@, updates@, k as int, xmss_verify),
            sizes@.len() == k,
            forall|j: int| 0 <= j < k ==> #[trigger] sizes@[j] == updates@[j]@.len(),
        decreases updates@.len() - k,
    {
        observe(k, false);
        let accepted = accepts_bytes(&node, updates[k].as_slice(), xmss_verify);
        observe(k, true);
        if !accepted {
            return Err(FixtureError::Refused { index: k });
        }
        sizes.push(updates[k].len());
        k = k + 1;
    }
    let honest = match StatusList::from_bytes(controls.0) {
        Ok(record) => record,
        Err(e) => {
            return Err(FixtureError::Malformed(e));
        },
    };
    if honest.version() == u32::MAX || t == 0 {
        return Err(FixtureError::Controls);
    }
    let built = match raw_controls(&honest, hash_any("FAKE-REVOCATION".as_bytes()), n, t) {
        Ok(built) => built,
        Err(_) => {
            return Err(FixtureError::Controls);
        },
    };
    match StatusList::from_bytes(controls.1) {
        Ok(outsider) => Ok(
            FixtureReport {
                sizes,
                refused: controls_refused(&node, &built, &outsider, xmss_verify),
            },
        ),
        Err(e) => Err(FixtureError::Malformed(e)),
    }
}

/// The quorum rotates: in the first round the first members sign, and each round moves on by
/// one member and begins again after the last.
pub proof fn law_the_quorum_moves_on_by_one(round: int, t: nat, n: int, j: int)
    requires
        0 <= round,
        0 < t <= n <= usize::MAX,
        0 <= j < t,
    ensures
        rotating(round, t, n).len() == t,
        rotating(0, t, n)[j] == j,
        j + 1 < t ==> rotating(round + 1, t, n)[j] == rotating(round, t, n)[j + 1],
        rotating(round + n, t, n)[j] == rotating(round, t, n)[j],
        rotating(round + 1, t, n)[j] == if rotating(round, t, n)[j] + 1 == n {
            0
        } else {
            rotating(round, t, n)[j] + 1
        },
{
    let (x, m) = (round + j, n);
    vstd::arithmetic::div_mod::lemma_small_mod(j as nat, n as nat);
    vstd::arithmetic::div_mod::lemma_mod_bound(x, m);
    vstd::arithmetic::div_mod::lemma_mod_add_multiples_vanish(x, m);
    assert(round + n + j == m + x);
    assert((x + 1) % m == if x % m + 1 == m {
        0
    } else {
        x % m + 1
    }) by {
        vstd::arithmetic::div_mod::lemma_fundamental_div_mod(x, m);
        let q = x / m;
        if x % m + 1 == m {
            assert(x + 1 == (q + 1) * m + 0) by (nonlinear_arith)
                requires
                    x == m * q + x % m,
                    x % m + 1 == m,
            ;
            vstd::arithmetic::div_mod::lemma_fundamental_div_mod_converse(x + 1, m, q + 1, 0);
        } else {
            assert(x + 1 == q * m + (x % m + 1)) by (nonlinear_arith)
                requires
                    x == m * q + x % m,
            ;
            vstd::arithmetic::div_mod::lemma_fundamental_div_mod_converse(x + 1, m, q, x % m + 1);
        }
    }
}

/// Every name with the prefix is kept, in the order it was found, and no other is.
pub proof fn law_names_with_a_prefix_are_kept_in_order(
    names: Seq<Seq<char>>,
    name: Seq<char>,
    prefix: Seq<char>,
)
    ensures
        with_prefix(Seq::empty(), prefix) == Seq::<Seq<char>>::empty(),
        with_prefix(names.push(name), prefix) == if name.len() >= prefix.len() && name.subrange(
            0,
            prefix.len() as int,
        ) == prefix {
            with_prefix(names, prefix).push(name)
        } else {
            with_prefix(names, prefix)
        },
{
    assert(names.push(name).drop_last() =~= names);
}

/// A fixture is sound exactly when its committee has the size and the threshold that are
/// measured and there are as many honest records as updates; what is not is told by the first
/// of these that does not hold.
pub proof fn law_a_fixture_fits_its_measurement(
    anchor: Anchor,
    found: nat,
    n: nat,
    t: nat,
    updates: nat,
)
    ensures
        ({
            let fault = fixture_fault(anchor, found, n, t, updates);
            &&& fault is None <==> anchor.members.len() == n && anchor.t == t && found == updates
            &&& anchor.members.len() != n ==> fault == Some("fixture N/build N drift"@)
            &&& anchor.members.len() == n && anchor.t != t ==> fault == Some(
                "fixture t/build t drift"@,
            )
            &&& anchor.members.len() == n && anchor.t == t && found != updates ==> fault == Some(
                "fixture must contain exactly N_UPDATES honest records"@,
            )
        }),
{
}

/// A short control keeps as many signatures as there are, but fewer than the threshold, and
/// no fewer than it must.
pub proof fn law_a_short_control_is_just_short(len: nat, t: nat)
    requires
        t > 0,
    ensures
        0 <= kept(len, t) <= len,
        kept(len, t) < t,
        kept(len, t) == len || kept(len, t) == t - 1,
{
}

/// The controls are made of the honest record: one with an entry more, one at the next
/// version, both with the honest signatures as they are, one with too few of them, and the
/// record of an outsider.
pub proof fn law_controls_are_made_of_the_honest_record(
    honest: RawRecord,
    outsider: RawRecord,
    t: nat,
)
    requires
        honest.wf(),
        honest.version < u32::MAX,
    ensures
        ({
            let controls = control_records(honest, outsider, honest.bits.len() as int, t);
            &&& controls.len() == 4
            &&& controls[0] == (RawRecord {
                list: honest.list.push(sha3_256("FAKE-REVOCATION".spec_bytes())),
                ..honest
            })
            &&& controls[1] == (RawRecord { version: (honest.version + 1) as u32, ..honest })
            &&& controls[2].list == honest.list
            &&& controls[2].version == honest.version
            &&& controls[2].alg == honest.alg
            &&& controls[3] == outsider
        }),
{
    let n = honest.bits.len() as int;
    let fake = sha3_256("FAKE-REVOCATION".spec_bytes());
    law_evidence_is_put_together_again(honest.body(), honest.list.push(fake), honest.version);
    law_evidence_is_put_together_again(
        honest.body(),
        honest.list,
        (honest.version + 1) as u32,
    );
}

/// Whatever a check answers, the control with too few signatures is refused; and the other
/// controls are refused unless the check confirms every signature of theirs.
pub proof fn law_a_short_control_is_refused_by_every_check<V: Fn(&SignatureCheck) -> bool>(
    anchor: Anchor,
    honest: RawRecord,
    outsider: RawRecord,
    verify: V,
    refused: (bool, bool, bool, bool),
)
    requires
        honest.wf(),
        honest.bits.len() == anchor.members.len(),
        anchor.t >= 1,
        controls_judged(anchor, honest, outsider, verify, refused),
    ensures
        refused.2,
        ({
            let controls = control_records(
                honest,
                outsider,
                anchor.members.len() as int,
                anchor.t,
            );
            &&& !refused.0 ==> confirmed(anchor, controls[0], verify)
            &&& !refused.1 ==> confirmed(anchor, controls[1], verify)
            &&& !refused.3 ==> confirmed(anchor, outsider, verify)
            &&& refused.0 ==> refuted(anchor, controls[0], verify)
            &&& refused.1 ==> refuted(anchor, controls[1], verify)
            &&& refused.3 ==> refuted(anchor, outsider, verify)
        }),
{
    law_a_short_quorum_is_refused(anchor, honest, anchor.t, honest.list, honest.version);
}

/// Bytes are taken for confirmed only as a record whose every signature the check confirmed,
/// and for refuted as no record or one that it did not.
pub proof fn law_bytes_are_judged_as_their_record<V: Fn(&SignatureCheck) -> bool>(
    anchor: Anchor,
    bytes: Seq<u8>,
    record: RawRecord,
    verify: V,
)
    ensures
        decode_raw(bytes) == Ok::<RawRecord, StatusListError>(record) ==> (bytes_confirmed(
            anchor,
            bytes,
            verify,
        ) <==> confirmed(anchor, record, verify)) && (bytes_refuted(anchor, bytes, verify)
            <==> refuted(anchor, record, verify)),
        decode_raw(bytes) is Err ==> !bytes_confirmed(anchor, bytes, verify) && bytes_refuted(
            anchor,
            bytes,
            verify,
        ),
{
}

/// A record that the rotating quorum of a committee signed is authorized under that
/// committee's anchor, for its own list and version.
pub proof fn law_a_record_of_the_quorum_is_authorized(
    signers: Seq<MlDsa65Signer>,
    anchor: MlDsaAnchor,
    list: Seq<Seq<u8>>,
    version: u32,
    record: Body,
)
    requires
        0 < anchor.threshold <= anchor.members.len() <= usize::MAX,
        record_signed(signers, anchor, list, version, record),
        forall|i: int|
            0 <= i < anchor.members.len() ==> #[trigger] anchor.members[i] == ml_dsa_65_public_key(
                signers[i].seed(),
            ),
    ensures
        record.list == list,
        record.version == version,
        authorized(anchor, record),
{
    let pairs = choose|pairs: Seq<(int, Seq<u8>)>|
        {
            &&& #[trigger] rotating_signed(
                signers,
                anchor.statement(list, version),
                rotating(version as int, anchor.threshold, anchor.members.len() as int),
                pairs,
            )
            &&& record == assembled(list, version, pairs, anchor.members.len() as int)
        };
    lemma_rotating_signed(signers, anchor, list, version, pairs);
}

/// A fixture consists of the two anchors and of the records and attacks, whatever stands
/// behind the start of their names, and of nothing else.
pub proof fn law_a_fixture_consists_of_these_files(name: Seq<char>)
    ensures
        known_file(name) <==> {
            ||| name == "anchor.bin"@
            ||| name == "outsider-anchor.bin"@
            ||| exists|rest: Seq<char>| name == #[trigger] ("raw-update-"@ + rest)
            ||| exists|rest: Seq<char>| name == #[trigger] ("raw-attack-"@ + rest)
        },
{
    law_a_prefix_is_what_can_be_completed(name, "raw-update-"@);
    law_a_prefix_is_what_can_be_completed(name, "raw-attack-"@);
}

/// Names are in order exactly when each is followed by none that comes before it, so that
/// sorting by the order of texts gives one order only.
pub proof fn law_names_in_order_have_one_arrangement(a: Seq<Seq<char>>, i: int, j: int)
    requires
        in_order(a),
        0 <= i < j < a.len(),
    ensures
        text_less(a[i], a[j]) || a[i] == a[j],
{
    law_texts_are_ordered_by_their_first_difference(Seq::empty(), 'a', 'b', a[i], a[j]);
    assert(!text_less(a[j], a[i]));
}

/// A count is read exactly when it is a number from one to the bound; zero and everything
/// over the bound is out of range, and what spells no number is none.
pub proof fn law_a_count_is_read_within_its_bound(
    text: &str,
    max: usize,
    n: usize,
    r: Result<usize, CountError>,
)
    requires
        call_ensures(parse_count, (text, max), r),
    ensures
        text@ == decimal(n as nat) && 1 <= n <= max ==> r == Ok::<usize, CountError>(n),
        text@ == decimal(n as nat) && !(1 <= n <= max) ==> r == Err::<usize, CountError>(
            CountError::OutOfRange { max },
        ),
        r is Ok ==> 1 <= r->Ok_0 <= max && parse_upto(text@, usize::MAX as nat) == Some(
            r->Ok_0 as nat,
        ),
        parse_upto(text@, usize::MAX as nat) is None ==> r == Err::<usize, CountError>(
            CountError::NotANumber,
        ),
{
    lemma_parse_decimal(n as nat);
}

/// The controls of the stateless scheme are made of the honest record, and the one with too
/// few signatures is always refused; each of the others is refused exactly when it is not
/// authorized.
pub proof fn law_stateless_controls_are_judged_as_records(
    node: &RawVerifier,
    honest: &MlDsaStatusList,
    extra: [u8; 32],
    outsider: &MlDsaStatusList,
    r: Result<(bool, bool, bool, bool), MlDsaStatusListError>,
)
    requires
        honest@.version < u32::MAX,
        honest@.balanced(),
        honest@.bits.len() == node@.members.len(),
        1 <= node@.threshold,
        call_ensures(negative_controls, (node, honest, extra, outsider), r),
        r is Ok,
    ensures
        ({
            let refused = r->Ok_0;
            &&& refused.0 <==> !authorized(
                node@,
                Body { list: honest@.list.push(extra@), ..honest@ },
            )
            &&& refused.1 <==> !authorized(
                node@,
                Body { version: (honest@.version + 1) as u32, ..honest@ },
            )
            &&& refused.2
            &&& refused.3 <==> !authorized(node@, outsider@)
        }),
{
    let pairs = evidence_of(honest@);
    let n = node@.members.len() as int;
    law_evidence_is_put_together_again(
        honest@,
        honest@.list.push(extra@),
        honest@.version,
    );
    law_evidence_is_put_together_again(honest@, honest@.list, (honest@.version + 1) as u32);
    lemma_evidence_of(honest@);
    let k = kept(pairs.len(), node@.threshold);
    let short = pairs.subrange(0, k);
    lemma_prefix(pairs, k, n);
    assert forall|j: int| 0 <= j < short.len() implies 0 <= (#[trigger] short[j]).0 by {
        assert(short[j] == pairs[j]);
    }
    law_every_signature_is_counted(short, n);
}

} // verus!
