//! The publisher on the SNARK path: it turns the signatures of a quorum into one
//! aggregate, at the slot and over the message that the anchor derives.
use crate::bytes::views;
use crate::protocol::committee::Committee;
use crate::protocol::status_list::Algorithms;
use crate::protocol::xmss::{XmssPublicKey, XmssSignature};
use crate::text::{decimal, push_decimal};
use vstd::prelude::*;
use vstd::string::*;

verus! {

/// Signatures to be aggregated, all at one slot and over one message.
#[derive(Debug)]
pub struct AggregateRequest {
    pub raws: Vec<(XmssPublicKey, XmssSignature)>,
    pub message: [u8; 32],
    pub slot: u32,
    pub log_inv_rate: usize,
}

/// A member that a quorum names twice.
#[derive(Clone, Copy, PartialEq, Eq, Structural, Debug)]
pub struct RepeatedSigner {
    pub member: usize,
    pub slot: u32,
}

/// How often `member` occurs among the first `n` signers.
pub open spec fn occurrences(signers: Seq<usize>, member: usize, n: int) -> nat
    decreases n,
{
    if n <= 0 {
        0
    } else {
        occurrences(signers, member, n - 1) + if signers[n - 1] == member {
            1nat
        } else {
            0nat
        }
    }
}

/// Whether `member` is named more than once.
pub open spec fn repeated(signers: Seq<usize>, member: usize) -> bool {
    occurrences(signers, member, signers.len() as int) >= 2
}

fn count_of(signers: &[usize], member: usize) -> (n: usize)
    ensures
        n == occurrences(signers@, member, signers@.len() as int),
{
    let mut n: usize = 0;
    let mut i: usize = 0;
    while i < signers.len()
        invariant
            i <= signers@.len(),
            n <= i,
            n == occurrences(signers@, member, i as int),
        decreases signers@.len() - i,
    {
        if signers[i] == member {
            n = n + 1;
        }
        i = i + 1;
    }
    n
}

proof fn lemma_occurs(signers: Seq<usize>, member: usize, n: int)
    requires
        0 <= n <= signers.len(),
        occurrences(signers, member, n) > 0,
    ensures
        exists|i: int| 0 <= i < n && signers[i] == member,
    decreases n,
{
    if signers[n - 1] != member {
        lemma_occurs(signers, member, n - 1);
    } else {
        assert(0 <= n - 1 < n && signers[n - 1] == member);
    }
}

/// Refuses a quorum that names one member twice, and names the lowest such member.
///
/// An aggregate drops repeated keys, so such a quorum would prove one signer fewer
/// than asked for, and that would only show at the verifier.
pub fn reject_repeated_signers(signers: &[usize], slot: u32) -> (r: Result<(), RepeatedSigner>)
    ensures
        match r {
            Ok(_) => forall|m: usize| !#[trigger] repeated(signers@, m),
            Err(e) => e.slot == slot && repeated(signers@, e.member) && forall|m: usize|
                m < e.member ==> !#[trigger] repeated(signers@, m),
        },
{
    let mut lowest: Option<usize> = None;
    let mut i: usize = 0;
    while i < signers.len()
        invariant
            i <= signers@.len(),
            match lowest {
                None => forall|k: int| 0 <= k < i ==> !repeated(signers@, #[trigger] signers@[k]),
                Some(m) => repeated(signers@, m) && forall|k: int|
                    0 <= k < i && repeated(signers@, #[trigger] signers@[k]) ==> m <= signers@[k],
            },
        decreases signers@.len() - i,
    {
        let member: usize = signers[i];
        if count_of(signers, member) >= 2 {
            lowest = match lowest {
                None => Some(member),
                Some(m) => if member < m {
                    Some(member)
                } else {
                    Some(m)
                },
            };
        }
        i = i + 1;
    }
    proof {
        assert forall|m: usize| #[trigger] repeated(signers@, m) implies exists|k: int|
            0 <= k < signers@.len() && signers@[k] == m by {
            lemma_occurs(signers@, m, signers@.len() as int);
        }
    }
    match lowest {
        None => Ok(()),
        Some(member) => Err(RepeatedSigner { member, slot }),
    }
}

impl RepeatedSigner {
    /// The refusal in words.
    pub fn text(&self) -> (text: String)
        ensures
            text@ == "member "@ + decimal(self.member as nat)
                + " appears twice in the quorum: it would sign slot "@ + decimal(self.slot as nat)
                + " twice and leak its key"@,
    {
        let mut text: String = "member ".to_owned();
        push_decimal(&mut text, self.member as u64);
        text.append(" appears twice in the quorum: it would sign slot ");
        push_decimal(&mut text, self.slot as u64);
        text.append(" twice and leak its key");
        text
    }
}

/// Has each of `signers` in turn sign `message` at `slot`.
pub fn sign_all<S: Fn(usize, u32, &[u8; 32]) -> (XmssPublicKey, XmssSignature)>(
    signers: &[usize],
    message: &[u8; 32],
    slot: u32,
    xmss_sign: S,
) -> (raws: Vec<(XmssPublicKey, XmssSignature)>)
    requires
        forall|i: usize, s: u32, m: &[u8; 32]|
            signers@.contains(i) && s == slot && *m == *message ==> #[trigger] call_requires(
                xmss_sign,
                (i, s, m),
            ),
    ensures
        signed_by(xmss_sign, signers@, slot, *message, raws@),
{
    let mut raws: Vec<(XmssPublicKey, XmssSignature)> = Vec::new();
    let mut k: usize = 0;
    while k < signers.len()
        invariant
            k <= signers@.len(),
            forall|i: usize, s: u32, m: &[u8; 32]|
                signers@.contains(i) && s == slot && *m == *message ==> #[trigger] call_requires(
                    xmss_sign,
                    (i, s, m),
                ),
            raws@.len() == k,
            forall|j: int|
                0 <= j < k ==> call_ensures(
                    xmss_sign,
                    (signers@[j], slot, message),
                    #[trigger] raws@[j],
                ),
        decreases signers@.len() - k,
    {
        raws.push(xmss_sign(signers[k], slot, message));
        k = k + 1;
    }
    raws
}

/// The publisher's side of the SNARK path.
#[derive(Clone, Copy, Debug)]
pub struct PQSNARKProverModule {}

impl PQSNARKProverModule {
    /// A publisher. It holds no data; what aggregating needs is set up where it is done.
    pub fn init_prover() -> (m: PQSNARKProverModule)
        ensures
            m == (PQSNARKProverModule {  }),
    {
        PQSNARKProverModule {  }
    }

    /// Aggregates signatures over `(list, version)` at the slot `committee` assigns
    /// to `version`: there is no way to name a slot or a message the anchor did not
    /// derive. A version without a slot is left out.
    pub fn make_proof<A: FnOnce(&AggregateRequest) -> Vec<u8>>(
        &self,
        committee: &Committee,
        alg: Algorithms,
        raws: Vec<(XmssPublicKey, XmssSignature)>,
        status_list_elem: &[[u8; 32]],
        version: u32,
        log_inv_rate: usize,
        aggregate: A,
    ) -> (proof_bytes: Vec<u8>)
        requires
            committee@.slot(version) is Some,
            forall|q: &AggregateRequest|
                {
                    &&& q.raws == raws
                    &&& q.message@ == committee@.message(alg, views(status_list_elem@), version)
                    &&& q.slot == committee@.slot(version)->0
                    &&& q.log_inv_rate == log_inv_rate
                } ==> #[trigger] call_requires(aggregate, (q,)),
        ensures
            exists|q: &AggregateRequest|
                {
                    &&& q.raws == raws
                    &&& q.message@ == committee@.message(alg, views(status_list_elem@), version)
                    &&& q.slot == committee@.slot(version)->0
                    &&& q.log_inv_rate == log_inv_rate
                    &&& #[trigger] call_ensures(aggregate, (q,), proof_bytes)
                },
    {
        let slot: u32 = match committee.slot_for(version) {
            Some(slot) => slot,
            None => {
                assert(false);
                0
            },
        };
        let message = committee.message_for(alg, status_list_elem, version);
        self.aggregate(raws, message, slot, log_inv_rate, aggregate)
    }

    /// Aggregates at an explicit slot and over an explicit message, which only
    /// adversarial tests need.
    pub fn aggregate<A: FnOnce(&AggregateRequest) -> Vec<u8>>(
        &self,
        raws: Vec<(XmssPublicKey, XmssSignature)>,
        message: [u8; 32],
        slot: u32,
        log_inv_rate: usize,
        aggregate: A,
    ) -> (proof_bytes: Vec<u8>)
        requires
            forall|q: &AggregateRequest|
                *q == (AggregateRequest { raws, message, slot, log_inv_rate })
                    ==> #[trigger] call_requires(aggregate, (q,)),
        ensures
            exists|q: &AggregateRequest|
                {
                    &&& *q == (AggregateRequest { raws, message, slot, log_inv_rate })
                    &&& #[trigger] call_ensures(aggregate, (q,), proof_bytes)
                },
    {
        let request = AggregateRequest { raws, message, slot, log_inv_rate };
        aggregate(&request)
    }

    /// Has each of `signers` sign `message` at `slot` and aggregates the signatures. If
    /// one of them is named twice nobody is asked to sign.
    pub fn sign_and_prove<
        S: Fn(usize, u32, &[u8; 32]) -> (XmssPublicKey, XmssSignature),
        A: FnOnce(&AggregateRequest) -> Vec<u8>,
    >(
        &self,
        signers: &[usize],
        message: [u8; 32],
        slot: u32,
        log_inv_rate: usize,
        xmss_sign: S,
        aggregate: A,
    ) -> (r: Result<Vec<u8>, RepeatedSigner>)
        requires
            forall|i: usize, s: u32, m: &[u8; 32]|
                may_ask(signers@, slot, message, i, s, *m) ==> #[trigger] call_requires(
                    xmss_sign,
                    (i, s, m),
                ),
            forall|q: &AggregateRequest|
                may_aggregate(xmss_sign, signers@, message, slot, log_inv_rate, *q)
                    ==> #[trigger] call_requires(aggregate, (q,)),
        ensures
            match r {
                Err(e) => e.slot == slot && repeated(signers@, e.member) && forall|m: usize|
                    m < e.member ==> !#[trigger] repeated(signers@, m),
                Ok(proof_bytes) => {
                    &&& forall|m: usize| !#[trigger] repeated(signers@, m)
                    &&& proven_by(
                        xmss_sign,
                        aggregate,
                        signers@,
                        message,
                        slot,
                        log_inv_rate,
                        proof_bytes,
                    )
                },
            },
    {
        match reject_repeated_signers(signers, slot) {
            Err(e) => {
                return Err(e);
            },
            Ok(_) => {},
        }
        let raws = sign_all(signers, &message, slot, xmss_sign);
        let ghost asked = AggregateRequest { raws, message, slot, log_inv_rate };
        let proof_bytes = self.aggregate(raws, message, slot, log_inv_rate, aggregate);
        proof {
            let q = choose|q: &AggregateRequest|
                *q == asked && #[trigger] call_ensures(aggregate, (q,), proof_bytes);
            assert(signed_by(xmss_sign, signers@, slot, message, q.raws@));
            assert(call_ensures(aggregate, (q,), proof_bytes));
        }
        Ok(proof_bytes)
    }
}

/// Whether a quorum may have member `i` sign `m` at `s`: it names nobody twice, it names
/// this member, and they are its message and its slot.
pub open spec fn may_ask(
    signers: Seq<usize>,
    slot: u32,
    message: [u8; 32],
    i: usize,
    s: u32,
    m: [u8; 32],
) -> bool {
    &&& forall|member: usize| !#[trigger] repeated(signers, member)
    &&& signers.contains(i)
    &&& s == slot && m == message
}

/// Whether a quorum may have this request aggregated: it names nobody twice, and the
/// request holds what each of its members answered when asked to sign.
pub open spec fn may_aggregate<S: Fn(usize, u32, &[u8; 32]) -> (XmssPublicKey, XmssSignature)>(
    sign: S,
    signers: Seq<usize>,
    message: [u8; 32],
    slot: u32,
    log_inv_rate: usize,
    q: AggregateRequest,
) -> bool {
    &&& forall|member: usize| !#[trigger] repeated(signers, member)
    &&& q.message == message && q.slot == slot && q.log_inv_rate == log_inv_rate
    &&& signed_by(sign, signers, slot, message, q.raws@)
}

/// Whether `proof_bytes` is what aggregating the signers' signatures came to.
pub open spec fn proven_by<
    S: Fn(usize, u32, &[u8; 32]) -> (XmssPublicKey, XmssSignature),
    A: FnOnce(&AggregateRequest) -> Vec<u8>,
>(
    sign: S,
    aggregate: A,
    signers: Seq<usize>,
    message: [u8; 32],
    slot: u32,
    log_inv_rate: usize,
    proof_bytes: Vec<u8>,
) -> bool {
    exists|q: &AggregateRequest|
        {
            &&& q.message == message && q.slot == slot && q.log_inv_rate == log_inv_rate
            &&& signed_by(sign, signers, slot, message, q.raws@)
            &&& #[trigger] call_ensures(aggregate, (q,), proof_bytes)
        }
}

/// Whether `raws` is what each of `signers` in turn answered when asked to sign.
pub open spec fn signed_by<S: Fn(usize, u32, &[u8; 32]) -> (XmssPublicKey, XmssSignature)>(
    sign: S,
    signers: Seq<usize>,
    slot: u32,
    message: [u8; 32],
    raws: Seq<(XmssPublicKey, XmssSignature)>,
) -> bool {
    raws.len() == signers.len() && forall|k: int|
        0 <= k < raws.len() ==> call_ensures(
            sign,
            (signers[k], slot, &message),
            #[trigger] raws[k],
        )
}

proof fn lemma_occurrences(signers: Seq<usize>, member: usize, n: int)
    requires
        0 <= n <= signers.len(),
    ensures
        occurrences(signers, member, n) > 0 <==> exists|i: int|
            0 <= i < n && #[trigger] signers[i] == member,
        occurrences(signers, member, n) >= 2 <==> exists|i: int, j: int|
            0 <= i < j < n && #[trigger] signers[i] == member && #[trigger] signers[j] == member,
    decreases n,
{
    if n > 0 {
        lemma_occurrences(signers, member, n - 1);
        if signers[n - 1] == member && occurrences(signers, member, n - 1) > 0 {
            let i = choose|i: int| 0 <= i < n - 1 && #[trigger] signers[i] == member;
            assert(signers[i] == member && signers[n - 1] == member);
        }
    }
}

/// A member is named more than once exactly when it stands at two different places.
pub proof fn law_a_repeated_member_stands_at_two_places(signers: Seq<usize>, member: usize)
    ensures
        repeated(signers, member) <==> exists|i: int, j: int|
            0 <= i < j < signers.len() && #[trigger] signers[i] == member && #[trigger] signers[j]
                == member,
{
    lemma_occurrences(signers, member, signers.len() as int);
}

/// A proof is made of the whole quorum: the request that was aggregated holds, for each
/// signer in its turn, what that signer answered for this message at this slot.
pub proof fn law_a_proof_is_made_of_the_whole_quorum<
    S: Fn(usize, u32, &[u8; 32]) -> (XmssPublicKey, XmssSignature),
    A: FnOnce(&AggregateRequest) -> Vec<u8>,
>(
    sign: S,
    aggregate: A,
    signers: Seq<usize>,
    message: [u8; 32],
    slot: u32,
    log_inv_rate: usize,
    proof_bytes: Vec<u8>,
)
    requires
        proven_by(sign, aggregate, signers, message, slot, log_inv_rate, proof_bytes),
    ensures
        exists|q: &AggregateRequest|
            {
                &&& #[trigger] call_ensures(aggregate, (q,), proof_bytes)
                &&& q.message@ == message@
                &&& q.slot == slot
                &&& q.log_inv_rate == log_inv_rate
                &&& q.raws@.len() == signers.len()
                &&& forall|k: int|
                    0 <= k < signers.len() ==> call_ensures(
                        sign,
                        (signers[k], slot, &message),
                        #[trigger] q.raws@[k],
                    )
            },
{
}

/// A quorum that names nobody twice may have each of its members sign its own message at its
/// own slot, and nobody else, nothing else and nowhere else; one that names somebody twice
/// asks nobody and has nothing aggregated.
pub proof fn law_a_quorum_asks_its_members_for_its_message<
    S: Fn(usize, u32, &[u8; 32]) -> (XmssPublicKey, XmssSignature),
>(
    sign: S,
    signers: Seq<usize>,
    slot: u32,
    message: [u8; 32],
    log_inv_rate: usize,
    i: usize,
    s: u32,
    m: [u8; 32],
    q: AggregateRequest,
)
    ensures
        ({
            let twice = exists|a: int, b: int|
                0 <= a < b < signers.len() && #[trigger] signers[a] == #[trigger] signers[b];
            &&& may_ask(signers, slot, message, i, s, m) <==> !twice && signers.contains(i) && s
                == slot && m == message
            &&& twice ==> !may_aggregate(sign, signers, message, slot, log_inv_rate, q)
            &&& may_aggregate(sign, signers, message, slot, log_inv_rate, q) ==> q.message == message
                && q.slot == slot && q.log_inv_rate == log_inv_rate && q.raws@.len()
                == signers.len()
        }),
{
    let twice = exists|a: int, b: int|
        0 <= a < b < signers.len() && #[trigger] signers[a] == #[trigger] signers[b];
    if twice {
        let (a, b) = choose|a: int, b: int|
            0 <= a < b < signers.len() && #[trigger] signers[a] == #[trigger] signers[b];
        law_a_repeated_member_stands_at_two_places(signers, signers[a]);
        assert(repeated(signers, signers[a]));
    } else {
        assert forall|member: usize| !#[trigger] repeated(signers, member) by {
            law_a_repeated_member_stands_at_two_places(signers, member);
        }
    }
}

} // verus!
