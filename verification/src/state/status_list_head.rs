//! In-memory head of the status-list history a committee member has signed.
//!
//! Storage supplies candidates, not authority. A member advances this head only
//! after spending the slot for a proposal, so replacing a published record cannot
//! make it sign a fork. One version may append several entries; the guard fixes
//! the prefix that was already signed.
use crate::bytes::{bytes_eq, views};
use crate::protocol::status_list::{message_of, status_list_message, Domain};
use crate::text::{decimal, push_decimal};
use vstd::prelude::*;
use vstd::string::*;

verus! {

/// Parent reference used by the first status-list version.
pub const GENESIS_PREDECESSOR: [u8; 32] = [
    0, 0, 0, 0, 0, 0, 0, 0, 0, 0, 0, 0, 0, 0, 0, 0, 0, 0, 0, 0, 0, 0, 0, 0, 0, 0, 0, 0, 0, 0, 0, 0,
];

/// What a member most recently signed.
#[verifier::ext_equal]
pub struct HeadView {
    pub version: u32,
    pub entries: nat,
    pub digest: Seq<u8>,
}

/// The head that stands for `list` at `version`.
pub open spec fn head_of(domain: Seq<u8>, list: Seq<Seq<u8>>, version: u32) -> HeadView {
    HeadView { version, entries: list.len(), digest: message_of(domain, list, version) }
}

/// Why a proposal does not follow the signed head.
#[derive(Clone, Copy, PartialEq, Eq, Structural, Debug)]
pub enum SuccessorError {
    /// The proposal has no entries.
    Empty,
    /// The first version must name the genesis predecessor.
    NotGenesis,
    /// Nothing was signed yet, so only version zero can come.
    NotFirst { version: u32 },
    /// The proposal names another predecessor than the signed head.
    WrongPredecessor { head: u32 },
    /// No version follows the last one.
    FinalVersion,
    /// The proposed version is not the next one.
    WrongVersion { version: u32, head: u32 },
    /// The proposal is not longer than the signed list.
    NotAppending { entries: usize, signed: usize, head: u32 },
    /// The proposal does not begin with the signed list.
    WrongPrefix { head: u32 },
}

/// The head after signing a list of `entries` entries at `version`, or why it may
/// not be signed. `prefix` is the digest of as many entries as the signed head
/// covers, under its version; `digest` is that of the whole list. The checks come
/// in this order.
pub open spec fn successor_given(
    current: Option<HeadView>,
    predecessor: Seq<u8>,
    version: u32,
    entries: nat,
    prefix: Seq<u8>,
    digest: Seq<u8>,
) -> Result<HeadView, SuccessorError> {
    if entries == 0 {
        Err(SuccessorError::Empty)
    } else {
        match current {
            None => {
                if predecessor != GENESIS_PREDECESSOR@ {
                    Err(SuccessorError::NotGenesis)
                } else if version != 0 {
                    Err(SuccessorError::NotFirst { version })
                } else {
                    Ok(HeadView { version, entries, digest })
                }
            },
            Some(head) => {
                if predecessor != head.digest {
                    Err(SuccessorError::WrongPredecessor { head: head.version })
                } else if head.version == u32::MAX {
                    Err(SuccessorError::FinalVersion)
                } else if version != head.version + 1 {
                    Err(SuccessorError::WrongVersion { version, head: head.version })
                } else if entries <= head.entries {
                    Err(
                        SuccessorError::NotAppending {
                            entries: entries as usize,
                            signed: head.entries as usize,
                            head: head.version,
                        },
                    )
                } else if prefix != head.digest {
                    Err(SuccessorError::WrongPrefix { head: head.version })
                } else {
                    Ok(HeadView { version, entries, digest })
                }
            },
        }
    }
}

/// The digest of as many entries of `list` as the signed head covers, under its
/// version.
pub open spec fn prefix_digest(
    domain: Seq<u8>,
    current: Option<HeadView>,
    list: Seq<Seq<u8>>,
) -> Seq<u8> {
    match current {
        Some(head) => message_of(domain, list.subrange(0, head.entries as int), head.version),
        None => GENESIS_PREDECESSOR@,
    }
}

/// The head after signing `list` at `version`, or why it may not be signed.
pub open spec fn successor_of(
    domain: Seq<u8>,
    current: Option<HeadView>,
    predecessor: Seq<u8>,
    version: u32,
    list: Seq<Seq<u8>>,
) -> Result<HeadView, SuccessorError> {
    successor_given(
        current,
        predecessor,
        version,
        list.len(),
        prefix_digest(domain, current, list),
        message_of(domain, list, version),
    )
}

/// The exact state this member most recently signed.
#[derive(Clone, Copy, Debug)]
pub struct SignedHead {
    version: u32,
    len: usize,
    digest: [u8; 32],
}

impl View for SignedHead {
    type V = HeadView;

    closed spec fn view(&self) -> HeadView {
        HeadView { version: self.version, entries: self.len as nat, digest: self.digest@ }
    }
}

/// The view of an optional head.
pub open spec fn head_view(head: Option<&SignedHead>) -> Option<HeadView> {
    match head {
        Some(h) => Some(h@),
        None => None,
    }
}

impl SignedHead {
    /// Rebuilds the head from a record the caller has authenticated. It computes
    /// the digest and verifies nothing.
    pub fn from_authenticated(domain: &Domain, version: u32, list: &[[u8; 32]]) -> (head: SignedHead)
        ensures
            head@ == head_of(domain@, views(list@), version),
    {
        SignedHead {
            version,
            len: list.len(),
            digest: status_list_message(domain, list, version),
        }
    }

    pub fn version(&self) -> (version: u32)
        ensures
            version == self@.version,
    {
        self.version
    }

    pub fn digest(&self) -> (digest: [u8; 32])
        ensures
            digest@ == self@.digest,
    {
        self.digest
    }

    /// Number of entries covered by this digest.
    pub fn entries(&self) -> (n: usize)
        ensures
            n == self@.entries,
    {
        self.len
    }

    /// Validates one append-only transition without changing the current head.
    /// The caller commits the returned head only after the slot is spent.
    pub fn successor(
        domain: &Domain,
        current: Option<&SignedHead>,
        predecessor: &[u8; 32],
        version: u32,
        list: &[[u8; 32]],
    ) -> (r: Result<SignedHead, SuccessorError>)
        ensures
            match r {
                Ok(head) => successor_of(
                    domain@,
                    head_view(current),
                    predecessor@,
                    version,
                    views(list@),
                ) == Ok::<HeadView, SuccessorError>(head@),
                Err(e) => successor_of(
                    domain@,
                    head_view(current),
                    predecessor@,
                    version,
                    views(list@),
                ) == Err::<HeadView, SuccessorError>(e),
            },
    {
        let prefix: [u8; 32] = match current {
            Some(head) => {
                if list.len() > head.len {
                    let signed: &[[u8; 32]] = &list[0..head.len];
                    assert(views(signed@) =~= views(list@).subrange(0, head.len as int));
                    status_list_message(domain, signed, head.version)
                } else {
                    GENESIS_PREDECESSOR
                }
            },
            None => GENESIS_PREDECESSOR,
        };
        let digest = status_list_message(domain, list, version);
        SignedHead::successor_from(current, predecessor, version, list.len(), &prefix, &digest)
    }

    /// [`SignedHead::successor`] for a list of `entries` entries whose digests are
    /// known: `prefix` of what the signed head covers, `digest` of the whole.
    pub fn successor_from(
        current: Option<&SignedHead>,
        predecessor: &[u8; 32],
        version: u32,
        entries: usize,
        prefix: &[u8; 32],
        digest: &[u8; 32],
    ) -> (r: Result<SignedHead, SuccessorError>)
        ensures
            match r {
                Ok(head) => successor_given(
                    head_view(current),
                    predecessor@,
                    version,
                    entries as nat,
                    prefix@,
                    digest@,
                ) == Ok::<HeadView, SuccessorError>(head@),
                Err(e) => successor_given(
                    head_view(current),
                    predecessor@,
                    version,
                    entries as nat,
                    prefix@,
                    digest@,
                ) == Err::<HeadView, SuccessorError>(e),
            },
    {
        if entries == 0 {
            return Err(SuccessorError::Empty);
        }
        match current {
            None => {
                let genesis: [u8; 32] = GENESIS_PREDECESSOR;
                if !bytes_eq(predecessor.as_slice(), genesis.as_slice()) {
                    return Err(SuccessorError::NotGenesis);
                }
                if version != 0 {
                    return Err(SuccessorError::NotFirst { version });
                }
            },
            Some(head) => {
                if !bytes_eq(predecessor.as_slice(), head.digest.as_slice()) {
                    return Err(SuccessorError::WrongPredecessor { head: head.version });
                }
                if head.version == u32::MAX {
                    return Err(SuccessorError::FinalVersion);
                }
                if version != head.version + 1 {
                    return Err(SuccessorError::WrongVersion { version, head: head.version });
                }
                if entries <= head.len {
                    return Err(
                        SuccessorError::NotAppending {
                            entries,
                            signed: head.len,
                            head: head.version,
                        },
                    );
                }
                if !bytes_eq(prefix.as_slice(), head.digest.as_slice()) {
                    return Err(SuccessorError::WrongPrefix { head: head.version });
                }
            },
        }
        Ok(SignedHead { version, len: entries, digest: *digest })
    }
}

/// A member that signed `signed` and then accepts a proposal goes to the next
/// version, by a longer list whose hashed prefix is the statement it signed
/// before: it never signs a fork of what it signed.
pub proof fn law_a_successor_extends_what_was_signed(
    domain: Seq<u8>,
    signed: Seq<Seq<u8>>,
    version: u32,
    predecessor: Seq<u8>,
    next_version: u32,
    list: Seq<Seq<u8>>,
    next: HeadView,
)
    requires
        successor_of(
            domain,
            Some(head_of(domain, signed, version)),
            predecessor,
            next_version,
            list,
        ) == Ok::<HeadView, SuccessorError>(next),
    ensures
        next_version == version + 1,
        list.len() > signed.len(),
        message_of(domain, list.subrange(0, signed.len() as int), version) == message_of(
            domain,
            signed,
            version,
        ),
        predecessor == message_of(domain, signed, version),
        next == head_of(domain, list, next_version),
{
}

/// A proposal that appends to the signed list, names its digest and takes the next
/// version is always accepted.
pub proof fn law_an_honest_extension_is_accepted(
    domain: Seq<u8>,
    signed: Seq<Seq<u8>>,
    version: u32,
    added: Seq<Seq<u8>>,
)
    requires
        version < u32::MAX,
        added.len() > 0,
    ensures
        successor_of(
            domain,
            Some(head_of(domain, signed, version)),
            message_of(domain, signed, version),
            (version + 1) as u32,
            signed + added,
        ) == Ok::<HeadView, SuccessorError>(
            head_of(domain, signed + added, (version + 1) as u32),
        ),
{
    assert((signed + added).subrange(0, signed.len() as int) =~= signed);
}

impl SuccessorError {
    /// The refusal in words.
    pub open spec fn message(self) -> Seq<char> {
        match self {
            SuccessorError::Empty => "a proposal must contain at least one entry"@,
            SuccessorError::NotGenesis => "v0 does not name the genesis predecessor"@,
            SuccessorError::NotFirst { version } => {
                "nothing has been signed yet, so only v0 is valid, got v"@ + decimal(version as nat)
            },
            SuccessorError::WrongPredecessor { head } => {
                "predecessor digest does not match the signed head at v"@ + decimal(head as nat)
            },
            SuccessorError::FinalVersion => "the signed head is already at the final version"@,
            SuccessorError::WrongVersion { version, head } => "v"@ + decimal(version as nat)
                + " does not follow the signed head at v"@ + decimal(head as nat),
            SuccessorError::NotAppending { entries, signed, head } => "proposal with "@ + decimal(
                entries as nat,
            ) + " entries does not append to the signed "@ + decimal(signed as nat)
                + "-entry prefix at v"@ + decimal(head as nat),
            SuccessorError::WrongPrefix { head } => {
                "the proposed prefix is not the signed list at v"@ + decimal(head as nat)
            },
        }
    }

    /// The refusal in words.
    pub fn text(&self) -> (text: String)
        ensures
            text@ == self.message(),
    {
        match self {
            SuccessorError::Empty => "a proposal must contain at least one entry".to_owned(),
            SuccessorError::NotGenesis => "v0 does not name the genesis predecessor".to_owned(),
            SuccessorError::NotFirst { version } => {
                let mut text: String =
                    "nothing has been signed yet, so only v0 is valid, got v".to_owned();
                push_decimal(&mut text, *version as u64);
                text
            },
            SuccessorError::WrongPredecessor { head } => {
                let mut text: String =
                    "predecessor digest does not match the signed head at v".to_owned();
                push_decimal(&mut text, *head as u64);
                text
            },
            SuccessorError::FinalVersion => {
                "the signed head is already at the final version".to_owned()
            },
            SuccessorError::WrongVersion { version, head } => {
                let mut text: String = "v".to_owned();
                push_decimal(&mut text, *version as u64);
                text.append(" does not follow the signed head at v");
                push_decimal(&mut text, *head as u64);
                text
            },
            SuccessorError::NotAppending { entries, signed, head } => {
                let mut text: String = "proposal with ".to_owned();
                push_decimal(&mut text, *entries as u64);
                text.append(" entries does not append to the signed ");
                push_decimal(&mut text, *signed as u64);
                text.append("-entry prefix at v");
                push_decimal(&mut text, *head as u64);
                text
            },
            SuccessorError::WrongPrefix { head } => {
                let mut text: String = "the proposed prefix is not the signed list at v".to_owned();
                push_decimal(&mut text, *head as u64);
                text
            },
        }
    }
}

/// Where nothing was signed yet, exactly a list with entries, at version zero, behind
/// thirty-two zero bytes may be signed.
pub proof fn law_history_starts_at_version_zero(
    domain: Seq<u8>,
    predecessor: Seq<u8>,
    version: u32,
    list: Seq<Seq<u8>>,
)
    ensures
        ({
            let r = successor_of(domain, None, predecessor, version, list);
            let genesis = Seq::new(32, |i: int| 0u8);
            &&& r is Ok <==> list.len() > 0 && predecessor == genesis && version == 0
            &&& r is Ok ==> r->Ok_0.version == version && r->Ok_0.entries == list.len()
                && r->Ok_0.digest == message_of(domain, list, version)
            &&& list.len() == 0 <==> r == Err::<HeadView, SuccessorError>(SuccessorError::Empty)
            &&& list.len() > 0 && predecessor != genesis <==> r == Err::<HeadView, SuccessorError>(
                SuccessorError::NotGenesis,
            )
            &&& list.len() > 0 && predecessor == genesis && version != 0 <==> r == Err::<
                HeadView,
                SuccessorError,
            >(SuccessorError::NotFirst { version })
        }),
{
    assert(GENESIS_PREDECESSOR@ =~= Seq::new(32, |i: int| 0u8));
}

/// Behind a signed head, exactly a longer list at the next version may be signed that names
/// the head's digest as its predecessor and whose first entries, as many as the head covers,
/// give that digest again. What may not be signed is refused for the first of these that
/// does not hold.
pub proof fn law_a_successor_is_an_extension_of_the_head(
    domain: Seq<u8>,
    head: HeadView,
    predecessor: Seq<u8>,
    version: u32,
    list: Seq<Seq<u8>>,
)
    ensures
        ({
            let r = successor_of(domain, Some(head), predecessor, version, list);
            let linked = predecessor == head.digest;
            let next = version == head.version + 1;
            let longer = list.len() > head.entries;
            let extends = message_of(domain, list.subrange(0, head.entries as int), head.version)
                == head.digest;
            &&& r is Ok <==> list.len() > 0 && linked && next && longer && extends
            &&& r is Ok ==> r->Ok_0.version == version && r->Ok_0.entries == list.len()
                && r->Ok_0.digest == message_of(domain, list, version)
            &&& list.len() == 0 ==> r == Err::<HeadView, SuccessorError>(SuccessorError::Empty)
            &&& list.len() > 0 && !linked ==> r == Err::<HeadView, SuccessorError>(
                SuccessorError::WrongPredecessor { head: head.version },
            )
            &&& list.len() > 0 && linked && head.version == u32::MAX ==> r == Err::<
                HeadView,
                SuccessorError,
            >(SuccessorError::FinalVersion)
            &&& list.len() > 0 && linked && head.version < u32::MAX && !next ==> r == Err::<
                HeadView,
                SuccessorError,
            >(SuccessorError::WrongVersion { version, head: head.version })
            &&& list.len() > 0 && linked && next && !longer ==> r == Err::<
                HeadView,
                SuccessorError,
            >(
                SuccessorError::NotAppending {
                    entries: list.len() as usize,
                    signed: head.entries as usize,
                    head: head.version,
                },
            )
            &&& linked && next && longer && !extends ==> r == Err::<HeadView, SuccessorError>(
                SuccessorError::WrongPrefix { head: head.version },
            )
        }),
{
}

} // verus!
