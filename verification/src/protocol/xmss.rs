//! Keys and signatures of the one-time signature scheme, as the bytes they
//! travel as.
use crate::bytes::{array32_at, bytes_eq, from_le32, read_le32, to_vec};
use vstd::prelude::*;

verus! {

/// The order of the field that the words of a public key belong to.
pub const FIELD_MODULUS: u32 = 2130706433;

/// How many bytes a signature has.
pub const SIGNATURE_SSZ_LEN: usize = 1208;

/// Whether the `j`-th four-byte word of a key is a field element.
pub open spec fn word_in_field(key: Seq<u8>, j: int) -> bool {
    from_le32(key.subrange(4 * j, 4 * j + 4)) < FIELD_MODULUS
}

/// Whether a byte string is a public key: eight field elements, each in its one
/// little-endian form.
pub open spec fn is_key(key: Seq<u8>) -> bool {
    key.len() == 32 && forall|j: int| 0 <= j < 8 ==> #[trigger] word_in_field(key, j)
}

/// A committee member's public key.
#[derive(Clone, Copy, Debug)]
pub struct XmssPublicKey {
    bytes: [u8; 32],
}

impl View for XmssPublicKey {
    type V = Seq<u8>;

    closed spec fn view(&self) -> Seq<u8> {
        self.bytes@
    }
}

impl XmssPublicKey {
    #[verifier::type_invariant]
    pub(crate) closed spec fn inv(self) -> bool {
        is_key(self.bytes@)
    }

    /// Decodes a key and refuses a word outside the field.
    pub fn from_bytes(bytes: &[u8]) -> (key: Option<XmssPublicKey>)
        ensures
            match key {
                Some(k) => is_key(bytes@) && k@ == bytes@,
                None => !is_key(bytes@),
            },
    {
        if bytes.len() != 32 {
            return None;
        }
        assert(bytes@.subrange(0, 32) =~= bytes@);
        if !in_field(bytes, 0) {
            return None;
        }
        Some(XmssPublicKey { bytes: array32_at(bytes, 0) })
    }

    /// The bytes the key travels as.
    pub fn as_bytes(&self) -> (bytes: &[u8; 32])
        ensures
            bytes@ == self@,
            is_key(bytes@),
    {
        proof {
            use_type_invariant(self);
        }
        &self.bytes
    }

    /// Whether two keys are the same.
    pub fn same(&self, other: &XmssPublicKey) -> (r: bool)
        ensures
            r == (self@ == other@),
    {
        bytes_eq(self.bytes.as_slice(), other.bytes.as_slice())
    }
}

/// Whether the 32 bytes at `at` are eight field elements.
pub(crate) fn in_field(bytes: &[u8], at: usize) -> (r: bool)
    requires
        at + 32 <= bytes@.len(),
    ensures
        r == is_key(bytes@.subrange(at as int, at + 32)),
{
    let len: usize = bytes.len();
    let ghost key = bytes@.subrange(at as int, at + 32);
    let mut j: usize = 0;
    while j < 8
        invariant
            j <= 8,
            at + 32 <= bytes@.len(),
            bytes@.len() == len,
            key == bytes@.subrange(at as int, at + 32),
            forall|k: int| 0 <= k < j ==> #[trigger] word_in_field(key, k),
        decreases 8 - j,
    {
        assert(key.subrange(4 * j as int, 4 * j + 4) =~= bytes@.subrange(
            at + 4 * j,
            at + 4 * j + 4,
        ));
        if read_le32(bytes, at + 4 * j) >= FIELD_MODULUS {
            assert(!word_in_field(key, j as int));
            return false;
        }
        j = j + 1;
    }
    true
}

/// The contents of a list of keys.
pub open spec fn key_views(keys: Seq<XmssPublicKey>) -> Seq<Seq<u8>> {
    keys.map_values(|k: XmssPublicKey| k@)
}

/// A signature by one member. Its bytes are opaque here.
#[derive(Debug)]
pub struct XmssSignature {
    bytes: Vec<u8>,
}

impl View for XmssSignature {
    type V = Seq<u8>;

    closed spec fn view(&self) -> Seq<u8> {
        self.bytes@
    }
}

impl XmssSignature {
    #[verifier::type_invariant]
    pub(crate) closed spec fn inv(self) -> bool {
        self.bytes@.len() == SIGNATURE_SSZ_LEN
    }

    /// Decodes a signature, which has one length.
    pub fn from_bytes(bytes: &[u8]) -> (signature: Option<XmssSignature>)
        ensures
            match signature {
                Some(s) => s@ == bytes@ && bytes@.len() == SIGNATURE_SSZ_LEN,
                None => bytes@.len() != SIGNATURE_SSZ_LEN,
            },
    {
        if bytes.len() == SIGNATURE_SSZ_LEN {
            Some(XmssSignature { bytes: to_vec(bytes) })
        } else {
            None
        }
    }

    /// The bytes the signature travels as.
    pub fn as_bytes(&self) -> (bytes: &[u8])
        ensures
            bytes@ == self@,
            bytes@.len() == SIGNATURE_SSZ_LEN,
    {
        proof {
            use_type_invariant(self);
        }
        self.bytes.as_slice()
    }
}

impl Clone for XmssSignature {
    fn clone(&self) -> (copy: Self)
        ensures
            copy@ == self@,
    {
        proof {
            use_type_invariant(self);
        }
        XmssSignature { bytes: to_vec(self.bytes.as_slice()) }
    }
}

/// The contents of a list of signatures.
pub open spec fn signature_views(signatures: Seq<XmssSignature>) -> Seq<Seq<u8>> {
    signatures.map_values(|s: XmssSignature| s@)
}

/// A public key is eight field elements, each written in four bytes with the lowest first.
pub proof fn law_a_key_is_eight_field_elements(key: Seq<u8>)
    ensures
        is_key(key) <==> key.len() == 32 && forall|j: int|
            0 <= j < 8 ==> #[trigger] key[4 * j] + 256 * key[4 * j + 1] + 65536 * key[4 * j + 2]
                + 16777216 * key[4 * j + 3] < 2130706433,
{
    if key.len() == 32 {
        assert forall|j: int| 0 <= j < 8 implies #[trigger] word_in_field(key, j) == (key[4 * j]
            + 256 * key[4 * j + 1] + 65536 * key[4 * j + 2] + 16777216 * key[4 * j + 3]
            < 2130706433) by {
            let word = key.subrange(4 * j, 4 * j + 4);
            assert(word[0] == key[4 * j] && word[1] == key[4 * j + 1] && word[2] == key[4 * j + 2]
                && word[3] == key[4 * j + 3]);
        }
        if is_key(key) {
            assert forall|j: int| 0 <= j < 8 implies #[trigger] key[4 * j] + 256 * key[4 * j + 1]
                + 65536 * key[4 * j + 2] + 16777216 * key[4 * j + 3] < 2130706433 by {
                assert(word_in_field(key, j));
            }
        }
    }
}

} // verus!
