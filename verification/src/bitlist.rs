//! Lists of at most 2048 bits, kept in the `BitList` of the `ssz` crate.
use vstd::prelude::*;

verus! {

#[verifier::external_type_specification]
#[verifier::external_body]
#[verifier::reject_recursive_types(T)]
pub struct ExBitfield<T>(ssz::Bitfield<T>);

#[verifier::external_type_specification]
#[verifier::external_body]
#[verifier::reject_recursive_types(N)]
pub struct ExVariable<N>(ssz::Variable<N>);

#[verifier::external_type_specification]
#[verifier::external_body]
#[verifier::reject_recursive_types(U)]
#[verifier::reject_recursive_types(B)]
pub struct ExUInt<U, B>(typenum::UInt<U, B>);

#[verifier::external_type_specification]
#[verifier::external_body]
pub struct ExUTerm(typenum::UTerm);

#[verifier::external_type_specification]
#[verifier::external_body]
pub struct ExB0(typenum::B0);

#[verifier::external_type_specification]
#[verifier::external_body]
pub struct ExB1(typenum::B1);

/// The most bits a list can have.
pub const MAX_BITS: usize = 2048;

/// One bit per committee member.
pub type SignerBits = ssz::BitList<typenum::U2048>;

/// The bits a list holds, lowest index first.
pub uninterp spec fn bits_of(list: SignerBits) -> Seq<bool>;

/// How many of the bits are set.
pub open spec fn count_set(bits: Seq<bool>) -> nat
    decreases bits.len(),
{
    if bits.len() == 0 {
        0
    } else {
        count_set(bits.drop_last()) + if bits.last() {
            1nat
        } else {
            0nat
        }
    }
}

/// Calls `ssz::BitList::with_capacity`: a list of `n` bits, none of them set, or
/// nothing when `n` is over the ceiling of the type.
#[verifier::external_body]
pub(crate) fn bits_with_capacity(n: usize) -> (list: Option<SignerBits>)
    ensures
        list is Some <==> n <= MAX_BITS,
        list is Some ==> bits_of(list->0) == Seq::new(n as nat, |i: int| false),
{
    match SignerBits::with_capacity(n) {
        Ok(list) => Some(list),
        Err(_) => None,
    }
}

/// Calls `ssz::Bitfield::set`: sets the bit at `i` to `value` and leaves the
/// others alone. An index past the end is refused by the callee and left out here.
#[verifier::external_body]
pub(crate) fn bits_set(list: &mut SignerBits, i: usize, value: bool)
    requires
        i < bits_of(*old(list)).len(),
    ensures
        bits_of(*final(list)) == bits_of(*old(list)).update(i as int, value),
{
    let _ = list.set(i, value);
}

/// Calls `ssz::Bitfield::get`: the bit at `i`.
#[verifier::external_body]
pub(crate) fn bits_get(list: &SignerBits, i: usize) -> (value: bool)
    requires
        i < bits_of(*list).len(),
    ensures
        value == bits_of(*list)[i as int],
{
    match list.get(i) {
        Ok(value) => value,
        Err(_) => false,
    }
}

/// Calls `ssz::Bitfield::len`: how many bits the list has, set or not. No list of
/// this type has more than its ceiling.
#[verifier::external_body]
pub(crate) fn bits_len(list: &SignerBits) -> (n: usize)
    ensures
        n == bits_of(*list).len(),
        n <= MAX_BITS,
{
    list.len()
}

/// Calls `ssz::Bitfield::num_set_bits`: how many bits are set.
#[verifier::external_body]
pub(crate) fn bits_count(list: &SignerBits) -> (n: usize)
    ensures
        n == count_set(bits_of(*list)),
{
    list.num_set_bits()
}

/// The bit at `i` as a number; a place past the end counts as zero.
pub open spec fn bit_value(bits: Seq<bool>, i: int) -> int {
    if 0 <= i < bits.len() && bits[i] {
        1
    } else {
        0
    }
}

/// Bits `8 * j` to `8 * j + 7` in one byte, the lowest index in the lowest place.
pub open spec fn packed_byte(bits: Seq<bool>, j: int) -> u8 {
    (bit_value(bits, 8 * j) + 2 * bit_value(bits, 8 * j + 1) + 4 * bit_value(bits, 8 * j + 2) + 8
        * bit_value(bits, 8 * j + 3) + 16 * bit_value(bits, 8 * j + 4) + 32 * bit_value(
        bits,
        8 * j + 5,
    ) + 64 * bit_value(bits, 8 * j + 6) + 128 * bit_value(bits, 8 * j + 7)) as u8
}

/// The wire form of a bit list: its bits and one more, set, that marks the end.
pub open spec fn bitlist_bytes(bits: Seq<bool>) -> Seq<u8> {
    Seq::new(bits.len() / 8 + 1, |j: int| packed_byte(bits.push(true), j))
}

/// Calls `<ssz::BitList as ssz::Encode>::as_ssz_bytes`: the bits packed eight to
/// a byte, with one set bit behind the last.
#[verifier::external_body]
pub(crate) fn bits_to_bytes(list: &SignerBits) -> (bytes: Vec<u8>)
    ensures
        bytes@ == bitlist_bytes(bits_of(*list)),
{
    ssz::Encode::as_ssz_bytes(list)
}

/// Calls `<ssz::BitList as ssz::Decode>::from_ssz_bytes`: the list whose wire
/// form the bytes are, or nothing when they are the wire form of no list within
/// the ceiling.
#[verifier::external_body]
pub(crate) fn bits_from_bytes(bytes: &[u8]) -> (list: Option<SignerBits>)
    ensures
        list is Some ==> bits_of(list->0).len() <= MAX_BITS && bitlist_bytes(bits_of(list->0))
            == bytes@,
        list is None ==> forall|bits: Seq<bool>|
            bits.len() <= MAX_BITS ==> #[trigger] bitlist_bytes(bits) != bytes@,
{
    match <SignerBits as ssz::Decode>::from_ssz_bytes(bytes) {
        Ok(list) => Some(list),
        Err(_) => None,
    }
}

proof fn lemma_packed_byte(a: Seq<bool>, b: Seq<bool>, j: int, k: int)
    requires
        packed_byte(a, j) == packed_byte(b, j),
        0 <= k < 8,
    ensures
        bit_value(a, 8 * j + k) == bit_value(b, 8 * j + k),
{
}

/// Two bit lists with one wire form are the same list.
pub proof fn lemma_bitlist_injective(a: Seq<bool>, b: Seq<bool>)
    requires
        bitlist_bytes(a) == bitlist_bytes(b),
    ensures
        a == b,
{
    let ma = a.push(true);
    let mb = b.push(true);
    let n = bitlist_bytes(a).len();
    assert(n == bitlist_bytes(b).len());
    assert forall|i: int| 0 <= i < 8 * n implies bit_value(ma, i) == bit_value(mb, i) by {
        let j = i / 8;
        assert(bitlist_bytes(a)[j] == packed_byte(ma, j));
        assert(bitlist_bytes(b)[j] == packed_byte(mb, j));
        lemma_packed_byte(ma, mb, j, i % 8);
        assert(8 * j + i % 8 == i);
    }
    assert(bit_value(ma, a.len() as int) == 1);
    assert(bit_value(mb, b.len() as int) == 1);
    assert(bit_value(mb, a.len() as int) == 1);
    assert(bit_value(ma, b.len() as int) == 1);
    assert forall|i: int| 0 <= i < a.len() implies a[i] == b[i] by {
        assert(bit_value(ma, i) == bit_value(mb, i));
        assert(ma[i] == a[i] && mb[i] == b[i]);
    }
    assert(a =~= b);
}

/// The indices of the set bits below `upto`, ascending.
pub open spec fn set_indices_below(bits: Seq<bool>, upto: int) -> Seq<int>
    decreases upto,
{
    if upto <= 0 {
        Seq::empty()
    } else if bits[upto - 1] {
        set_indices_below(bits, upto - 1).push(upto - 1)
    } else {
        set_indices_below(bits, upto - 1)
    }
}

/// The indices of the set bits, ascending.
pub open spec fn set_indices(bits: Seq<bool>) -> Seq<int> {
    set_indices_below(bits, bits.len() as int)
}

/// A list of indices as integers.
pub open spec fn as_ints(indices: Seq<usize>) -> Seq<int> {
    indices.map_values(|i: usize| i as int)
}

proof fn lemma_set_indices_below(bits: Seq<bool>, upto: int)
    requires
        0 <= upto <= bits.len(),
    ensures
        set_indices_below(bits, upto).len() == count_set(bits.subrange(0, upto)),
        forall|k: int|
            0 <= k < set_indices_below(bits, upto).len() ==> 0 <= (
            #[trigger] set_indices_below(bits, upto)[k]) < upto && bits[set_indices_below(
                bits,
                upto,
            )[k]],
        forall|j: int, k: int|
            0 <= j < k < set_indices_below(bits, upto).len() ==> (#[trigger] set_indices_below(
                bits,
                upto,
            )[j]) < (#[trigger] set_indices_below(bits, upto)[k]),
        forall|i: int|
            0 <= i < upto && bits[i] ==> #[trigger] set_indices_below(bits, upto).contains(i),
    decreases upto,
{
    if upto > 0 {
        lemma_set_indices_below(bits, upto - 1);
        let before = set_indices_below(bits, upto - 1);
        let after = set_indices_below(bits, upto);
        assert(bits.subrange(0, upto).drop_last() =~= bits.subrange(0, upto - 1));
        assert(bits.subrange(0, upto).last() == bits[upto - 1]);
        assert forall|i: int| 0 <= i < upto && bits[i] implies #[trigger] after.contains(i) by {
            if i == upto - 1 {
                assert(after[before.len() as int] == i);
            } else {
                assert(before.contains(i));
                let k = choose|k: int| 0 <= k < before.len() && before[k] == i;
                assert(after[k] == i);
            }
        }
    } else {
        assert(bits.subrange(0, 0) =~= Seq::<bool>::empty());
    }
}

/// The set bits are named once each, in ascending order, and all lie in the list.
pub proof fn lemma_set_indices(bits: Seq<bool>)
    ensures
        set_indices(bits).len() == count_set(bits),
        forall|k: int|
            0 <= k < set_indices(bits).len() ==> 0 <= (#[trigger] set_indices(bits)[k]) < bits.len()
                && bits[set_indices(bits)[k]],
        forall|j: int, k: int|
            0 <= j < k < set_indices(bits).len() ==> (#[trigger] set_indices(bits)[j]) < (
            #[trigger] set_indices(bits)[k]),
        forall|i: int|
            0 <= i < bits.len() && bits[i] ==> #[trigger] set_indices(bits).contains(i),
{
    lemma_set_indices_below(bits, bits.len() as int);
    assert(bits.subrange(0, bits.len() as int) =~= bits);
}

/// The indices of the set bits, ascending.
pub(crate) fn bits_indices(list: &SignerBits) -> (indices: Vec<usize>)
    ensures
        as_ints(indices@) == set_indices(bits_of(*list)),
{
    let n: usize = bits_len(list);
    let mut indices: Vec<usize> = Vec::new();
    let mut i: usize = 0;
    assert(as_ints(indices@) =~= set_indices_below(bits_of(*list), 0));
    while i < n
        invariant
            i <= n,
            n == bits_of(*list).len(),
            as_ints(indices@) == set_indices_below(bits_of(*list), i as int),
        decreases n - i,
    {
        if bits_get(list, i) {
            let ghost before = indices@;
            indices.push(i);
            assert(as_ints(indices@) =~= as_ints(before).push(i as int));
        }
        i = i + 1;
    }
    indices
}

/// A set bit stands among the set bits behind as many as are set before it.
pub proof fn law_a_set_bit_has_its_rank(bits: Seq<bool>, i: int)
    requires
        0 <= i < bits.len(),
        bits[i],
    ensures
        count_set(bits.subrange(0, i)) < count_set(bits),
        set_indices(bits)[count_set(bits.subrange(0, i)) as int] == i,
{
    lemma_rank_below(bits, i, bits.len() as int);
    assert(bits.subrange(0, bits.len() as int) =~= bits);
}

proof fn lemma_rank_below(bits: Seq<bool>, i: int, upto: int)
    requires
        0 <= i < upto <= bits.len(),
        bits[i],
    ensures
        count_set(bits.subrange(0, i)) < count_set(bits.subrange(0, upto)),
        set_indices_below(bits, upto)[count_set(bits.subrange(0, i)) as int] == i,
    decreases upto,
{
    lemma_set_indices_below(bits, upto - 1);
    assert(bits.subrange(0, upto).drop_last() =~= bits.subrange(0, upto - 1));
    assert(bits.subrange(0, upto).last() == bits[upto - 1]);
    if i < upto - 1 {
        lemma_rank_below(bits, i, upto - 1);
    }
}

} // verus!
