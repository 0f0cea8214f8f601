//! Why bytes are not the container that they should be.
//!
//! A container is a fixed part, in which a field of variable length is stood for by
//! its offset, followed by those fields. The fixed part is read first, from front to
//! back; then the first offset is held against its length; then the fields are read in
//! turn. The first thing that is wrong is the one that is told.
use crate::bytes::{from_le32, read_le32};
use crate::text::{decimal, push_decimal};
use vstd::prelude::*;
use vstd::string::*;

verus! {

/// What is wrong with the bytes of a container.
#[derive(Clone, Copy, PartialEq, Eq, Structural, Debug)]
pub enum SszError {
    /// There are fewer bytes than a field of fixed length needs, or an item of a list
    /// has another length than all its items.
    InvalidByteLength { len: usize, expected: usize },
    /// There are fewer bytes than an offset needs.
    InvalidLengthPrefix { len: usize, expected: usize },
    /// The first offset points into the fixed part.
    OffsetIntoFixedPortion(usize),
    /// The first offset points past the end of the fixed part.
    OffsetSkipsVariableBytes(usize),
    /// An offset points before the one in front of it.
    OffsetsAreDecreasing(usize),
    /// An offset points past the end of the bytes.
    OffsetOutOfBounds(usize),
    /// A bit list has no byte.
    BitsExcess,
    /// A bit list has no set bit that would mark its end.
    BitsWithoutEnd,
    /// A bit list goes on behind the byte that marks its end.
    BitsByteCount { given: usize, expected: usize },
    /// A bit list has more bits than its ceiling.
    BitsOutOfBounds,
    /// An item that another format governs is not of that format.
    Item,
}

impl SszError {
    /// The refusal in words. What the format of an item says of it is not known here and
    /// left out.
    pub open spec fn message(self) -> Seq<char> {
        match self {
            SszError::InvalidByteLength { len, expected } => "InvalidByteLength { len: "@
                + decimal(len as nat) + ", expected: "@ + decimal(expected as nat) + " }"@,
            SszError::InvalidLengthPrefix { len, expected } => "InvalidLengthPrefix { len: "@
                + decimal(len as nat) + ", expected: "@ + decimal(expected as nat) + " }"@,
            SszError::OffsetIntoFixedPortion(offset) => "OffsetIntoFixedPortion("@ + decimal(
                offset as nat,
            ) + ")"@,
            SszError::OffsetSkipsVariableBytes(offset) => "OffsetSkipsVariableBytes("@ + decimal(
                offset as nat,
            ) + ")"@,
            SszError::OffsetsAreDecreasing(offset) => "OffsetsAreDecreasing("@ + decimal(
                offset as nat,
            ) + ")"@,
            SszError::OffsetOutOfBounds(offset) => "OffsetOutOfBounds("@ + decimal(offset as nat)
                + ")"@,
            SszError::BitsExcess => "BytesInvalid(\"BitList failed to decode: ExcessBits\")"@,
            SszError::BitsWithoutEnd => {
                "BytesInvalid(\"BitList failed to decode: MissingLengthInformation\")"@
            },
            SszError::BitsByteCount { given, expected } => {
                "BytesInvalid(\"BitList failed to decode: InvalidByteCount { given: "@ + decimal(
                    given as nat,
                ) + ", expected: "@ + decimal(expected as nat) + " }\")"@
            },
            SszError::BitsOutOfBounds => {
                "BytesInvalid(\"BitList failed to decode: OutOfBounds { i: 2048, len: 2048 }\")"@
            },
            SszError::Item => "an item is not in its own format"@,
        }
    }

    /// The refusal in words.
    pub fn text(&self) -> (text: String)
        ensures
            text@ == self.message(),
    {
        match self {
            SszError::InvalidByteLength { len, expected } => lengths(
                "InvalidByteLength { len: ",
                *len,
                *expected,
                " }",
            ),
            SszError::InvalidLengthPrefix { len, expected } => lengths(
                "InvalidLengthPrefix { len: ",
                *len,
                *expected,
                " }",
            ),
            SszError::OffsetIntoFixedPortion(offset) => place("OffsetIntoFixedPortion(", *offset),
            SszError::OffsetSkipsVariableBytes(offset) => place(
                "OffsetSkipsVariableBytes(",
                *offset,
            ),
            SszError::OffsetsAreDecreasing(offset) => place("OffsetsAreDecreasing(", *offset),
            SszError::OffsetOutOfBounds(offset) => place("OffsetOutOfBounds(", *offset),
            SszError::BitsExcess => {
                "BytesInvalid(\"BitList failed to decode: ExcessBits\")".to_owned()
            },
            SszError::BitsWithoutEnd => {
                "BytesInvalid(\"BitList failed to decode: MissingLengthInformation\")".to_owned()
            },
            SszError::BitsByteCount { given, expected } => lengths(
                "BytesInvalid(\"BitList failed to decode: InvalidByteCount { given: ",
                *given,
                *expected,
                " }\")",
            ),
            SszError::BitsOutOfBounds => {
                "BytesInvalid(\"BitList failed to decode: OutOfBounds { i: 2048, len: 2048 }\")".to_owned()
            },
            SszError::Item => "an item is not in its own format".to_owned(),
        }
    }
}

fn lengths(before: &str, first: usize, expected: usize, after: &str) -> (text: String)
    ensures
        text@ == before@ + decimal(first as nat) + ", expected: "@ + decimal(expected as nat)
            + after@,
{
    let mut text: String = before.to_owned();
    push_decimal(&mut text, first as u64);
    text.append(", expected: ");
    push_decimal(&mut text, expected as u64);
    text.append(after);
    text
}

fn place(before: &str, offset: usize) -> (text: String)
    ensures
        text@ == before@ + decimal(offset as nat) + ")"@,
{
    let mut text: String = before.to_owned();
    push_decimal(&mut text, offset as u64);
    text.append(")");
    text
}

/// What is told where two things may be wrong: the first of them.
pub open spec fn first_of(a: Option<SszError>, b: Option<SszError>) -> Option<SszError> {
    if a is Some {
        a
    } else {
        b
    }
}

/// What is wrong where the fixed part should have `end` bytes up to here.
pub open spec fn fixed_refusal(b: Seq<u8>, end: int) -> Option<SszError> {
    if b.len() < end {
        Some(SszError::InvalidByteLength { len: b.len() as usize, expected: end as usize })
    } else {
        None
    }
}

/// The offset that stands at `at`.
pub open spec fn offset_at(b: Seq<u8>, at: int) -> int {
    from_le32(b.subrange(at, at + 4)) as int
}

/// What is wrong with the offset at `at`, behind the one at `previous`.
pub open spec fn offset_refusal(b: Seq<u8>, at: int, previous: Option<usize>) -> Option<SszError> {
    let offset = offset_at(b, at);
    if b.len() < at + 4 {
        Some(SszError::InvalidLengthPrefix { len: (b.len() - at) as usize, expected: 4 })
    } else if offset > b.len() {
        Some(SszError::OffsetOutOfBounds(offset as usize))
    } else if previous is Some && offset_at(b, previous->0 as int) > offset {
        Some(SszError::OffsetsAreDecreasing(offset as usize))
    } else {
        None
    }
}

/// What is wrong with the first offset, which stands at `at`, behind a fixed part of
/// `fixed` bytes.
pub open spec fn start_refusal(b: Seq<u8>, at: int, fixed: int) -> Option<SszError> {
    let offset = offset_at(b, at);
    if offset < fixed {
        Some(SszError::OffsetIntoFixedPortion(offset as usize))
    } else if offset > fixed {
        Some(SszError::OffsetSkipsVariableBytes(offset as usize))
    } else {
        None
    }
}

/// What is wrong with a list of `len` bytes whose items have `width` each. `foreign`
/// says that another format governs the items.
pub open spec fn blocks_refusal(len: int, width: int, foreign: bool) -> Option<SszError> {
    if len % width == 0 {
        None
    } else if foreign {
        Some(SszError::Item)
    } else {
        Some(SszError::InvalidByteLength { len: (len % width) as usize, expected: width as usize })
    }
}

/// How many bytes there are up to the last that is not zero.
pub open spec fn used_bytes(s: Seq<u8>) -> nat
    decreases s.len(),
{
    if s.len() == 0 {
        0
    } else if s.last() != 0 {
        s.len()
    } else {
        used_bytes(s.drop_last())
    }
}

/// What is wrong with bytes that are the wire form of no bit list.
pub open spec fn bits_fault(s: Seq<u8>) -> SszError {
    if s.len() == 0 {
        SszError::BitsExcess
    } else if used_bytes(s) == 0 {
        SszError::BitsWithoutEnd
    } else if used_bytes(s) < s.len() {
        SszError::BitsByteCount { given: s.len() as usize, expected: used_bytes(s) as usize }
    } else {
        SszError::BitsOutOfBounds
    }
}

/// Checks that the fixed part has `end` bytes up to here.
pub fn check_fixed(b: &[u8], end: usize) -> (r: Option<SszError>)
    ensures
        r == fixed_refusal(b@, end as int),
{
    if b.len() < end {
        Some(SszError::InvalidByteLength { len: b.len(), expected: end })
    } else {
        None
    }
}

/// Checks the offset at `at`, behind the one at `previous`.
pub fn check_offset(b: &[u8], at: usize, previous: Option<usize>) -> (r: Option<SszError>)
    requires
        at <= b@.len(),
        previous is Some ==> previous->0 + 4 <= at,
    ensures
        r == offset_refusal(b@, at as int, previous),
{
    if b.len() - at < 4 {
        return Some(SszError::InvalidLengthPrefix { len: b.len() - at, expected: 4 });
    }
    let offset: usize = read_le32(b, at) as usize;
    if offset > b.len() {
        return Some(SszError::OffsetOutOfBounds(offset));
    }
    match previous {
        Some(before) => if read_le32(b, before) as usize > offset {
            Some(SszError::OffsetsAreDecreasing(offset))
        } else {
            None
        },
        None => None,
    }
}

/// Checks the first offset, which stands at `at`, against the length of the fixed part.
pub fn check_start(b: &[u8], at: usize, fixed: usize) -> (r: Option<SszError>)
    requires
        at + 4 <= b@.len(),
    ensures
        r == start_refusal(b@, at as int, fixed as int),
{
    let offset: usize = read_le32(b, at) as usize;
    if offset < fixed {
        Some(SszError::OffsetIntoFixedPortion(offset))
    } else if offset > fixed {
        Some(SszError::OffsetSkipsVariableBytes(offset))
    } else {
        None
    }
}

/// Checks the length of a list whose items have `width` bytes each.
pub fn check_blocks(len: usize, width: usize, foreign: bool) -> (r: Option<SszError>)
    requires
        width > 0,
    ensures
        r == blocks_refusal(len as int, width as int, foreign),
{
    if len % width == 0 {
        None
    } else if foreign {
        Some(SszError::Item)
    } else {
        Some(SszError::InvalidByteLength { len: len % width, expected: width })
    }
}

/// What is wrong with bytes that are the wire form of no bit list.
pub fn fault_of_bits(s: &[u8]) -> (e: SszError)
    ensures
        e == bits_fault(s@),
{
    if s.len() == 0 {
        return SszError::BitsExcess;
    }
    let mut used: usize = s.len();
    assert(s@.subrange(0, used as int) =~= s@);
    while used > 0 && s[used - 1] == 0
        invariant
            used <= s@.len(),
            used_bytes(s@) == used_bytes(s@.subrange(0, used as int)),
        decreases used,
    {
        let ghost longer = s@.subrange(0, used as int);
        assert(longer.drop_last() =~= s@.subrange(0, used - 1));
        used = used - 1;
    }
    assert(used > 0 ==> s@.subrange(0, used as int).last() == s@[used - 1]);
    if used == 0 {
        SszError::BitsWithoutEnd
    } else if used < s.len() {
        SszError::BitsByteCount { given: s.len(), expected: used }
    } else {
        SszError::BitsOutOfBounds
    }
}

/// A fixed part is refused exactly where the bytes end before it does, an offset exactly
/// where it is cut off, points behind the end or goes back behind the one before, the first
/// offset exactly where it does not point to the end of the fixed part, and a list exactly
/// where its items do not come out even.
pub proof fn law_what_is_refused_is_out_of_place(
    b: Seq<u8>,
    at: int,
    previous: Option<usize>,
    fixed: int,
    len: int,
    width: int,
    foreign: bool,
)
    requires
        width > 0,
    ensures
        fixed_refusal(b, fixed) is None <==> b.len() >= fixed,
        fixed_refusal(b, fixed) is Some ==> fixed_refusal(b, fixed) == Some(
            SszError::InvalidByteLength { len: b.len() as usize, expected: fixed as usize },
        ),
        offset_refusal(b, at, previous) is None <==> {
            &&& at + 4 <= b.len()
            &&& offset_at(b, at) <= b.len()
            &&& previous is Some ==> offset_at(b, previous->0 as int) <= offset_at(b, at)
        },
        at + 4 > b.len() ==> offset_refusal(b, at, previous) == Some(
            SszError::InvalidLengthPrefix { len: (b.len() - at) as usize, expected: 4 },
        ),
        at + 4 <= b.len() && offset_at(b, at) > b.len() ==> offset_refusal(b, at, previous) == Some(
            SszError::OffsetOutOfBounds(offset_at(b, at) as usize),
        ),
        start_refusal(b, at, fixed) is None <==> offset_at(b, at) == fixed,
        offset_at(b, at) < fixed ==> start_refusal(b, at, fixed) == Some(
            SszError::OffsetIntoFixedPortion(offset_at(b, at) as usize),
        ),
        offset_at(b, at) > fixed ==> start_refusal(b, at, fixed) == Some(
            SszError::OffsetSkipsVariableBytes(offset_at(b, at) as usize),
        ),
        blocks_refusal(len, width, foreign) is None <==> len % width == 0,
        len % width != 0 ==> blocks_refusal(len, width, foreign) == Some(
            if foreign {
                SszError::Item
            } else {
                SszError::InvalidByteLength {
                    len: (len % width) as usize,
                    expected: width as usize,
                }
            },
        ),
{
}

/// Of two things that may be wrong, the first is told where it is, and the second otherwise.
pub proof fn law_the_first_fault_is_told(a: Option<SszError>, b: Option<SszError>)
    ensures
        a is Some ==> first_of(a, b) == a,
        a is None ==> first_of(a, b) == b,
{
}

/// The bytes in use end with the last one that is not zero: everything behind it is zero, and
/// a row of zeros has none in use.
pub proof fn law_the_bytes_in_use_end_with_the_last_one_set(s: Seq<u8>)
    ensures
        used_bytes(s) <= s.len(),
        used_bytes(s) > 0 ==> s[used_bytes(s) - 1] != 0,
        forall|i: int| used_bytes(s) <= i < s.len() ==> #[trigger] s[i] == 0,
    decreases s.len(),
{
    if s.len() > 0 && s.last() == 0 {
        law_the_bytes_in_use_end_with_the_last_one_set(s.drop_last());
        let n = used_bytes(s);
        assert forall|i: int| n <= i < s.len() implies #[trigger] s[i] == 0 by {
            if i < s.len() - 1 {
                assert(s.drop_last()[i] == s[i]);
            }
        }
        if n > 0 {
            assert(s.drop_last()[n - 1] == s[n - 1]);
        }
    }
}

/// Bytes that are no bit list are told apart by the bytes in use: none at all, none set,
/// fewer in use than there are, or more bits than a committee has.
pub proof fn law_a_faulty_bit_list_is_told_apart(s: Seq<u8>)
    ensures
        bits_fault(s) == SszError::BitsExcess <==> s.len() == 0,
        bits_fault(s) == SszError::BitsWithoutEnd <==> s.len() > 0 && forall|i: int|
            0 <= i < s.len() ==> #[trigger] s[i] == 0,
        bits_fault(s) == SszError::BitsOutOfBounds <==> s.len() > 0 && s.last() != 0,
        s.len() > 0 && s.last() == 0 && (exists|i: int| 0 <= i < s.len() && #[trigger] s[i] != 0)
            ==> bits_fault(s) == (SszError::BitsByteCount {
            given: s.len() as usize,
            expected: used_bytes(s) as usize,
        }),
{
    law_the_bytes_in_use_end_with_the_last_one_set(s);
    if s.len() > 0 && s.last() == 0 && used_bytes(s) == s.len() {
        assert(s[s.len() - 1] == 0);
    }
}

} // verus!
