//! Parameters of the measured committee. A verifier uses none of them: all it
//! needs is in the anchor it loads.
use crate::text::{
    all_digits, chars_of, decimal, digits_value, is_digit, lemma_decimal, parse_upto,
};
use vstd::prelude::*;

verus! {

/// The slot round zero is signed at. Later rounds derive theirs from it.
pub const SLOT: u32 = 43;

/// Committee size outside controlled sweeps.
pub const DEFAULT_N_MEMBERS: usize = 200;

/// Threshold outside controlled sweeps.
pub const DEFAULT_T: usize = 128;

/// Committee size.
pub const N_MEMBERS: usize = DEFAULT_N_MEMBERS;

/// How many distinct members must sign an update.
pub const T: usize = DEFAULT_T;

/// How many updates follow one another in a run.
pub const N_UPDATES: usize = 20;

/// Width of the slot window a key is made for: the last usable slot is this far
/// behind the first.
pub const KEY_SLOTS: u32 = 64;

/// How many slots a key covers.
pub const KEY_SLOT_COUNT: u64 = 65;

/// Rate of the aggregate's proof system. It trades prover memory against proof
/// size and soundness margin.
pub const LOG_INV_RATE: usize = 2;

/// Whether a text is a benchmark parameter: digits only, at least one, and a
/// positive number that fits a machine word.
pub open spec fn is_parameter(value: Seq<char>) -> bool {
    value.len() > 0 && all_digits(value) && 1 <= digits_value(value) <= usize::MAX
}

/// The parameter a text spells, or the default where there is no text. A text that
/// is no parameter gives nothing: it never falls back to the default.
pub fn checked_benchmark_usize(value: Option<&str>, default: usize) -> (r: Option<usize>)
    ensures
        r == match value {
            None => Some(default),
            Some(text) => if is_parameter(text@) {
                Some(digits_value(text@) as usize)
            } else {
                None
            },
        },
{
    let text: &str = match value {
        None => {
            return Some(default);
        },
        Some(text) => text,
    };
    let chars = chars_of(text);
    if chars.len() == 0 {
        return None;
    }
    let mut result: usize = 0;
    let mut i: usize = 0;
    assert(chars@.subrange(0, 0) =~= Seq::<char>::empty());
    while i < chars.len()
        invariant
            i <= chars@.len(),
            chars@ == text@,
            value == Some(text),
            all_digits(chars@.subrange(0, i as int)),
            result == digits_value(chars@.subrange(0, i as int)),
        decreases chars@.len() - i,
    {
        let c: char = chars[i];
        let ghost seen = chars@.subrange(0, i as int);
        let ghost next = chars@.subrange(0, i + 1);
        if c < '0' || c > '9' {
            assert(!crate::text::is_digit(chars@[i as int]));
            return None;
        }
        let d: usize = (c as u32 - 48) as usize;
        proof {
            assert(next.drop_last() =~= seen);
            assert(next.last() == c);
            assert(digits_value(next) == 10 * digits_value(seen) + d);
            lemma_more_digits(chars@, i + 1);
        }
        result = match result.checked_mul(10) {
            Some(r) => r,
            None => {
                return None;
            },
        };
        result = match result.checked_add(d) {
            Some(r) => r,
            None => {
                return None;
            },
        };
        i = i + 1;
        assert(all_digits(next)) by {
            assert forall|k: int| 0 <= k < next.len() implies crate::text::is_digit(
                #[trigger] next[k],
            ) by {
                if k < i - 1 {
                    assert(next[k] == seen[k]);
                }
            }
        }
    }
    assert(chars@.subrange(0, i as int) =~= chars@);
    if result == 0 {
        return None;
    }
    Some(result)
}

/// More digits never make a number smaller.
proof fn lemma_more_digits(s: Seq<char>, n: int)
    requires
        0 <= n <= s.len(),
    ensures
        all_digits(s) ==> digits_value(s.subrange(0, n)) <= digits_value(s),
    decreases s.len() - n,
{
    if n == s.len() {
        assert(s.subrange(0, n) =~= s);
    } else {
        lemma_more_digits(s, n + 1);
        let longer = s.subrange(0, n + 1);
        assert(longer.drop_last() =~= s.subrange(0, n));
        assert(all_digits(s) ==> crate::text::is_digit(s[n]));
    }
}

/// The parameter a text spells, or the default where there is no text.
pub fn benchmark_usize(value: Option<&str>, default: usize) -> (r: usize)
    requires
        value is Some ==> is_parameter(value->0@),
    ensures
        r == match value {
            None => default,
            Some(text) => digits_value(text@) as usize,
        },
{
    match checked_benchmark_usize(value, default) {
        Some(r) => r,
        None => {
            assert(false);
            default
        },
    }
}

/// The slots of the updates, that of the first forgery and that of the second are
/// all different and all within the key window: no key signs twice at one slot.
pub proof fn law_no_slot_is_used_twice_in_a_run(version: u32)
    requires
        version < N_UPDATES,
    ensures
        SLOT + version < SLOT + N_UPDATES < SLOT + KEY_SLOTS,
        SLOT + KEY_SLOTS == SLOT + KEY_SLOT_COUNT - 1,
        1 <= T <= N_MEMBERS,
{
}

/// Every positive number that fits a machine word is a parameter in its decimal form, with
/// zeros in front or not; zero is none, nor is a sign or any other character.
pub proof fn law_a_parameter_is_a_positive_number_in_digits(s: Seq<char>, n: nat)
    ensures
        1 <= n <= usize::MAX ==> is_parameter(decimal(n)) && digits_value(decimal(n)) == n,
        n == 0 || n > usize::MAX ==> !is_parameter(decimal(n)),
        is_parameter(s) ==> {
            &&& s.len() > 0
            &&& forall|i: int| 0 <= i < s.len() ==> '0' <= #[trigger] s[i] <= '9'
            &&& parse_upto(s, usize::MAX as nat) == Some(digits_value(s))
            &&& digits_value(s) > 0
        },
        forall|i: int|
            0 <= i < s.len() && !('0' <= #[trigger] s[i] <= '9') ==> !is_parameter(s),
        !is_parameter(Seq::empty()),
{
    lemma_decimal(n);
    if is_parameter(s) {
        assert forall|i: int| 0 <= i < s.len() implies '0' <= #[trigger] s[i] <= '9' by {
            assert(is_digit(s[i]));
        }
        assert(is_digit(s[0]));
    }
    assert forall|i: int| 0 <= i < s.len() && !('0' <= #[trigger] s[i] <= '9') implies !is_parameter(
        s,
    ) by {
        assert(!is_digit(s[i]));
    }
}

} // verus!
