//! Key windows: the signature scheme names its epochs from the first to the last,
//! this library by the first and how many there are.
use vstd::prelude::*;
use vstd::string::*;

verus! {

/// Why a key window cannot be had.
#[derive(Clone, Copy, PartialEq, Eq, Structural, Debug)]
pub enum EpochRangeError {
    /// The window covers no epoch.
    Empty,
    /// The last epoch does not fit in 64 bits.
    Overflow,
    /// The first epoch does not fit in 32 bits.
    StartTooLarge,
    /// The last epoch does not fit in 32 bits.
    EndTooLarge,
}

impl EpochRangeError {
    /// The refusal in words.
    pub open spec fn message(self) -> Seq<char> {
        match self {
            EpochRangeError::Empty => "an XMSS key must cover at least one epoch"@,
            EpochRangeError::Overflow => "XMSS epoch range overflows u64"@,
            EpochRangeError::StartTooLarge => "XMSS start epoch exceeds u32"@,
            EpochRangeError::EndTooLarge => "XMSS end epoch exceeds u32"@,
        }
    }

    /// The refusal in words.
    pub fn text(&self) -> (text: String)
        ensures
            text@ == self.message(),
    {
        match self {
            EpochRangeError::Empty => "an XMSS key must cover at least one epoch".to_owned(),
            EpochRangeError::Overflow => "XMSS epoch range overflows u64".to_owned(),
            EpochRangeError::StartTooLarge => "XMSS start epoch exceeds u32".to_owned(),
            EpochRangeError::EndTooLarge => "XMSS end epoch exceeds u32".to_owned(),
        }
    }
}

/// The first and the last of `count` epochs from `start` on, or why there is no
/// such window. The checks come in this order.
pub open spec fn epoch_range(start: u64, count: u64) -> Result<(u32, u32), EpochRangeError> {
    if count == 0 {
        Err(EpochRangeError::Empty)
    } else if start + count - 1 > u64::MAX {
        Err(EpochRangeError::Overflow)
    } else if start > u32::MAX {
        Err(EpochRangeError::StartTooLarge)
    } else if start + count - 1 > u32::MAX {
        Err(EpochRangeError::EndTooLarge)
    } else {
        Ok((start as u32, (start + count - 1) as u32))
    }
}

/// The first and the last of `count` epochs from `start` on.
pub fn inclusive_epoch_range(start: u64, count: u64) -> (r: Result<(u32, u32), EpochRangeError>)
    ensures
        r == epoch_range(start, count),
{
    if count == 0 {
        return Err(EpochRangeError::Empty);
    }
    let end: u64 = match start.checked_add(count - 1) {
        Some(end) => end,
        None => {
            return Err(EpochRangeError::Overflow);
        },
    };
    if start > u32::MAX as u64 {
        return Err(EpochRangeError::StartTooLarge);
    }
    if end > u32::MAX as u64 {
        return Err(EpochRangeError::EndTooLarge);
    }
    Ok((start as u32, end as u32))
}

/// A window that is had covers exactly as many epochs as were asked for.
pub proof fn law_a_window_covers_its_count(start: u64, count: u64)
    requires
        epoch_range(start, count) is Ok,
    ensures
        epoch_range(start, count)->Ok_0.0 == start,
        epoch_range(start, count)->Ok_0.1 - epoch_range(start, count)->Ok_0.0 + 1 == count,
{
}

/// A window is had exactly when it is not empty and its last epoch fits in 32 bits; what is
/// not had is refused for the first of the limits that it breaks.
pub proof fn law_a_window_is_had_when_it_fits(start: u64, count: u64)
    ensures
        ({
            let r = epoch_range(start, count);
            let last = start + count - 1;
            &&& r is Ok <==> count > 0 && last <= u32::MAX
            &&& r is Ok ==> r->Ok_0.0 == start && r->Ok_0.1 == last
            &&& r == Err::<(u32, u32), EpochRangeError>(EpochRangeError::Empty) <==> count == 0
            &&& r == Err::<(u32, u32), EpochRangeError>(EpochRangeError::Overflow) <==> count > 0
                && last > u64::MAX
            &&& r == Err::<(u32, u32), EpochRangeError>(EpochRangeError::StartTooLarge) <==> count
                > 0 && last <= u64::MAX && start > u32::MAX
            &&& r == Err::<(u32, u32), EpochRangeError>(EpochRangeError::EndTooLarge) <==> count
                > 0 && start <= u32::MAX && u32::MAX < last <= u64::MAX
        }),
{
}

} // verus!
