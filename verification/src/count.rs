//! The count typed before a command (as in `5j`): which keys are count
//! digits, how digits build up the count, and the count a command takes.

use vstd::prelude::*;

verus! {

/// The largest count that can be typed.
pub const MAX_COUNT: usize = 9999;

/// A key is a count digit when it is a digit typed without modifiers; a
/// leading `0` is not (it stays free for its own binding), a later one is.
pub open spec fn count_digit_spec(c: char, no_modifiers: bool, pending_count: bool) -> Option<u8> {
    if no_modifiers && '0' <= c <= '9' && (c != '0' || pending_count) {
        Some((c as u32 - '0' as u32) as u8)
    } else {
        None
    }
}

/// The digit a key adds to the count, if it is a count digit (see
/// [`count_digit_spec`]).
pub fn count_digit(c: char, no_modifiers: bool, pending_count: bool) -> (r: Option<u8>)
    ensures
        r == count_digit_spec(c, no_modifiers, pending_count),
{
    if !no_modifiers {
        return None;
    }
    if c < '0' || c > '9' {
        return None;
    }
    if c != '0' || pending_count {
        let d = (c as u32) - ('0' as u32);
        Some(d as u8)
    } else {
        None
    }
}

/// The count after typing digit `digit`: ten times the count so far plus
/// the digit, with saturation, capped at [`MAX_COUNT`].
pub open spec fn push_digit_spec(pending: Option<usize>, digit: u8) -> Option<usize> {
    let current: int = match pending {
        Some(n) => n as int,
        None => 0,
    };
    let times: int = if current * 10 > usize::MAX {
        usize::MAX as int
    } else {
        current * 10
    };
    let next: int = if times + digit > usize::MAX {
        usize::MAX as int
    } else {
        times + digit
    };
    Some(
        if next > MAX_COUNT {
            MAX_COUNT
        } else {
            next as usize
        },
    )
}

/// The count after typing a digit (see [`push_digit_spec`]).
pub fn push_count_digit(pending: Option<usize>, digit: u8) -> (r: Option<usize>)
    ensures
        r == push_digit_spec(pending, digit),
{
    let current = match pending {
        Some(n) => n,
        None => 0,
    };
    let times = match current.checked_mul(10) {
        Some(t) => t,
        None => usize::MAX,
    };
    let next = times.saturating_add(digit as usize);
    Some(
        if next > MAX_COUNT {
            MAX_COUNT
        } else {
            next
        },
    )
}

/// The count a command takes: the typed count, or one when none was typed.
/// The pending count is cleared.
pub fn take_count(pending: &mut Option<usize>) -> (r: usize)
    ensures
        r == match *old(pending) {
            Some(n) => n,
            None => 1,
        },
        *final(pending) is None,
{
    let r = match *pending {
        Some(n) => n,
        None => 1,
    };
    *pending = None;
    r
}

/// The count after typing the digits `ds` from no count.
pub open spec fn typed_count(ds: Seq<u8>) -> Option<usize>
    decreases ds.len(),
{
    if ds.len() == 0 {
        None
    } else {
        push_digit_spec(typed_count(ds.drop_last()), ds.last())
    }
}

/// The number the decimal digits `ds` spell.
pub open spec fn digits_value(ds: Seq<u8>) -> int
    decreases ds.len(),
{
    if ds.len() == 0 {
        0
    } else {
        digits_value(ds.drop_last()) * 10 + ds.last()
    }
}

proof fn lemma_digits_value_nonneg(ds: Seq<u8>)
    ensures
        digits_value(ds) >= 0,
    decreases ds.len(),
{
    if ds.len() > 0 {
        lemma_digits_value_nonneg(ds.drop_last());
    }
}

/// Typing the digits of a number up to [`MAX_COUNT`] gives that number as
/// the count.
pub proof fn law_typed_digits_give_their_number(ds: Seq<u8>)
    requires
        ds.len() > 0,
        forall|k: int| 0 <= k < ds.len() ==> #[trigger] ds[k] <= 9,
        digits_value(ds) <= MAX_COUNT,
    ensures
        typed_count(ds) == Some(digits_value(ds) as usize),
    decreases ds.len(),
{
    let pre = ds.drop_last();
    lemma_digits_value_nonneg(pre);
    assert(digits_value(pre) * 10 <= digits_value(ds));
    if pre.len() > 0 {
        assert forall|k: int| 0 <= k < pre.len() implies #[trigger] pre[k] <= 9 by {
            assert(pre[k] == ds[k]);
        }
        law_typed_digits_give_their_number(pre);
    }
}

/// However many digits are typed, the count never exceeds [`MAX_COUNT`].
pub proof fn law_count_is_capped(ds: Seq<u8>)
    requires
        ds.len() > 0,
    ensures
        typed_count(ds) matches Some(n) && n <= MAX_COUNT,
{
}

} // verus!
