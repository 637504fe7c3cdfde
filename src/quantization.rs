use vstd::prelude::*;

verus! {

/// Weighted vote of the bits decoded from the first two singular values,
/// counted in quarters: the first weighs three quarters, the second one, and
/// the result is set when the weight reaches one half.
pub open spec fn weighted_vote(first: bool, second: bool) -> bool {
    (if first { 3int } else { 0int }) + (if second { 1int } else { 0int }) >= 2
}

/// Combines the bits decoded from the first and the second singular value
/// (`0.75 * first + 0.25 * second >= 0.5`); the first decides on disagreement.
pub fn average_value(first: bool, second: bool) -> (r: bool)
    ensures
        r == weighted_vote(first, second),
        r == first,
{
    let mut quarters: u8 = 0;
    if first {
        quarters = quarters + 3;
    }
    if second {
        quarters = quarters + 1;
    }
    quarters >= 2
}

/// The bit a block carries, from the bit decoded from its first singular
/// value and, when a second step is configured, the one decoded from its
/// second singular value.
pub fn decode_bit(first: bool, second: Option<bool>) -> (r: bool)
    ensures
        r == match second {
            None => first,
            Some(s) => weighted_vote(first, s),
        },
{
    match second {
        None => first,
        Some(s) => average_value(first, s),
    }
}

} // verus!
