use vstd::prelude::*;

verus! {

/// Sign of the cross product of two consecutive edges of a quadrilateral:
/// which way the boundary turns at their shared corner.
#[derive(Clone, Copy, Debug, PartialEq, Eq, Structural)]
pub enum Turn {
    /// Positive cross product.
    Left,
    /// Negative cross product.
    Right,
    /// Zero cross product: the edges are parallel.
    Straight,
}

/// How many of `turns` are `t`.
pub open spec fn count_turns(turns: Seq<Turn>, t: Turn) -> nat
    decreases turns.len(),
{
    if turns.len() == 0 {
        0
    } else {
        count_turns(turns.drop_last(), t) + if turns.last() == t {
            1nat
        } else {
            0nat
        }
    }
}

/// The vote over the four corners: the straight corners join the side with
/// more strict turns (the left one on a tie), and the quadrilateral is simple
/// when that side holds more than two corners.
pub open spec fn simple_by_turns(turns: Seq<Turn>) -> bool {
    let left = count_turns(turns, Turn::Left);
    let right = count_turns(turns, Turn::Right);
    let straight = count_turns(turns, Turn::Straight);
    (if left < right {
        right
    } else {
        left
    }) + straight > 2
}

/// Decides from the turns at its four corners whether a quadrilateral is
/// simple, that is free of self-intersection.
pub fn is_simple_by_turns(turns: [Turn; 4]) -> (r: bool)
    ensures
        r == simple_by_turns(turns@),
{
    let mut left: u8 = 0;
    let mut right: u8 = 0;
    let mut straight: u8 = 0;
    let mut k: usize = 0;
    while k < 4
        invariant
            k <= 4,
            turns@.len() == 4,
            left == count_turns(turns@.take(k as int), Turn::Left),
            right == count_turns(turns@.take(k as int), Turn::Right),
            straight == count_turns(turns@.take(k as int), Turn::Straight),
            left + right + straight == k,
        decreases 4 - k,
    {
        assert(turns@.take(k + 1).drop_last() == turns@.take(k as int));
        match turns[k] {
            Turn::Left => left += 1,
            Turn::Right => right += 1,
            Turn::Straight => straight += 1,
        }
        k += 1;
    }
    assert(turns@.take(4) == turns@);
    let majority = if left < right {
        right
    } else {
        left
    };
    majority + straight > 2
}

} // verus!
