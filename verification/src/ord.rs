//! Three-way ordering used to sort values for display and debug output.

use vstd::prelude::*;

verus! {

/// Result of comparing two values. This ordering exists solely to produce
/// stable debug and pretty output; it is not a program-visible total order
/// over values of mixed type.
#[derive(Clone, Copy, Debug, PartialEq, Eq, Structural)]
pub enum ValueOrder {
    Less,
    Equal,
    Greater,
}

/// Three-way comparison of two mathematical integers.
pub open spec fn cmp3(a: int, b: int) -> ValueOrder {
    if a < b {
        ValueOrder::Less
    } else if a == b {
        ValueOrder::Equal
    } else {
        ValueOrder::Greater
    }
}

/// The mirror image of an ordering, as produced by swapping the operands.
pub open spec fn flip3(o: ValueOrder) -> ValueOrder {
    match o {
        ValueOrder::Less => ValueOrder::Greater,
        ValueOrder::Equal => ValueOrder::Equal,
        ValueOrder::Greater => ValueOrder::Less,
    }
}

} // verus!
