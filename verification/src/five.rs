//! A function that gives five, and one that asks for it.
use vstd::prelude::*;

verus! {

#[allow(non_snake_case)]
pub fn returnFive() -> (five: u32)
    ensures
        five == 5,
{
    5
}

/// Asks `returnFive` for its number and hands it on.
#[allow(non_snake_case)]
pub fn callReturnFive() -> (five: u32)
    ensures
        five == 5,
{
    let five = returnFive();
    five
}

} // verus!
