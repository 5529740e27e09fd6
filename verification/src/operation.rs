//! The two directions a motion can be run in.

use vstd::prelude::*;

verus! {

/// Defines the two possible directions of a motion.
#[derive(Debug, PartialEq, Eq, Structural, Clone, Copy)]
pub enum Operation {
    /// The forward direction: applies a motion's changes to the driver.
    Add,
    /// The backward direction: removes the changes the matching add made.
    Sub,
}

impl Operation {
    /// Takes two numbers and returns the operation required to get there:
    /// walking from `start` to a smaller `finish` subtracts, otherwise adds.
    pub fn get(finish: isize, start: isize) -> (op: Self)
        ensures
            op == (if finish < start {
                Operation::Sub
            } else {
                Operation::Add
            }),
    {
        if finish < start {
            return Operation::Sub;
        }
        Operation::Add
    }

    /// The algebraic direction of a forward step.
    pub fn add() -> (d: isize)
        ensures
            d == 1,
    {
        1
    }

    /// The algebraic direction of a backward step.
    pub fn sub() -> (d: isize)
        ensures
            d == -1,
    {
        -1
    }
}

} // verus!
