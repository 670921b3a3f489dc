//! Transaction identifiers, unique within a tunnel.
use vstd::prelude::*;
use crate::num::{decimal, write_decimal};

verus! {

broadcast use vstd::string::group_string_axioms;

/// Hands out `T-1`, `T-2`, … in turn.
pub struct TxnCounter {
    counter: u64,
}

impl TxnCounter {
    /// The number the next identifier carries.
    pub closed spec fn next_number(&self) -> u64 {
        self.counter
    }

    /// A counter whose first identifier is `T-1`.
    pub fn new() -> (r: TxnCounter)
        ensures
            r.next_number() == 1,
    {
        TxnCounter { counter: 1 }
    }

    /// The next identifier: `T-` and the counter in decimal.
    pub fn next(&mut self) -> (r: String)
        requires
            old(self).next_number() < u64::MAX,
        ensures
            r@ == "T-"@ + decimal(old(self).next_number() as nat),
            final(self).next_number() == old(self).next_number() + 1,
    {
        let n = self.counter;
        self.counter = n + 1;
        let mut out = "T-".to_owned();
        write_decimal(&mut out, n);
        out
    }
}

} // verus!
