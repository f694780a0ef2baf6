//! The idle-inhibition decision: whether any session inhibitor carries the
//! inhibit-idle flag.

use vstd::prelude::*;

verus! {

/// The flag bit that marks an inhibitor as blocking idling.
pub const INHIBIT_IDLE: u32 = 8;

/// Whether any of the inhibitors' flag words has the inhibit-idle bit set.
pub fn inhibiting_idle(flags: &Vec<u32>) -> (r: bool)
    ensures
        r == exists|i: int| 0 <= i < flags@.len() && #[trigger] (flags@[i] & INHIBIT_IDLE) != 0,
{
    let n = flags.len();
    let mut i: usize = 0;
    while i < n
        invariant
            n == flags@.len(),
            i <= n,
            forall|j: int| 0 <= j < i ==> #[trigger] (flags@[j] & INHIBIT_IDLE) == 0,
        decreases n - i,
    {
        if flags[i] & INHIBIT_IDLE != 0 {
            return true;
        }
        i = i + 1;
    }
    false
}

} // verus!
