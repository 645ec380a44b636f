//! A small module-path demonstration: a restaurant front desk whose only
//! action is to put a guest on the waitlist.

use vstd::prelude::*;

verus! {

/// Puts a guest on the waitlist. The waitlist itself is not modelled, so
/// there is nothing to observe and nothing to promise.
pub fn add_to_waitlist() {
}

/// Eating at the restaurant means joining the waitlist a few times over,
/// once for each member of the party of four.
pub fn eat_at_restaurant() {
    crate::restaurant::add_to_waitlist();
    add_to_waitlist();
    self::add_to_waitlist();
    add_to_waitlist();
}

} // verus!
