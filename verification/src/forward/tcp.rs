//! The backends of one route, taken in turn.

use vstd::prelude::*;

use crate::forward::location::Location;

verus! {

/// How many bytes are copied at a time between client and backend.
pub const BUFFER_SIZE: usize = 8192;

/// One backend.
#[derive(Debug)]
pub struct TargetLocationData {
    pub location: Location,
}

/// The backends of one route. With more than one, connections go to them
/// in turn; `next_address_index` counts the connections so far and starts
/// again at zero after the largest value.
#[derive(Debug)]
pub struct TargetData {
    pub location_data: Vec<TargetLocationData>,
    pub next_address_index: usize,
    pub tcp_nodelay: bool,
}

impl TargetData {
    /// Which backend the next connection goes to.
    pub open spec fn spec_next(&self) -> int {
        if self.location_data@.len() > 1 {
            self.next_address_index as int % self.location_data@.len() as int
        } else {
            0
        }
    }

    /// Picks the backend for a new connection and moves the count on.
    pub fn next_location(&mut self) -> (index: usize)
        requires
            old(self).location_data@.len() > 0,
        ensures
            index == old(self).spec_next(),
            index < old(self).location_data@.len(),
            final(self).location_data == old(self).location_data,
            final(self).tcp_nodelay == old(self).tcp_nodelay,
            final(self).next_address_index == if old(self).location_data@.len() <= 1 {
                old(self).next_address_index
            } else if old(self).next_address_index == usize::MAX {
                0usize
            } else {
                (old(self).next_address_index + 1) as usize
            },
    {
        if self.location_data.len() > 1 {
            let index = self.next_address_index;
            self.next_address_index = if index == usize::MAX {
                0
            } else {
                index + 1
            };
            index % self.location_data.len()
        } else {
            0
        }
    }
}

/// With the count below the largest value, consecutive connections go to
/// consecutive backends, the first again after the last.
pub proof fn lemma_round_robin(before: TargetData, after: TargetData)
    requires
        before.location_data@.len() > 1,
        before.next_address_index < usize::MAX,
        after.location_data == before.location_data,
        after.next_address_index == before.next_address_index + 1,
    ensures
        after.spec_next() == if before.spec_next() + 1 == before.location_data@.len() {
            0
        } else {
            before.spec_next() + 1
        },
{
    let n = before.location_data@.len() as int;
    let i = before.next_address_index as int;
    vstd::arithmetic::div_mod::lemma_fundamental_div_mod(i, n);
    vstd::arithmetic::div_mod::lemma_fundamental_div_mod(i + 1, n);
    vstd::arithmetic::div_mod::lemma_mod_bound(i, n);
    if i % n + 1 == n {
        assert(i + 1 == n * (i / n + 1)) by (nonlinear_arith)
            requires
                i == n * (i / n) + i % n,
                i % n + 1 == n,
        ;
        vstd::arithmetic::div_mod::lemma_mod_multiples_basic(i / n + 1, n);
    } else {
        vstd::arithmetic::div_mod::lemma_fundamental_div_mod_converse(
            i + 1,
            n,
            i / n,
            i % n + 1,
        );
    }
}

} // verus!
