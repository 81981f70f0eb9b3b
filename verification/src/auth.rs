//! The authorization collaborator.
//!
//! The library never validates signatures or sessions itself. The hosting
//! environment proves which principals the calling context legitimately acts
//! for, and hands that proof to each operation as an [`Auth`] value: the set
//! of principals vouched for during the current invocation. An operation that
//! asserts a principal outside this set fails with
//! [`crate::Error::NotAuthorized`] and changes nothing.

use vstd::prelude::*;

verus! {

/// The set of principals the environment vouches for in one invocation.
///
/// Its mathematical value is a `Set<u64>` of principals. Tests build one
/// directly: start empty, then [`Auth::grant`] each principal that should
/// pass the capability check.
pub struct Auth {
    granted: Vec<u64>,
}

impl View for Auth {
    type V = Set<u64>;

    closed spec fn view(&self) -> Set<u64> {
        Set::new(|p: u64| self.granted@.contains(p))
    }
}

impl Auth {
    /// An authorization context that vouches for nobody.
    pub fn new() -> (out: Auth)
        ensures
            out@ == Set::<u64>::empty(),
    {
        let out = Auth { granted: Vec::new() };
        proof {
            assert(out@ =~= Set::<u64>::empty());
        }
        out
    }

    /// Vouch for one more principal.
    pub fn grant(&mut self, principal: u64)
        ensures
            final(self)@ == old(self)@.insert(principal),
    {
        self.granted.push(principal);
        proof {
            broadcast use vstd::seq_lib::lemma_seq_contains_after_push;

            assert(self@ =~= old(self)@.insert(principal));
        }
    }

    /// The capability check: does this context vouch for `principal`?
    pub fn allows(&self, principal: u64) -> (out: bool)
        ensures
            out == self@.contains(principal),
    {
        let mut i: usize = 0;
        while i < self.granted.len()
            invariant
                i <= self.granted.len(),
                forall|j: int| 0 <= j < i ==> self.granted@[j] != principal,
            decreases self.granted.len() - i,
        {
            if self.granted[i] == principal {
                return true;
            }
            i = i + 1;
        }
        false
    }
}

} // verus!
