//! Connection identifiers handed out by one counter.
use vstd::prelude::*;

verus! {

/// mio's readiness token, a plain `usize` newtype.
#[verifier::external_type_specification]
pub struct ExToken(mio::Token);

/// Generates connection identifiers; identifier 0 stays reserved for the
/// listening socket.
pub struct Tokens {
    count: usize,
}

impl Tokens {
    /// The identifier most recently handed out (0 before the first).
    pub closed spec fn last(&self) -> nat {
        self.count as nat
    }

    pub fn new() -> (r: Tokens)
        ensures
            r.last() == 0,
    {
        Tokens { count: 0 }
    }

    /// The identifier most recently handed out.
    pub fn last_exec(&self) -> (r: usize)
        ensures
            r == self.last(),
    {
        self.count
    }

    /// Whether every identifier has been handed out.
    pub fn exhausted(&self) -> (r: bool)
        ensures
            r == !(self.last() < usize::MAX),
    {
        self.count == usize::MAX
    }

    /// Hands out the next identifier: one more than the last.
    pub fn next(&mut self) -> (r: mio::Token)
        requires
            old(self).last() < usize::MAX,
        ensures
            r.0 == old(self).last() + 1,
            final(self).last() == old(self).last() + 1,
    {
        let count = self.count + 1;
        self.count = count;
        mio::Token(count)
    }
}

} // verus!
