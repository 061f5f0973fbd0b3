use vstd::prelude::*;

verus! {

/// Two key positions, or two coordinates.
#[derive(Clone, Copy, Debug, PartialEq, Eq, Structural)]
pub struct Pair(pub usize, pub usize);

impl Pair {
    /// The pair `(0, 0)`.
    pub fn default() -> (r: Pair)
        ensures
            r == Pair(0, 0),
    {
        Pair(0, 0)
    }

    pub fn new(x0: usize, x1: usize) -> (r: Pair)
        ensures
            r == Pair(x0, x1),
    {
        Pair(x0, x1)
    }

    /// Componentwise difference.
    pub fn distance(&self, rhs: &Pair) -> (r: Pair)
        requires
            self.0 >= rhs.0,
            self.1 >= rhs.1,
        ensures
            r.0 == self.0 - rhs.0,
            r.1 == self.1 - rhs.1,
    {
        Pair(self.0 - rhs.0, self.1 - rhs.1)
    }

    /// Componentwise square.
    pub fn squared(&self) -> (r: Pair)
        requires
            self.0 * self.0 <= usize::MAX,
            self.1 * self.1 <= usize::MAX,
        ensures
            r.0 == self.0 * self.0,
            r.1 == self.1 * self.1,
    {
        Pair(self.0 * self.0, self.1 * self.1)
    }
}

} // verus!
