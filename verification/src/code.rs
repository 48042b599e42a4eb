//! Protocol codes and checked values.

use vstd::prelude::*;

verus! {

/// A numeric protocol code.
#[derive(Debug, Clone, Copy, PartialEq, Eq, Structural, PartialOrd, Ord, Hash)]
pub struct Code(pub u32);

impl Code {
    /// The code with the number `n`.
    pub fn new(n: u32) -> (c: Code)
        ensures
            c == Code(n),
    {
        Code(n)
    }

    /// The number of this code.
    pub fn value(&self) -> (n: u32)
        ensures
            n == self.0,
    {
        self.0
    }
}

impl From<Code> for u32 {
    fn from(c: Code) -> (n: u32) {
        c.0
    }
}

impl vstd::std_specs::convert::FromSpecImpl<Code> for u32 {
    open spec fn obeys_from_spec() -> bool {
        true
    }

    open spec fn from_spec(c: Code) -> u32 {
        c.0
    }
}

/// Asserts that the wrapped value has been subject to some inspection.
///
/// Checked values are produced by codecs and by an address that has scanned
/// its own bytes: the inner value fulfils what the protocol asks of it.
#[derive(Debug, Clone, Copy)]
pub struct Checked<T>(pub T);

impl<T> Checked<T> {
    /// The wrapped value.
    pub fn get(&self) -> (r: &T)
        ensures
            *r == self.0,
    {
        &self.0
    }
}

} // verus!
