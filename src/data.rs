//! A type-erased data handle passed along with events.
use vstd::prelude::*;

verus! {

/// A type-erased handle to some data, held as the data's address; zero is the
/// null handle.
///
/// Making a handle from a reference, and reading through one, work on raw
/// addresses and are left to the application.
#[derive(Clone, Copy, Debug, PartialEq, Eq, Structural)]
pub struct Data {
    addr: usize,
}

impl Data {
    /// The address the handle holds.
    pub closed spec fn address(&self) -> usize {
        self.addr
    }

    /// A handle holding the given address.
    pub fn from_addr(addr: usize) -> (r: Data)
        ensures
            r.address() == addr,
    {
        Data { addr }
    }

    /// The null handle.
    pub fn null() -> (r: Data)
        ensures
            r.address() == 0,
    {
        Data { addr: 0 }
    }

    /// Tells whether the handle is null.
    pub fn is_null(&self) -> (r: bool)
        ensures
            r == (self.address() == 0),
    {
        self.addr == 0
    }

    /// Two handles holding one address are the same handle.
    pub proof fn lemma_same_address(a: Data, b: Data)
        requires
            a.address() == b.address(),
        ensures
            a == b,
    {
    }

    /// The address the handle holds.
    pub fn addr(&self) -> (r: usize)
        ensures
            r == self.address(),
    {
        self.addr
    }
}

} // verus!
