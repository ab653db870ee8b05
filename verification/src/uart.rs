//! Handle for a memory-mapped serial console. The register accesses
//! themselves are volatile I/O and live outside this library; this type only
//! carries the device's base address.

use vstd::prelude::*;

verus! {

/// A serial console device, identified by the base address of its registers.
pub struct Uart {
    base_address: usize,
}

impl Uart {
    /// The base address this handle was created with.
    pub closed spec fn base_address_spec(self) -> usize {
        self.base_address
    }

    pub fn new(base_address: usize) -> (r: Self)
        ensures
            r.base_address_spec() == base_address,
    {
        Self { base_address }
    }

    /// The base address, for the driver that performs the register I/O.
    pub fn base_address(&self) -> (r: usize)
        ensures
            r == self.base_address_spec(),
    {
        self.base_address
    }
}

} // verus!
