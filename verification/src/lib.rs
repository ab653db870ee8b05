//! Physical-memory and address-translation core of a minimal paged kernel:
//! typed physical/virtual addresses, a bitmap-backed first-fit physical frame
//! allocator, and hardware-format page-table entries.

pub mod page;
pub mod physical;
pub mod render;
pub mod uart;
pub mod virt;

use vstd::prelude::*;

verus! {

/// Width mask of the implemented physical address space: 56 bits.
pub const PHYSADDR_MAX: u64 = 0xff_ffff_ffff_ffff;

} // verus!
