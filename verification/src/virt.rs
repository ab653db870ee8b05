//! Virtual addresses: 64-bit scalars masked to the implemented address width.

use vstd::prelude::*;

verus! {

use vstd::string::StringExecFns;

/// A virtual address. Construction always masks to the low 56 bits, so no
/// value of this type ever holds an unimplemented high bit.
#[derive(Debug, Clone, Copy, PartialEq, Eq, Structural)]
pub struct VirtAddr(u64);

impl VirtAddr {
    /// The raw 64-bit value of the address.
    pub closed spec fn view(self) -> u64 {
        self.0
    }

    /// Every `VirtAddr` stays inside the implemented 56-bit width.
    #[verifier::type_invariant]
    pub closed spec fn inv(self) -> bool {
        self.0 < 0x100_0000_0000_0000
    }

    /// Construction masks away the unimplemented high bits; it never fails.
    pub fn new(ptr: u64) -> (r: Self)
        ensures
            r@ == ptr & crate::PHYSADDR_MAX,
            r@ < 0x100_0000_0000_0000,
    {
        proof {
            assert(ptr & 0xff_ffff_ffff_ffffu64 < 0x100_0000_0000_0000) by (bit_vector);
        }
        Self(ptr & crate::PHYSADDR_MAX)
    }

    /// Clear the last `n` bits of the address, aligning it down to a
    /// `2^n`-byte boundary.
    pub fn clear_nth_last_bit(&self, n: usize) -> (r: Self)
        requires
            n < 64,
        ensures
            r@ == (self@ >> (n as u64)) << (n as u64),
            r@ <= self@,
    {
        proof {
            use_type_invariant(*self);
            let x = self.0;
            let sh = n as u64;
            assert(x & (0xff_ffff_ffff_ffffu64 << sh) & 0xff_ffff_ffff_ffffu64
                == (x >> sh) << sh) by (bit_vector)
                requires sh < 64, x < 0x100_0000_0000_0000u64;
            assert((x >> sh) << sh <= x) by (bit_vector)
                requires sh < 64;
        }
        Self(self.0 & (crate::PHYSADDR_MAX << n) & crate::PHYSADDR_MAX)
    }

    /// The address as a pointer-sized integer, for the caller that turns it
    /// into a pointer.
    pub fn get_ptr(&self) -> (r: usize)
        requires
            self@ <= usize::MAX,
        ensures
            r == self@,
    {
        self.0 as usize
    }

    /// Human-readable form for boot-time tracing: `VirtAddr(0x...)` with
    /// the value in hex.
    pub fn render(&self) -> (r: String)
        ensures
            r@ == "VirtAddr(0x"@ + crate::render::hex_seq(self@ as nat) + ")"@,
    {
        let mut s = "VirtAddr(0x".to_owned();
        s.append(crate::render::hex_string(self.get_u64()).as_str());
        s.append(")");
        s
    }

    /// The raw 64-bit value.
    pub fn get_u64(&self) -> (r: u64)
        ensures
            r == self@,
            r < 0x100_0000_0000_0000,
    {
        proof {
            use_type_invariant(*self);
        }
        self.0
    }
}

} // verus!
