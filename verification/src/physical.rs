//! Physical addresses, frame descriptors, and the bitmap-backed physical
//! frame allocator.

use vstd::prelude::*;

verus! {

use crate::page::PageType;
use vstd::pervasive::VecAdditionalExecFns;
use vstd::string::StringExecFns;

proof fn lemma_byte_bit_set(b: u8, k: u8)
    by (bit_vector)
    requires
        k < 8,
    ensures
        byte_bit(b | (1u8 << k), k),
{
}

proof fn lemma_byte_bit_other(b: u8, k: u8, k2: u8)
    by (bit_vector)
    requires
        k < 8,
        k2 < 8,
        k != k2,
    ensures
        byte_bit(b | (1u8 << k), k2) == byte_bit(b, k2),
{
}

proof fn lemma_byte_bit_cases(b: u8, k: u8)
    by (bit_vector)
    ensures
        ((b >> k) & 1 == 1) || ((b >> k) & 1 == 0),
{
}

/// A physical address. Construction always masks to the low 56 bits, so no
/// value of this type ever holds an unimplemented high bit.
#[derive(Debug, Clone, Copy, PartialEq, Eq, Structural)]
pub struct PhysAddr(u64);

impl PhysAddr {
    /// The raw 64-bit value of the address.
    pub closed spec fn view(self) -> u64 {
        self.0
    }

    /// Every `PhysAddr` stays inside the implemented 56-bit width.
    #[verifier::type_invariant]
    pub closed spec fn inv(self) -> bool {
        self.0 < 0x100_0000_0000_0000
    }

    /// Construction masks away the unimplemented high bits; it never fails.
    pub fn new(ptr: u64) -> (r: Self)
        ensures
            r@ == ptr & crate::PHYSADDR_MAX,
            r@ < 0x100_0000_0000_0000,
            ptr < 0x100_0000_0000_0000 ==> r@ == ptr,
    {
        proof {
            assert(ptr & 0xff_ffff_ffff_ffffu64 < 0x100_0000_0000_0000
                && (ptr < 0x100_0000_0000_0000
                    ==> ptr & 0xff_ffff_ffff_ffffu64 == ptr)) by (bit_vector);
        }
        Self(ptr & crate::PHYSADDR_MAX)
    }

    /// Clear the last `n` bits of the address, aligning it down to a
    /// `2^n`-byte boundary.
    pub fn clear_nth_last_bit(&self, n: usize) -> (r: Self)
        requires
            n < 64,
        ensures
            r@ == (self@ >> (n as u64)) << (n as u64),
            r@ <= self@,
    {
        proof {
            use_type_invariant(*self);
            let x = self.0;
            let sh = n as u64;
            assert(x & (0xff_ffff_ffff_ffffu64 << sh) & 0xff_ffff_ffff_ffffu64
                == (x >> sh) << sh) by (bit_vector)
                requires sh < 64, x < 0x100_0000_0000_0000u64;
            assert((x >> sh) << sh <= x) by (bit_vector)
                requires sh < 64;
        }
        Self(self.0 & (crate::PHYSADDR_MAX << n) & crate::PHYSADDR_MAX)
    }

    /// Get page offset: the low 12 bits.
    pub fn get_page_offset(&self) -> (r: u64)
        ensures
            r == self@ & 0xfff,
    {
        self.0 & crate::page::PAGE_OFFSET_4K
    }

    /// Get the PPN (Physical Page Number): the address without its page
    /// offset.
    pub fn get_ppn(&self) -> (r: u64)
        ensures
            r == self@ >> 12,
    {
        self.0 >> 12
    }

    /// The address as a pointer-sized integer, for the caller that turns it
    /// into a pointer.
    pub fn get_ptr(&self) -> (r: usize)
        requires
            self@ <= usize::MAX,
        ensures
            r == self@,
    {
        self.0 as usize
    }

    /// The raw 64-bit value.
    pub fn get_u64(&self) -> (r: u64)
        ensures
            r == self@,
            r < 0x100_0000_0000_0000,
    {
        proof {
            use_type_invariant(*self);
        }
        self.0
    }

    /// Human-readable form for boot-time tracing: `PhysAddr(0x...)` with
    /// the value in hex.
    pub fn render(&self) -> (r: String)
        ensures
            r@ == "PhysAddr(0x"@ + crate::render::hex_seq(self@ as nat) + ")"@,
    {
        let mut s = "PhysAddr(0x".to_owned();
        s.append(crate::render::hex_string(self.get_u64()).as_str());
        s.append(")");
        s
    }

    /// Address plus address; the sum wraps inside the 56-bit width.
    pub fn add_addr(self, rhs: Self) -> (r: Self)
        ensures
            r@ == (self@ + rhs@) % 0x100_0000_0000_0000,
    {
        proof {
            use_type_invariant(self);
            use_type_invariant(rhs);
            let x = self.0;
            let y = rhs.0;
            assert((x + y) as u64 & 0xff_ffff_ffff_ffffu64 == (x + y) % 0x100_0000_0000_0000)
                by (bit_vector)
                requires x < 0x100_0000_0000_0000u64, y < 0x100_0000_0000_0000u64;
        }
        Self::new(self.0 + rhs.0)
    }

    /// Address plus byte offset; the sum wraps inside the 56-bit width.
    pub fn add_u64(self, rhs: u64) -> (r: Self)
        ensures
            r@ == (self@ + rhs) % 0x100_0000_0000_0000,
    {
        let w = self.0.wrapping_add(rhs);
        proof {
            use_type_invariant(self);
            let x = self.0;
            assert(w & 0xff_ffff_ffff_ffffu64 == w % 0x100_0000_0000_0000u64) by (bit_vector);
            if x + rhs > u64::MAX {
                vstd::arithmetic::div_mod::lemma_mod_multiples_vanish(
                    256, x + rhs - 0x1_0000_0000_0000_0000, 0x100_0000_0000_0000);
            }
        }
        Self::new(w)
    }

    /// Address minus address; a negative difference wraps inside the 56-bit
    /// width, which lets bounds computations such as `end - start` absorb
    /// wrap-around instead of trapping.
    pub fn sub_addr(self, rhs: Self) -> (r: Self)
        ensures
            r@ == (self@ - rhs@) % 0x100_0000_0000_0000,
    {
        let w = self.0.wrapping_sub(rhs.0);
        proof {
            use_type_invariant(self);
            use_type_invariant(rhs);
            let x = self.0;
            let y = rhs.0;
            assert(w & 0xff_ffff_ffff_ffffu64 == w % 0x100_0000_0000_0000u64) by (bit_vector);
            if x - y < 0 {
                vstd::arithmetic::div_mod::lemma_mod_multiples_vanish(
                    256, x - y + 0x1_0000_0000_0000_0000, 0x100_0000_0000_0000);
            }
        }
        Self::new(w)
    }

    /// Address minus byte offset, wrapping inside the 56-bit width.
    pub fn sub_u64(self, rhs: u64) -> (r: Self)
        ensures
            r@ == (self@ - rhs) % 0x100_0000_0000_0000,
    {
        let w = self.0.wrapping_sub(rhs);
        proof {
            use_type_invariant(self);
            let x = self.0;
            assert(w & 0xff_ffff_ffff_ffffu64 == w % 0x100_0000_0000_0000u64) by (bit_vector);
            if x - rhs < 0 {
                vstd::arithmetic::div_mod::lemma_mod_multiples_vanish(
                    256, x - rhs + 0x1_0000_0000_0000_0000, 0x100_0000_0000_0000);
            }
        }
        Self::new(w)
    }

    /// Bitwise conjunction of two addresses.
    pub fn bit_and(self, rhs: Self) -> (r: Self)
        ensures
            r@ == self@ & rhs@,
    {
        proof {
            use_type_invariant(self);
            use_type_invariant(rhs);
            let x = self.0;
            let y = rhs.0;
            assert((x & y) & 0xff_ffff_ffff_ffffu64 == x & y) by (bit_vector)
                requires x < 0x100_0000_0000_0000u64;
        }
        Self::new(self.0 & rhs.0)
    }

    /// Bitwise disjunction of two addresses.
    pub fn bit_or(self, rhs: Self) -> (r: Self)
        ensures
            r@ == self@ | rhs@,
    {
        proof {
            use_type_invariant(self);
            use_type_invariant(rhs);
            let x = self.0;
            let y = rhs.0;
            assert((x | y) & 0xff_ffff_ffff_ffffu64 == (x | y)) by (bit_vector)
                requires x < 0x100_0000_0000_0000u64, y < 0x100_0000_0000_0000u64;
        }
        Self::new(self.0 | rhs.0)
    }

    /// Shift left by `rhs` bits; bits shifted past the implemented width are
    /// masked away.
    pub fn shift_left(self, rhs: u64) -> (r: Self)
        requires
            rhs < 64,
        ensures
            r@ == (self@ << rhs) & 0xff_ffff_ffff_ffffu64,
    {
        Self::new(self.0 << rhs)
    }

    /// Shift right by `rhs` bits.
    pub fn shift_right(self, rhs: u64) -> (r: Self)
        requires
            rhs < 64,
        ensures
            r@ == self@ >> rhs,
    {
        proof {
            use_type_invariant(self);
            let x = self.0;
            assert((x >> rhs) & 0xff_ffff_ffff_ffffu64 == x >> rhs) by (bit_vector)
                requires x < 0x100_0000_0000_0000u64, rhs < 64;
        }
        Self::new(self.0 >> rhs)
    }
}

/// A successfully allocated, contiguous run of `size` units of granularity
/// `page_type`, starting at `addr`. Produced only by
/// [`PhysFrameAllocator::alloc`]; immutable.
#[derive(Debug, Clone, Copy, PartialEq, Eq, Structural)]
pub struct PhysFrame {
    pub addr: PhysAddr,
    pub page_type: crate::page::PageType,
    pub size: usize,
}

impl PhysFrame {
    pub fn new(addr: PhysAddr, page_type: crate::page::PageType, size: usize) -> (r: Self)
        ensures
            r.addr == addr,
            r.page_type == page_type,
            r.size == size,
    {
        PhysFrame { addr, page_type, size }
    }

    /// Total byte size of the frame: granularity times unit count times 4K.
    pub open spec fn size_bytes(self) -> nat {
        (self.page_type.nb_pages_spec() * self.size * 4096) as nat
    }

    /// Human-readable form for boot-time tracing: the frame's address and
    /// its total byte size.
    pub fn render(&self) -> (r: String)
        ensures
            r@ == "PhysFrame{ "@ + "PhysAddr(0x"@ + crate::render::hex_seq(self.addr@ as nat)
                + ")"@ + ", "@ + crate::render::dec_seq(self.size_bytes()) + " bytes }"@,
    {
        let mul = self.page_type.get_nb_pages();
        proof {
            assert(mul as int * (self.size as int) <= 0x40000 * 0xffff_ffff_ffff_ffff)
                by (nonlinear_arith)
                requires 0 <= mul <= 0x40000, 0 <= self.size <= 0xffff_ffff_ffff_ffff;
        }
        let units = (mul as u128) * (self.size as u128);
        let bytes = units * 4096;
        let mut s = "PhysFrame{ ".to_owned();
        s.append(self.addr.render().as_str());
        s.append(", ");
        s.append(crate::render::dec_string(bytes).as_str());
        s.append(" bytes }");
        proof {
            assert(s@ =~= "PhysFrame{ "@ + "PhysAddr(0x"@ + crate::render::hex_seq(
                self.addr@ as nat) + ")"@ + ", "@ + crate::render::dec_seq(self.size_bytes())
                + " bytes }"@);
        }
        s
    }
}

/// Why an allocation failed. `InsufficientTotal` means the request exceeds
/// the whole managed region and no retry can succeed; `Fragmented` means the
/// region lacks a contiguous free run of the requested length, so a smaller
/// or different request might still succeed.
#[derive(Debug, Clone, Copy, PartialEq, Eq, Structural)]
pub enum PhysFrameAllocError {
    InsufficientTotal,
    Fragmented,
}

impl PhysFrameAllocError {
    /// Human-readable form for boot-time tracing; each variant renders
    /// distinguishably.
    pub fn render(&self) -> (r: String)
        ensures
            *self == PhysFrameAllocError::InsufficientTotal ==> r@ == "PhysAllocError{ Not enough memory! }"@,
            *self == PhysFrameAllocError::Fragmented ==> r@ == "PhysAllocError{ Not enough contiguous memory! }"@,
    {
        match self {
            PhysFrameAllocError::InsufficientTotal => "PhysAllocError{ Not enough memory! }".to_owned(),
            PhysFrameAllocError::Fragmented => "PhysAllocError{ Not enough contiguous memory! }".to_owned(),
        }
    }
}

/// Bit `k` of byte `b`.
pub open spec fn byte_bit(b: u8, k: u8) -> bool {
    (b >> k) & 1 == 1
}

/// Number of `true` entries in a sequence of bits.
pub open spec fn count_true(s: Seq<bool>) -> int
    decreases s.len(),
{
    if s.len() == 0 {
        0
    } else {
        count_true(s.drop_last()) + if s.last() {
            1int
        } else {
            0int
        }
    }
}

/// Bits `start..start + len` are all clear.
pub open spec fn window_free(s: Seq<bool>, start: int, len: int) -> bool {
    forall|i: int| start <= i < start + len ==> !s[i]
}

/// The first-fit scan with skip-ahead: candidate starts are `index`,
/// `index + needed`, `index + 2 * needed`, ...; a candidate whose window is
/// not fully clear is skipped whole.
pub open spec fn first_fit_from(s: Seq<bool>, needed: nat, index: nat) -> Option<nat>
    decreases s.len() - index,
{
    if needed == 0 {
        Some(index)
    } else if index + needed > s.len() {
        None
    } else if window_free(s, index as int, needed as int) {
        Some(index)
    } else {
        first_fit_from(s, needed, (index + needed) as nat)
    }
}

proof fn lemma_count_true_bounds(s: Seq<bool>)
    ensures
        0 <= count_true(s) <= s.len(),
    decreases s.len(),
{
    if s.len() > 0 {
        lemma_count_true_bounds(s.drop_last());
    }
}

proof fn lemma_count_true_all_false(s: Seq<bool>)
    requires
        forall|i: int| 0 <= i < s.len() ==> !s[i],
    ensures
        count_true(s) == 0,
    decreases s.len(),
{
    if s.len() > 0 {
        lemma_count_true_all_false(s.drop_last());
    }
}

proof fn lemma_count_true_set_one(s: Seq<bool>, p: int)
    requires
        0 <= p < s.len(),
        !s[p],
    ensures
        count_true(s.update(p, true)) == count_true(s) + 1,
    decreases s.len(),
{
    let t = s.update(p, true);
    if p == s.len() - 1 {
        assert(t.drop_last() =~= s.drop_last());
    } else {
        assert(t.drop_last() =~= s.drop_last().update(p, true));
        lemma_count_true_set_one(s.drop_last(), p);
    }
}

proof fn lemma_count_true_full(s: Seq<bool>)
    requires
        count_true(s) == s.len(),
    ensures
        forall|i: int| 0 <= i < s.len() ==> s[i],
    decreases s.len(),
{
    if s.len() > 0 {
        lemma_count_true_bounds(s.drop_last());
        lemma_count_true_full(s.drop_last());
        assert forall|i: int| 0 <= i < s.len() implies s[i] by {
            if i < s.len() - 1 {
                assert(s.drop_last()[i]);
            }
        }
    }
}

proof fn lemma_count_true_prefix(s: Seq<bool>, p: int)
    requires
        0 <= p <= s.len(),
        forall|i: int| 0 <= i < s.len() ==> s[i] == (i < p),
    ensures
        count_true(s) == p,
    decreases s.len(),
{
    if s.len() > 0 {
        if p == s.len() {
            lemma_count_true_prefix(s.drop_last(), p - 1);
        } else {
            lemma_count_true_prefix(s.drop_last(), p);
        }
    }
}

/// A bitmap-backed first-fit allocator over a fixed physical region: one bit
/// per base (4K) frame, bit set meaning allocated. Alloc-only: no bit is
/// ever cleared for the allocator's lifetime.
#[derive(Debug, PartialEq, Eq)]
pub struct PhysFrameAllocator {
    start_addr: PhysAddr,
    bitmap: Vec<u8>,
    nb_pages: usize,
    free_pages: usize,
}

impl PhysFrameAllocator {
    /// Address of the first managed frame.
    pub closed spec fn start_spec(self) -> PhysAddr {
        self.start_addr
    }

    /// Total number of managed base frames.
    pub closed spec fn total_spec(self) -> nat {
        self.nb_pages as nat
    }

    /// Number of base frames not yet allocated.
    pub closed spec fn free_spec(self) -> nat {
        self.free_pages as nat
    }

    /// Allocation bit of base frame `i`: `true` means allocated.
    pub closed spec fn bit_at(self, i: int) -> bool {
        byte_bit(self.bitmap@[i / 8], (i % 8) as u8)
    }

    /// The allocation bitmap as a sequence of bits, one per managed frame.
    pub open spec fn bits(self) -> Seq<bool> {
        Seq::new(self.total_spec(), |i: int| self.bit_at(i))
    }

    /// Well-formedness: the backing bitmap covers every managed frame, the
    /// free count agrees with the bitmap, frame addresses stay inside the
    /// 56-bit width, and byte offsets inside the region fit in `usize`.
    pub closed spec fn wf(self) -> bool {
        &&& self.bitmap@.len() == (self.nb_pages + 7) / 8
        &&& self.free_pages == self.nb_pages - count_true(self.bits())
        &&& self.nb_pages * 4096 <= usize::MAX
        &&& self.start_addr@ + 4096 * self.nb_pages <= 0x100_0000_0000_0000
    }

    /// Construct a fresh allocator over a region of `memsize` bytes starting
    /// at `start_addr`, with every frame free. The whole region must lie
    /// inside the implemented 56-bit address width.
    pub fn new(start_addr: PhysAddr, memsize: usize) -> (r: Self)
        requires
            start_addr@ + 4096 * ((memsize as int) / 4096) <= 0x100_0000_0000_0000,
        ensures
            r.wf(),
            r.start_spec() == start_addr,
            r.total_spec() == memsize as int / 4096,
            r.free_spec() == r.total_spec(),
            forall|i: int| 0 <= i < r.total_spec() ==> !r.bit_at(i),
    {
        let nb_pages = memsize / crate::page::PAGE_SIZE;
        proof {
            assert(nb_pages * 4096 <= memsize) by (nonlinear_arith)
                requires nb_pages == memsize / 4096, memsize >= 0;
            assert(nb_pages + 7 <= usize::MAX) by (nonlinear_arith)
                requires nb_pages * 4096 <= usize::MAX, nb_pages >= 0;
        }
        let len = (nb_pages + 7) / 8;
        let mut bitmap: Vec<u8> = Vec::new();
        while bitmap.len() < len
            invariant
                bitmap@.len() <= len,
                forall|j: int| 0 <= j < bitmap@.len() ==> bitmap@[j] == 0u8,
            decreases len - bitmap@.len(),
        {
            bitmap.push(0u8);
        }
        let r = PhysFrameAllocator { start_addr, bitmap, nb_pages, free_pages: nb_pages };
        proof {
            assert forall|i: int| 0 <= i < r.total_spec() implies !r.bit_at(i) by {
                assert(i / 8 < (nb_pages + 7) / 8 && i % 8 < 8) by (nonlinear_arith)
                    requires 0 <= i < nb_pages;
                let k = (i % 8) as u8;
                assert((0u8 >> k) & 1 == 0) by (bit_vector);
            }
            assert(r.bits() =~= Seq::new(r.total_spec(), |i: int| false));
            lemma_count_true_all_false(r.bits());
        }
        r
    }

    /// Both states manage the same region.
    pub open spec fn same_region(pre: Self, post: Self) -> bool {
        &&& post.start_spec() == pre.start_spec()
        &&& post.total_spec() == pre.total_spec()
    }

    /// Nothing observable changed between the two states.
    pub open spec fn unchanged_state(pre: Self, post: Self) -> bool {
        &&& Self::same_region(pre, post)
        &&& post.free_spec() == pre.free_spec()
        &&& post.bits() == pre.bits()
    }

    /// What a successful allocation did: the first-fit scan found start
    /// frame `s`; the returned frame sits at `s` frames past the region
    /// base; exactly the window's bits were set; the free count dropped by
    /// the window's length.
    pub open spec fn alloc_ok_transition(
        pre: Self,
        post: Self,
        page_type: PageType,
        nb: usize,
        f: PhysFrame,
    ) -> bool {
        let needed = (page_type.nb_pages_spec() * nb) as nat;
        let fit = first_fit_from(pre.bits(), needed, 0);
        &&& fit is Some
        &&& {
            let s = fit.unwrap() as int;
            &&& f.addr@ == pre.start_spec()@ + 4096 * s
            &&& f.page_type == page_type
            &&& f.size == nb
            &&& s + needed <= pre.total_spec()
            &&& window_free(pre.bits(), s, needed as int)
            &&& Self::same_region(pre, post)
            &&& post.free_spec() == pre.free_spec() - needed
            &&& forall|i: int|
                0 <= i < pre.total_spec() ==> post.bits()[i] == (if s <= i < s + needed {
                    true
                } else {
                    pre.bits()[i]
                })
        }
    }

    /// Allocate `nb` units of granularity `page_type` and return a
    /// `PhysFrame`, or say why none could be handed out. First-fit with
    /// skip-ahead: a candidate window with an allocated frame inside is
    /// skipped whole, and the scan resumes one window further. On failure
    /// nothing is mutated.
    pub fn allocate(&mut self, page_type: PageType, nb: usize) -> (r: Result<
        PhysFrame,
        PhysFrameAllocError,
    >)
        requires
            old(self).wf(),
        ensures
            final(self).wf(),
            ({
                let needed = (page_type.nb_pages_spec() * nb) as nat;
                if needed > old(self).total_spec() {
                    &&& r == Err::<PhysFrame, PhysFrameAllocError>(
                        PhysFrameAllocError::InsufficientTotal,
                    )
                    &&& Self::unchanged_state(*old(self), *final(self))
                } else if first_fit_from(old(self).bits(), needed, 0) is Some {
                    &&& r is Ok
                    &&& Self::alloc_ok_transition(*old(self), *final(self), page_type, nb, r.unwrap())
                } else {
                    &&& r == Err::<PhysFrame, PhysFrameAllocError>(PhysFrameAllocError::Fragmented)
                    &&& Self::unchanged_state(*old(self), *final(self))
                }
            }),
    {
        let mul = page_type.get_nb_pages();
        let needed: usize = match mul.checked_mul(nb) {
            Some(v) => v,
            None => {
                return Err(PhysFrameAllocError::InsufficientTotal);
            },
        };
        if needed > self.nb_pages {
            return Err(PhysFrameAllocError::InsufficientTotal);
        }
        if needed == 0 {
            return Ok(PhysFrame::new(self.start_addr, page_type, nb));
        }
        proof {
            assert(self.nb_pages + self.nb_pages <= usize::MAX) by (nonlinear_arith)
                requires self.nb_pages * 4096 <= usize::MAX, self.nb_pages >= 0;
        }
        let mut index: usize = 0;
        while index + needed <= self.nb_pages
            invariant
                *self == *old(self),
                old(self).wf(),
                1 <= needed <= self.nb_pages,
                needed == page_type.nb_pages_spec() * nb,
                index <= self.nb_pages,
                self.nb_pages + self.nb_pages <= usize::MAX,
                first_fit_from(self.bits(), needed as nat, 0) == first_fit_from(
                    self.bits(),
                    needed as nat,
                    index as nat,
                ),
            decreases self.nb_pages - index,
        {
            let mut n: usize = 0;
            let mut blocked = false;
            while n < needed && !blocked
                invariant
                    *self == *old(self),
                    old(self).wf(),
                    1 <= needed <= self.nb_pages,
                    index + needed <= self.nb_pages,
                    n <= needed,
                    forall|m: int| 0 <= m < n ==> !#[trigger] self.bit_at(index + m),
                    blocked ==> n < needed && self.bit_at(index + n as int),
                decreases needed - n, (if blocked { 0int } else { 1int }),
            {
                let i = index + n;
                proof {
                    assert(i / 8 < (self.nb_pages + 7) / 8 && i % 8 < 8) by (nonlinear_arith)
                        requires 0 <= i < self.nb_pages;
                }
                let byte = self.bitmap[i / 8];
                let k: u8 = (i % 8) as u8;
                proof {
                    lemma_byte_bit_cases(byte, k);
                }
                if (byte >> k) & 1 != 0 {
                    blocked = true;
                } else {
                    n += 1;
                }
            }
            if n == needed {
                // The window starting at `index` is fully clear: mark it.
                proof {
                    assert forall|i: int| index <= i < index + needed implies !self.bits()[i] by {
                        assert(!self.bit_at(index + (i - (index as int))));
                    }
                    assert(window_free(self.bits(), index as int, needed as int));
                }
                let ghost entry_bits = self.bits();
                let mut j: usize = 0;
                while j < needed
                    invariant
                        j <= needed,
                        1 <= needed,
                        index + needed <= self.nb_pages,
                        self.start_addr == old(self).start_addr,
                        self.nb_pages == old(self).nb_pages,
                        self.free_pages == old(self).free_pages,
                        old(self).wf(),
                        self.bitmap@.len() == old(self).bitmap@.len(),
                        entry_bits == old(self).bits(),
                        window_free(entry_bits, index as int, needed as int),
                        forall|i2: int|
                            0 <= i2 < self.nb_pages ==> self.bit_at(i2) == (if index <= i2 < index
                                + j {
                                true
                            } else {
                                entry_bits[i2]
                            }),
                        count_true(self.bits()) == count_true(entry_bits) + j,
                    decreases needed - j,
                {
                    let i = index + j;
                    proof {
                        assert(i / 8 < (self.nb_pages + 7) / 8 && i % 8 < 8) by (nonlinear_arith)
                            requires 0 <= i < self.nb_pages;
                    }
                    let ghost prev = *self;
                    let byte = self.bitmap[i / 8];
                    let k: u8 = (i % 8) as u8;
                    self.bitmap.set(i / 8, byte | (1u8 << k));
                    proof {
                        assert forall|i2: int| 0 <= i2 < self.nb_pages implies self.bit_at(i2) == (
                        if i2 == i {
                            true
                        } else {
                            prev.bit_at(i2)
                        }) by {
                            assert(i2 / 8 < (self.nb_pages + 7) / 8 && 0 <= i2 % 8 < 8)
                                by (nonlinear_arith)
                                requires 0 <= i2 < self.nb_pages;
                            let k2 = (i2 % 8) as u8;
                            vstd::arithmetic::div_mod::lemma_fundamental_div_mod(i2, 8);
                            vstd::arithmetic::div_mod::lemma_fundamental_div_mod(i as int, 8);
                            if i2 / 8 == i as int / 8 {
                                if k2 == k {
                                    lemma_byte_bit_set(byte, k);
                                } else {
                                    lemma_byte_bit_other(byte, k, k2);
                                }
                            }
                        }
                        assert(self.bits() =~= prev.bits().update(i as int, true));
                        assert(!prev.bits()[i as int]);
                        lemma_count_true_set_one(prev.bits(), i as int);
                    }
                    j += 1;
                }
                proof {
                    lemma_count_true_bounds(self.bits());
                }
                let ghost marked = *self;
                self.free_pages = self.free_pages - needed;
                proof {
                    assert(self.bits() =~= marked.bits());
                    assert(4096 * index + 4096 <= 4096 * self.nb_pages) by (nonlinear_arith)
                        requires 0 <= index, index + 1 <= self.nb_pages;
                }
                let off: usize = crate::page::PAGE_SIZE * index;
                let addr = self.start_addr.add_u64(off as u64);
                proof {
                    vstd::arithmetic::div_mod::lemma_small_mod(
                        (old(self).start_spec()@ + off) as nat,
                        0x100_0000_0000_0000,
                    );
                    assert(first_fit_from(entry_bits, needed as nat, index as nat)
                        == Some(index as nat));
                }
                return Ok(PhysFrame::new(addr, page_type, nb));
            }
            proof {
                // The window at `index` is blocked at offset `n`: the scan
                // skips the whole window.
                assert(!window_free(self.bits(), index as int, needed as int)) by {
                    assert(self.bits()[index + n as int]);
                }
            }
            index += needed;
        }
        proof {
            assert(first_fit_from(self.bits(), needed as nat, index as nat) is None);
        }
        Err(PhysFrameAllocError::Fragmented)
    }

    /// Total number of managed base frames.
    pub fn nb_pages(&self) -> (r: usize)
        ensures
            r == self.total_spec(),
    {
        self.nb_pages
    }

    /// Number of base frames still free.
    pub fn free_pages(&self) -> (r: usize)
        ensures
            r == self.free_spec(),
    {
        self.free_pages
    }

    /// Address of the first managed frame.
    pub fn start_addr(&self) -> (r: PhysAddr)
        ensures
            r == self.start_spec(),
    {
        self.start_addr
    }

    /// The first `p` frames are allocated and every later frame is free.
    /// A fresh allocator is in this state with `p == 0`, and allocations
    /// whose length divides the current prefix keep the state.
    pub open spec fn prefix_allocated(self, p: int) -> bool {
        &&& self.wf()
        &&& 0 <= p <= self.total_spec()
        &&& forall|i: int|
            0 <= i < self.total_spec() ==> ((#[trigger] self.bits()[i]) <==> i < p)
    }
}

proof fn lemma_prefix_first_fit_step(a: PhysFrameAllocator, m: nat, needed: nat, k: nat)
    requires
        a.prefix_allocated((m * needed) as int),
        1 <= needed,
        k <= m,
        m * needed + needed <= a.total_spec(),
    ensures
        first_fit_from(a.bits(), needed, k * needed) == Some((m * needed) as nat),
    decreases m - k,
{
    let p = m * needed;
    if k < m {
        assert((k + 1) * needed <= m * needed && k * needed < m * needed) by (nonlinear_arith)
            requires 1 <= needed, k < m;
        assert(a.bits()[(k * needed) as int]);
        assert(!window_free(a.bits(), (k * needed) as int, needed as int));
        lemma_prefix_first_fit_step(a, m, needed, k + 1);
        assert((k + 1) * needed == k * needed + needed) by (nonlinear_arith);
    } else {
        assert forall|i: int| p <= i < p + needed implies !a.bits()[i] by {}
        assert(window_free(a.bits(), p as int, needed as int));
    }
}

/// Law: over a region whose allocated frames form a prefix that the request
/// length divides, the first-fit scan lands exactly at the end of the
/// prefix. Hence a fresh allocator serves a sequence of equal-sized
/// allocations back to back, each succeeding, until the region is used up.
pub proof fn lemma_prefix_alloc_succeeds(a: PhysFrameAllocator, p: int, needed: nat)
    requires
        a.prefix_allocated(p),
        1 <= needed,
        p % (needed as int) == 0,
        p + needed <= a.total_spec(),
    ensures
        first_fit_from(a.bits(), needed, 0) == Some(p as nat),
{
    vstd::arithmetic::div_mod::lemma_fundamental_div_mod(p, needed as int);
    let q = p / (needed as int);
    assert(q >= 0) by (nonlinear_arith)
        requires p >= 0, needed >= 1, q == p / (needed as int);
    let m = q as nat;
    let d = needed as int;
    assert(p == d * q);
    assert(m * needed == d * q) by (nonlinear_arith)
        requires m == q, needed == d;
    lemma_prefix_first_fit_step(a, m, needed, 0);
    assert(0 * needed == 0) by (nonlinear_arith);
}

/// Law: a successful allocation over a prefix-allocated region extends the
/// prefix by exactly the allocated window, hands out the frame right at the
/// prefix's end, and lowers the free count by the window's length.
pub proof fn lemma_prefix_alloc_transition(
    pre: PhysFrameAllocator,
    post: PhysFrameAllocator,
    p: int,
    page_type: PageType,
    nb: usize,
    f: PhysFrame,
)
    requires
        pre.prefix_allocated(p),
        post.wf(),
        PhysFrameAllocator::alloc_ok_transition(pre, post, page_type, nb, f),
        1 <= page_type.nb_pages_spec() * nb,
        p % (page_type.nb_pages_spec() * nb) as int == 0,
        p + page_type.nb_pages_spec() * nb <= pre.total_spec(),
    ensures
        f.addr@ == pre.start_spec()@ + 4096 * p,
        post.prefix_allocated(p + page_type.nb_pages_spec() * nb),
        post.free_spec() == pre.free_spec() - page_type.nb_pages_spec() * nb,
{
    let needed = (page_type.nb_pages_spec() * nb) as nat;
    lemma_prefix_alloc_succeeds(pre, p, needed);
}

/// Law: in a prefix-allocated state exactly the prefix is spent: the free
/// count is the region total minus the prefix length. With the step law
/// above, a fresh allocator (prefix zero) that has served allocations
/// totaling `n` frames has `total - n` frames free, and reaches zero free
/// frames exactly when the region is used up.
pub proof fn lemma_prefix_free_count(a: PhysFrameAllocator, p: int)
    requires
        a.prefix_allocated(p),
    ensures
        a.free_spec() == a.total_spec() - p,
{
    lemma_count_true_prefix(a.bits(), p);
}

/// Law: once no frame is free, no request for one or more frames can find a
/// window, so an allocation must fail (`Fragmented` here; `InsufficientTotal`
/// already when the request exceeds the whole region).
pub proof fn lemma_full_region_fails(a: PhysFrameAllocator, needed: nat)
    requires
        a.wf(),
        a.free_spec() == 0,
        1 <= needed,
    ensures
        first_fit_from(a.bits(), needed, 0) is None,
{
    lemma_count_true_bounds(a.bits());
    lemma_count_true_full(a.bits());
    lemma_all_set_no_fit(a.bits(), needed, 0);
}

proof fn lemma_all_set_no_fit(s: Seq<bool>, needed: nat, q: nat)
    requires
        1 <= needed,
        forall|i: int| 0 <= i < s.len() ==> s[i],
    ensures
        first_fit_from(s, needed, q) is None,
    decreases s.len() - q,
{
    if q + needed <= s.len() {
        assert(s[q as int]);
        assert(!window_free(s, q as int, needed as int));
        lemma_all_set_no_fit(s, needed, (q + needed) as nat);
    }
}

/// Law: allocating `nb` mid-granularity (2M) units lowers the free count by
/// exactly `512 * nb` base frames.
pub proof fn lemma_mega_alloc_free_drop(
    pre: PhysFrameAllocator,
    post: PhysFrameAllocator,
    nb: usize,
    f: PhysFrame,
)
    requires
        PhysFrameAllocator::alloc_ok_transition(pre, post, PageType::MegaPage, nb, f),
    ensures
        post.free_spec() == pre.free_spec() - 512 * nb,
{
}

/// Law: no double allocation. Two successful allocations, one after the
/// other, hand out frames whose physical byte ranges are disjoint.
pub proof fn lemma_no_double_allocation(
    a0: PhysFrameAllocator,
    a1: PhysFrameAllocator,
    a2: PhysFrameAllocator,
    pt1: PageType,
    nb1: usize,
    f1: PhysFrame,
    pt2: PageType,
    nb2: usize,
    f2: PhysFrame,
)
    requires
        PhysFrameAllocator::alloc_ok_transition(a0, a1, pt1, nb1, f1),
        PhysFrameAllocator::alloc_ok_transition(a1, a2, pt2, nb2, f2),
    ensures
        f1.addr@ + 4096 * (pt1.nb_pages_spec() * nb1) <= f2.addr@ || f2.addr@ + 4096 * (
        pt2.nb_pages_spec() * nb2) <= f1.addr@,
{
    let n1 = (pt1.nb_pages_spec() * nb1) as int;
    let n2 = (pt2.nb_pages_spec() * nb2) as int;
    let s1 = first_fit_from(a0.bits(), n1 as nat, 0).unwrap() as int;
    let s2 = first_fit_from(a1.bits(), n2 as nat, 0).unwrap() as int;
    if n1 == 0 {
        assert(s1 == 0);
    } else if n2 == 0 {
        assert(s2 == 0);
    } else {
        if s2 < s1 + n1 && s1 < s2 + n2 {
            let i = if s1 >= s2 { s1 } else { s2 };
            assert(a1.bits()[i]);
            assert(!a1.bits()[i]);
        }
    }
}

} // verus!
