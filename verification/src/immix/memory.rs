//! Blocks: power-of-two sized, power-of-two aligned regions of memory.
//!
//! A block is carved out of a byte reservation that is large enough to hold an
//! aligned region wherever the reservation happens to start. The block owns the
//! reservation, so the region is given back exactly once, when the block is
//! dropped.

use vstd::arithmetic::div_mod::lemma_fundamental_div_mod;
use vstd::arithmetic::div_mod::lemma_fundamental_div_mod_converse;
use vstd::arithmetic::power::lemma_pow_positive;
use vstd::arithmetic::power::pow;
use vstd::arithmetic::power2::is_pow2;
use vstd::arithmetic::power2::is_pow2_equiv;
use vstd::arithmetic::power2::is_pow2_exists;
use vstd::layout::unsigned_int_max_values;
use vstd::prelude::*;

verus! {

/// Why an allocation was refused.
#[derive(Debug, PartialEq, Eq, Clone, Copy, Structural)]
pub enum AllocError {
    /// The operating allocator could not satisfy the request.
    OutOfMemory,
    /// The requested block size is not a power of two.
    BadAlignment,
    /// The object needs more lines than one block holds.
    ObjectTooLarge,
}

/// Address of the first byte of a block.
pub type BlockPtr = usize;

/// Size of a block in bytes.
pub type BlockSize = usize;

pub type BlockResult = Result<Block, AllocError>;

/// What a [`Block`] stands for in contracts: where its region starts and how
/// many bytes it spans.
pub struct BlockView {
    pub addr: int,
    pub size: int,
}

impl BlockView {
    /// The region is a power of two in size, starts at a multiple of its size,
    /// does not start at address zero and ends inside the address space.
    pub open spec fn wf(self) -> bool {
        &&& is_pow2(self.size)
        &&& self.addr > 0
        &&& is_aligned(self.addr, self.size)
        &&& self.addr + self.size <= usize::MAX
    }

    /// `a` lies in the half-open byte range of the region.
    pub open spec fn contains(self, a: int) -> bool {
        self.addr <= a < self.addr + self.size
    }
}

/// One region of memory, exclusively owned.
#[derive(Debug)]
pub struct Block {
    /// The reservation that the region lies in. It is never resized, so its
    /// buffer stays where it is for as long as the block lives.
    mem: Vec<u8>,
    ptr: BlockPtr,
    size: BlockSize,
}

/// `addr` is a multiple of `align`.
pub open spec fn is_aligned(addr: int, align: int) -> bool {
    addr % align == 0
}

/// The least multiple of `align` that is not below `addr`.
pub open spec fn align_up(addr: int, align: int) -> int {
    if addr % align == 0 {
        addr
    } else {
        addr + (align - addr % align)
    }
}

/// The number of bytes to reserve so that an aligned region of `size` bytes
/// fits whatever the address of the first reserved byte.
pub open spec fn reservation_len(size: int) -> int {
    size + (size - 1)
}

/// `align_up(addr, align)` is a multiple of `align`, is not below `addr`, and
/// is less than `align` above it: it is the least such multiple.
pub proof fn lemma_align_up(addr: int, align: int)
    requires
        0 <= addr,
        0 < align,
    ensures
        is_aligned(align_up(addr, align), align),
        addr <= align_up(addr, align) < addr + align,
        forall|m: int| addr <= m && #[trigger] is_aligned(m, align) ==> align_up(addr, align) <= m,
{
    let up = align_up(addr, align);
    let q = addr / align;
    let r = addr % align;
    lemma_fundamental_div_mod(addr, align);
    if r != 0 {
        assert(up == align * (q + 1)) by (nonlinear_arith)
            requires
                up == addr + (align - r),
                addr == align * q + r,
        ;
        lemma_fundamental_div_mod_converse(up, align, q + 1, 0);
    }
    assert forall|m: int| addr <= m && #[trigger] is_aligned(m, align) implies up <= m by {
        lemma_fundamental_div_mod(m, align);
        let k = m / align;
        if r != 0 {
            assert(k > q) by (nonlinear_arith)
                requires
                    align * k >= align * q + r,
                    r > 0,
                    align > 0,
            ;
            assert(align * k >= align * (q + 1)) by (nonlinear_arith)
                requires
                    k >= q + 1,
                    align > 0,
            ;
        }
    }
}

/// Of two distinct powers of two the larger is at least twice the smaller.
pub proof fn lemma_pow2_gap(a: int, b: int)
    requires
        is_pow2(a),
        is_pow2(b),
        a < b,
    ensures
        2 * a <= b,
    decreases b,
{
    reveal(is_pow2);
    if a > 1 {
        lemma_pow2_gap(a / 2, b / 2);
    }
}

/// Twice a power of two that fits a `usize`, less one, still fits: the
/// reservation for a block never overflows.
pub proof fn lemma_reservation_fits(size: usize)
    requires
        is_pow2(size as int),
    ensures
        0 < reservation_len(size as int) <= usize::MAX,
{
    reveal(is_pow2);
    unsigned_int_max_values();
    let top: int = usize::MAX + 1;
    assert(is_pow2_exists(top)) by {
        lemma_pow_positive(2, usize::BITS as nat);
        assert(pow(2, usize::BITS as nat) == top);
    }
    is_pow2_equiv(top);
    lemma_pow2_gap(size as int, top);
}

/// Whether `size` is a power of two.
pub fn is_power_of_two(size: usize) -> (r: bool)
    ensures
        r == is_pow2(size as int),
{
    if size == 0 {
        proof {
            reveal(is_pow2);
        }
        return false;
    }
    let mut n: usize = size;
    while n % 2 == 0
        invariant
            n >= 1,
            is_pow2(n as int) == is_pow2(size as int),
        decreases n,
    {
        proof {
            reveal(is_pow2);
        }
        n = n / 2;
    }
    proof {
        reveal(is_pow2);
    }
    n == 1
}

/// The number of bytes that are reserved for a block of `size` bytes:
/// `2 * size - 1`, so that a region of `size` bytes that starts at a multiple
/// of `size` lies in the reservation wherever it starts.
pub fn reservation_size(size: BlockSize) -> (len: usize)
    requires
        is_pow2(size as int),
    ensures
        len == reservation_len(size as int),
{
    proof {
        lemma_reservation_fits(size);
    }
    size + (size - 1)
}

/// The address of the first byte of the buffer of `mem`, as `Vec::as_ptr`
/// reports it. Nothing is claimed of the value: where the allocator puts a
/// buffer is its own affair.
#[verifier::external_body]
fn buffer_address(mem: &Vec<u8>) -> usize {
    mem.as_ptr() as usize
}

/// Requests `size` bytes aligned to `size` from the operating allocator.
///
/// A size that is not a power of two is refused before anything is requested.
/// Otherwise as many bytes as [`reservation_size`] says are reserved and the
/// block is placed in them by [`Block::from_reservation`]; a reservation that
/// fails is `OutOfMemory`.
pub fn alloc_block(size: BlockSize) -> (r: BlockResult)
    ensures
        !is_pow2(size as int) <==> r is Err && r->Err_0 == AllocError::BadAlignment,
        r is Err ==> r->Err_0 == AllocError::BadAlignment || r->Err_0 == AllocError::OutOfMemory,
        r matches Ok(block) ==> {
            &&& block@.wf()
            &&& block@.size == size
            &&& is_aligned(block@.addr, size as int)
        },
{
    if !is_power_of_two(size) {
        return Err(AllocError::BadAlignment);
    }
    let len: usize = reservation_size(size);
    let mut mem: Vec<u8> = Vec::new();
    match mem.try_reserve(len) {
        Ok(()) => {
            let base: usize = buffer_address(&mem);
            Block::from_reservation(mem, base, size)
        },
        Err(_) => Err(AllocError::OutOfMemory),
    }
}

impl View for Block {
    type V = BlockView;

    closed spec fn view(&self) -> BlockView {
        BlockView { addr: self.ptr as int, size: self.size as int }
    }
}

impl Block {
    /// A block of `size` bytes aligned to `size`, or why there is none:
    /// `BadAlignment` exactly when `size` is not a power of two, `OutOfMemory`
    /// when the operating allocator refuses.
    pub fn new(size: BlockSize) -> (r: BlockResult)
        ensures
            !is_pow2(size as int) <==> r is Err && r->Err_0 == AllocError::BadAlignment,
            r is Err ==> r->Err_0 == AllocError::BadAlignment || r->Err_0
                == AllocError::OutOfMemory,
            r matches Ok(block) ==> {
                &&& block@.wf()
                &&& block@.size == size
                &&& is_aligned(block@.addr, size as int)
            },
    {
        alloc_block(size)
    }

    /// Places a block of `size` bytes in a reservation whose first byte has the
    /// address `base`: at the first multiple of `size` from `base` on, which
    /// leaves the region inside the first `2 * size - 1` bytes reserved.
    ///
    /// The reservation is refused as `OutOfMemory` when `base` is zero (no
    /// buffer) or when the aligned region would end outside the address space.
    pub fn from_reservation(mem: Vec<u8>, base: usize, size: BlockSize) -> (r: BlockResult)
        requires
            is_pow2(size as int),
        ensures
            r is Ok <==> base != 0 && align_up(base as int, size as int) + size <= usize::MAX,
            r matches Ok(block) ==> {
                &&& block@.wf()
                &&& block@ == (BlockView {
                    addr: align_up(base as int, size as int),
                    size: size as int,
                })
                &&& base <= block@.addr
                &&& block@.addr + size <= base + reservation_len(size as int)
            },
            r matches Err(e) ==> e == AllocError::OutOfMemory,
    {
        proof {
            reveal(is_pow2);
            lemma_align_up(base as int, size as int);
        }
        if base == 0 {
            return Err(AllocError::OutOfMemory);
        }
        let rem: usize = base % size;
        let ptr: usize = if rem == 0 {
            base
        } else {
            match base.checked_add(size - rem) {
                Some(p) => p,
                None => {
                    return Err(AllocError::OutOfMemory);
                },
            }
        };
        match ptr.checked_add(size) {
            Some(_) => Ok(Block { mem, ptr, size }),
            None => Err(AllocError::OutOfMemory),
        }
    }

    /// Gives up the block and returns the address its region had.
    pub fn into_ptr_mut(self) -> (p: BlockPtr)
        ensures
            p == self@.addr,
    {
        self.ptr
    }

    /// The number of bytes in the region.
    pub fn size(&self) -> (s: BlockSize)
        ensures
            s == self@.size,
    {
        self.size
    }

    /// The address of the first byte of the region.
    pub fn as_ptr(&self) -> (p: BlockPtr)
        ensures
            p == self@.addr,
    {
        self.ptr
    }
}

} // verus!
