//! A list of blocks that is asked for memory by the byte. A request goes to
//! the first block that has room for it; where none has, the list grows by
//! one block.
//!
//! The list counts in bytes and its blocks count in lines. A request is
//! rounded up to whole lines before the blocks see it, and the pointer that
//! is handed out holds the address of the first byte of the first line
//! reserved and the number of bytes asked for. On its way back a pointer is
//! turned into the line it points at and the lines that cover its bytes.

use crate::immix::bump_alloc::lemma_alloc;
use crate::immix::bump_alloc::lemma_allocation_spares_held;
use crate::immix::bump_alloc::lemma_dealloc_spares_held;
use crate::immix::bump_alloc::BlockState;
use crate::immix::bump_alloc::BumpBlock;
use crate::immix::bump_alloc::BumpView;
use crate::immix::bump_alloc::ManagedPtr;
use crate::immix::linemap::lemma_next_line_unique;
use crate::immix::memory::is_aligned;
use crate::immix::memory::AllocError;
use crate::immix::policy::AllocationPolicy;
use std::marker::PhantomData;
use vstd::arithmetic::div_mod::lemma_fundamental_div_mod;
use vstd::arithmetic::div_mod::lemma_fundamental_div_mod_converse;
use vstd::arithmetic::power2::is_pow2;
use vstd::prelude::*;

verus! {

/// The number of whole lines of `line_size` bytes that cover `bytes` bytes.
pub open spec fn lines_needed(bytes: int, line_size: int) -> int {
    if bytes % line_size == 0 {
        bytes / line_size
    } else {
        bytes / line_size + 1
    }
}

/// `lines_needed` is the least number of lines that cover the bytes.
pub proof fn lemma_lines_needed(bytes: int, line_size: int)
    requires
        0 <= bytes,
        0 < line_size,
    ensures
        0 <= lines_needed(bytes, line_size) <= bytes,
        bytes <= lines_needed(bytes, line_size) * line_size < bytes + line_size,
{
    lemma_fundamental_div_mod(bytes, line_size);
    let q = bytes / line_size;
    let r = bytes % line_size;
    assert(0 <= q <= bytes) by (nonlinear_arith)
        requires
            bytes == line_size * q + r,
            0 <= r < line_size,
            0 <= bytes,
    ;
    assert((q + 1) * line_size == line_size * q + line_size) by (nonlinear_arith);
    assert(q * line_size == line_size * q) by (nonlinear_arith);
    if r != 0 {
        assert(q < bytes) by (nonlinear_arith)
            requires
                bytes == line_size * q + r,
                0 < r < line_size,
                0 <= q,
        ;
    }
}

/// The first block from `from` on in which `n` lines fit; the number of
/// blocks where there is none.
pub open spec fn first_fit(blocks: Seq<BumpView>, from: int, n: int) -> int
    decreases blocks.len() - from,
{
    if from < 0 || from >= blocks.len() {
        blocks.len() as int
    } else if blocks[from].fits(n) {
        from
    } else {
        first_fit(blocks, from + 1, n)
    }
}

/// The first block from `from` on whose region holds the address `addr`; the
/// number of blocks where there is none.
pub open spec fn owner(blocks: Seq<BumpView>, from: int, addr: int) -> int
    decreases blocks.len() - from,
{
    if from < 0 || from >= blocks.len() {
        blocks.len() as int
    } else if blocks[from].mem.contains(addr) {
        from
    } else {
        owner(blocks, from + 1, addr)
    }
}

/// The blocks after a request for `n` lines was put to them in turn: every
/// block up to and including the first that it fits has answered it, the
/// blocks behind that one were not asked.
pub open spec fn after_first_fit(blocks: Seq<BumpView>, n: int) -> Seq<BumpView> {
    Seq::new(
        blocks.len(),
        |i: int|
            if i <= first_fit(blocks, 0, n) {
                blocks[i].after_alloc(n)
            } else {
                blocks[i]
            },
    )
}

/// The block that `first_fit` names is the first, from `from` on, that the
/// lines fit in.
pub proof fn lemma_first_fit(blocks: Seq<BumpView>, from: int, n: int)
    requires
        0 <= from <= blocks.len(),
    ensures
        from <= first_fit(blocks, from, n) <= blocks.len(),
        forall|i: int| from <= i < first_fit(blocks, from, n) ==> !(#[trigger] blocks[i]).fits(n),
        first_fit(blocks, from, n) < blocks.len() ==> blocks[first_fit(blocks, from, n)].fits(n),
    decreases blocks.len() - from,
{
    if from < blocks.len() && !blocks[from].fits(n) {
        lemma_first_fit(blocks, from + 1, n);
    }
}

/// A block that the lines fit in, with none before it from `from` on that
/// they fit in, is the one that `first_fit` names.
pub proof fn lemma_first_fit_is(blocks: Seq<BumpView>, from: int, n: int, at: int)
    requires
        0 <= from <= at <= blocks.len(),
        forall|i: int| from <= i < at ==> !(#[trigger] blocks[i]).fits(n),
        at < blocks.len() ==> blocks[at].fits(n),
    ensures
        first_fit(blocks, from, n) == at,
    decreases at - from,
{
    if from < at {
        assert(!blocks[from].fits(n));
        lemma_first_fit_is(blocks, from + 1, n, at);
    }
}

/// The block that `owner` names is the first, from `from` on, whose region
/// holds the address.
pub proof fn lemma_owner(blocks: Seq<BumpView>, from: int, addr: int)
    requires
        0 <= from <= blocks.len(),
    ensures
        from <= owner(blocks, from, addr) <= blocks.len(),
        forall|i: int|
            from <= i < owner(blocks, from, addr) ==> !(#[trigger] blocks[i]).mem.contains(addr),
        owner(blocks, from, addr) < blocks.len() ==> blocks[owner(blocks, from, addr)].mem.contains(
            addr,
        ),
    decreases blocks.len() - from,
{
    if from < blocks.len() && !blocks[from].mem.contains(addr) {
        lemma_owner(blocks, from + 1, addr);
    }
}

/// A block whose region holds the address, with none before it from `from`
/// on that does, is the one that `owner` names.
pub proof fn lemma_owner_is(blocks: Seq<BumpView>, from: int, addr: int, at: int)
    requires
        0 <= from <= at <= blocks.len(),
        forall|i: int| from <= i < at ==> !(#[trigger] blocks[i]).mem.contains(addr),
        at < blocks.len() ==> blocks[at].mem.contains(addr),
    ensures
        owner(blocks, from, addr) == at,
    decreases at - from,
{
    if from < at {
        assert(!blocks[from].mem.contains(addr));
        lemma_owner_is(blocks, from + 1, addr, at);
    }
}

/// Who owns an address is a matter of the regions of the blocks alone, and
/// blocks that join behind the others take nothing from them.
pub proof fn lemma_owner_keeps(before: Seq<BumpView>, after: Seq<BumpView>, from: int, addr: int)
    requires
        0 <= from,
        before.len() <= after.len(),
        forall|i: int| 0 <= i < before.len() ==> (#[trigger] after[i]).mem == before[i].mem,
        owner(before, from, addr) < before.len(),
    ensures
        owner(after, from, addr) == owner(before, from, addr),
    decreases before.len() - from,
{
    if from < before.len() {
        assert(after[from].mem == before[from].mem);
        if !before[from].mem.contains(addr) {
            lemma_owner_keeps(before, after, from + 1, addr);
        }
    }
}

/// The blocks that were allocated, oldest first.
pub struct BlockList<A: AllocationPolicy> {
    blocks: Vec<BumpBlock>,
    policy: PhantomData<A>,
}

impl<A: AllocationPolicy> View for BlockList<A> {
    type V = Seq<BumpView>;

    closed spec fn view(&self) -> Seq<BumpView> {
        Seq::new(self.blocks@.len(), |i: int| self.blocks@[i]@)
    }
}

impl<A: AllocationPolicy> BlockList<A> {
    /// `block` has the sizes of the policy.
    pub open spec fn sized(block: BumpView) -> bool {
        &&& block.wf()
        &&& block.mem.size == A::BLOCK_SIZE_BYTES
        &&& block.lines.len() == A::LINES_PER_BLOCK
    }

    /// `block` has the sizes of the policy, and nothing was allocated in it
    /// yet.
    pub open spec fn fresh(block: BumpView) -> bool {
        &&& block.mem.wf()
        &&& block.mem.size == A::BLOCK_SIZE_BYTES
        &&& block == BumpView::empty(block.mem, A::LINES_PER_BLOCK as int)
    }

    /// The lines that cover `bytes` bytes are more than a block has.
    pub open spec fn too_large(bytes: usize) -> bool {
        lines_needed(bytes as int, A::LINE_SIZE_BYTES as int) > A::LINES_PER_BLOCK
    }

    /// Every block is well-formed and has the sizes of the policy, and no two
    /// blocks start at the same address.
    pub open spec fn valid(blocks: Seq<BumpView>) -> bool {
        &&& forall|i: int| 0 <= i < blocks.len() ==> Self::sized(#[trigger] blocks[i])
        &&& forall|i: int, j: int|
            0 <= i < j < blocks.len() ==> (#[trigger] blocks[i]).mem.addr != (
            #[trigger] blocks[j]).mem.addr
    }

    /// The blocks of the list are valid: see [`BlockList::valid`].
    pub open spec fn wf(&self) -> bool {
        Self::valid(self@)
    }

    /// The pointer that the list hands out for `bytes` bytes from the line
    /// `line` of `block` on: the address of the first byte of that line, and
    /// the number of bytes.
    pub open spec fn at_line(block: BumpView, line: int, bytes: usize) -> ManagedPtr {
        ManagedPtr {
            inner: (block.mem.addr + line * (A::LINE_SIZE_BYTES as int)) as usize,
            size: bytes,
        }
    }

    /// `ptr` points at the first byte of a line of `block`.
    pub open spec fn starts_line(block: BumpView, ptr: ManagedPtr) -> bool {
        &&& block.mem.contains(ptr.inner as int)
        &&& (ptr.inner - block.mem.addr) % (A::LINE_SIZE_BYTES as int) == 0
    }

    /// What a pointer of the list is to `block`, which counts in lines: the
    /// line that its address lies in, and the lines that cover its bytes.
    pub open spec fn in_lines(block: BumpView, ptr: ManagedPtr) -> ManagedPtr {
        ManagedPtr {
            inner: (block.mem.addr + (ptr.inner - block.mem.addr) / (
            A::LINE_SIZE_BYTES as int)) as usize,
            size: lines_needed(ptr.size as int, A::LINE_SIZE_BYTES as int) as usize,
        }
    }

    /// `ptr` points at the first byte of a line of `block`, and the lines
    /// that cover its bytes are lines of `block`.
    pub open spec fn within(block: BumpView, ptr: ManagedPtr) -> bool {
        &&& Self::starts_line(block, ptr)
        &&& block.line_of(Self::in_lines(block, ptr)) + Self::in_lines(block, ptr).size
            <= block.lines.len()
    }

    /// `ptr` points at the first byte of a line of one of the blocks, and
    /// the lines of that block which cover the bytes of `ptr` are all used.
    pub open spec fn owned(blocks: Seq<BumpView>, ptr: ManagedPtr) -> bool {
        let k = owner(blocks, 0, ptr.inner as int);
        &&& k < blocks.len()
        &&& Self::starts_line(blocks[k], ptr)
        &&& blocks[k].holds(Self::in_lines(blocks[k], ptr))
    }

    /// `ptr` points at the first byte of a line of one of the blocks, and
    /// the lines of that block which cover the bytes of `ptr` are all
    /// unused.
    pub open spec fn spared(blocks: Seq<BumpView>, ptr: ManagedPtr) -> bool {
        let k = owner(blocks, 0, ptr.inner as int);
        &&& k < blocks.len()
        &&& Self::starts_line(blocks[k], ptr)
        &&& blocks[k].spares(Self::in_lines(blocks[k], ptr))
    }

    /// The list owns `ptr`: see [`BlockList::owned`].
    pub open spec fn owns(&self, ptr: ManagedPtr) -> bool {
        Self::owned(self@, ptr)
    }

    /// The list has the lines of `ptr` to spare: see [`BlockList::spared`].
    pub open spec fn spares(&self, ptr: ManagedPtr) -> bool {
        Self::spared(self@, ptr)
    }

    /// The number of whole lines that cover `bytes` bytes.
    pub fn lines_for(bytes: usize) -> (lines: usize)
        ensures
            lines == lines_needed(bytes as int, A::LINE_SIZE_BYTES as int),
            lines <= bytes,
    {
        proof {
            A::sizes_divide();
            lemma_lines_needed(bytes as int, A::LINE_SIZE_BYTES as int);
        }
        if bytes % A::LINE_SIZE_BYTES == 0 {
            bytes / A::LINE_SIZE_BYTES
        } else {
            bytes / A::LINE_SIZE_BYTES + 1
        }
    }

    /// A list without blocks.
    pub fn new() -> (list: Self)
        ensures
            list@.len() == 0,
            list.wf(),
    {
        BlockList { blocks: Vec::new(), policy: PhantomData }
    }

    /// Allocates `bytes` bytes in the first block that has room for the lines
    /// that cover them, or in a new block if none has.
    ///
    /// A request that is larger than a whole block is `ObjectTooLarge` and
    /// leaves the list as it is. Any other request is put to the blocks in
    /// turn, as [`BlockList::alloc_in_blocks`] does. A new block is asked for
    /// only when none of them has room; whether there is one to be had is for
    /// the operating allocator to say, and what follows from its answer is
    /// what [`BlockList::alloc_in_new_block`] states.
    pub fn allocate(&mut self, bytes: usize) -> (r: Result<ManagedPtr, AllocError>)
        requires
            old(self).wf(),
        ensures
            final(self).wf(),
            Self::too_large(bytes) <==> r == Err::<ManagedPtr, AllocError>(
                AllocError::ObjectTooLarge,
            ),
            Self::too_large(bytes) ==> final(self)@ == old(self)@,
            ({
                let n = lines_needed(bytes as int, A::LINE_SIZE_BYTES as int);
                let k = first_fit(old(self)@, 0, n);
                let asked = after_first_fit(old(self)@, n);
                &&& !Self::too_large(bytes) && k < old(self)@.len() ==> {
                    &&& final(self)@ == asked
                    &&& r == Ok::<ManagedPtr, AllocError>(
                        Self::at_line(old(self)@[k], old(self)@[k].hole_start(), bytes),
                    )
                }
                &&& !Self::too_large(bytes) && k == old(self)@.len() ==> match r {
                    Ok(ptr) => {
                        &&& final(self)@.len() == k + 1
                        &&& final(self)@.drop_last() == asked
                        &&& final(self)@.last() == BumpView::empty(
                            final(self)@.last().mem,
                            A::LINES_PER_BLOCK as int,
                        ).after_alloc(n)
                        &&& ptr == Self::at_line(final(self)@.last(), 0, bytes)
                    },
                    Err(e) => {
                        &&& final(self)@ == asked
                        &&& e == AllocError::OutOfMemory || e == AllocError::BadAlignment
                        &&& e == AllocError::BadAlignment <==> !is_pow2(
                            A::BLOCK_SIZE_BYTES as int,
                        )
                    },
                }
            }),
            r matches Ok(ptr) ==> ptr.size == bytes && final(self).owns(ptr),
            forall|held: ManagedPtr| #[trigger]
                old(self).owns(held) ==> final(self).owns(held) && (r matches Ok(ptr)
                    ==> held.disjoint(ptr)),
    {
        let lines: usize = Self::lines_for(bytes);
        if lines > A::LINES_PER_BLOCK {
            return Err(AllocError::ObjectTooLarge);
        }
        match self.alloc_in_blocks(bytes) {
            Some(ptr) => Ok(ptr),
            None => {
                let ghost asked = self@;
                let fresh = BumpBlock::new::<A>();
                let r = self.alloc_in_new_block(fresh, bytes);
                proof {
                    if r is Ok {
                        assert(self@.drop_last() =~= asked);
                    }
                }
                r
            },
        }
    }

    /// Puts a request for `bytes` bytes to the blocks of the list in turn,
    /// until one has room for the lines that cover them. `None` if none has.
    pub fn alloc_in_blocks(&mut self, bytes: usize) -> (r: Option<ManagedPtr>)
        requires
            old(self).wf(),
        ensures
            final(self).wf(),
            ({
                let n = lines_needed(bytes as int, A::LINE_SIZE_BYTES as int);
                let k = first_fit(old(self)@, 0, n);
                &&& final(self)@ == after_first_fit(old(self)@, n)
                &&& k == old(self)@.len() <==> r is None
                &&& r is Some ==> r == Some(
                    Self::at_line(old(self)@[k], old(self)@[k].hole_start(), bytes),
                )
            }),
            r matches Some(ptr) ==> final(self).owns(ptr),
            forall|held: ManagedPtr| #[trigger]
                old(self).owns(held) ==> final(self).owns(held) && (r matches Some(ptr)
                    ==> held.disjoint(ptr)),
    {
        let lines: usize = Self::lines_for(bytes);
        let ghost n = lines as int;
        let mut i: usize = 0;
        while i < self.blocks.len()
            invariant
                i <= self.blocks.len(),
                self@.len() == old(self)@.len(),
                old(self).wf(),
                self.wf(),
                n == lines_needed(bytes as int, A::LINE_SIZE_BYTES as int),
                n == lines,
                forall|j: int| 0 <= j < i ==> !(#[trigger] old(self)@[j]).fits(n),
                forall|j: int| 0 <= j < i ==> self@[j] == (#[trigger] old(self)@[j]).after_alloc(n),
                forall|j: int| i <= j < self@.len() ==> self@[j] == #[trigger] old(self)@[j],
            decreases self.blocks.len() - i,
        {
            let ghost before = self@;
            let ghost block = before[i as int];
            proof {
                assert(Self::sized(block));
                lemma_alloc(block, n);
            }
            let answer = self.blocks[i].inner_alloc(lines);
            proof {
                self.lemma_block_changed(before, i as int);
            }
            match answer {
                Some(ptr) => {
                    proof {
                        lemma_first_fit_is(old(self)@, 0, n, i as int);
                        assert(self@ =~= after_first_fit(old(self)@, n));
                        Self::lemma_at_line(block, block.hole_start(), bytes);
                        let handed = Self::at_line(block, block.hole_start(), bytes);
                        self.lemma_owner_is_unique(i as int, handed.inner as int);
                        assert forall|held: ManagedPtr| #[trigger]
                            old(self).owns(held) implies self.owns(held) && held.disjoint(
                            handed,
                        ) by {
                            Self::lemma_request_keeps_owned(old(self)@, self@, n, held);
                            if owner(old(self)@, 0, held.inner as int) == i {
                                lemma_allocation_spares_held(
                                    block,
                                    Self::in_lines(block, held),
                                    n,
                                );
                            }
                            Self::lemma_apart(self@, held, handed);
                        }
                    }
                    let base: usize = self.blocks[i].mem().as_ptr();
                    let line: usize = ptr.inner - base;
                    return Some(ManagedPtr::new(base + line * A::LINE_SIZE_BYTES, bytes));
                },
                None => {},
            }
            i = i + 1;
        }
        proof {
            lemma_first_fit_is(old(self)@, 0, n, old(self)@.len() as int);
            assert(self@ =~= after_first_fit(old(self)@, n));
            assert forall|held: ManagedPtr| #[trigger] old(self).owns(held) implies self.owns(
                held,
            ) by {
                Self::lemma_request_keeps_owned(old(self)@, self@, n, held);
            }
        }
        None
    }

    /// Takes the answer of a request for a new block. A block that was had
    /// joins the list, behind the others, and `bytes` bytes are allocated at
    /// its start. No block, or one that starts where a block of the list
    /// starts already, leaves the list as it is: the first hands on the
    /// reason it came with, the second is `OutOfMemory`.
    pub fn alloc_in_new_block(
        &mut self,
        fresh: Result<BumpBlock, AllocError>,
        bytes: usize,
    ) -> (r: Result<ManagedPtr, AllocError>)
        requires
            old(self).wf(),
            fresh matches Ok(block) ==> Self::fresh(block@),
            !Self::too_large(bytes),
        ensures
            final(self).wf(),
            fresh matches Err(e) ==> r == Err::<ManagedPtr, AllocError>(e) && final(self)@ == old(
                self,
            )@,
            fresh matches Ok(block) ==> {
                if exists|i: int|
                    0 <= i < old(self)@.len() && (#[trigger] old(self)@[i]).mem.addr
                        == block@.mem.addr {
                    &&& r == Err::<ManagedPtr, AllocError>(AllocError::OutOfMemory)
                    &&& final(self)@ == old(self)@
                } else {
                    &&& r == Ok::<ManagedPtr, AllocError>(Self::at_line(block@, 0, bytes))
                    &&& final(self)@ == old(self)@.push(
                        block@.after_alloc(lines_needed(bytes as int, A::LINE_SIZE_BYTES as int)),
                    )
                    &&& final(self).owns(r->Ok_0)
                }
            },
            forall|held: ManagedPtr| #[trigger]
                old(self).owns(held) ==> final(self).owns(held) && (r matches Ok(ptr)
                    ==> held.disjoint(ptr)),
    {
        let mut block = match fresh {
            Ok(block) => block,
            Err(e) => {
                return Err(e);
            },
        };
        let mut i: usize = 0;
        while i < self.blocks.len()
            invariant
                i <= self.blocks.len(),
                self@ == old(self)@,
                self.wf(),
                fresh is Ok,
                fresh->Ok_0@ == block@,
                forall|j: int| 0 <= j < i ==> (#[trigger] self@[j]).mem.addr != block@.mem.addr,
            decreases self.blocks.len() - i,
        {
            if self.blocks[i].mem().as_ptr() == block.mem().as_ptr() {
                assert(self@[i as int].mem.addr == block@.mem.addr);
                return Err(AllocError::OutOfMemory);
            }
            i = i + 1;
        }
        let lines: usize = Self::lines_for(bytes);
        let base: usize = block.mem().as_ptr();
        let ghost empty = block@;
        proof {
            A::sizes_divide();
            assert(!empty.lines[0]);
            lemma_alloc(empty, lines as int);
            lemma_next_line_unique(empty.lines, 0, true, empty.lines.len() as int);
            Self::lemma_at_line(empty, 0, bytes);
        }
        // the block is empty, so the lines are reserved at its start

        block.inner_alloc(lines);
        let ghost before = self@;
        self.blocks.push(block);
        proof {
            assert(self@ =~= before.push(empty.after_alloc(lines as int)));
            assert(Self::sized(self@[before.len() as int]));
            self.lemma_owner_is_unique(before.len() as int, base as int);
            let handed = Self::at_line(empty, 0, bytes);
            assert forall|held: ManagedPtr| #[trigger] old(self).owns(held) implies self.owns(
                held,
            ) && held.disjoint(handed) by {
                Self::lemma_request_keeps_owned(before, self@, lines as int, held);
                Self::lemma_apart(self@, held, handed);
            }
        }
        Ok(ManagedPtr::new(base, bytes))
    }

    /// Gives back what `ptr` points at: the lines that cover its bytes are
    /// marked as unused in the block whose region holds its address, and in
    /// no other.
    ///
    /// `ptr` must be owned by a block of the list: this list issued it, and
    /// it has not been given back since.
    pub fn dealloc(&mut self, ptr: ManagedPtr)
        requires
            old(self).wf(),
            old(self).owns(ptr),
        ensures
            final(self).wf(),
            ({
                let k = owner(old(self)@, 0, ptr.inner as int);
                &&& final(self)@ == old(self)@.update(
                    k,
                    old(self)@[k].after_dealloc(Self::in_lines(old(self)@[k], ptr)),
                )
                &&& forall|i: int|
                    0 <= i < old(self)@.len() && i != k ==> final(self)@[i] == #[trigger] old(
                        self,
                    )@[i]
            }),
            final(self).spares(ptr),
            forall|held: ManagedPtr| #[trigger]
                old(self).owns(held) && held.disjoint(ptr) ==> final(self).owns(held),
    {
        let k: usize = self.find_owner(&ptr);
        let ghost before = self@;
        assert(Self::sized(before[k as int]));
        let inner: ManagedPtr = Self::to_lines(&self.blocks[k], &ptr);
        self.blocks[k].inner_dealloc(inner);
        proof {
            self.lemma_block_changed(before, k as int);
            self.lemma_owner_is_unique(k as int, ptr.inner as int);
            assert forall|held: ManagedPtr| #[trigger]
                old(self).owns(held) && held.disjoint(ptr) implies self.owns(held) by {
                lemma_owner(before, 0, held.inner as int);
                lemma_owner_keeps(before, self@, 0, held.inner as int);
                if owner(before, 0, held.inner as int) == k {
                    Self::lemma_bytes_apart_lines_apart(before[k as int], held, ptr);
                    lemma_dealloc_spares_held(
                        before[k as int],
                        inner,
                        Self::in_lines(before[k as int], held),
                    );
                }
            }
        }
    }

    /// Forgets what was allocated in any block: see [`BumpBlock::reset`].
    pub fn reset(&mut self)
        requires
            old(self).wf(),
        ensures
            final(self).wf(),
            final(self)@.len() == old(self)@.len(),
            forall|i: int|
                0 <= i < old(self)@.len() ==> final(self)@[i] == (#[trigger] old(
                    self,
                )@[i]).after_reset(),
    {
        let mut i: usize = 0;
        while i < self.blocks.len()
            invariant
                i <= self.blocks.len(),
                self@.len() == old(self)@.len(),
                old(self).wf(),
                self.wf(),
                forall|j: int| 0 <= j < i ==> self@[j] == (#[trigger] old(self)@[j]).after_reset(),
                forall|j: int| i <= j < self@.len() ==> self@[j] == #[trigger] old(self)@[j],
            decreases self.blocks.len() - i,
        {
            let ghost before = self@;
            assert(Self::sized(before[i as int]));
            self.blocks[i].reset();
            proof {
                self.lemma_block_changed(before, i as int);
            }
            i = i + 1;
        }
    }

    /// Marks the lines that cover the bytes of `ptr` as used, in the block
    /// whose region holds its address and in no other: see
    /// [`BumpBlock::mark_used`].
    ///
    /// `ptr` must point at the first byte of a line of a block of the list,
    /// and none of the lines may be used already.
    pub fn mark_used(&mut self, ptr: ManagedPtr)
        requires
            old(self).wf(),
            old(self).spares(ptr),
        ensures
            final(self).wf(),
            ({
                let k = owner(old(self)@, 0, ptr.inner as int);
                &&& final(self)@ == old(self)@.update(
                    k,
                    old(self)@[k].after_mark(Self::in_lines(old(self)@[k], ptr)),
                )
                &&& forall|i: int|
                    0 <= i < old(self)@.len() && i != k ==> final(self)@[i] == #[trigger] old(
                        self,
                    )@[i]
            }),
            final(self).owns(ptr),
            forall|held: ManagedPtr| #[trigger] old(self).owns(held) ==> final(self).owns(held),
    {
        let k: usize = self.find_owner(&ptr);
        let ghost before = self@;
        assert(Self::sized(before[k as int]));
        let inner: ManagedPtr = Self::to_lines(&self.blocks[k], &ptr);
        self.blocks[k].mark_used(inner);
        proof {
            self.lemma_block_changed(before, k as int);
            self.lemma_owner_is_unique(k as int, ptr.inner as int);
            assert forall|held: ManagedPtr| #[trigger] old(self).owns(held) implies self.owns(
                held,
            ) by {
                lemma_owner(before, 0, held.inner as int);
                lemma_owner_keeps(before, self@, 0, held.inner as int);
                if owner(before, 0, held.inner as int) == k {
                    assert(before[k as int].holds(Self::in_lines(before[k as int], held)));
                }
            }
        }
    }

    /// The state of each block, oldest first: see
    /// [`BumpBlock::get_block_state`].
    pub fn block_states(&self) -> (states: Vec<BlockState>)
        ensures
            states@.len() == self@.len(),
            forall|i: int| 0 <= i < self@.len() ==> states@[i] == (#[trigger] self@[i]).state(),
    {
        let mut states: Vec<BlockState> = Vec::new();
        let mut i: usize = 0;
        while i < self.blocks.len()
            invariant
                i <= self.blocks.len(),
                states@.len() == i,
                forall|j: int| 0 <= j < i ==> states@[j] == (#[trigger] self@[j]).state(),
            decreases self.blocks.len() - i,
        {
            states.push(self.blocks[i].get_block_state());
            i = i + 1;
        }
        states
    }

    /// The blocks of the list, oldest first.
    pub fn blocks(&self) -> (blocks: &Vec<BumpBlock>)
        ensures
            blocks@.len() == self@.len(),
            forall|i: int| 0 <= i < self@.len() ==> (#[trigger] blocks@[i])@ == self@[i],
    {
        &self.blocks
    }

    /// The first block whose region holds the address of `ptr`. There must
    /// be one.
    fn find_owner(&self, ptr: &ManagedPtr) -> (k: usize)
        requires
            owner(self@, 0, ptr.inner as int) < self@.len(),
        ensures
            k == owner(self@, 0, ptr.inner as int),
            k < self.blocks@.len(),
    {
        let mut i: usize = 0;
        while i < self.blocks.len()
            invariant
                i <= self.blocks.len(),
                owner(self@, 0, ptr.inner as int) < self@.len(),
                forall|j: int| 0 <= j < i ==> !(#[trigger] self@[j]).mem.contains(ptr.inner as int),
            decreases self.blocks.len() - i,
        {
            if self.blocks[i].contains(ptr) {
                proof {
                    lemma_owner_is(self@, 0, ptr.inner as int, i as int);
                }
                return i;
            }
            i = i + 1;
        }
        proof {
            lemma_owner(self@, 0, ptr.inner as int);
        }
        vstd::pervasive::unreached()
    }

    /// What `ptr` is to `block`: see [`BlockList::in_lines`].
    fn to_lines(block: &BumpBlock, ptr: &ManagedPtr) -> (inner: ManagedPtr)
        requires
            Self::sized(block@),
            block@.mem.contains(ptr.inner as int),
        ensures
            inner == Self::in_lines(block@, *ptr),
    {
        proof {
            A::sizes_divide();
            lemma_lines_needed(ptr.size as int, A::LINE_SIZE_BYTES as int);
            vstd::arithmetic::div_mod::lemma_div_nonincreasing(
                ptr.inner - block@.mem.addr,
                A::LINE_SIZE_BYTES as int,
            );
        }
        let base: usize = block.mem().as_ptr();
        ManagedPtr::new(base + (ptr.inner - base) / A::LINE_SIZE_BYTES, Self::lines_for(ptr.size))
    }

    /// After a change to the block at `at` that leaves its region and the
    /// number of its lines alone, the list is the one before with that block
    /// replaced, and is well-formed as before.
    proof fn lemma_block_changed(&self, before: Seq<BumpView>, at: int)
        requires
            0 <= at < before.len(),
            self.blocks@.len() == before.len(),
            forall|i: int| 0 <= i < before.len() && i != at ==> self.blocks@[i]@ == before[i],
            forall|i: int| 0 <= i < before.len() ==> Self::sized(#[trigger] before[i]),
            forall|i: int, j: int|
                0 <= i < j < before.len() ==> (#[trigger] before[i]).mem.addr != (
                #[trigger] before[j]).mem.addr,
            self.blocks@[at]@.wf(),
            self.blocks@[at]@.mem == before[at].mem,
            self.blocks@[at]@.lines.len() == before[at].lines.len(),
        ensures
            self@ == before.update(at, self.blocks@[at]@),
            self.wf(),
    {
        assert(self@ =~= before.update(at, self.blocks@[at]@));
        assert forall|i: int| 0 <= i < self@.len() implies Self::sized(#[trigger] self@[i]) by {
            assert(Self::sized(before[i]));
        }
        assert forall|i: int, j: int| 0 <= i < j < self@.len() implies (
        #[trigger] self@[i]).mem.addr != (#[trigger] self@[j]).mem.addr by {
            assert(before[i].mem.addr != before[j].mem.addr);
        }
    }

    /// In a well-formed list an address lies in the region of one block at
    /// most: the block that holds it is its owner.
    pub proof fn lemma_owner_is_unique(&self, at: int, addr: int)
        requires
            self.wf(),
            0 <= at < self@.len(),
            self@[at].mem.contains(addr),
        ensures
            owner(self@, 0, addr) == at,
    {
        assert(Self::sized(self@[at]));
        assert forall|i: int| 0 <= i < at implies !(#[trigger] self@[i]).mem.contains(addr) by {
            assert(Self::sized(self@[i]));
            if self@[i].mem.contains(addr) {
                lemma_aligned_regions_apart(
                    self@[i].mem.addr,
                    self@[at].mem.addr,
                    A::BLOCK_SIZE_BYTES as int,
                    addr,
                );
            }
        }
        lemma_owner_is(self@, 0, addr, at);
    }

    /// Every byte that a pointer of the list covers lies in the region of
    /// the block, in a line that the pointer covers as the block sees it.
    pub proof fn lemma_bytes_in_lines(block: BumpView, ptr: ManagedPtr, a: int)
        requires
            Self::sized(block),
            Self::within(block, ptr),
            ptr.covers(a),
        ensures
            block.mem.contains(a),
            Self::in_lines(block, ptr).covers(
                block.mem.addr + (a - block.mem.addr) / (A::LINE_SIZE_BYTES as int),
            ),
    {
        A::sizes_divide();
        let size = A::LINE_SIZE_BYTES as int;
        let count = A::LINES_PER_BLOCK as int;
        let first = (ptr.inner - block.mem.addr) / size;
        let n = lines_needed(ptr.size as int, size);
        let at = a - block.mem.addr;
        lemma_lines_needed(ptr.size as int, size);
        lemma_fundamental_div_mod(A::BLOCK_SIZE_BYTES as int, size);
        lemma_fundamental_div_mod(ptr.inner - block.mem.addr, size);
        lemma_fundamental_div_mod(at, size);
        assert(0 <= first <= ptr.inner - block.mem.addr) by (nonlinear_arith)
            requires
                ptr.inner - block.mem.addr == size * first,
                0 <= ptr.inner - block.mem.addr,
                0 < size,
        ;
        assert((first + n) * size <= size * count) by (nonlinear_arith)
            requires
                first + n <= count,
                0 < size,
        ;
        assert((first + n) * size == size * first + n * size) by (nonlinear_arith);
        assert(first <= at / size < first + n) by (nonlinear_arith)
            requires
                size * first <= at < size * first + n * size,
                at == size * (at / size) + at % size,
                0 <= at % size < size,
                0 < size,
        ;
    }

    /// Two pointers that start lines of one block and have no byte in common
    /// have no line in common either, as the block sees them.
    pub proof fn lemma_bytes_apart_lines_apart(block: BumpView, x: ManagedPtr, y: ManagedPtr)
        requires
            Self::sized(block),
            Self::within(block, x),
            Self::within(block, y),
            x.disjoint(y),
        ensures
            Self::in_lines(block, x).disjoint(Self::in_lines(block, y)),
    {
        A::sizes_divide();
        let size = A::LINE_SIZE_BYTES as int;
        let base = block.mem.addr;
        let xl = (x.inner - base) / size;
        let yl = (y.inner - base) / size;
        let xn = lines_needed(x.size as int, size);
        let yn = lines_needed(y.size as int, size);
        lemma_lines_needed(x.size as int, size);
        lemma_lines_needed(y.size as int, size);
        lemma_fundamental_div_mod(x.inner - base, size);
        lemma_fundamental_div_mod(y.inner - base, size);
        assert(0 <= xl <= x.inner - base) by (nonlinear_arith)
            requires
                x.inner - base == size * xl,
                0 <= x.inner - base,
                0 < size,
        ;
        assert(0 <= yl <= y.inner - base) by (nonlinear_arith)
            requires
                y.inner - base == size * yl,
                0 <= y.inner - base,
                0 < size,
        ;
        let p = Self::in_lines(block, x);
        let q = Self::in_lines(block, y);
        assert forall|t: int| !(#[trigger] p.covers(t) && q.covers(t)) by {
            if p.covers(t) && q.covers(t) {
                // the later of the two first lines is a line of both
                let l = if xl <= yl {
                    yl
                } else {
                    xl
                };
                let a = base + size * l;
                assert(xl <= l < xl + xn && yl <= l < yl + yn);
                assert(size * xl <= size * l <= size * xl + (xn - 1) * size) by (nonlinear_arith)
                    requires
                        xl <= l <= xl + xn - 1,
                        0 < size,
                ;
                assert(size * yl <= size * l <= size * yl + (yn - 1) * size) by (nonlinear_arith)
                    requires
                        yl <= l <= yl + yn - 1,
                        0 < size,
                ;
                assert((xn - 1) * size == xn * size - size) by (nonlinear_arith);
                assert((yn - 1) * size == yn * size - size) by (nonlinear_arith);
                assert(x.covers(a));
                assert(y.covers(a));
            }
        }
    }

    /// Two pointers of the list that lie in different blocks, or in lines of
    /// one block that have none in common, have no byte in common.
    pub proof fn lemma_apart(blocks: Seq<BumpView>, x: ManagedPtr, y: ManagedPtr)
        requires
            Self::valid(blocks),
            owner(blocks, 0, x.inner as int) < blocks.len(),
            owner(blocks, 0, y.inner as int) < blocks.len(),
            Self::within(blocks[owner(blocks, 0, x.inner as int)], x),
            Self::within(blocks[owner(blocks, 0, y.inner as int)], y),
            owner(blocks, 0, x.inner as int) == owner(blocks, 0, y.inner as int) ==> Self::in_lines(
                blocks[owner(blocks, 0, x.inner as int)],
                x,
            ).disjoint(Self::in_lines(blocks[owner(blocks, 0, y.inner as int)], y)),
        ensures
            x.disjoint(y),
    {
        let kx = owner(blocks, 0, x.inner as int);
        let ky = owner(blocks, 0, y.inner as int);
        lemma_owner(blocks, 0, x.inner as int);
        lemma_owner(blocks, 0, y.inner as int);
        assert(Self::sized(blocks[kx]));
        assert(Self::sized(blocks[ky]));
        assert forall|a: int| !(#[trigger] x.covers(a) && y.covers(a)) by {
            if x.covers(a) && y.covers(a) {
                Self::lemma_bytes_in_lines(blocks[kx], x, a);
                Self::lemma_bytes_in_lines(blocks[ky], y, a);
                if kx == ky {
                    let t = blocks[kx].mem.addr + (a - blocks[kx].mem.addr) / (
                    A::LINE_SIZE_BYTES as int);
                    assert(Self::in_lines(blocks[kx], x).covers(t));
                    assert(Self::in_lines(blocks[ky], y).covers(t));
                } else {
                    lemma_aligned_regions_apart(
                        blocks[kx].mem.addr,
                        blocks[ky].mem.addr,
                        A::BLOCK_SIZE_BYTES as int,
                        a,
                    );
                    if kx < ky {
                        assert(blocks[kx].mem.addr != blocks[ky].mem.addr);
                    } else {
                        assert(blocks[ky].mem.addr != blocks[kx].mem.addr);
                    }
                }
            }
        }
    }

    /// A request that was put to some of the blocks takes nothing from a
    /// pointer that the list owns: whether the blocks answered it or not,
    /// and whether a block has joined or not, the pointer is owned as before.
    pub proof fn lemma_request_keeps_owned(
        before: Seq<BumpView>,
        after: Seq<BumpView>,
        n: int,
        held: ManagedPtr,
    )
        requires
            Self::valid(before),
            before.len() <= after.len(),
            0 <= n,
            forall|i: int|
                0 <= i < before.len() ==> (#[trigger] after[i]) == before[i] || after[i]
                    == before[i].after_alloc(n),
            Self::owned(before, held),
        ensures
            Self::owned(after, held),
            owner(after, 0, held.inner as int) == owner(before, 0, held.inner as int),
    {
        let k = owner(before, 0, held.inner as int);
        lemma_owner(before, 0, held.inner as int);
        assert forall|i: int| 0 <= i < before.len() implies (#[trigger] after[i]).mem
            == before[i].mem by {
            assert(after[i] == before[i] || after[i] == before[i].after_alloc(n));
        }
        lemma_owner_keeps(before, after, 0, held.inner as int);
        assert(Self::sized(before[k]));
        assert(after[k] == before[k] || after[k] == before[k].after_alloc(n));
        lemma_allocation_spares_held(before[k], Self::in_lines(before[k], held), n);
    }

    /// The pointer for the line `line` of a block lies in the region of the
    /// block, at the first byte of a line, and is to the block the pointer
    /// to that line with the lines that cover its bytes.
    pub proof fn lemma_at_line(block: BumpView, line: int, bytes: usize)
        requires
            Self::sized(block),
            0 <= line < block.lines.len(),
        ensures
            Self::at_line(block, line, bytes).inner == block.mem.addr + line * (
            A::LINE_SIZE_BYTES as int),
            Self::starts_line(block, Self::at_line(block, line, bytes)),
            Self::in_lines(block, Self::at_line(block, line, bytes)) == (ManagedPtr {
                inner: (block.mem.addr + line) as usize,
                size: lines_needed(bytes as int, A::LINE_SIZE_BYTES as int) as usize,
            }),
    {
        A::sizes_divide();
        let size = A::LINE_SIZE_BYTES as int;
        let count = A::LINES_PER_BLOCK as int;
        lemma_fundamental_div_mod(A::BLOCK_SIZE_BYTES as int, size);
        assert(0 <= line * size <= size * count - size) by (nonlinear_arith)
            requires
                0 <= line < count,
                0 < size,
        ;
        lemma_fundamental_div_mod_converse(line * size, size, line, 0);
    }
}

/// Two regions of one size, each starting at a multiple of that size, have
/// an address in common only if they are the same region.
pub proof fn lemma_aligned_regions_apart(a: int, b: int, size: int, addr: int)
    requires
        0 < size,
        is_aligned(a, size),
        is_aligned(b, size),
        a <= addr < a + size,
        b <= addr < b + size,
    ensures
        a == b,
{
    lemma_fundamental_div_mod(a, size);
    lemma_fundamental_div_mod(b, size);
    let qa = a / size;
    let qb = b / size;
    assert(qa == qb) by (nonlinear_arith)
        requires
            a == size * qa,
            b == size * qb,
            a < b + size,
            b < a + size,
            0 < size,
    ;
}

} // verus!
