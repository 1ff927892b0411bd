//! Bump allocation in one block: a cursor moves through a run of unused
//! lines (a hole) and, where the hole ends, the next one is looked for from
//! the start of the block.
//!
//! A block counts in lines. A request names a number of lines, the pointer
//! that answers it is the block's address plus the number of the first line
//! reserved, and its size is the number of lines reserved.

use crate::immix::linemap::all_lines;
use crate::immix::linemap::fill;
use crate::immix::linemap::lemma_next_line;
use crate::immix::linemap::next_line;
use crate::immix::linemap::range_is;
use crate::immix::linemap::LineMap;
use crate::immix::memory::AllocError;
use crate::immix::memory::Block;
use crate::immix::memory::BlockView;
use crate::immix::policy::AllocationPolicy;
use vstd::arithmetic::power2::is_pow2;
use vstd::prelude::*;

verus! {

/// How much of a block is in use.
#[derive(Debug, PartialEq, Eq, Clone, Copy, Structural)]
pub enum BlockState {
    /// No line is used.
    Free,
    /// Some lines are used and some are not.
    Recyclable,
    /// Every line is used.
    Unavailable,
}

/// A pointer to managed memory: an address and a size. It owns nothing; the
/// block that issued it keeps the memory, and the pointer means something
/// only while that block lives and the lines behind it are marked as used.
///
/// What the address and the size count is for the issuer to say. A
/// [`BumpBlock`] counts lines from its first on. A list of blocks counts
/// bytes.
#[derive(Debug, PartialEq, Eq, Clone, Copy, Structural)]
pub struct ManagedPtr {
    pub inner: usize,
    pub size: usize,
}

impl ManagedPtr {
    /// The pointer with the address `inner` and the size `size`.
    pub fn new(inner: usize, size: usize) -> (ptr: ManagedPtr)
        ensures
            ptr.inner == inner,
            ptr.size == size,
    {
        ManagedPtr { inner, size }
    }

    /// `a` is one of the `size` addresses from `inner` on.
    pub open spec fn covers(self, a: int) -> bool {
        self.inner <= a < self.inner + self.size
    }

    /// No address is covered by both pointers.
    pub open spec fn disjoint(self, other: ManagedPtr) -> bool {
        forall|a: int| !(#[trigger] self.covers(a) && other.covers(a))
    }
}

/// What a [`BumpBlock`] stands for in contracts.
pub struct BumpView {
    /// The region of memory that the lines divide.
    pub mem: BlockView,
    /// The line at which the next allocation starts.
    pub cursor: int,
    /// The line at which the hole that the cursor is in was last seen to end.
    pub limit: int,
    /// Which lines are used.
    pub lines: Seq<bool>,
}

impl BumpView {
    /// The cursor is not past the limit, the limit is not past the last line,
    /// and no line from the cursor up to the limit is used. There is at least
    /// one line, and no more lines than bytes.
    pub open spec fn wf(self) -> bool {
        &&& self.mem.wf()
        &&& 0 < self.lines.len() <= self.mem.size
        &&& 0 <= self.cursor <= self.limit <= self.lines.len()
        &&& range_is(self.lines, self.cursor, self.limit, false)
    }

    /// A block over the region `mem` with `lines` lines in which nothing was
    /// allocated yet: no line is used, the cursor is at line 0 and the limit
    /// at the end.
    pub open spec fn empty(mem: BlockView, lines: int) -> BumpView {
        BumpView { mem, cursor: 0, limit: lines, lines: Seq::new(lines as nat, |i: int| false) }
    }

    /// The line at which the next allocation would start: the cursor while
    /// its hole lasts, else the first unused line of the block. It is the
    /// number of lines where the hole is exhausted and no line is unused.
    pub open spec fn hole_start(self) -> int {
        if self.cursor == self.limit {
            next_line(self.lines, 0, false)
        } else {
            self.cursor
        }
    }

    /// The line at which the hole that starts at `hole_start` ends: the next
    /// used line, or the end of the block.
    pub open spec fn hole_end(self) -> int {
        next_line(self.lines, self.hole_start(), true)
    }

    /// The line at which the hole at `hole_start` is known to end: the limit
    /// while the cursor has not met it, else the end of the hole that the
    /// search from the start of the block finds. Lines behind the limit that
    /// were given back since are not known of.
    pub open spec fn known_end(self) -> int {
        if self.cursor == self.limit {
            self.hole_end()
        } else {
            self.limit
        }
    }

    /// There is a hole to allocate from, and `n` lines fit between its start
    /// and its end.
    pub open spec fn fits(self, n: int) -> bool {
        self.hole_start() < self.lines.len() && n <= self.hole_end() - self.hole_start()
    }

    /// The pointer that a request for `n` lines is answered with, if any.
    pub open spec fn alloc_result(self, n: int) -> Option<ManagedPtr> {
        if self.fits(n) {
            Some(
                ManagedPtr {
                    inner: (self.mem.addr + self.hole_start()) as usize,
                    size: n as usize,
                },
            )
        } else {
            None
        }
    }

    /// The block after a request for `n` lines.
    ///
    /// Without a hole nothing changes. The limit moves only where the cursor
    /// has met it, to the end of the hole that the search then finds, and
    /// where the lines reserved carry the cursor past it, to the end of the
    /// hole they lie in. If the request fits, its lines are marked and the
    /// cursor moves past them.
    pub open spec fn after_alloc(self, n: int) -> BumpView {
        if self.hole_start() >= self.lines.len() {
            self
        } else if self.fits(n) {
            BumpView {
                cursor: self.hole_start() + n,
                limit: if self.hole_start() + n > self.known_end() {
                    self.hole_end()
                } else {
                    self.known_end()
                },
                lines: fill(self.lines, self.hole_start(), self.hole_start() + n, true),
                ..self
            }
        } else {
            BumpView { cursor: self.hole_start(), limit: self.known_end(), ..self }
        }
    }

    /// The number of the line that `ptr` points at.
    pub open spec fn line_of(self, ptr: ManagedPtr) -> int {
        ptr.inner - self.mem.addr
    }

    /// `ptr` covers lines of this block, all of them used.
    pub open spec fn holds(self, ptr: ManagedPtr) -> bool {
        &&& 0 <= self.line_of(ptr)
        &&& self.line_of(ptr) + ptr.size <= self.lines.len()
        &&& range_is(self.lines, self.line_of(ptr), self.line_of(ptr) + ptr.size, true)
    }

    /// The block after `ptr` was given back: its lines are unused, the cursor
    /// and the limit stay.
    pub open spec fn after_dealloc(self, ptr: ManagedPtr) -> BumpView {
        BumpView {
            lines: fill(self.lines, self.line_of(ptr), self.line_of(ptr) + ptr.size, false),
            ..self
        }
    }

    /// `ptr` covers lines of this block, none of them used.
    pub open spec fn spares(self, ptr: ManagedPtr) -> bool {
        &&& 0 <= self.line_of(ptr)
        &&& self.line_of(ptr) + ptr.size <= self.lines.len()
        &&& range_is(self.lines, self.line_of(ptr), self.line_of(ptr) + ptr.size, false)
    }

    /// The block after the lines that `ptr` covers were marked as used. The
    /// hole at the cursor is given up, since the lines may lie in it: the
    /// limit comes down to the cursor.
    pub open spec fn after_mark(self, ptr: ManagedPtr) -> BumpView {
        BumpView {
            limit: self.cursor,
            lines: fill(self.lines, self.line_of(ptr), self.line_of(ptr) + ptr.size, true),
            ..self
        }
    }

    /// The block as it was when nothing was allocated in it.
    pub open spec fn after_reset(self) -> BumpView {
        Self::empty(self.mem, self.lines.len() as int)
    }

    /// `Unavailable` when every line is used, `Free` when none is,
    /// `Recyclable` otherwise.
    pub open spec fn state(self) -> BlockState {
        if all_lines(self.lines, true) {
            BlockState::Unavailable
        } else if all_lines(self.lines, false) {
            BlockState::Free
        } else {
            BlockState::Recyclable
        }
    }
}

/// A block with its line map. Objects are allocated in its unused lines.
pub struct BumpBlock {
    cursor: usize,
    /// Where the hole at the cursor was last seen to end: a used line, or
    /// the end of the block.
    limit: usize,
    mem: Block,
    used_lines: LineMap,
}

impl View for BumpBlock {
    type V = BumpView;

    closed spec fn view(&self) -> BumpView {
        BumpView {
            mem: self.mem@,
            cursor: self.cursor as int,
            limit: self.limit as int,
            lines: self.used_lines@,
        }
    }
}

impl BumpBlock {
    /// An empty block of the sizes that the policy `A` gives: the cursor at
    /// line 0, the limit at the end, no line used.
    ///
    /// Fails as `Block::new` does: with `BadAlignment` exactly when the
    /// policy's block size is not a power of two, with `OutOfMemory` when the
    /// operating allocator refuses.
    pub fn new<A: AllocationPolicy>() -> (r: Result<Self, AllocError>)
        ensures
            !is_pow2(A::BLOCK_SIZE_BYTES as int) <==> r is Err && r->Err_0
                == AllocError::BadAlignment,
            r is Err ==> r->Err_0 == AllocError::BadAlignment || r->Err_0
                == AllocError::OutOfMemory,
            r matches Ok(block) ==> {
                &&& block@.wf()
                &&& block@.mem.size == A::BLOCK_SIZE_BYTES
                &&& block@ == BumpView::empty(block@.mem, A::LINES_PER_BLOCK as int)
                &&& block@.state() == BlockState::Free
            },
    {
        proof {
            A::sizes_divide();
            vstd::arithmetic::div_mod::lemma_div_nonincreasing(
                A::BLOCK_SIZE_BYTES as int,
                A::LINE_SIZE_BYTES as int,
            );
        }
        match Block::new(A::BLOCK_SIZE_BYTES) {
            Ok(mem) => {
                let block = BumpBlock {
                    cursor: 0,
                    limit: A::LINES_PER_BLOCK,
                    mem,
                    used_lines: LineMap::new(A::LINES_PER_BLOCK),
                };
                assert(!block@.lines[0]);
                assert(block@.lines =~= BumpView::empty(
                    block@.mem,
                    A::LINES_PER_BLOCK as int,
                ).lines);
                Ok(block)
            },
            Err(e) => Err(e),
        }
    }

    /// Marks the lines that `ptr` covers as unused, so that a later search
    /// for a hole finds them. The cursor and the limit stay where they are.
    ///
    /// `ptr` must have been issued by this block and not been given back
    /// since: the lines it covers are all used.
    pub fn inner_dealloc(&mut self, ptr: ManagedPtr)
        requires
            old(self)@.wf(),
            old(self)@.holds(ptr),
        ensures
            final(self)@.wf(),
            final(self)@ == old(self)@.after_dealloc(ptr),
            final(self)@.spares(ptr),
            forall|held: ManagedPtr| #[trigger]
                old(self)@.holds(held) && held.disjoint(ptr) ==> final(self)@.holds(held),
    {
        proof {
            assert forall|held: ManagedPtr| #[trigger]
                self@.holds(held) && held.disjoint(ptr) implies self@.after_dealloc(ptr).holds(
                held,
            ) by {
                lemma_dealloc_spares_held(self@, ptr, held);
            }
        }
        let start: usize = ptr.inner - self.mem.as_ptr();
        self.used_lines.set_range_unused(start, start + ptr.size);
    }

    /// Reserves `lines` lines at the cursor if the hole there has room for
    /// them, after moving to the first hole of the block if the current one
    /// is exhausted. `None` if there is no hole or they do not fit in it.
    ///
    /// The pointer that is handed out points at the first line reserved and
    /// has `lines` as its size. The lines it covers were unused and are used
    /// now. The cursor moves back only when its hole was exhausted.
    ///
    /// While the cursor has not met the limit, the limit stays where it is:
    /// lines behind it that were given back are found again by the search
    /// that runs when the cursor meets it. It moves, to the end of the hole,
    /// only where the lines reserved reach beyond it.
    pub fn inner_alloc(&mut self, lines: usize) -> (r: Option<ManagedPtr>)
        requires
            old(self)@.wf(),
        ensures
            final(self)@.wf(),
            final(self)@ == old(self)@.after_alloc(lines as int),
            r == old(self)@.alloc_result(lines as int),
            r matches Some(ptr) ==> {
                &&& ptr.size == lines
                &&& old(self)@.mem.contains(ptr.inner as int)
                &&& old(self)@.spares(ptr)
                &&& final(self)@.holds(ptr)
            },
            forall|held: ManagedPtr| #[trigger]
                old(self)@.holds(held) ==> final(self)@.holds(held) && (r matches Some(ptr)
                    ==> held.disjoint(ptr)),
            old(self)@.cursor != old(self)@.limit ==> {
                &&& old(self)@.cursor <= final(self)@.cursor
                &&& lines <= old(self)@.limit - old(self)@.cursor ==> r is Some
                &&& r is None ==> final(self)@.cursor == old(self)@.cursor
                &&& r is Some ==> final(self)@.cursor == old(self)@.cursor + lines
                &&& final(self)@.cursor <= old(self)@.limit ==> final(self)@.limit == old(
                    self,
                )@.limit
            },
    {
        proof {
            lemma_alloc(self@, lines as int);
            assert forall|held: ManagedPtr| #[trigger] self@.holds(held) implies self@.after_alloc(
                lines as int,
            ).holds(held) && (self@.alloc_result(lines as int) matches Some(ptr)
                ==> held.disjoint(ptr)) by {
                lemma_allocation_spares_held(self@, held, lines as int);
            }
        }
        if self.cursor == self.limit {
            match self.find_first_hole() {
                Some((hole_begin, hole_end_exclusive)) => {
                    self.cursor = hole_begin;
                    self.limit = hole_end_exclusive;
                },
                None => {
                    return None;
                },
            }
        }
        let next_used: usize = self.used_lines.find_next_used(self.cursor);
        let num_lines_available: usize = next_used - self.cursor;

        if num_lines_available >= lines {
            let block_start: usize = self.cursor;
            let block_end_exclusive: usize = block_start + lines;

            self.used_lines.set_range_used(block_start, block_end_exclusive);
            self.cursor = block_end_exclusive;
            if self.cursor > self.limit {
                // lines behind the limit were given back and are taken now:
                // the hole ends where the next used line is
                self.limit = next_used;
            }
            return Some(ManagedPtr::new(self.mem.as_ptr() + block_start, lines));
        }
        None
    }

    /// Forgets what was allocated: no line is used any more, and the block
    /// is allocated into from its start, as when it was new.
    pub fn reset(&mut self)
        requires
            old(self)@.wf(),
        ensures
            final(self)@.wf(),
            final(self)@ == old(self)@.after_reset(),
            final(self)@.state() == BlockState::Free,
    {
        let lines: usize = self.used_lines.len();
        self.used_lines = LineMap::new(lines);
        self.cursor = 0;
        self.limit = lines;
        assert(self@.lines =~= old(self)@.after_reset().lines);
        assert(!self@.lines[0]);
    }

    /// Marks the lines that `ptr` covers as used, as a collector does for an
    /// object it has reached. None of them may be used already. The next
    /// allocation looks for a hole from the start of the block.
    pub fn mark_used(&mut self, ptr: ManagedPtr)
        requires
            old(self)@.wf(),
            old(self)@.spares(ptr),
        ensures
            final(self)@.wf(),
            final(self)@ == old(self)@.after_mark(ptr),
            final(self)@.holds(ptr),
            forall|held: ManagedPtr| #[trigger]
                old(self)@.holds(held) ==> final(self)@.holds(held),
    {
        proof {
            assert forall|held: ManagedPtr| #[trigger] self@.holds(held) implies self@.after_mark(
                ptr,
            ).holds(held) by {
                assert forall|i: int|
                    self@.line_of(held) <= i < self@.line_of(held) + held.size implies #[trigger] self@.after_mark(
                    ptr,
                ).lines[i] by {
                    assert(self@.lines[i]);
                }
            }
        }
        let start: usize = ptr.inner - self.mem.as_ptr();
        self.used_lines.set_range_used(start, start + ptr.size);
        self.limit = self.cursor;
    }

    /// The state of the block: see [`BlockState`].
    pub fn get_block_state(&self) -> (state: BlockState)
        ensures
            state == self@.state(),
    {
        if self.used_lines.entire_block_used() {
            return BlockState::Unavailable;
        } else if self.used_lines.entire_block_unused() {
            return BlockState::Free;
        }
        BlockState::Recyclable
    }

    /// Whether the address of `ptr` lies in the region of this block.
    pub fn contains(&self, ptr: &ManagedPtr) -> (r: bool)
        ensures
            r == self@.mem.contains(ptr.inner as int),
    {
        let block_start: usize = self.mem.as_ptr();
        let ptr_addr: usize = ptr.inner;

        ptr_addr >= block_start && ptr_addr - block_start < self.mem.size()
    }

    /// The first hole of the block, as the line it starts at and the line it
    /// ends before. `None` if every line is used.
    pub fn find_first_hole(&self) -> (hole: Option<(usize, usize)>)
        ensures
            all_lines(self@.lines, true) <==> hole is None,
            hole matches Some((begin, end)) ==> {
                &&& begin == next_line(self@.lines, 0, false)
                &&& end == next_line(self@.lines, begin as int, true)
                &&& begin < end <= self@.lines.len()
            },
    {
        if self.used_lines.entire_block_used() {
            return None;
        }
        let hole_begin: usize = self.used_lines.find_next_unused(0);
        proof {
            lemma_next_line(self@.lines, 0, false);
            lemma_next_line(self@.lines, hole_begin as int, true);
        }
        let hole_end_exclusive: usize = self.used_lines.find_next_used(hole_begin);
        Some((hole_begin, hole_end_exclusive))
    }

    /// The line at which the next allocation starts.
    pub fn cursor(&self) -> (line: usize)
        ensures
            line == self@.cursor,
    {
        self.cursor
    }

    /// The line at which the current hole was last seen to end.
    pub fn limit(&self) -> (line: usize)
        ensures
            line == self@.limit,
    {
        self.limit
    }

    /// The memory of the block.
    pub fn mem(&self) -> (mem: &Block)
        ensures
            mem@ == self@.mem,
    {
        &self.mem
    }

    /// The line map of the block.
    pub fn used_lines(&self) -> (map: &LineMap)
        ensures
            map@ == self@.lines,
    {
        &self.used_lines
    }
}

/// What a request for `n` lines does to a well-formed block: the block stays
/// well-formed; a pointer that is issued covers lines that were unused and
/// are used afterwards, inside the block's region; and the cursor only moves
/// back when the hole it was in is exhausted.
pub proof fn lemma_alloc(block: BumpView, n: int)
    requires
        block.wf(),
        0 <= n,
    ensures
        block.after_alloc(n).wf(),
        block.after_alloc(n).mem == block.mem,
        block.after_alloc(n).lines.len() == block.lines.len(),
        block.hole_start() <= block.lines.len(),
        block.hole_start() < block.lines.len() ==> block.hole_start() < block.hole_end()
            <= block.lines.len(),
        block.hole_start() == block.lines.len() <==> block.cursor == block.limit && all_lines(
            block.lines,
            true,
        ),
        block.cursor != block.limit ==> block.cursor <= block.after_alloc(n).cursor,
        block.cursor != block.limit && block.after_alloc(n).cursor <= block.limit
            ==> block.after_alloc(n).limit == block.limit,
        block.hole_start() < block.lines.len() ==> block.hole_start() < block.known_end()
            <= block.hole_end(),
        block.alloc_result(n) matches Some(ptr) ==> {
            &&& ptr.inner == block.mem.addr + block.hole_start()
            &&& ptr.size == n
            &&& block.line_of(ptr) == block.hole_start()
            &&& block.mem.contains(ptr.inner as int)
            &&& block.spares(ptr)
            &&& block.after_alloc(n).holds(ptr)
        },
        block.alloc_result(n) is None ==> block.after_alloc(n).lines == block.lines,
{
    let start = block.hole_start();
    lemma_next_line(block.lines, 0, false);
    if start < block.lines.len() {
        lemma_next_line(block.lines, start, true);
        assert(!block.lines[start]) by {
            if block.cursor != block.limit {
                assert(range_is(block.lines, block.cursor, block.limit, false));
            }
        }
        if block.cursor != block.limit && block.hole_end() < block.limit {
            // a used line before the limit
            assert(!block.lines[block.hole_end()]);
        }
        let after = block.after_alloc(n);
        if block.fits(n) {
            assert(range_is(after.lines, after.cursor, after.limit, false)) by {
                assert forall|i: int| after.cursor <= i < after.limit implies !#[trigger] after.lines[i] by {
                    assert(!block.lines[i]);
                }
            }
        }
    }
}

/// A request never gets what a pointer of the block holds already: the
/// pointer it is answered with covers no address of a pointer whose lines
/// are used, and that pointer's lines are used afterwards as before.
pub proof fn lemma_allocation_spares_held(block: BumpView, held: ManagedPtr, n: int)
    requires
        block.wf(),
        block.holds(held),
        0 <= n,
    ensures
        block.after_alloc(n).holds(held),
        block.alloc_result(n) matches Some(ptr) ==> held.disjoint(ptr),
{
    lemma_alloc(block, n);
    let after = block.after_alloc(n);
    assert forall|i: int|
        block.line_of(held) <= i < block.line_of(held) + held.size implies #[trigger] after.lines[i] by {
        assert(block.lines[i]);
    }
    if block.alloc_result(n) is Some {
        let ptr = block.alloc_result(n)->Some_0;
        assert forall|a: int| !(#[trigger] held.covers(a) && ptr.covers(a)) by {
            if held.covers(a) && ptr.covers(a) {
                let line = a - block.mem.addr;
                assert(block.lines[line]);
                assert(!block.lines[line]);
            }
        }
    }
}

/// Giving back a pointer takes nothing from a pointer that has no address in
/// common with it: the lines of that pointer are used afterwards as before.
pub proof fn lemma_dealloc_spares_held(block: BumpView, ptr: ManagedPtr, held: ManagedPtr)
    requires
        block.holds(held),
        held.disjoint(ptr),
    ensures
        block.after_dealloc(ptr).holds(held),
{
    let after = block.after_dealloc(ptr);
    assert forall|i: int|
        block.line_of(held) <= i < block.line_of(held) + held.size implies #[trigger] after.lines[i] by {
        assert(block.lines[i]);
        assert(held.covers(block.mem.addr + i));
        assert(!ptr.covers(block.mem.addr + i));
    }
}

/// The three states tell apart the three occupancies of a block: `Free` is
/// no line used, `Unavailable` is every line used, `Recyclable` is some line
/// used and some line not.
pub proof fn lemma_state(block: BumpView)
    requires
        block.wf(),
    ensures
        block.state() == BlockState::Free <==> all_lines(block.lines, false),
        block.state() == BlockState::Unavailable <==> all_lines(block.lines, true),
        block.state() == BlockState::Recyclable <==> (exists|i: int|
            0 <= i < block.lines.len() && #[trigger] block.lines[i]) && (exists|i: int|
            0 <= i < block.lines.len() && !#[trigger] block.lines[i]),
{
    if all_lines(block.lines, true) {
        assert(block.lines[0]);
    }
    if all_lines(block.lines, false) {
        assert(!block.lines[0]);
    }
}

/// Two requests in a row that are both answered get ranges of addresses with
/// nothing in common.
pub proof fn lemma_consecutive_allocations_disjoint(block: BumpView, first: int, second: int)
    requires
        block.wf(),
        0 <= first,
        0 <= second,
        block.alloc_result(first) is Some,
        block.after_alloc(first).alloc_result(second) is Some,
    ensures
        block.alloc_result(first)->Some_0.disjoint(
            block.after_alloc(first).alloc_result(second)->Some_0,
        ),
{
    let mid = block.after_alloc(first);
    let p = block.alloc_result(first)->Some_0;
    let q = mid.alloc_result(second)->Some_0;
    lemma_alloc(block, first);
    lemma_alloc(mid, second);
    assert forall|a: int| !(#[trigger] p.covers(a) && q.covers(a)) by {
        if p.covers(a) && q.covers(a) {
            let line = a - mid.mem.addr;
            assert(mid.lines[line]);
            assert(!mid.lines[line]);
        }
    }
}

/// Giving back at once what a request was answered with leaves every line as
/// it was before the request.
pub proof fn lemma_alloc_then_dealloc(block: BumpView, n: int)
    requires
        block.wf(),
        0 <= n,
        block.alloc_result(n) is Some,
    ensures
        block.after_alloc(n).holds(block.alloc_result(n)->Some_0),
        block.after_alloc(n).after_dealloc(block.alloc_result(n)->Some_0).lines == block.lines,
{
    lemma_alloc(block, n);
    let ptr = block.alloc_result(n)->Some_0;
    assert(block.after_alloc(n).after_dealloc(ptr).lines =~= block.lines);
}

} // verus!
