//! The line map of a block: one bit per line, set while the line is in use.

use bit_vec::BitVec;
use vstd::prelude::*;

verus! {

/// `bit_vec::BitVec`, declared as a type whose inside is not looked into.
/// What a value holds is what [`bits`] names.
#[verifier::external_type_specification]
#[verifier::external_body]
#[verifier::reject_recursive_types(B)]
pub struct ExBitVec<B>(BitVec<B>);

/// The bits that a `BitVec` holds, in index order: as many as `BitVec::len`
/// counts, the one at `i` being what `BitVec::get` hands out for `i`. All
/// that is claimed of them is what the functions below say of the methods
/// they call.
pub uninterp spec fn bits(v: BitVec<u32>) -> Seq<bool>;

/// `BitVec::from_elem`: a vector of `len` bits, each of them `bit`.
#[verifier::external_body]
fn bits_from_elem(len: usize, bit: bool) -> (v: BitVec<u32>)
    ensures
        bits(v).len() == len,
        forall|i: int| 0 <= i < len ==> bits(v)[i] == bit,
{
    BitVec::from_elem(len, bit)
}

/// `BitVec::len`: the number of bits held.
#[verifier::external_body]
fn bits_len(v: &BitVec<u32>) -> (n: usize)
    ensures
        n == bits(*v).len(),
{
    v.len()
}

/// Indexing a `BitVec`, its `Index::index`: the bit at `i`. The index must
/// be in bounds, the outside crate panics otherwise.
#[verifier::external_body]
fn bits_index(v: &BitVec<u32>, i: usize) -> (bit: bool)
    requires
        i < bits(*v).len(),
    ensures
        bit == bits(*v)[i as int],
{
    v[i]
}

/// `BitVec::set`: the bit at `i` becomes `x` and no other bit changes. The
/// index must be in bounds, the outside crate panics otherwise.
#[verifier::external_body]
fn bits_set(v: &mut BitVec<u32>, i: usize, x: bool)
    requires
        i < bits(*old(v)).len(),
    ensures
        bits(*final(v)) == bits(*old(v)).update(i as int, x),
{
    v.set(i, x)
}

/// `BitVec::none`: whether no bit is set. A vector without bits has none
/// set.
#[verifier::external_body]
fn bits_none(v: &BitVec<u32>) -> (r: bool)
    ensures
        r == all_lines(bits(*v), false),
{
    v.none()
}

/// `BitVec::all`: whether every bit is set. In a vector without bits every
/// bit is set.
#[verifier::external_body]
fn bits_all(v: &BitVec<u32>) -> (r: bool)
    ensures
        r == all_lines(bits(*v), true),
{
    v.all()
}

/// `String::push`: `c` is appended and nothing else changes.
#[verifier::external_body]
fn string_push(s: &mut String, c: char)
    ensures
        final(s)@ == old(s)@.push(c),
{
    s.push(c)
}

/// Every line of `lines` from `start` up to, not including, `end` has the
/// occupancy `used`.
pub open spec fn range_is(lines: Seq<bool>, start: int, end: int, used: bool) -> bool {
    forall|i: int| start <= i < end ==> (#[trigger] lines[i]) == used
}

/// Every line of `lines` has the occupancy `used`.
pub open spec fn all_lines(lines: Seq<bool>, used: bool) -> bool {
    range_is(lines, 0, lines.len() as int, used)
}

/// `lines` with every line from `start` up to, not including, `end` given the
/// occupancy `used`.
pub open spec fn fill(lines: Seq<bool>, start: int, end: int, used: bool) -> Seq<bool> {
    Seq::new(
        lines.len(),
        |i: int|
            if start <= i < end {
                used
            } else {
                lines[i]
            },
    )
}

/// The first line at or after `from` whose occupancy is `used`; the number of
/// lines where there is none.
pub open spec fn next_line(lines: Seq<bool>, from: int, used: bool) -> int
    decreases lines.len() - from,
{
    if from < 0 || from >= lines.len() {
        lines.len() as int
    } else if lines[from] == used {
        from
    } else {
        next_line(lines, from + 1, used)
    }
}

/// The picture of a line map: `'1'` for a used line, `'0'` for an unused one.
pub open spec fn picture(lines: Seq<bool>) -> Seq<char> {
    Seq::new(
        lines.len(),
        |i: int|
            if lines[i] {
                '1'
            } else {
                '0'
            },
    )
}

/// What `next_line` finds is the least line from `from` on with the occupancy
/// asked for: every line before it, from `from` on, has the other occupancy,
/// and it is the number of lines exactly when no line from `from` on will do.
pub proof fn lemma_next_line(lines: Seq<bool>, from: int, used: bool)
    requires
        0 <= from <= lines.len(),
    ensures
        from <= next_line(lines, from, used) <= lines.len(),
        range_is(lines, from, next_line(lines, from, used), !used),
        next_line(lines, from, used) < lines.len() ==> lines[next_line(lines, from, used)] == used,
        next_line(lines, from, used) == lines.len() <==> range_is(
            lines,
            from,
            lines.len() as int,
            !used,
        ),
    decreases lines.len() - from,
{
    if from < lines.len() && lines[from] != used {
        lemma_next_line(lines, from + 1, used);
        let found = next_line(lines, from + 1, used);
        assert(range_is(lines, from, found, !used)) by {
            assert forall|i: int| from <= i < found implies (#[trigger] lines[i]) == !used by {
                if i > from {
                    assert(range_is(lines, from + 1, found, !used));
                }
            }
        }
        if range_is(lines, from, lines.len() as int, !used) {
            assert(range_is(lines, from + 1, lines.len() as int, !used));
        }
    } else if from < lines.len() {
        assert(lines[from] == used);
    }
}

/// A line with the occupancy asked for, at or after `from`, bounds what
/// `next_line` finds, and a run of the other occupancy is skipped whole.
pub proof fn lemma_next_line_unique(lines: Seq<bool>, from: int, used: bool, at: int)
    requires
        0 <= from <= at <= lines.len(),
        range_is(lines, from, at, !used),
        at < lines.len() ==> lines[at] == used,
    ensures
        next_line(lines, from, used) == at,
    decreases at - from,
{
    if from < at {
        assert(lines[from] == !used);
        lemma_next_line_unique(lines, from + 1, used, at);
    }
}

/// Marks the lines of a block that are in use.
pub struct LineMap(BitVec<u32>);

impl View for LineMap {
    type V = Seq<bool>;

    closed spec fn view(&self) -> Seq<bool> {
        bits(self.0)
    }
}

impl LineMap {
    /// A map of `size` lines, none of them used.
    pub fn new(size: usize) -> (map: Self)
        ensures
            map@.len() == size,
            all_lines(map@, false),
    {
        LineMap(bits_from_elem(size, false))
    }

    /// Whether the line `line` is used.
    pub fn is_used(&self, line: usize) -> (used: bool)
        requires
            line < self@.len(),
        ensures
            used == self@[line as int],
    {
        bits_index(&self.0, line)
    }

    /// Marks the line `line` as used, whatever it was.
    pub fn set_used(&mut self, line: usize)
        requires
            line < old(self)@.len(),
        ensures
            final(self)@ == old(self)@.update(line as int, true),
    {
        bits_set(&mut self.0, line, true)
    }

    /// Marks the line `line` as unused, whatever it was.
    pub fn set_unused(&mut self, line: usize)
        requires
            line < old(self)@.len(),
        ensures
            final(self)@ == old(self)@.update(line as int, false),
    {
        bits_set(&mut self.0, line, false)
    }

    /// Marks each line from `start` up to, not including, `end` as used. None
    /// of them may be used already.
    pub fn set_range_used(&mut self, start: usize, end: usize)
        requires
            start <= end <= old(self)@.len(),
            range_is(old(self)@, start as int, end as int, false),
        ensures
            final(self)@ == fill(old(self)@, start as int, end as int, true),
    {
        self.set_range(start, end, true)
    }

    /// Marks each line from `start` up to, not including, `end` as unused.
    /// All of them must be used.
    pub fn set_range_unused(&mut self, start: usize, end: usize)
        requires
            start <= end <= old(self)@.len(),
            range_is(old(self)@, start as int, end as int, true),
        ensures
            final(self)@ == fill(old(self)@, start as int, end as int, false),
    {
        self.set_range(start, end, false)
    }

    /// Gives each line from `start` up to, not including, `end` the occupancy
    /// `used`.
    fn set_range(&mut self, start: usize, end: usize, used: bool)
        requires
            start <= end <= old(self)@.len(),
        ensures
            final(self)@ == fill(old(self)@, start as int, end as int, used),
    {
        let mut line: usize = start;
        while line < end
            invariant
                start <= line <= end <= self@.len(),
                self@ == fill(old(self)@, start as int, line as int, used),
            decreases end - line,
        {
            bits_set(&mut self.0, line, used);
            line = line + 1;
            assert(self@ =~= fill(old(self)@, start as int, line as int, used));
        }
        assert(self@ =~= fill(old(self)@, start as int, end as int, used));
    }

    /// Whether no line of the block is used.
    pub fn entire_block_unused(&self) -> (r: bool)
        ensures
            r == all_lines(self@, false),
    {
        bits_none(&self.0)
    }

    /// Whether every line of the block is used.
    pub fn entire_block_used(&self) -> (r: bool)
        ensures
            r == all_lines(self@, true),
    {
        bits_all(&self.0)
    }

    /// The first used line at or after `line`, or the number of lines if
    /// there is none.
    pub fn find_next_used(&self, line: usize) -> (next: usize)
        ensures
            next == next_line(self@, line as int, true),
    {
        self.find_next(line, true)
    }

    /// The first unused line at or after `line`, or the number of lines if
    /// there is none.
    pub fn find_next_unused(&self, line: usize) -> (next: usize)
        ensures
            next == next_line(self@, line as int, false),
    {
        self.find_next(line, false)
    }

    /// The first line at or after `line` with the occupancy `used`, or the
    /// number of lines if there is none.
    fn find_next(&self, line: usize, used: bool) -> (next: usize)
        ensures
            next == next_line(self@, line as int, used),
    {
        let len: usize = self.len();
        if line >= len {
            return len;
        }
        let mut next: usize = line;
        while next < len && bits_index(&self.0, next) != used
            invariant
                line <= next <= len == self@.len(),
                next_line(self@, line as int, used) == next_line(self@, next as int, used),
            decreases len - next,
        {
            next = next + 1;
        }
        next
    }

    /// The number of lines.
    pub fn len(&self) -> (n: usize)
        ensures
            n == self@.len(),
    {
        bits_len(&self.0)
    }

    /// The map as text, a `'1'` for each used line and a `'0'` for each
    /// unused one.
    pub fn print(&self) -> (text: String)
        ensures
            text@ == picture(self@),
    {
        let len: usize = self.len();
        let mut text: String = String::new();
        let mut line: usize = 0;
        while line < len
            invariant
                line <= len == self@.len(),
                text@ == picture(self@).subrange(0, line as int),
            decreases len - line,
        {
            let c: char = if bits_index(&self.0, line) {
                '1'
            } else {
                '0'
            };
            string_push(&mut text, c);
            line = line + 1;
            assert(text@ =~= picture(self@).subrange(0, line as int));
        }
        assert(text@ =~= picture(self@));
        text
    }
}

} // verus!
