//! The bytecode of the register machine: registers, instructions, and chunks
//! of instructions with the source line of each.

use vstd::prelude::*;

verus! {

/// ID of a constant: its index in the constant section of a chunk.
pub type ConstantId = u16;

/// A register of the machine, by its number. Every number is a register, and
/// registers with one number are one register.
#[derive(Debug, Copy, Clone, Eq, PartialEq, Structural)]
pub struct Register(pub u8);

impl View for Register {
    type V = u8;

    open spec fn view(&self) -> u8 {
        self.0
    }
}

impl Register {
    /// The register with the number `r`.
    pub fn new(r: u8) -> (reg: Self)
        ensures
            reg@ == r,
    {
        Register(r)
    }

    /// The number of the register.
    pub fn num(&self) -> (n: usize)
        ensures
            n == self@,
    {
        self.0 as usize
    }

    /// The register that holds the result of a run: number 0.
    pub fn ret() -> (reg: Self)
        ensures
            reg@ == 0,
    {
        Register(0)
    }
}

/// An instruction of the machine.
#[derive(Debug, Clone, Copy, PartialEq, Eq, Structural)]
pub enum BcInstr {
    Ret,
    Neg { dest: Register, a: Register },
    Add { dest: Register, a: Register, b: Register },
    Sub { dest: Register, a: Register, b: Register },
    Mul { dest: Register, a: Register, b: Register },
    Div { dest: Register, a: Register, b: Register },
    LoadConst { dest: Register, id: ConstantId },
}

/// A run of instructions that come from one source line.
#[derive(Debug)]
struct RLELine {
    line: usize,
    count: usize,
}

/// The source line of each instruction that the runs stand for, in order:
/// each run gives its line as often as it counts.
spec fn run_lines(runs: Seq<(usize, usize)>) -> Seq<usize>
    decreases runs.len(),
{
    if runs.len() == 0 {
        Seq::empty()
    } else {
        run_lines(runs.drop_last()) + Seq::new(runs.last().1 as nat, |i: int| runs.last().0)
    }
}

/// The index of the first constant equal to `v`; the number of constants
/// where none is.
pub open spec fn position(constants: Seq<u64>, from: int, v: u64) -> int
    decreases constants.len() - from,
{
    if from < 0 || from >= constants.len() {
        constants.len() as int
    } else if constants[from] == v {
        from
    } else {
        position(constants, from + 1, v)
    }
}

/// The lines of the runs up to a run are the first of the lines of all runs.
proof fn lemma_run_lines_prefix(runs: Seq<(usize, usize)>, n: int)
    requires
        0 <= n <= runs.len(),
    ensures
        run_lines(runs.take(n)).len() <= run_lines(runs).len(),
        run_lines(runs.take(n)) == run_lines(runs).take(run_lines(runs.take(n)).len() as int),
    decreases runs.len() - n,
{
    if n == runs.len() {
        assert(runs.take(n) =~= runs);
        assert(run_lines(runs) =~= run_lines(runs).take(run_lines(runs).len() as int));
    } else {
        lemma_run_lines_prefix(runs, n + 1);
        assert(runs.take(n + 1).drop_last() =~= runs.take(n));
        let longer = run_lines(runs.take(n + 1));
        let shorter = run_lines(runs.take(n));
        assert(shorter =~= longer.take(shorter.len() as int));
        assert(shorter =~= run_lines(runs).take(shorter.len() as int));
    }
}

/// What a [`Chunk`] stands for in contracts.
pub struct ChunkView {
    /// The instructions, in the order they were written.
    pub code: Seq<BcInstr>,
    /// The source line of each instruction.
    pub lines: Seq<usize>,
    /// The constants, each as the 64 bits of its value.
    pub constants: Seq<u64>,
}

/// A sequence of instructions, the source line of each, and the constants
/// they load.
pub struct Chunk {
    code: Vec<BcInstr>,
    lines: Vec<RLELine>,
    constants: Vec<u64>,
}

impl View for Chunk {
    type V = ChunkView;

    closed spec fn view(&self) -> ChunkView {
        ChunkView {
            code: self.code@,
            lines: run_lines(self.runs()),
            constants: self.constants@,
        }
    }
}

impl Chunk {
    /// The runs of source lines, each as its line and its count.
    closed spec fn runs(&self) -> Seq<(usize, usize)> {
        Seq::new(self.lines@.len(), |i: int| (self.lines@[i].line, self.lines@[i].count))
    }

    /// Every instruction has its source line.
    pub open spec fn wf(&self) -> bool {
        self@.lines.len() == self@.code.len()
    }

    /// A chunk without instructions or constants.
    pub fn new() -> (chunk: Self)
        ensures
            chunk.wf(),
            chunk@.code.len() == 0,
            chunk@.lines.len() == 0,
            chunk@.constants.len() == 0,
    {
        let chunk = Chunk { code: Vec::new(), lines: Vec::new(), constants: Vec::new() };
        assert(chunk.runs() =~= Seq::empty());
        chunk
    }

    /// The ID of the constant with the bits `v`: that of the first constant
    /// with these bits, or of a new one behind the others where there is
    /// none. An ID is an index cut down to 16 bits.
    pub fn add_constant(&mut self, v: u64) -> (id: ConstantId)
        ensures
            final(self)@.code == old(self)@.code,
            final(self)@.lines == old(self)@.lines,
            final(self)@.constants == if position(old(self)@.constants, 0, v) < old(
                self,
            )@.constants.len() {
                old(self)@.constants
            } else {
                old(self)@.constants.push(v)
            },
            id == position(old(self)@.constants, 0, v) as u16,
    {
        let mut i: usize = 0;
        while i < self.constants.len()
            invariant
                i <= self.constants.len(),
                *self == *old(self),
                position(self@.constants, 0, v) == position(self@.constants, i as int, v),
            decreases self.constants.len() - i,
        {
            if self.constants[i] == v {
                return #[verifier::truncate] (i as ConstantId);
            }
            i = i + 1;
        }
        self.push_constant(v)
    }

    /// Puts a constant with the bits `v` behind the others, whether one
    /// with these bits is there or not, and returns its ID.
    pub fn push_constant(&mut self, v: u64) -> (id: ConstantId)
        ensures
            final(self)@.code == old(self)@.code,
            final(self)@.lines == old(self)@.lines,
            final(self)@.constants == old(self)@.constants.push(v),
            id == old(self)@.constants.len() as u16,
    {
        self.constants.push(v);
        assert(self.runs() =~= old(self).runs());
        #[verifier::truncate] ((self.constants.len() - 1) as ConstantId)
    }

    /// Appends `instr`, which comes from the source line `line`.
    pub fn write(&mut self, instr: BcInstr, line: usize)
        requires
            old(self).wf(),
        ensures
            final(self).wf(),
            final(self)@.code == old(self)@.code.push(instr),
            final(self)@.lines == old(self)@.lines.push(line),
            final(self)@.constants == old(self)@.constants,
    {
        let ghost before = self.runs();
        self.code.push(instr);
        let runs: usize = self.lines.len();
        if runs > 0 && self.lines[runs - 1].line == line {
            let count: usize = self.lines[runs - 1].count;
            assert(old(self)@.lines.len() == run_lines(before.drop_last()).len() + count);
            assert(self.code.len() == self.code@.len());
            self.lines[runs - 1].count = count + 1;
            proof {
                assert(self.runs().drop_last() =~= before.drop_last());
                assert(self@.lines =~= old(self)@.lines.push(line));
            }
            return ;
        }
        self.lines.push(RLELine { line, count: 1 });
        proof {
            assert(self.runs().drop_last() =~= before);
            assert(self@.lines =~= old(self)@.lines.push(line));
        }
    }

    /// Drops the instructions and their lines. The constants stay.
    pub fn clear(&mut self)
        ensures
            final(self).wf(),
            final(self)@.code.len() == 0,
            final(self)@.lines.len() == 0,
            final(self)@.constants == old(self)@.constants,
    {
        self.code.clear();
        self.lines.clear();
        assert(self.runs() =~= Seq::empty());
    }

    /// The source line of the instruction at `instr_index`.
    pub fn get_line(&self, instr_index: usize) -> (line: usize)
        requires
            self.wf(),
            instr_index < self@.code.len(),
        ensures
            line == self@.lines[instr_index as int],
    {
        let mut line_count: usize = 0;
        let mut i: usize = 0;
        while i < self.lines.len()
            invariant
                i <= self.lines.len(),
                self.wf(),
                instr_index < self@.code.len(),
                line_count == run_lines(self.runs().take(i as int)).len(),
                line_count <= instr_index,
            decreases self.lines.len() - i,
        {
            proof {
                let upto = run_lines(self.runs().take(i + 1));
                lemma_run_lines_prefix(self.runs(), i + 1);
                assert(self.runs().take(i + 1).drop_last() =~= self.runs().take(i as int));
                assert(upto.len() == line_count + self.lines@[i as int].count);
                assert(self.code.len() == self@.lines.len());
                if instr_index < upto.len() {
                    assert(upto[instr_index as int] == self.lines@[i as int].line);
                    assert(self@.lines.take(upto.len() as int)[instr_index as int]
                        == self@.lines[instr_index as int]);
                }
            }
            line_count = line_count + self.lines[i].count;
            if line_count > instr_index {
                return self.lines[i].line;
            }
            i = i + 1;
        }
        proof {
            assert(self.runs().take(i as int) =~= self.runs());
        }
        vstd::pervasive::unreached()
    }

    /// The instructions.
    pub fn instrs(&self) -> (code: &[BcInstr])
        ensures
            code@ == self@.code,
    {
        self.code.as_slice()
    }

    /// The constants, each as the 64 bits of its value, in the order of
    /// their IDs.
    pub fn constants(&self) -> (constants: &[u64])
        ensures
            constants@ == self@.constants,
    {
        self.constants.as_slice()
    }

    /// The bits of the constant with the ID `index`.
    pub fn constant(&self, index: ConstantId) -> (v: u64)
        requires
            index < self@.constants.len(),
        ensures
            v == self@.constants[index as int],
    {
        self.constants[index as usize]
    }
}

} // verus!
