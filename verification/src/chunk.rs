//! A unit of bytecode: instructions, constants and the lines they came from.

use crate::encoding::Encode;
use crate::encoding::OpEncoder;
use crate::object::Object;
use crate::opcode::decode_all;
use crate::opcode::encode_all;
use crate::opcode::lemma_round_trip;
use crate::opcode::Addr;
use crate::opcode::OpCode;
use crate::opcode::OpDecodeError;
use vstd::prelude::*;

verus! {

/// The most constants that a chunk holds.
pub const MAX_CONSTANTS: usize = 255;

/// A run of bytes that came from one source line: the bytes from `start` up
/// to, and not including, `end`.
#[derive(Debug, Clone, Copy, PartialEq, Eq, Structural)]
pub struct LineInfo {
    pub line: u32,
    pub start: u64,
    pub end: u64,
}

impl LineInfo {
    /// Whether the run holds the byte at `offset`.
    pub open spec fn covers(self, offset: int) -> bool {
        self.start <= offset < self.end
    }
}

/// The constant pool is full.
#[derive(Debug, Clone, Copy, PartialEq, Eq, Structural)]
pub struct TooManyConstants {}

/// The runs are in order and apart: each holds at least one byte, ends
/// where the next begins or before, and none reaches past `len`.
pub open spec fn runs_ordered(lines: Seq<LineInfo>, len: int) -> bool {
    &&& forall|i: int| 0 <= i < lines.len() ==> (#[trigger] lines[i]).start < lines[i].end <= len
    &&& forall|i: int, j: int|
        0 <= i < j < lines.len() ==> (#[trigger] lines[i]).end <= (#[trigger] lines[j]).start
}

/// The runs leave no byte below `len` out: the first begins at 0, each
/// begins where the one before it ends, and the last ends at `len`.
pub open spec fn runs_complete(lines: Seq<LineInfo>, len: int) -> bool {
    if lines.len() == 0 {
        len == 0
    } else {
        &&& lines[0].start == 0
        &&& lines.last().end == len
        &&& forall|i: int| 0 < i < lines.len() ==> (#[trigger] lines[i]).start == lines[i - 1].end
    }
}

/// The runs after bytes of line `line` were added from `start` up to `end`:
/// the last run grows if it is of that line, else a new run begins.
pub open spec fn extended(lines: Seq<LineInfo>, line: u32, start: u64, end: u64) -> Seq<LineInfo> {
    if lines.len() > 0 && lines.last().line == line {
        lines.update(lines.len() - 1, LineInfo { line, start: lines.last().start, end })
    } else {
        lines.push(LineInfo { line, start, end })
    }
}

/// Adding bytes with their line keeps the runs in order, and complete if
/// they were.
pub proof fn lemma_extended(lines: Seq<LineInfo>, line: u32, start: u64, end: u64)
    requires
        runs_ordered(lines, start as int),
        start < end,
    ensures
        runs_ordered(extended(lines, line, start, end), end as int),
        runs_complete(lines, start as int) ==> runs_complete(
            extended(lines, line, start, end),
            end as int,
        ),
{
    let after = extended(lines, line, start, end);
    assert forall|i: int| 0 <= i < after.len() implies (#[trigger] after[i]).start < after[i].end
        <= end by {
        if i < lines.len() {
            assert(lines[i].start < lines[i].end);
        }
    }
    assert forall|i: int, j: int| 0 <= i < j < after.len() implies (#[trigger] after[i]).end <= (
    #[trigger] after[j]).start by {
        if j < lines.len() {
            assert(lines[i].end <= lines[j].start);
        } else {
            assert(lines[i].start < lines[i].end <= start);
        }
    }
    if runs_complete(lines, start as int) {
        assert forall|i: int| 0 < i < after.len() implies (#[trigger] after[i]).start == after[i
            - 1].end by {
            if i < lines.len() {
                assert(lines[i].start == lines[i - 1].end);
            }
        }
    }
}

/// Ordered runs never hold one byte twice.
pub proof fn lemma_at_most_one_run(lines: Seq<LineInfo>, len: int, offset: int, i: int, j: int)
    requires
        runs_ordered(lines, len),
        0 <= i < lines.len(),
        0 <= j < lines.len(),
        lines[i].covers(offset),
        lines[j].covers(offset),
    ensures
        i == j,
{
    if i < j {
        assert(lines[i].end <= lines[j].start);
    } else if j < i {
        assert(lines[j].end <= lines[i].start);
    }
}

/// Complete runs hold every byte below `len`.
pub proof fn lemma_some_run(lines: Seq<LineInfo>, len: int, offset: int) -> (i: int)
    requires
        runs_ordered(lines, len),
        runs_complete(lines, len),
        0 <= offset < len,
    ensures
        0 <= i < lines.len(),
        lines[i].covers(offset),
{
    lemma_some_run_from(lines, len, offset, 0)
}

proof fn lemma_some_run_from(lines: Seq<LineInfo>, len: int, offset: int, from: int) -> (i: int)
    requires
        runs_ordered(lines, len),
        runs_complete(lines, len),
        0 <= offset < len,
        0 <= from < lines.len(),
        lines[from].start <= offset,
    ensures
        from <= i < lines.len(),
        lines[i].covers(offset),
    decreases lines.len() - from,
{
    if offset < lines[from].end {
        from
    } else {
        assert(from < lines.len() - 1) by {
            if from == lines.len() - 1 {
                assert(lines.last().end == len);
            }
        }
        assert(lines[from + 1].start == lines[from].end);
        lemma_some_run_from(lines, len, offset, from + 1)
    }
}

/// A compiled unit: the bytes of its instructions, its constants, and the
/// source line of each run of bytes.
pub struct Chunk {
    pub code: Vec<u8>,
    pub constants: Vec<Object>,
    pub lines: Vec<LineInfo>,
    pub label: Option<String>,
    pub written: Ghost<Seq<OpCode>>,
}

impl Default for Chunk {
    /// An empty chunk, as [`Chunk::new`] gives it.
    fn default() -> (c: Self)
        ensures
            c.wf(),
            c.lines_complete(),
            c.ops() == Seq::<OpCode>::empty(),
            c.code@.len() == 0,
            c.constants@.len() == 0,
            c.label is None,
    {
        Chunk::new()
    }
}

impl Chunk {
    /// The instructions that were written, in order.
    pub open spec fn ops(&self) -> Seq<OpCode> {
        self.written@
    }

    /// The code is the encoding of the instructions that were written, the
    /// pool is within its limit, and the line runs are in order.
    pub open spec fn wf(&self) -> bool {
        &&& self.code@ == encode_all(self.ops())
        &&& self.constants.len() <= MAX_CONSTANTS
        &&& self.code.len() <= u64::MAX
        &&& runs_ordered(self.lines@, self.code.len() as int)
    }

    /// Every byte of the code belongs to a line run.
    pub open spec fn lines_complete(&self) -> bool {
        runs_complete(self.lines@, self.code.len() as int)
    }

    /// An empty chunk.
    pub fn new() -> (c: Self)
        ensures
            c.wf(),
            c.lines_complete(),
            c.ops() == Seq::<OpCode>::empty(),
            c.code@.len() == 0,
            c.constants@.len() == 0,
            c.label is None,
    {
        Chunk {
            code: Vec::new(),
            constants: Vec::new(),
            lines: Vec::new(),
            label: None,
            written: Ghost(Seq::empty()),
        }
    }

    /// An empty chunk that is shown under the name `label`.
    pub fn with_label(label: String) -> (c: Self)
        ensures
            c.wf(),
            c.lines_complete(),
            c.ops() == Seq::<OpCode>::empty(),
            c.code@.len() == 0,
            c.constants@.len() == 0,
            c.label == Some(label),
    {
        Chunk {
            code: Vec::new(),
            constants: Vec::new(),
            lines: Vec::new(),
            label: Some(label),
            written: Ghost(Seq::empty()),
        }
    }

    /// Appends the bytes of `instruction` to the code.
    pub fn write(&mut self, instruction: OpCode)
        requires
            old(self).wf(),
        ensures
            final(self).wf(),
            final(self).ops() == old(self).ops().push(instruction),
            final(self).code@ == old(self).code@ + instruction.encoding(),
            final(self).constants == old(self).constants,
            final(self).lines == old(self).lines,
            final(self).label == old(self).label,
    {
        let ghost before = self.ops();
        self.code.encode_op(&instruction);
        proof {
            self.written@ = before.push(instruction);
            assert(self.ops().drop_last() =~= before);
        }
    }

    /// Appends the bytes of `instruction`, which came from source line
    /// `line`: the last line run grows if it is of that line, else a new run
    /// begins.
    pub fn write_with_line(&mut self, instruction: OpCode, line: u32)
        requires
            old(self).wf(),
        ensures
            final(self).wf(),
            final(self).ops() == old(self).ops().push(instruction),
            final(self).code@ == old(self).code@ + instruction.encoding(),
            final(self).constants == old(self).constants,
            final(self).label == old(self).label,
            final(self).lines@ == extended(
                old(self).lines@,
                line,
                old(self).code@.len() as u64,
                final(self).code@.len() as u64,
            ),
            old(self).lines_complete() ==> final(self).lines_complete(),
    {
        let start_offset = self.code.len() as u64;
        self.write(instruction);
        let last_byte_offset = self.code.len() as u64;
        proof {
            lemma_extended(self.lines@, line, start_offset, last_byte_offset);
        }
        self.note_line(line, start_offset, last_byte_offset);
    }

    fn note_line(&mut self, line: u32, start: u64, end: u64)
        ensures
            final(self).lines@ == extended(old(self).lines@, line, start, end),
            final(self).code == old(self).code,
            final(self).constants == old(self).constants,
            final(self).label == old(self).label,
            final(self).written == old(self).written,
    {
        let n = self.lines.len();
        if n > 0 && self.lines[n - 1].line == line {
            let first = self.lines[n - 1].start;
            self.lines.set(n - 1, LineInfo { line, start: first, end });
        } else {
            self.lines.push(LineInfo { line, start, end });
        }
    }

    /// Adds `value` to the constant pool and returns its index, or nothing
    /// changes if the pool is full.
    pub fn add_constant(&mut self, value: Object) -> (r: Result<Addr, TooManyConstants>)
        requires
            old(self).wf(),
        ensures
            final(self).wf(),
            final(self).code == old(self).code,
            final(self).lines == old(self).lines,
            final(self).ops() == old(self).ops(),
            old(self).constants@.len() < MAX_CONSTANTS ==> r == Ok::<Addr, TooManyConstants>(
                old(self).constants@.len() as u8,
            ) && final(self).constants@ == old(self).constants@.push(value),
            old(self).constants@.len() >= MAX_CONSTANTS ==> r is Err && final(self).constants@
                == old(self).constants@,
    {
        if self.constants.len() >= MAX_CONSTANTS {
            return Err(TooManyConstants {  });
        }
        let addr = self.constants.len() as u8;
        self.constants.push(value);
        Ok(addr)
    }

    /// Adds `value` to the pool and appends the instruction that loads it.
    pub fn write_constant(&mut self, value: Object) -> (r: Result<(), TooManyConstants>)
        requires
            old(self).wf(),
        ensures
            final(self).wf(),
            final(self).lines == old(self).lines,
            old(self).constants@.len() < MAX_CONSTANTS ==> r is Ok && final(self).constants@
                == old(self).constants@.push(value) && final(self).ops() == old(self).ops().push(
                OpCode::Constant(old(self).constants@.len() as u8),
            ),
            old(self).constants@.len() >= MAX_CONSTANTS ==> r is Err && final(self).constants@
                == old(self).constants@ && final(self).ops() == old(self).ops(),
    {
        match self.add_constant(value) {
            Ok(addr) => {
                self.write(OpCode::Constant(addr));
                Ok(())
            },
            Err(e) => Err(e),
        }
    }

    /// As [`Chunk::write_constant`], with the source line of the instruction.
    pub fn write_constant_with_line(&mut self, value: Object, line: u32) -> (r: Result<
        (),
        TooManyConstants,
    >)
        requires
            old(self).wf(),
        ensures
            final(self).wf(),
            old(self).constants@.len() < MAX_CONSTANTS ==> r is Ok && final(self).constants@
                == old(self).constants@.push(value) && final(self).ops() == old(self).ops().push(
                OpCode::Constant(old(self).constants@.len() as u8),
            ),
            old(self).constants@.len() >= MAX_CONSTANTS ==> r is Err && final(self).constants@
                == old(self).constants@ && final(self).ops() == old(self).ops() && final(self).lines
                == old(self).lines,
            old(self).lines_complete() ==> final(self).lines_complete(),
    {
        match self.add_constant(value) {
            Ok(addr) => {
                self.write_with_line(OpCode::Constant(addr), line);
                Ok(())
            },
            Err(e) => Err(e),
        }
    }

    /// The constant at `addr`, if there is one.
    pub fn constant(&self, addr: Addr) -> (v: Option<&Object>)
        ensures
            v == (if (addr as int) < self.constants@.len() {
                Some(&self.constants@[addr as int])
            } else {
                None
            }),
    {
        if (addr as usize) < self.constants.len() {
            Some(&self.constants[addr as usize])
        } else {
            None
        }
    }

    /// The source line of the byte at `offset`: the line of the run that
    /// holds it, if one does.
    pub fn line_of(&self, offset: u64) -> (line: Option<u32>)
        requires
            self.wf(),
        ensures
            match line {
                Some(l) => exists|i: int|
                    0 <= i < self.lines@.len() && (#[trigger] self.lines@[i]).covers(offset as int)
                        && self.lines@[i].line == l,
                None => forall|i: int|
                    0 <= i < self.lines@.len()
                        ==> !(#[trigger] self.lines@[i]).covers(offset as int),
            },
            self.lines_complete() && offset < self.code@.len() ==> line is Some,
    {
        let mut i: usize = 0;
        while i < self.lines.len()
            invariant
                i <= self.lines.len(),
                forall|j: int| 0 <= j < i ==> !(#[trigger] self.lines@[j]).covers(offset as int),
            decreases self.lines.len() - i,
        {
            let run = self.lines[i];
            if run.start <= offset && offset < run.end {
                return Some(run.line);
            }
            i += 1;
        }
        proof {
            if self.lines_complete() && offset < self.code@.len() {
                let k = lemma_some_run(self.lines@, self.code@.len() as int, offset as int);
                assert(self.lines@[k].covers(offset as int));
            }
        }
        None
    }
}

/// Decoding the code of a chunk from its start gives the instructions that
/// were written to it, in order.
pub proof fn lemma_chunk_round_trip(chunk: &Chunk)
    requires
        chunk.wf(),
    ensures
        decode_all(chunk.code@, 0) == Ok::<Seq<OpCode>, OpDecodeError>(chunk.ops()),
{
    lemma_round_trip(chunk.ops());
}

/// In a chunk whose instructions were all written with their lines, every
/// byte of the code belongs to exactly one line run.
pub proof fn lemma_line_coverage(chunk: &Chunk, offset: int)
    requires
        chunk.wf(),
        chunk.lines_complete(),
        0 <= offset < chunk.code@.len(),
    ensures
        exists|i: int|
            0 <= i < chunk.lines@.len() && (#[trigger] chunk.lines@[i]).covers(offset) && forall|
                j: int,
            |
                0 <= j < chunk.lines@.len() && (#[trigger] chunk.lines@[j]).covers(offset) ==> j
                    == i,
{
    let len = chunk.code@.len() as int;
    let i = lemma_some_run(chunk.lines@, len, offset);
    assert forall|j: int|
        0 <= j < chunk.lines@.len() && (#[trigger] chunk.lines@[j]).covers(offset) implies j
        == i by {
        lemma_at_most_one_run(chunk.lines@, len, offset, i, j);
    }
}

} // verus!
