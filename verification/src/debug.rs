//! Listing the instructions of a chunk.

use crate::chunk::Chunk;
use crate::chunk::LineInfo;
use crate::encoding::Decode;
use crate::opcode::OpCode;
use crate::text::decimal;
use crate::text::decimal_string;
use crate::text::filling;
use crate::text::padded_left;
use crate::text::padded_right;
use crate::text::push_filling;
use crate::text::push_padded_left;
use crate::text::push_padded_right;
use crate::text::push_str;
use vstd::prelude::*;
use vstd::string::StringExecFns;

verus! {

/// What a listing shows in the line column of an instruction.
#[derive(Debug, Clone, Copy, PartialEq, Eq, Structural)]
pub enum LineMark {
    /// The source line, for the first instruction of a line.
    Line(u32),
    /// The instruction is of the same line as the one before it.
    Same,
    /// No line run holds the instruction.
    Unknown,
}

/// One instruction of a listing.
#[derive(Debug, Clone, Copy, PartialEq, Eq, Structural)]
pub struct Row {
    pub offset: u64,
    pub mark: LineMark,
    pub op: OpCode,
}

/// The line of the first of the runs `lines`, from `from` on, that holds
/// the byte at `offset`.
pub open spec fn line_at(lines: Seq<LineInfo>, offset: int, from: int) -> Option<u32>
    decreases lines.len() - from,
{
    if from < 0 || from >= lines.len() {
        None
    } else if lines[from].covers(offset) {
        Some(lines[from].line)
    } else {
        line_at(lines, offset, from + 1)
    }
}

/// The mark of an instruction of line `line`, after an instruction of line `prev`.
pub open spec fn mark_of(line: Option<u32>, prev: u32) -> LineMark {
    match line {
        Some(l) => if l != prev {
            LineMark::Line(l)
        } else {
            LineMark::Same
        },
        None => LineMark::Unknown,
    }
}

/// The rows of the instructions of `code` from `pc` on, up to the end of
/// the code or the first bytes that are no instruction; `prev` is the line
/// that was shown last.
pub open spec fn rows_from(code: Seq<u8>, lines: Seq<LineInfo>, pc: int, prev: u32) -> Seq<Row>
    decreases code.len() - pc,
{
    if 0 <= pc < code.len() && pc <= u64::MAX {
        match OpCode::decoding(code.skip(pc)) {
            Ok((op, width)) => {
                let line = line_at(lines, pc, 0);
                let row = Row { offset: pc as u64, mark: mark_of(line, prev), op };
                let shown = match line {
                    Some(l) => l,
                    None => prev,
                };
                if 0 < width && pc + width <= code.len() {
                    seq![row] + rows_from(code, lines, pc + width, shown)
                } else {
                    seq![row]
                }
            },
            Err(_) => Seq::empty(),
        }
    } else {
        Seq::empty()
    }
}

impl OpCode {
    /// The name of the instruction in listings.
    pub open spec fn name_spec(self) -> Seq<char> {
        match self {
            OpCode::NoOp => "NOOP"@,
            OpCode::Return => "OP_RETURN"@,
            OpCode::Constant(_) => "OP_CONSTANT"@,
            OpCode::Neg => "OP_NEG"@,
            OpCode::Add => "OP_ADD"@,
            OpCode::Sub => "OP_SUB"@,
            OpCode::Mul => "OP_MUL"@,
            OpCode::Div => "OP_DIV"@,
        }
    }

    pub fn name(&self) -> (n: &'static str)
        ensures
            n@ == self.name_spec(),
    {
        match self {
            OpCode::NoOp => "NOOP",
            OpCode::Return => "OP_RETURN",
            OpCode::Constant(_) => "OP_CONSTANT",
            OpCode::Neg => "OP_NEG",
            OpCode::Add => "OP_ADD",
            OpCode::Sub => "OP_SUB",
            OpCode::Mul => "OP_MUL",
            OpCode::Div => "OP_DIV",
        }
    }
}

impl LineMark {
    /// How the mark is written: the line number, `|`, or `?`.
    pub open spec fn text(self) -> Seq<char> {
        match self {
            LineMark::Line(l) => decimal(l as nat),
            LineMark::Same => "|"@,
            LineMark::Unknown => "?"@,
        }
    }

    pub fn to_string(&self) -> (s: String)
        ensures
            s@ == self.text(),
    {
        match self {
            LineMark::Line(l) => decimal_string(*l as u64),
            LineMark::Same => String::from_str("|"),
            LineMark::Unknown => String::from_str("?"),
        }
    }
}

/// How an instruction is listed: by its name, and a `Constant` with the
/// constant, which is written as `constant`, and its index in three digits.
pub open spec fn listed(op: OpCode, constant: Seq<char>) -> Seq<char> {
    match op {
        OpCode::Constant(addr) => padded_right(op.name_spec(), 16, ' ') + " "@ + padded_right(
            constant,
            4,
            ' ',
        ) + "["@ + padded_left(decimal(addr as nat), 3, '0') + "]"@,
        _ => op.name_spec(),
    }
}

impl OpCode {
    /// How the instruction is listed, where `constant` is how the constant
    /// that it loads, if it loads one, is written.
    pub fn disassemble(&self, constant: &str) -> (s: String)
        ensures
            s@ == listed(*self, constant@),
    {
        match self {
            OpCode::Constant(addr) => {
                let mut s = String::new();
                push_padded_right(&mut s, self.name(), 16, ' ');
                push_str(&mut s, " ");
                push_padded_right(&mut s, constant, 4, ' ');
                push_str(&mut s, "[");
                let index = decimal_string(*addr as u64);
                push_padded_left(&mut s, index.as_str(), 3, '0');
                push_str(&mut s, "]");
                assert(s@ =~= listed(*self, constant@));
                s
            },
            _ => String::from_str(self.name()),
        }
    }
}

impl Row {
    /// The row as a line of a listing: the offset in four digits, the line
    /// mark, and the instruction.
    pub open spec fn text(self, constant: Seq<char>) -> Seq<char> {
        padded_left(decimal(self.offset as nat), 4, '0') + " "@ + padded_left(
            self.mark.text(),
            4,
            ' ',
        ) + " "@ + listed(self.op, constant)
    }

    pub fn to_string(&self, constant: &str) -> (s: String)
        ensures
            s@ == self.text(constant@),
    {
        let mut s = String::new();
        let offset = decimal_string(self.offset);
        push_padded_left(&mut s, offset.as_str(), 4, '0');
        push_str(&mut s, " ");
        let mark = self.mark.to_string();
        push_padded_left(&mut s, mark.as_str(), 4, ' ');
        push_str(&mut s, " ");
        let op = self.op.disassemble(constant);
        push_str(&mut s, op.as_str());
        assert(s@ =~= self.text(constant@));
        s
    }
}

/// Lists the instructions of a chunk.
pub struct Disassembler<'a> {
    pub name: &'a str,
    pub chunk: &'a Chunk,
}

impl<'a> Disassembler<'a> {
    pub fn new(chunk: &'a Chunk, name: &'a str) -> (d: Self)
        ensures
            d.chunk == chunk,
            d.name@ == name@,
    {
        Self { name, chunk }
    }

    /// The heading of the listing.
    pub fn header(&self) -> (s: String)
        ensures
            s@ == filling(' ', 6) + "== "@ + self.name@ + " =="@,
    {
        let mut s = String::new();
        push_filling(&mut s, ' ', 6);
        push_str(&mut s, "== ");
        push_str(&mut s, self.name);
        push_str(&mut s, " ==");
        assert(s@ =~= filling(' ', 6) + "== "@ + self.name@ + " =="@);
        s
    }

    /// The line of the run that holds the byte at `offset`.
    fn line(&self, offset: u64) -> (line: Option<u32>)
        ensures
            line == line_at(self.chunk.lines@, offset as int, 0),
    {
        let lines = &self.chunk.lines;
        let mut i: usize = 0;
        while i < lines.len()
            invariant
                i <= lines@.len(),
                lines@ == self.chunk.lines@,
                line_at(lines@, offset as int, i as int) == line_at(lines@, offset as int, 0),
            decreases lines@.len() - i,
        {
            let run = lines[i];
            if run.start <= offset && offset < run.end {
                return Some(run.line);
            }
            i += 1;
        }
        None
    }

    /// The row of the instruction `opcode` at `offset`, after a row of line `prev`.
    pub fn disassemble_instruction(&self, opcode: OpCode, offset: u64, prev: u32) -> (row: Row)
        ensures
            row == (Row {
                offset,
                mark: mark_of(line_at(self.chunk.lines@, offset as int, 0), prev),
                op: opcode,
            }),
    {
        let mark = match self.line(offset) {
            Some(l) => if l != prev {
                LineMark::Line(l)
            } else {
                LineMark::Same
            },
            None => LineMark::Unknown,
        };
        Row { offset, mark, op: opcode }
    }

    /// The rows of the chunk's instructions, in order, up to the end of the
    /// code or the first bytes that are no instruction.
    pub fn disassemble_chunk(&self) -> (rows: Vec<Row>)
        requires
            self.chunk.code@.len() <= u64::MAX,
        ensures
            rows@ == rows_from(self.chunk.code@, self.chunk.lines@, 0, 0),
    {
        let code = &self.chunk.code;
        let len = code.len();
        let mut rows: Vec<Row> = Vec::new();
        let mut pc: usize = 0;
        let mut prev: u32 = 0;
        let ghost goal = rows_from(code@, self.chunk.lines@, 0, 0);
        assert(rows@ + goal =~= goal);
        while pc < len
            invariant
                pc <= len,
                len == code@.len(),
                len <= u64::MAX,
                code == &self.chunk.code,
                goal == rows@ + rows_from(code@, self.chunk.lines@, pc as int, prev),
            ensures
                goal == rows@,
            decreases len - pc,
        {
            let rest = vstd::slice::slice_subrange(code.as_slice(), pc, len);
            assert(rest@ =~= code@.skip(pc as int));
            let ghost before = rows@;
            let ghost tail = rows_from(code@, self.chunk.lines@, pc as int, prev);
            match OpCode::decode(rest) {
                Ok((op, width)) => {
                    let row = self.disassemble_instruction(op, pc as u64, prev);
                    match self.line(pc as u64) {
                        Some(l) => {
                            prev = l;
                        },
                        None => {},
                    }
                    rows.push(row);
                    pc = pc + width;
                    proof {
                        let next = rows_from(code@, self.chunk.lines@, pc as int, prev);
                        assert(tail == seq![row] + next);
                        assert(before + (seq![row] + next) =~= rows@ + next);
                    }
                },
                Err(_) => {
                    assert(before + tail =~= before);
                    break ;
                },
            }
        }
        proof {
            assert(rows_from(code@, self.chunk.lines@, len as int, prev) =~= Seq::<Row>::empty());
            assert(rows@ + Seq::<Row>::empty() =~= rows@);
        }
        rows
    }
}

} // verus!
