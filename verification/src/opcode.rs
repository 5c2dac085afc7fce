//! The instructions of the bytecode machine and their byte encoding.

use crate::encoding::Decode;
use crate::encoding::Encode;
use vstd::prelude::*;

verus! {

/// An index into a chunk's constant pool.
pub type Addr = u8;

/// One instruction: a tag byte, and for `Constant` one operand byte.
#[derive(Debug, Clone, Copy, PartialEq, Eq, Structural)]
pub enum OpCode {
    NoOp,
    Return,
    Constant(Addr),
    Neg,
    Add,
    Sub,
    Mul,
    Div,
}

/// Why bytes are no instruction.
#[derive(Debug, Clone, Copy, PartialEq, Eq, Structural)]
pub enum OpDecodeError {
    UnknownOpCode(u8),
    InsufficientBytes { needed: usize, available: usize },
}

impl OpDecodeError {
    pub fn unknown(byte: u8) -> (e: Self)
        ensures
            e == OpDecodeError::UnknownOpCode(byte),
    {
        Self::UnknownOpCode(byte)
    }

    pub fn insufficient(needed: usize, available: usize) -> (e: Self)
        ensures
            e == (OpDecodeError::InsufficientBytes { needed, available }),
    {
        Self::InsufficientBytes { needed, available }
    }
}

impl OpCode {
    /// The tag byte of the instruction.
    pub open spec fn tag(self) -> u8 {
        match self {
            OpCode::NoOp => 0x00,
            OpCode::Return => 0x01,
            OpCode::Constant(_) => 0x02,
            OpCode::Neg => 0x03,
            OpCode::Add => 0x04,
            OpCode::Sub => 0x05,
            OpCode::Mul => 0x06,
            OpCode::Div => 0x07,
        }
    }

    /// The number of bytes that the instruction takes.
    pub open spec fn width(self) -> nat {
        match self {
            OpCode::Constant(_) => 2,
            _ => 1,
        }
    }
}

impl Encode for OpCode {
    open spec fn encoding(&self) -> Seq<u8> {
        match self {
            OpCode::Constant(addr) => seq![0x02u8, *addr],
            _ => seq![self.tag()],
        }
    }

    fn encode(&self, writer: &mut Vec<u8>) -> (n: usize) {
        match self {
            OpCode::NoOp => {
                writer.push(0x00);
            },
            OpCode::Return => {
                writer.push(0x01);
            },
            OpCode::Constant(addr) => {
                writer.push(0x02);
                writer.push(*addr);
                assert(writer@ =~= old(writer)@ + self.encoding());
                return 2;
            },
            OpCode::Neg => {
                writer.push(0x03);
            },
            OpCode::Add => {
                writer.push(0x04);
            },
            OpCode::Sub => {
                writer.push(0x05);
            },
            OpCode::Mul => {
                writer.push(0x06);
            },
            OpCode::Div => {
                writer.push(0x07);
            },
        }
        assert(writer@ =~= old(writer)@ + self.encoding());
        1
    }
}

impl Decode for OpCode {
    type Err = OpDecodeError;

    open spec fn decoding(buf: Seq<u8>) -> Result<(OpCode, nat), OpDecodeError> {
        let tag = buf[0];
        if tag == 0x00 {
            Ok((OpCode::NoOp, 1))
        } else if tag == 0x01 {
            Ok((OpCode::Return, 1))
        } else if tag == 0x02 {
            if buf.len() >= 2 {
                Ok((OpCode::Constant(buf[1]), 2))
            } else {
                Err(OpDecodeError::InsufficientBytes { needed: 2, available: buf.len() as usize })
            }
        } else if tag == 0x03 {
            Ok((OpCode::Neg, 1))
        } else if tag == 0x04 {
            Ok((OpCode::Add, 1))
        } else if tag == 0x05 {
            Ok((OpCode::Sub, 1))
        } else if tag == 0x06 {
            Ok((OpCode::Mul, 1))
        } else if tag == 0x07 {
            Ok((OpCode::Div, 1))
        } else {
            Err(OpDecodeError::UnknownOpCode(tag))
        }
    }

    fn decode(buf: &[u8]) -> (r: Result<(OpCode, usize), OpDecodeError>) {
        let tag = buf[0];
        if tag == 0x00 {
            Ok((OpCode::NoOp, 1))
        } else if tag == 0x01 {
            Ok((OpCode::Return, 1))
        } else if tag == 0x02 {
            if buf.len() >= 2 {
                Ok((OpCode::Constant(buf[1]), 2))
            } else {
                Err(OpDecodeError::insufficient(2, buf.len()))
            }
        } else if tag == 0x03 {
            Ok((OpCode::Neg, 1))
        } else if tag == 0x04 {
            Ok((OpCode::Add, 1))
        } else if tag == 0x05 {
            Ok((OpCode::Sub, 1))
        } else if tag == 0x06 {
            Ok((OpCode::Mul, 1))
        } else if tag == 0x07 {
            Ok((OpCode::Div, 1))
        } else {
            Err(OpDecodeError::unknown(tag))
        }
    }
}

/// The bytes of a sequence of instructions, one after the other.
pub open spec fn encode_all(ops: Seq<OpCode>) -> Seq<u8>
    decreases ops.len(),
{
    if ops.len() == 0 {
        Seq::empty()
    } else {
        encode_all(ops.drop_last()) + ops.last().encoding()
    }
}

/// The instructions that `code` holds from offset `pc` on, or the first
/// error met on the way.
pub open spec fn decode_all(code: Seq<u8>, pc: int) -> Result<Seq<OpCode>, OpDecodeError>
    decreases code.len() - pc,
{
    if 0 <= pc < code.len() {
        match OpCode::decoding(code.skip(pc)) {
            Ok((op, n)) => {
                if 0 < n && pc + n <= code.len() {
                    match decode_all(code, pc + n) {
                        Ok(rest) => Ok(seq![op] + rest),
                        Err(e) => Err(e),
                    }
                } else {
                    Ok(seq![op])
                }
            },
            Err(e) => Err(e),
        }
    } else {
        Ok(Seq::empty())
    }
}

/// Decoding the bytes of an instruction gives the instruction back together
/// with its width, whatever follows those bytes.
pub proof fn lemma_decode_encode(op: OpCode, rest: Seq<u8>)
    ensures
        op.encoding().len() == op.width(),
        OpCode::decoding(op.encoding() + rest) == Ok::<(OpCode, nat), OpDecodeError>(
            (op, op.width()),
        ),
{
    let buf = op.encoding() + rest;
    assert(buf[0] == op.tag());
    match op {
        OpCode::Constant(addr) => {
            assert(buf[1] == addr);
        },
        _ => {},
    }
}

/// Bytes that decode to an instruction begin with the encoding of that instruction.
pub proof fn lemma_encode_decode(buf: Seq<u8>)
    requires
        buf.len() > 0,
        OpCode::decoding(buf) is Ok,
    ensures
        ({
            let (op, n) = OpCode::decoding(buf)->Ok_0;
            n == op.width() && n <= buf.len() && buf.take(n as int) == op.encoding()
        }),
{
    let (op, n) = OpCode::decoding(buf)->Ok_0;
    assert(buf.take(n as int) =~= op.encoding());
}

proof fn lemma_encode_single(op: OpCode)
    ensures
        encode_all(seq![op]) == op.encoding(),
{
    assert(seq![op].drop_last() =~= Seq::<OpCode>::empty());
    assert(encode_all(Seq::<OpCode>::empty()) =~= Seq::<u8>::empty());
    assert(encode_all(seq![op]) =~= op.encoding());
}

proof fn lemma_encode_all_prepend(op: OpCode, ops: Seq<OpCode>)
    ensures
        encode_all(seq![op] + ops) == op.encoding() + encode_all(ops),
{
    lemma_encode_all_concat(seq![op], ops);
    lemma_encode_single(op);
}

/// Decoding the bytes of a sequence of instructions from their start gives
/// the same sequence back.
pub proof fn lemma_round_trip(ops: Seq<OpCode>)
    ensures
        decode_all(encode_all(ops), 0) == Ok::<Seq<OpCode>, OpDecodeError>(ops),
    decreases ops.len(),
{
    lemma_round_trip_from(Seq::empty(), ops);
    assert(Seq::<OpCode>::empty() + ops =~= ops);
    assert(encode_all(Seq::<OpCode>::empty()) =~= Seq::<u8>::empty());
}

proof fn lemma_round_trip_from(done: Seq<OpCode>, ops: Seq<OpCode>)
    ensures
        decode_all(encode_all(done + ops), encode_all(done).len() as int) == Ok::<
            Seq<OpCode>,
            OpDecodeError,
        >(ops),
    decreases ops.len(),
{
    let code = encode_all(done + ops);
    let pc = encode_all(done).len() as int;
    lemma_encode_all_concat(done, ops);
    if ops.len() == 0 {
        assert(ops =~= Seq::<OpCode>::empty());
        assert(encode_all(ops) =~= Seq::<u8>::empty());
        assert(pc == code.len());
    } else {
        let op = ops[0];
        let rest = ops.drop_first();
        assert(ops =~= seq![op] + rest);
        lemma_encode_all_prepend(op, rest);
        assert(code =~= encode_all(done) + (op.encoding() + encode_all(rest)));
        assert(code.skip(pc) =~= op.encoding() + encode_all(rest));
        lemma_decode_encode(op, encode_all(rest));
        let done2 = done.push(op);
        assert(done2 + rest =~= done + ops);
        assert(done2 =~= done + seq![op]);
        lemma_encode_all_concat(done, seq![op]);
        lemma_encode_single(op);
        assert(encode_all(done2).len() == pc + op.width());
        lemma_round_trip_from(done2, rest);
        assert(pc + op.width() <= code.len());
        assert(decode_all(code, pc + op.width()) == Ok::<Seq<OpCode>, OpDecodeError>(rest));
    }
}

proof fn lemma_encode_all_concat(a: Seq<OpCode>, b: Seq<OpCode>)
    ensures
        encode_all(a + b) == encode_all(a) + encode_all(b),
    decreases b.len(),
{
    if b.len() == 0 {
        assert(a + b =~= a);
        assert(encode_all(a + b) =~= encode_all(a) + encode_all(b));
    } else {
        assert((a + b).drop_last() =~= a + b.drop_last());
        lemma_encode_all_concat(a, b.drop_last());
        assert(encode_all(a + b) =~= encode_all(a) + encode_all(b));
    }
}

} // verus!
