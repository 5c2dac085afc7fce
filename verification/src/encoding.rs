//! Writing instructions to bytes and reading them back.

use vstd::prelude::*;

verus! {

/// A value with a byte encoding.
pub trait Encode {
    /// The bytes that stand for the value.
    spec fn encoding(&self) -> Seq<u8>;

    /// Appends the value's bytes to `writer` and returns how many they are.
    fn encode(&self, writer: &mut Vec<u8>) -> (n: usize)
        ensures
            final(writer)@ == old(writer)@ + self.encoding(),
            n == self.encoding().len(),
    ;
}

/// A value that can be read from the front of a byte buffer.
pub trait Decode: Sized {
    type Err;

    /// The value at the front of `buf` and the number of bytes it takes, or why there is none.
    spec fn decoding(buf: Seq<u8>) -> Result<(Self, nat), Self::Err>;

    fn decode(buf: &[u8]) -> (r: Result<(Self, usize), Self::Err>)
        requires
            buf@.len() > 0,
        ensures
            match (r, Self::decoding(buf@)) {
                (Ok((value, n)), Ok((expected, width))) => value == expected && n == width && 0 < n
                    <= buf@.len(),
                (Err(e), Err(expected)) => e == expected,
                _ => false,
            },
    ;
}

/// Why reading an instruction failed.
#[derive(Debug)]
pub enum DecodeError<E> {
    OpCodeError(E),
}

/// A byte sink that takes encoded values.
pub trait OpEncoder {
    /// The bytes written so far.
    spec fn written(&self) -> Seq<u8>;

    fn encode_op<T: Encode>(&mut self, opcode: &T) -> (n: usize)
        ensures
            final(self).written() == old(self).written() + opcode.encoding(),
            n == opcode.encoding().len(),
    ;
}

impl OpEncoder for Vec<u8> {
    open spec fn written(&self) -> Seq<u8> {
        self@
    }

    fn encode_op<T: Encode>(&mut self, opcode: &T) -> (n: usize) {
        opcode.encode(self)
    }
}

/// A read position in a byte buffer.
pub trait OpDecoder {
    /// The whole buffer.
    spec fn bytes(&self) -> Seq<u8>;

    /// The offset of the next byte to read.
    spec fn position(&self) -> nat;

    /// Reads the value at the current position and moves past it; `None` at
    /// or after the end of the buffer. On an error the position stays.
    fn decode_op<T: Decode>(&mut self) -> (r: Result<Option<T>, DecodeError<T::Err>>)
        ensures
            final(self).bytes() == old(self).bytes(),
            old(self).position() >= old(self).bytes().len() ==> (r matches Ok(None)
                && final(self).position() == old(self).position()),
            old(self).position() < old(self).bytes().len() ==> match (
                r,
                T::decoding(old(self).bytes().skip(old(self).position() as int)),
            ) {
                (Ok(Some(value)), Ok((expected, width))) => value == expected
                    && final(self).position() == old(self).position() + width,
                (Err(DecodeError::OpCodeError(e)), Err(expected)) => e == expected
                    && final(self).position() == old(self).position(),
                _ => false,
            },
    ;

    fn current_position(&self) -> (p: u64)
        ensures
            p == self.position(),
    ;

    fn jump_to(&mut self, addr: u64)
        ensures
            final(self).bytes() == old(self).bytes(),
            final(self).position() == addr,
    ;

    /// Moves the position by `offset`, unless that leads before the start
    /// of the buffer or past what a position can hold.
    fn relative_jump(&mut self, offset: i64) -> (moved: bool)
        ensures
            final(self).bytes() == old(self).bytes(),
            moved == (0 <= old(self).position() + offset <= u64::MAX),
            final(self).position() == (if moved {
                (old(self).position() + offset) as nat
            } else {
                old(self).position()
            }),
    ;
}

/// A read position in a borrowed byte slice.
pub struct Cursor<'a> {
    buf: &'a [u8],
    pos: u64,
}

impl<'a> Cursor<'a> {
    pub fn new(buf: &'a [u8]) -> (c: Self)
        ensures
            c.bytes() == buf@,
            c.position() == 0,
    {
        Cursor { buf, pos: 0 }
    }
}

impl<'a> OpDecoder for Cursor<'a> {
    closed spec fn bytes(&self) -> Seq<u8> {
        self.buf@
    }

    closed spec fn position(&self) -> nat {
        self.pos as nat
    }

    fn decode_op<T: Decode>(&mut self) -> (r: Result<Option<T>, DecodeError<T::Err>>) {
        let len = self.buf.len();
        if self.pos >= len as u64 {
            return Ok(None);
        }
        let start = self.pos as usize;
        let rest = vstd::slice::slice_subrange(self.buf, start, len);
        assert(rest@ =~= self.buf@.skip(start as int));
        match T::decode(rest) {
            Ok((value, n)) => {
                self.pos = self.pos + n as u64;
                Ok(Some(value))
            },
            Err(e) => Err(DecodeError::OpCodeError(e)),
        }
    }

    fn current_position(&self) -> (p: u64) {
        self.pos
    }

    fn jump_to(&mut self, addr: u64) {
        self.pos = addr;
    }

    fn relative_jump(&mut self, offset: i64) -> (moved: bool) {
        if offset >= 0 {
            let forward = offset as u64;
            if forward <= u64::MAX - self.pos {
                self.pos = self.pos + forward;
                true
            } else {
                false
            }
        } else {
            let back = if offset == i64::MIN {
                0x8000_0000_0000_0000u64
            } else {
                (-offset) as u64
            };
            if back <= self.pos {
                self.pos = self.pos - back;
                true
            } else {
                false
            }
        }
    }
}

} // verus!
