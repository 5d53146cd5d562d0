//! Iteration over an encoded instruction stream: a cursor that yields
//! decoded instructions while tracking its byte offset, and that jumps can
//! reposition.

use vstd::prelude::*;

use crate::checker::jump_target;
use crate::instruction::{decode_at, spec_decode, Error, Instruction, Offset};

verus! {

/// An encoded instruction stream: the body bytes of one function.
#[derive(Debug, Clone, PartialEq, Eq)]
pub struct InstructionSequence {
    pub bytes: Vec<u8>,
}

impl InstructionSequence {
    pub fn new(bytes: Vec<u8>) -> (r: InstructionSequence)
        ensures
            r.bytes == bytes,
    {
        InstructionSequence { bytes }
    }

    /// The raw bytes of the stream.
    pub fn get(&self) -> (r: &Vec<u8>)
        ensures
            r == self.bytes,
    {
        &self.bytes
    }

    /// A cursor over the stream, starting at its first byte.
    pub fn iter(&self) -> (r: InstructionIter<'_>)
        ensures
            r.bytes@ == self.bytes@,
            r.offset == 0,
    {
        InstructionIter { bytes: &self.bytes, offset: 0 }
    }
}

/// A cursor over an instruction stream. `next` decodes the instruction at
/// the current offset and advances past it; a decoding error consumes the
/// rest of the stream.
#[derive(Debug)]
pub struct InstructionIter<'a> {
    pub bytes: &'a Vec<u8>,
    pub offset: usize,
}

impl<'a> InstructionIter<'a> {
    /// The current byte offset from the start of the stream.
    pub fn offset(&self) -> (r: usize)
        ensures
            r == self.offset,
    {
        self.offset
    }

    /// The same cursor, yielding each instruction with the offset it
    /// starts at.
    pub fn with_offset(self) -> (r: OffsetInstructionIter<'a>)
        ensures
            r.iter.bytes@ == self.bytes@,
            r.iter.offset == self.offset,
    {
        OffsetInstructionIter { iter: self }
    }

    /// Decode the instruction at the cursor: `None` at the end of the
    /// stream, the instruction and an advanced cursor where it decodes,
    /// and the exact decoding error otherwise.
    pub fn next(&mut self) -> (r: Option<Result<Instruction, Error>>)
        requires
            old(self).offset <= old(self).bytes@.len(),
        ensures
            final(self).bytes == old(self).bytes,
            final(self).offset <= final(self).bytes@.len(),
            match r {
                Option::None => old(self).offset == old(self).bytes@.len() && final(self).offset
                    == old(self).offset,
                Option::Some(Ok(ins)) => spec_decode(old(self).bytes@, old(self).offset as int)
                    == Ok::<(Instruction, int), Error>((ins, final(self).offset as int)),
                Option::Some(Err(e)) => spec_decode(old(self).bytes@, old(self).offset as int)
                    == Err::<(Instruction, int), Error>(e) && final(self).offset == final(self).bytes@.len(),
            },
    {
        let n = self.bytes.len();
        if self.offset >= n {
            return None;
        }
        match decode_at(self.bytes, self.offset) {
            Ok((ins, next)) => {
                self.offset = next;
                Some(Ok(ins))
            },
            Err(e) => {
                self.offset = n;
                Some(Err(e))
            },
        }
    }

    /// Move the cursor by a jump offset; out of range is an error and
    /// leaves the cursor in place.
    pub fn jump(&mut self, offset: Offset) -> (r: core::result::Result<(), ()>)
        requires
            old(self).offset <= old(self).bytes@.len(),
        ensures
            final(self).bytes == old(self).bytes,
            match r {
                Ok(()) => final(self).offset as int == jump_target(
                    old(self).offset as int,
                    offset,
                ) && final(self).offset <= final(self).bytes@.len(),
                Err(()) => final(self).offset == old(self).offset && !(0 <= jump_target(
                    old(self).offset as int,
                    offset,
                ) <= old(self).bytes@.len()),
            },
    {
        let n = self.bytes.len();
        match offset {
            Offset::Forward(k) => {
                if k <= n - self.offset {
                    self.offset = self.offset + k;
                    Ok(())
                } else {
                    Err(())
                }
            },
            Offset::Backward(k) => {
                if k <= self.offset {
                    self.offset = self.offset - k;
                    Ok(())
                } else {
                    Err(())
                }
            },
        }
    }
}

/// A cursor that yields each instruction together with the byte offset it
/// starts at.
#[derive(Debug)]
pub struct OffsetInstructionIter<'a> {
    pub iter: InstructionIter<'a>,
}

impl<'a> OffsetInstructionIter<'a> {
    pub fn offset(&self) -> (r: usize)
        ensures
            r == self.iter.offset,
    {
        self.iter.offset()
    }

    pub fn jump(&mut self, offset: Offset) -> (r: core::result::Result<(), ()>)
        requires
            old(self).iter.offset <= old(self).iter.bytes@.len(),
        ensures
            final(self).iter.bytes == old(self).iter.bytes,
            match r {
                Ok(()) => final(self).iter.offset as int == jump_target(
                    old(self).iter.offset as int,
                    offset,
                ) && final(self).iter.offset <= final(self).iter.bytes@.len(),
                Err(()) => final(self).iter.offset == old(self).iter.offset,
            },
    {
        self.iter.jump(offset)
    }

    /// The offset of the next instruction and its decoding, as `next` on
    /// the underlying cursor.
    pub fn next(&mut self) -> (r: Option<(usize, Result<Instruction, Error>)>)
        requires
            old(self).iter.offset <= old(self).iter.bytes@.len(),
        ensures
            final(self).iter.bytes == old(self).iter.bytes,
            final(self).iter.offset <= final(self).iter.bytes@.len(),
            match r {
                Option::None => old(self).iter.offset == old(self).iter.bytes@.len(),
                Option::Some((off, Ok(ins))) => off == old(self).iter.offset && spec_decode(
                    old(self).iter.bytes@,
                    off as int,
                ) == Ok::<(Instruction, int), Error>((ins, final(self).iter.offset as int)),
                Option::Some((off, Err(e))) => off == old(self).iter.offset && spec_decode(
                    old(self).iter.bytes@,
                    off as int,
                ) == Err::<(Instruction, int), Error>(e),
            },
    {
        let off = self.iter.offset();
        match self.iter.next() {
            Some(res) => Some((off, res)),
            None => None,
        }
    }
}

} // verus!
