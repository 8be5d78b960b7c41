//! A byte cursor with bounded look-ahead.

use vstd::prelude::*;

verus! {

/// Mathematical model of a [`Cursor`]: the input and how much of it has been consumed.
pub struct CursorView {
    pub bytes: Seq<u8>,
    pub pos: int,
}

impl CursorView {
    /// The position never passes the end of the input.
    pub open spec fn wf(self) -> bool {
        0 <= self.pos <= self.bytes.len()
    }

    /// The byte `ahead` places after the position, if the input reaches that far.
    pub open spec fn peek(self, ahead: int) -> Option<u8> {
        if 0 <= self.pos + ahead < self.bytes.len() {
            Some(self.bytes[self.pos + ahead])
        } else {
            None
        }
    }

    /// The same input with the position moved to `pos`.
    pub open spec fn at(self, pos: int) -> CursorView {
        CursorView { bytes: self.bytes, pos }
    }
}

/// A scanning position in a byte slice, with one and two bytes of look-ahead.
pub struct Cursor<'src> {
    bytes: &'src [u8],
    pos: usize,
}

impl<'src> View for Cursor<'src> {
    type V = CursorView;

    closed spec fn view(&self) -> CursorView {
        CursorView { bytes: self.bytes@, pos: self.pos as int }
    }
}

impl<'src> Cursor<'src> {
    #[verifier::type_invariant]
    closed spec fn in_bounds(self) -> bool {
        self.pos <= self.bytes@.len()
    }

    /// A cursor at the start of `src`.
    pub fn new(src: &'src [u8]) -> (cursor: Self)
        ensures
            cursor@ == (CursorView { bytes: src@, pos: 0 }),
    {
        Cursor { bytes: src, pos: 0 }
    }

    /// Number of bytes consumed so far.
    pub fn pos(&self) -> (pos: usize)
        ensures
            pos == self@.pos,
            self@.wf(),
    {
        proof {
            use_type_invariant(self);
        }
        self.pos
    }

    /// Whether every byte has been consumed.
    pub fn is_eof(&self) -> (eof: bool)
        ensures
            eof <==> self@.pos == self@.bytes.len(),
            self@.wf(),
    {
        proof {
            use_type_invariant(self);
        }
        self.pos >= self.bytes.len()
    }

    /// The next byte, without consuming it.
    pub fn peek(&self) -> (byte: Option<u8>)
        ensures
            byte == self@.peek(0),
    {
        if self.pos < self.bytes.len() {
            Some(self.bytes[self.pos])
        } else {
            None
        }
    }

    /// The byte after the next one, without consuming anything.
    pub fn peek_next(&self) -> (byte: Option<u8>)
        ensures
            byte == self@.peek(1),
    {
        proof {
            use_type_invariant(self);
        }
        if self.pos < self.bytes.len() && self.pos + 1 < self.bytes.len() {
            Some(self.bytes[self.pos + 1])
        } else {
            None
        }
    }

    /// Consumes and returns the next byte; at the end of input nothing changes.
    pub fn advance(&mut self) -> (byte: Option<u8>)
        ensures
            byte == old(self)@.peek(0),
            final(self)@ == old(self)@.at(
                if byte is Some {
                    old(self)@.pos + 1
                } else {
                    old(self)@.pos
                },
            ),
            final(self)@.wf(),
    {
        proof {
            use_type_invariant(&*self);
        }
        if self.pos < self.bytes.len() {
            let byte = self.bytes[self.pos];
            self.pos += 1;
            Some(byte)
        } else {
            None
        }
    }

    /// Consumes the next byte if it is `byte`, and says whether it did.
    pub fn eat(&mut self, byte: u8) -> (eaten: bool)
        ensures
            eaten <==> old(self)@.peek(0) == Some(byte),
            final(self)@ == old(self)@.at(if eaten { old(self)@.pos + 1 } else { old(self)@.pos }),
            final(self)@.wf(),
    {
        proof {
            use_type_invariant(&*self);
        }
        if self.pos < self.bytes.len() && self.bytes[self.pos] == byte {
            self.pos += 1;
            true
        } else {
            false
        }
    }

    /// Consumes the longest run of bytes that `pred` accepts.
    pub fn eat_while(&mut self, pred: impl Fn(u8) -> bool)
        requires
            forall|byte: u8| call_requires(pred, (byte,)),
        ensures
            final(self)@.bytes == old(self)@.bytes,
            old(self)@.pos <= final(self)@.pos <= final(self)@.bytes.len(),
            forall|i: int|
                old(self)@.pos <= i < final(self)@.pos ==> call_ensures(
                    pred,
                    (#[trigger] final(self)@.bytes[i],),
                    true,
                ),
            final(self)@.pos < final(self)@.bytes.len() ==> call_ensures(
                pred,
                (final(self)@.bytes[final(self)@.pos],),
                false,
            ),
    {
        proof {
            use_type_invariant(&*self);
        }
        while self.pos < self.bytes.len()
            invariant
                self.bytes@ == old(self).bytes@,
                old(self).pos <= self.pos <= self.bytes@.len(),
                forall|byte: u8| call_requires(pred, (byte,)),
                forall|i: int|
                    old(self).pos <= i < self.pos ==> call_ensures(
                        pred,
                        (#[trigger] self.bytes@[i],),
                        true,
                    ),
            ensures
                self.bytes@ == old(self).bytes@,
                old(self).pos <= self.pos <= self.bytes@.len(),
                forall|i: int|
                    old(self).pos <= i < self.pos ==> call_ensures(
                        pred,
                        (#[trigger] self.bytes@[i],),
                        true,
                    ),
                self.pos < self.bytes@.len() ==> call_ensures(
                    pred,
                    (self.bytes@[self.pos as int],),
                    false,
                ),
            decreases self.bytes@.len() - self.pos,
        {
            if !pred(self.bytes[self.pos]) {
                break;
            }
            self.pos += 1;
        }
    }
}

} // verus!
