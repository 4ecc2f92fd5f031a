use vstd::prelude::*;

use crate::TerminalTrait;

verus! {

/// A control sequence of at most `M` bytes: the first `len` bytes of `buf`.
pub struct VirtualSequence<const M: usize> {
    pub buf: [u8; M],
    pub len: usize,
}

impl<const M: usize> VirtualSequence<M> {
    /// The bytes of the sequence.
    pub open spec fn bytes(&self) -> Seq<u8> {
        self.buf@.take(self.len as int)
    }
}

/// A terminal that understands virtual-terminal sequences once they are switched on.
pub trait VirtualSeq: TerminalTrait {
    fn enable(&self) -> Result<(), <Self as TerminalTrait>::Error>;
}

pub trait ReverseIndex: VirtualSeq {
    /// Moves the cursor one line up.
    fn ri(&self) -> &[u8];
}

pub trait StoreCursor: VirtualSeq {
    /// Stores the current cursor position.
    fn decsc(&self) -> &[u8];

    /// Restores the stored position; a position must have been stored before.
    fn decsr(&self) -> &[u8];
}

pub trait CursorPosition: VirtualSeq {
    /// Moves the cursor up by `lines`, at most 32767.
    fn cuu(&self, lines: u16) -> VirtualSequence<8>;

    /// Moves the cursor down by `lines`, at most 32767.
    fn cud(&self, lines: u16) -> VirtualSequence<8>;

    /// Moves the cursor forward by `chars`, at most 32767.
    fn cuf(&self, chars: u16) -> VirtualSequence<8>;

    /// Moves the cursor backward by `chars`, at most 32767.
    fn cub(&self, chars: u16) -> VirtualSequence<8>;

    /// Moves down by `lines`, at most 32767, to the start of that line.
    fn cnl(&self, lines: u16) -> VirtualSequence<8>;

    /// Moves up by `lines`, at most 32767, to the start of that line.
    fn cpl(&self, lines: u16) -> VirtualSequence<8>;

    /// Moves to column `x`, at most 32767.
    fn cha(&self, x: u16) -> VirtualSequence<8>;

    /// Moves to line `y`, at most 32767.
    fn vpa(&self, y: u16) -> VirtualSequence<8>;

    /// Moves the cursor to (`x`, `y`), each at most 32767.
    fn cup(&self, x: u16, y: u16) -> VirtualSequence<14>;

    /// The same as [`CursorPosition::cup`], in its other standard spelling.
    fn hvp(&self, x: u16, y: u16) -> VirtualSequence<14>;
}

pub trait WinAnsiEmmulation {
    fn ansisyssc(&self) -> &[u8];

    fn ansisysrc(&self) -> &[u8];
}

} // verus!
