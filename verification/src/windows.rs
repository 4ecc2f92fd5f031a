use vstd::prelude::*;

use crate::stuff::{decimal, signed_decimal, FastForwardFormat, NumberSlice};
use crate::virtkeys::VirtualSequence;

verus! {

/// The escape byte that starts every control sequence.
pub const ESC_SEQ: u8 = 0x1b;

/// A Windows console, by its standard input and output handles.
pub struct WindowsTerminal {
    input_handle: isize,
    output_handle: isize,
}

/// `ESC [`, the decimal text of `n`, then `fin`.
pub open spec fn csi_num(n: u16, fin: u8) -> Seq<u8> {
    seq![ESC_SEQ, 91u8] + decimal(n as nat) + seq![fin]
}

/// `ESC [`, the decimal text of `y`, `;`, the decimal text of `x`, then `fin`.
pub open spec fn csi_pair(y: u16, x: u16, fin: u8) -> Seq<u8> {
    seq![ESC_SEQ, 91u8] + decimal(y as nat) + seq![59u8] + decimal(x as nat) + seq![fin]
}

/// `ESC [ ?`, the two digits `d1 d2`, then `h` to switch on or `l` to switch off.
pub open spec fn csi_mode(d1: u8, d2: u8, state: bool) -> Seq<u8> {
    seq![ESC_SEQ, 91u8, 63u8, d1, d2, if state { 104u8 } else { 108u8 }]
}

/// Room for `n` more bytes in `seq`.
pub open spec fn has_room<const M: usize>(seq: &VirtualSequence<M>, n: nat) -> bool {
    seq.len <= M && M - seq.len >= n
}

fn put_byte<const M: usize>(seq: &mut VirtualSequence<M>, b: u8)
    requires
        has_room(old(seq), 1),
    ensures
        final(seq).len == old(seq).len + 1,
        final(seq).bytes() == old(seq).bytes().push(b),
{
    let i = seq.len;
    seq.buf[i] = b;
    seq.len = i + 1;
    assert(seq.bytes() =~= old(seq).bytes().push(b));
}

fn put_num<const M: usize>(seq: &mut VirtualSequence<M>, n: u16)
    requires
        has_room(old(seq), 5),
    ensures
        decimal(n as nat).len() <= 5,
        final(seq).len == old(seq).len + decimal(n as nat).len(),
        final(seq).bytes() == old(seq).bytes() + decimal(n as nat),
{
    let mut scratch = NumberSlice::<u16>::new_buf();
    let mut digits = match NumberSlice::<u16>::new(scratch.as_mut_slice()) {
        Some(d) => d,
        None => {
            proof {
                assert(false);
            }
            return ;
        },
    };
    let len = n.forward_format(&mut digits);
    let text = digits.as_slice(len);
    assert(text@ =~= decimal(n as nat));
    let mut k: usize = 0;
    while k < len
        invariant
            len == text@.len(),
            len <= 5,
            k <= len,
            seq.len == old(seq).len + k,
            has_room(old(seq), 5),
            seq.bytes() == old(seq).bytes() + text@.take(k as int),
        decreases len - k,
    {
        put_byte(seq, text[k]);
        assert(old(seq).bytes() + text@.take(k + 1) =~= (old(seq).bytes() + text@.take(
            k as int,
        )).push(text@[k as int]));
        k = k + 1;
    }
    assert(text@.take(len as int) =~= text@);
}

impl WindowsTerminal {
    /// The console behind the handles `input_handle` and `output_handle`.
    pub fn from_handles(input_handle: isize, output_handle: isize) -> (r: WindowsTerminal)
        ensures
            r.input_handle() == input_handle,
            r.output_handle() == output_handle,
    {
        WindowsTerminal { input_handle, output_handle }
    }

    pub closed spec fn input_handle(&self) -> isize {
        self.input_handle
    }

    pub closed spec fn output_handle(&self) -> isize {
        self.output_handle
    }

    fn csi_num<const M: usize>(&self, buf: &mut VirtualSequence<M>, n: u16, fin: u8)
        requires
            has_room(old(buf), 8),
        ensures
            final(buf).bytes() == old(buf).bytes() + csi_num(n, fin),
            final(buf).len <= M,
    {
        put_byte(buf, ESC_SEQ);
        put_byte(buf, 91);
        put_num(buf, n);
        put_byte(buf, fin);
        assert(buf.bytes() =~= old(buf).bytes() + csi_num(n, fin));
    }

    fn csi_pair<const M: usize>(&self, buf: &mut VirtualSequence<M>, y: u16, x: u16, fin: u8)
        requires
            has_room(old(buf), 14),
        ensures
            final(buf).bytes() == old(buf).bytes() + csi_pair(y, x, fin),
            final(buf).len <= M,
    {
        put_byte(buf, ESC_SEQ);
        put_byte(buf, 91);
        put_num(buf, y);
        put_byte(buf, 59);
        put_num(buf, x);
        put_byte(buf, fin);
        assert(buf.bytes() =~= old(buf).bytes() + csi_pair(y, x, fin));
    }

    fn esc2<const M: usize>(&self, buf: &mut VirtualSequence<M>, c: u8)
        requires
            has_room(old(buf), 2),
        ensures
            final(buf).bytes() == old(buf).bytes() + seq![ESC_SEQ, c],
            final(buf).len <= M,
    {
        put_byte(buf, ESC_SEQ);
        put_byte(buf, c);
        assert(buf.bytes() =~= old(buf).bytes() + seq![ESC_SEQ, c]);
    }

    fn csi_mode<const M: usize>(&self, buf: &mut VirtualSequence<M>, d1: u8, d2: u8, state: bool)
        requires
            has_room(old(buf), 6),
        ensures
            final(buf).bytes() == old(buf).bytes() + csi_mode(d1, d2, state),
            final(buf).len <= M,
    {
        put_byte(buf, ESC_SEQ);
        put_byte(buf, 91);
        put_byte(buf, 63);
        put_byte(buf, d1);
        put_byte(buf, d2);
        put_byte(
            buf,
            if state {
                104
            } else {
                108
            },
        );
        assert(buf.bytes() =~= old(buf).bytes() + csi_mode(d1, d2, state));
    }

    /// Reverse index, one line up: `ESC M`.
    pub fn ri<const M: usize>(&self, buf: &mut VirtualSequence<M>)
        requires
            has_room(old(buf), 2),
        ensures
            final(buf).bytes() == old(buf).bytes() + seq![ESC_SEQ, 77u8],
    {
        self.esc2(buf, 77)
    }

    /// Stores the cursor position: `ESC 7`.
    pub fn decsc<const M: usize>(&self, buf: &mut VirtualSequence<M>)
        requires
            has_room(old(buf), 2),
        ensures
            final(buf).bytes() == old(buf).bytes() + seq![ESC_SEQ, 55u8],
    {
        self.esc2(buf, 55)
    }

    /// Restores the stored cursor position: `ESC 8`.
    pub fn decsr<const M: usize>(&self, buf: &mut VirtualSequence<M>)
        requires
            has_room(old(buf), 2),
        ensures
            final(buf).bytes() == old(buf).bytes() + seq![ESC_SEQ, 56u8],
    {
        self.esc2(buf, 56)
    }

    /// Cursor up by `lines`.
    pub fn cuu<const M: usize>(&self, buf: &mut VirtualSequence<M>, lines: u16)
        requires
            lines <= 32767,
            has_room(old(buf), 8),
        ensures
            final(buf).bytes() == old(buf).bytes() + csi_num(lines, 65),
    {
        self.csi_num(buf, lines, 65)
    }

    /// Cursor down by `lines`.
    pub fn cud<const M: usize>(&self, buf: &mut VirtualSequence<M>, lines: u16)
        requires
            lines <= 32767,
            has_room(old(buf), 8),
        ensures
            final(buf).bytes() == old(buf).bytes() + csi_num(lines, 66),
    {
        self.csi_num(buf, lines, 66)
    }

    /// Cursor forward by `chars`.
    pub fn cuf<const M: usize>(&self, buf: &mut VirtualSequence<M>, chars: u16)
        requires
            chars <= 32767,
            has_room(old(buf), 8),
        ensures
            final(buf).bytes() == old(buf).bytes() + csi_num(chars, 67),
    {
        self.csi_num(buf, chars, 67)
    }

    /// Cursor backward by `chars`.
    pub fn cub<const M: usize>(&self, buf: &mut VirtualSequence<M>, chars: u16)
        requires
            chars <= 32767,
            has_room(old(buf), 8),
        ensures
            final(buf).bytes() == old(buf).bytes() + csi_num(chars, 68),
    {
        self.csi_num(buf, chars, 68)
    }

    /// Cursor to the start of the line `lines` down.
    pub fn cnl<const M: usize>(&self, buf: &mut VirtualSequence<M>, lines: u16)
        requires
            lines <= 32767,
            has_room(old(buf), 8),
        ensures
            final(buf).bytes() == old(buf).bytes() + csi_num(lines, 69),
    {
        self.csi_num(buf, lines, 69)
    }

    /// Cursor to the start of the line `lines` up.
    pub fn cpl<const M: usize>(&self, buf: &mut VirtualSequence<M>, lines: u16)
        requires
            lines <= 32767,
            has_room(old(buf), 8),
        ensures
            final(buf).bytes() == old(buf).bytes() + csi_num(lines, 70),
    {
        self.csi_num(buf, lines, 70)
    }

    /// Cursor to column `x`.
    pub fn cha<const M: usize>(&self, buf: &mut VirtualSequence<M>, x: u16)
        requires
            x <= 32767,
            has_room(old(buf), 8),
        ensures
            final(buf).bytes() == old(buf).bytes() + csi_num(x, 71),
    {
        self.csi_num(buf, x, 71)
    }

    /// Cursor to line `y`.
    pub fn vpa<const M: usize>(&self, buf: &mut VirtualSequence<M>, y: u16)
        requires
            y <= 32767,
            has_room(old(buf), 8),
        ensures
            final(buf).bytes() == old(buf).bytes() + csi_num(y, 100),
    {
        self.csi_num(buf, y, 100)
    }

    /// Cursor to (`x`, `y`): `ESC [ y ; x H`.
    pub fn cup<const M: usize>(&self, buf: &mut VirtualSequence<M>, x: u16, y: u16)
        requires
            x <= 32767,
            y <= 32767,
            has_room(old(buf), 14),
        ensures
            final(buf).bytes() == old(buf).bytes() + csi_pair(y, x, 72),
    {
        self.csi_pair(buf, y, x, 72)
    }

    /// Cursor to (`x`, `y`): `ESC [ y ; x f`.
    pub fn hvp<const M: usize>(&self, buf: &mut VirtualSequence<M>, x: u16, y: u16)
        requires
            x <= 32767,
            y <= 32767,
            has_room(old(buf), 14),
        ensures
            final(buf).bytes() == old(buf).bytes() + csi_pair(y, x, 102),
    {
        self.csi_pair(buf, y, x, 102)
    }

    /// Switches cursor blinking on or off.
    pub fn att160<const M: usize>(&self, buf: &mut VirtualSequence<M>, state: bool)
        requires
            has_room(old(buf), 6),
        ensures
            final(buf).bytes() == old(buf).bytes() + csi_mode(49, 50, state),
    {
        self.csi_mode(buf, 49, 50, state)
    }

    /// Shows or hides the cursor.
    pub fn dectcem<const M: usize>(&self, buf: &mut VirtualSequence<M>, state: bool)
        requires
            has_room(old(buf), 6),
        ensures
            final(buf).bytes() == old(buf).bytes() + csi_mode(50, 53, state),
    {
        self.csi_mode(buf, 50, 53, state)
    }

    /// Scrolls up by `lines`.
    pub fn su<const M: usize>(&self, buf: &mut VirtualSequence<M>, lines: u16)
        requires
            lines <= 32767,
            has_room(old(buf), 8),
        ensures
            final(buf).bytes() == old(buf).bytes() + csi_num(lines, 83),
    {
        self.csi_num(buf, lines, 83)
    }

    /// Scrolls down by `lines`.
    pub fn sd<const M: usize>(&self, buf: &mut VirtualSequence<M>, lines: u16)
        requires
            lines <= 32767,
            has_room(old(buf), 8),
        ensures
            final(buf).bytes() == old(buf).bytes() + csi_num(lines, 84),
    {
        self.csi_num(buf, lines, 84)
    }

    /// Inserts `chars` blanks.
    pub fn ich<const M: usize>(&self, buf: &mut VirtualSequence<M>, chars: u16)
        requires
            chars <= 32767,
            has_room(old(buf), 8),
        ensures
            final(buf).bytes() == old(buf).bytes() + csi_num(chars, 64),
    {
        self.csi_num(buf, chars, 64)
    }

    /// Deletes `chars` characters.
    pub fn dch<const M: usize>(&self, buf: &mut VirtualSequence<M>, chars: u16)
        requires
            chars <= 32767,
            has_room(old(buf), 8),
        ensures
            final(buf).bytes() == old(buf).bytes() + csi_num(chars, 80),
    {
        self.csi_num(buf, chars, 80)
    }

    /// Erases `chars` characters.
    pub fn ech<const M: usize>(&self, buf: &mut VirtualSequence<M>, chars: u16)
        requires
            chars <= 32767,
            has_room(old(buf), 8),
        ensures
            final(buf).bytes() == old(buf).bytes() + csi_num(chars, 88),
    {
        self.csi_num(buf, chars, 88)
    }

    /// Inserts `lines` lines.
    pub fn il<const M: usize>(&self, buf: &mut VirtualSequence<M>, lines: u16)
        requires
            lines <= 32767,
            has_room(old(buf), 8),
        ensures
            final(buf).bytes() == old(buf).bytes() + csi_num(lines, 76),
    {
        self.csi_num(buf, lines, 76)
    }

    /// Deletes `lines` lines.
    pub fn dl<const M: usize>(&self, buf: &mut VirtualSequence<M>, lines: u16)
        requires
            lines <= 32767,
            has_room(old(buf), 8),
        ensures
            final(buf).bytes() == old(buf).bytes() + csi_num(lines, 77),
    {
        self.csi_num(buf, lines, 77)
    }
}

} // verus!
