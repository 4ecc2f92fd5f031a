use vstd::prelude::*;

use crate::stdio::StdIo;
use crate::stuff::{signed_decimal, FastForwardFormat, NumberSlice};

verus! {

/// Copies `src` into `dst` from offset `at` on; the other bytes stay.
pub(crate) fn copy_into(dst: &mut Vec<u8>, at: usize, src: &[u8])
    requires
        at + src@.len() <= old(dst)@.len(),
    ensures
        final(dst)@ == old(dst)@.take(at as int) + src@ + old(dst)@.skip(at + src@.len()),
{
    let n = dst.len();
    let mut i: usize = 0;
    while i < src.len()
        invariant
            n == dst@.len(),
            at + src@.len() <= dst@.len(),
            dst@.len() == old(dst)@.len(),
            0 <= i <= src@.len(),
            forall|k: int| 0 <= k < at ==> dst@[k] == old(dst)@[k],
            forall|k: int| at <= k < at + i ==> dst@[k] == src@[k - at],
            forall|k: int| at + i <= k < dst@.len() ==> dst@[k] == old(dst)@[k],
        decreases src@.len() - i,
    {
        dst[at + i] = src[i];
        i = i + 1;
    }
    assert(dst@ =~= old(dst)@.take(at as int) + src@ + old(dst)@.skip(at + src@.len()));
}

/// The bytes that a flush of `pending` leaves in the buffer's model, and what is left pending.
/// A model is the pair (bytes handed to the device, bytes waiting in the buffer).
pub open spec fn spec_flushed(m: (Seq<u8>, Seq<u8>)) -> (Seq<u8>, Seq<u8>) {
    (m.0 + m.1, Seq::empty())
}

/// The model after a successful `write` of `data` into a buffer of `cap` bytes that sends
/// requests of `min_flush` bytes or more straight through.
pub open spec fn spec_write(m: (Seq<u8>, Seq<u8>), cap: nat, min_flush: nat, data: Seq<u8>) -> (
    Seq<u8>,
    Seq<u8>,
) {
    if data.len() >= min_flush {
        (m.0 + m.1 + data, Seq::empty())
    } else if cap - m.1.len() >= data.len() {
        (m.0, m.1 + data)
    } else {
        (m.0 + m.1, data.skip(cap - m.1.len()))
    }
}

/// The model after a successful `write_byte` of `b`.
pub open spec fn spec_write_byte(m: (Seq<u8>, Seq<u8>), cap: nat, b: u8) -> (Seq<u8>, Seq<u8>) {
    if m.1.len() == cap {
        (m.0 + m.1, seq![b])
    } else {
        (m.0, m.1.push(b))
    }
}

/// The model after a successful `format_num` of `num`.
pub open spec fn spec_format_num(m: (Seq<u8>, Seq<u8>), cap: nat, num: i16) -> (Seq<u8>, Seq<u8>) {
    let m2 = if cap - m.1.len() < 6 {
        spec_flushed(m)
    } else {
        m
    };
    (m2.0, m2.1 + signed_decimal(num as int))
}

/// Everything a model stands for, in order: what was handed on, then what waits.
pub open spec fn spec_stream(m: (Seq<u8>, Seq<u8>)) -> Seq<u8> {
    m.0 + m.1
}

/// A write keeps the byte stream — the bytes already handed on, then those waiting, then the
/// new ones — unless it is a short write that overflows a partly filled buffer: then the
/// first bytes of `data` that fitted into the free room are lost.
pub proof fn lemma_write_keeps_stream(
    m: (Seq<u8>, Seq<u8>),
    cap: nat,
    min_flush: nat,
    data: Seq<u8>,
)
    requires
        m.1.len() <= cap,
        data.len() >= min_flush || cap - m.1.len() >= data.len() || m.1.len() == cap,
    ensures
        spec_stream(spec_write(m, cap, min_flush, data)) == spec_stream(m) + data,
{
    let r = spec_write(m, cap, min_flush, data);
    if data.len() >= min_flush {
        assert(spec_stream(r) =~= spec_stream(m) + data);
    } else if cap - m.1.len() >= data.len() {
        assert(spec_stream(r) =~= spec_stream(m) + data);
    } else {
        assert(data.skip(0) =~= data);
        assert(spec_stream(r) =~= spec_stream(m) + data);
    }
}

/// What the lossy case of `write` hands on: the first `cap - m.1.len()` bytes of `data` are
/// dropped.
pub proof fn lemma_write_overflow_drops(
    m: (Seq<u8>, Seq<u8>),
    cap: nat,
    min_flush: nat,
    data: Seq<u8>,
)
    requires
        m.1.len() < cap,
        data.len() < min_flush,
        cap - m.1.len() < data.len(),
    ensures
        spec_stream(spec_write(m, cap, min_flush, data)) == spec_stream(m) + data.skip(
            cap - m.1.len(),
        ),
{
    assert(spec_stream(spec_write(m, cap, min_flush, data)) =~= spec_stream(m) + data.skip(
        cap - m.1.len(),
    ));
}

/// A flush hands the waiting bytes on and keeps the byte stream.
pub proof fn lemma_flush_keeps_stream(m: (Seq<u8>, Seq<u8>))
    ensures
        spec_stream(spec_flushed(m)) == spec_stream(m),
        spec_flushed(m).1.len() == 0,
{
    assert(spec_stream(spec_flushed(m)) =~= spec_stream(m));
}

/// A byte write keeps the byte stream.
pub proof fn lemma_write_byte_keeps_stream(m: (Seq<u8>, Seq<u8>), cap: nat, b: u8)
    requires
        m.1.len() <= cap,
    ensures
        spec_stream(spec_write_byte(m, cap, b)) == spec_stream(m).push(b),
{
    assert(spec_stream(spec_write_byte(m, cap, b)) =~= spec_stream(m).push(b));
}

/// A number write appends exactly the number's decimal text to the byte stream.
pub proof fn lemma_format_num_keeps_stream(m: (Seq<u8>, Seq<u8>), cap: nat, num: i16)
    ensures
        spec_stream(spec_format_num(m, cap, num)) == spec_stream(m) + signed_decimal(num as int),
{
    assert(spec_stream(spec_format_num(m, cap, num)) =~= spec_stream(m) + signed_decimal(
        num as int,
    ));
}

/// The bytes that a [`VirtSeqBuf`] has handed to its device, in order. Only the buffer's
/// own operations make or extend one.
pub struct SentLog {
    bytes: Ghost<Seq<u8>>,
}

impl SentLog {
    pub closed spec fn bytes(&self) -> Seq<u8> {
        self.bytes@
    }
}

/// A write buffer of `B` bytes in front of a [`StdIo`] device.
pub struct VirtSeqBuf<const B: usize, I: StdIo> {
    pub buf: Vec<u8>,
    pub idx: usize,
    pub min_flush_size: usize,
    pub io: I,
    pub sent: SentLog,
}

pub const MIN_FLUSH_SIZE: usize = 32;

impl<const B: usize, I: StdIo> VirtSeqBuf<B, I> {
    /// The bytes this buffer has handed to its device so far, in order.
    pub open spec fn sent(&self) -> Seq<u8> {
        self.sent.bytes()
    }

    /// The bytes that wait in the buffer.
    pub open spec fn pending(&self) -> Seq<u8> {
        self.buf@.take(self.idx as int)
    }

    /// (bytes handed on, bytes waiting)
    pub open spec fn model(&self) -> (Seq<u8>, Seq<u8>) {
        (self.sent(), self.pending())
    }

    pub open spec fn wf(&self) -> bool {
        &&& self.buf@.len() == B
        &&& self.idx <= B
    }

    /// An empty buffer in front of `io` that sends writes of at least [`MIN_FLUSH_SIZE`]
    /// bytes straight through.
    pub fn new(io: I) -> (r: Self)
        ensures
            r.wf(),
            r.model() == (Seq::<u8>::empty(), Seq::<u8>::empty()),
            r.min_flush_size == MIN_FLUSH_SIZE,
            r.io == io,
            r.idx == 0,
            r.buf@ == Seq::new(B as nat, |i: int| 0u8),
    {
        Self::new_io(io, MIN_FLUSH_SIZE)
    }

    /// An empty buffer in front of `io` that sends writes of at least `min_flush_size` bytes
    /// straight through.
    pub fn new_io(io: I, min_flush_size: usize) -> (r: Self)
        ensures
            r.wf(),
            r.model() == (Seq::<u8>::empty(), Seq::<u8>::empty()),
            r.min_flush_size == min_flush_size,
            r.io == io,
            r.idx == 0,
            r.buf@ == Seq::new(B as nat, |i: int| 0u8),
    {
        let buf = vec![0u8; B];
        assert(buf@ =~= Seq::new(B as nat, |i: int| 0u8));
        let r = VirtSeqBuf { buf, idx: 0, min_flush_size, io, sent: SentLog { bytes: Ghost(Seq::empty()) } };
        assert(r.pending() =~= Seq::<u8>::empty());
        r
    }

    /// The free room in the buffer.
    pub fn cap_left(&self) -> (r: usize)
        requires
            self.wf(),
        ensures
            r == B - self.pending().len(),
    {
        B - self.idx
    }

    /// Hands `buf` to the device as it is.
    pub fn flush_buf(&mut self, buf: &[u8]) -> (r: std::io::Result<()>)
        requires
            old(self).wf(),
        ensures
            final(self).wf(),
            final(self).buf == old(self).buf,
            final(self).idx == old(self).idx,
            final(self).min_flush_size == old(self).min_flush_size,
            r is Ok ==> final(self).sent() == old(self).sent() + buf@,
            r is Err ==> final(self).sent() == old(self).sent(),
    {
        let r = self.io.write_all(buf);
        if r.is_ok() {
            self.sent = SentLog { bytes: Ghost(self.sent.bytes@ + buf@) };
        }
        r
    }

    /// Hands the waiting bytes to the device and empties the buffer.
    pub fn flush(&mut self) -> (r: std::io::Result<()>)
        requires
            old(self).wf(),
        ensures
            final(self).wf(),
            final(self).buf == old(self).buf,
            final(self).min_flush_size == old(self).min_flush_size,
            r is Ok ==> final(self).model() == spec_flushed(old(self).model()),
            r is Err ==> final(self).model() == old(self).model(),
    {
        let r = self.io.write_all(vstd::slice::slice_subrange(self.buf.as_slice(), 0, self.idx));
        if r.is_ok() {
            self.sent = SentLog { bytes: Ghost(self.sent.bytes@ + self.buf@.take(self.idx as int)) };
            self.idx = 0;
            assert(self.pending() =~= Seq::<u8>::empty());
            assert(old(self).buf@.subrange(0, old(self).idx as int) =~= old(self).pending());
        }
        r
    }

    /// Appends `byte`, flushing first when the buffer is full.
    pub fn write_byte(&mut self, byte: u8) -> (r: std::io::Result<()>)
        requires
            old(self).wf(),
            B > 0,
        ensures
            final(self).wf(),
            final(self).min_flush_size == old(self).min_flush_size,
            old(self).idx < B ==> r is Ok,
            r is Ok ==> final(self).model() == spec_write_byte(old(self).model(), B as nat, byte),
            r is Err ==> final(self).model() == old(self).model(),
    {
        if self.idx == B {
            let f = self.flush();
            if f.is_err() {
                return f;
            }
        }
        let ghost before = self.buf@;
        self.buf[self.idx] = byte;
        self.idx = self.idx + 1;
        assert(self.pending() =~= before.take(self.idx - 1).push(byte));
        Ok(())
    }

    /// Appends the decimal text of `num`, flushing first when fewer than six bytes are free.
    pub fn format_num(&mut self, num: i16) -> (r: std::io::Result<()>)
        requires
            old(self).wf(),
            B >= 6,
        ensures
            final(self).wf(),
            final(self).min_flush_size == old(self).min_flush_size,
            B - old(self).idx >= 6 ==> r is Ok,
            r is Ok ==> final(self).model() == spec_format_num(old(self).model(), B as nat, num),
            r is Err ==> final(self).model() == old(self).model(),
    {
        if self.cap_left() < i16::buf_size() {
            let f = self.flush();
            if f.is_err() {
                return f;
            }
        }
        let ghost mid = self.model();
        assert(self.pending().len() == self.idx);
        assert(B - self.idx >= 6);
        let ghost before = self.buf@;
        let idx = self.idx;
        let x = {
            let (head, tail) = self.buf.as_mut_slice().split_at_mut(idx);
            let mut digits = match NumberSlice::<i16>::new(tail) {
                Some(d) => d,
                None => {
                    proof {
                        assert(false);
                    }
                    return Ok(());
                },
            };
            num.forward_format(&mut digits)
        };
        self.idx = idx + x;
        proof {
            assert(self.buf@ =~= before.take(idx as int) + signed_decimal(num as int) + before.skip(
                idx + x,
            ));
            assert(self.pending() =~= before.take(mid.1.len() as int) + signed_decimal(num as int));
        }
        Ok(())
    }

    /// Appends `buf`. A request of `min_flush_size` bytes or more is sent straight on after the
    /// waiting bytes. A shorter request that does not fit fills the free room, flushes the
    /// bytes that waited before it, and keeps the rest of the request; the part that filled
    /// the room is not sent.
    pub fn write(&mut self, buf: &[u8]) -> (r: std::io::Result<()>)
        requires
            old(self).wf(),
            buf@.len() < old(self).min_flush_size ==> buf@.len() <= B + (B - old(self).idx),
        ensures
            final(self).wf(),
            final(self).min_flush_size == old(self).min_flush_size,
            buf@.len() < old(self).min_flush_size && B - old(self).idx >= buf@.len() ==> r is Ok,
            r is Ok ==> final(self).model() == spec_write(
                old(self).model(),
                B as nat,
                old(self).min_flush_size as nat,
                buf@,
            ),
            r is Err && buf@.len() >= old(self).min_flush_size ==> final(self).model() == old(
                self,
            ).model() || final(self).model() == spec_flushed(old(self).model()),
            r is Err && buf@.len() < old(self).min_flush_size ==> final(self).model() == old(
                self,
            ).model(),
    {
        if buf.len() >= self.min_flush_size {
            let f = self.flush();
            if f.is_err() {
                return f;
            }
            let r = self.flush_buf(buf);
            proof {
                if r.is_ok() {
                    assert(self.pending() =~= Seq::<u8>::empty());
                }
            }
            return r;
        }
        let cap = self.cap_left();
        if cap >= buf.len() {
            let ghost before = self.buf@;
            copy_into(&mut self.buf, self.idx, buf);
            self.idx = self.idx + buf.len();
            assert(self.pending() =~= before.take(old(self).idx as int) + buf@);
            Ok(())
        } else {
            if cap != 0 {
                let head = vstd::slice::slice_subrange(buf, 0, cap);
                let ghost before = self.buf@;
                copy_into(&mut self.buf, self.idx, head);
                assert(self.pending() =~= before.take(self.idx as int));
            }
            let f = self.flush();
            if f.is_err() {
                return f;
            }
            let tail = vstd::slice::slice_subrange(buf, cap, buf.len());
            self.idx = buf.len() - cap;
            copy_into(&mut self.buf, 0, tail);
            assert(self.pending() =~= buf@.skip(cap as int));
            Ok(())
        }
    }
}

} // verus!
