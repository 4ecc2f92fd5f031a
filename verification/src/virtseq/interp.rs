use vstd::prelude::*;

use super::control::{param_var, Param, ParsedStringCap, Variable, OP_STACK_SIZE};
use super::virtbuf::{spec_flushed, spec_format_num, spec_write, spec_write_byte, VirtSeqBuf};
use crate::stdio::StdIo;
use crate::stuff::{SeqSlice, Stack};

verus! {

// ---------------------------------------------------------------------------
// The interpreter, stated
// ---------------------------------------------------------------------------

/// One piece of output of a compiled capability.
pub enum Emit {
    Byte(u8),
    Slice(Seq<u8>),
    Num(i16),
}

/// The interpreter's state: position in the operations, position in the literal slices, and
/// the value stack.
pub struct PrState<'a> {
    pub pc: nat,
    pub sp: nat,
    pub stack: Seq<Variable<'a>>,
}

pub enum PrStep<'a> {
    Panic,
    Next(PrState<'a>, Option<Emit>),
}

/// The `i16` whose little-endian bytes are `b0`, `b1`.
pub open spec fn le_value(b0: u8, b1: u8) -> i16 {
    let u = b0 + 256 * b1;
    if u >= 32768 {
        (u - 65536) as i16
    } else {
        u as i16
    }
}

/// Whether a two-operand operation accepts its operands: `lhs` is the top of the stack.
pub open spec fn binary_ok<'a>(op: u8, lhs: Variable<'a>, rhs: Variable<'a>) -> bool {
    if op == 12 || op == 13 {
        lhs is Bool && rhs is Bool
    } else if op == 4 || op == 5 {
        lhs is Int && (rhs matches Variable::Int(d) && d != 0)
    } else {
        lhs is Int && rhs is Int
    }
}

/// One operation of the interpreter at `st.pc`.
#[verifier::opaque]
pub open spec fn pr_step<'a>(
    ops: Seq<u8>,
    slices: Seq<u8>,
    vars: Seq<Variable<'a>>,
    st: PrState<'a>,
) -> PrStep<'a> {
    let pc = st.pc as int;
    let op = ops[pc];
    let n = st.stack.len();
    if op == 18 {
        if pc + 1 >= ops.len() {
            PrStep::Panic
        } else {
            PrStep::Next(PrState { pc: (pc + 2) as nat, ..st }, Some(Emit::Byte(ops[pc + 1])))
        }
    } else if op == 19 {
        if pc + 1 >= ops.len() {
            PrStep::Panic
        } else {
            let l = ops[pc + 1];
            if st.sp + l > slices.len() {
                PrStep::Panic
            } else {
                PrStep::Next(
                    PrState { pc: (pc + 2) as nat, sp: (st.sp + l) as nat, ..st },
                    Some(Emit::Slice(slices.subrange(st.sp as int, st.sp + l))),
                )
            }
        }
    } else if op == 21 {
        if n == 0 {
            PrStep::Panic
        } else {
            match st.stack.last() {
                Variable::Int(v) => PrStep::Next(
                    PrState { pc: (pc + 1) as nat, stack: st.stack.drop_last(), ..st },
                    Some(Emit::Num(v)),
                ),
                _ => PrStep::Panic,
            }
        }
    } else if op == 17 {
        if pc + 1 >= ops.len() || ops[pc + 1] >= vars.len() || n >= OP_STACK_SIZE {
            PrStep::Panic
        } else {
            PrStep::Next(
                PrState { pc: (pc + 2) as nat, stack: st.stack.push(vars[ops[pc + 1] as int]), ..st },
                None,
            )
        }
    } else if op == 16 {
        if pc + 2 >= ops.len() || n >= OP_STACK_SIZE {
            PrStep::Panic
        } else {
            PrStep::Next(
                PrState {
                    pc: (pc + 3) as nat,
                    stack: st.stack.push(Variable::Int(le_value(ops[pc + 1], ops[pc + 2]))),
                    ..st
                },
                None,
            )
        }
    } else if op == 1 {
        if n == 0 {
            PrStep::Panic
        } else {
            match st.stack.last() {
                Variable::Int(v) => if v == 32767 {
                    PrStep::Panic
                } else {
                    PrStep::Next(
                        PrState {
                            pc: (pc + 1) as nat,
                            stack: st.stack.update(n - 1, Variable::Int((v + 1) as i16)),
                            ..st
                        },
                        None,
                    )
                },
                _ => PrStep::Panic,
            }
        }
    } else if op == 15 {
        if n == 0 || !(st.stack.last() is Str) {
            PrStep::Panic
        } else {
            PrStep::Next(PrState { pc: (pc + 1) as nat, ..st }, None)
        }
    } else if op == 14 {
        if n == 0 || !(st.stack.last() is Bool) {
            PrStep::Panic
        } else {
            PrStep::Next(PrState { pc: (pc + 1) as nat, ..st }, None)
        }
    } else if op <= 8 || (10 <= op <= 13) {
        if n < 2 || !binary_ok(op, st.stack[n - 1], st.stack[n - 2]) {
            PrStep::Panic
        } else {
            PrStep::Next(PrState { pc: (pc + 1) as nat, stack: st.stack.drop_last(), ..st }, None)
        }
    } else {
        PrStep::Panic
    }
}

/// The output of the interpreter from `st` on; `None` where it panics.
pub open spec fn pr_run<'a>(
    ops: Seq<u8>,
    slices: Seq<u8>,
    vars: Seq<Variable<'a>>,
    st: PrState<'a>,
) -> Option<Seq<Emit>>
    decreases ops.len() - st.pc,
{
    if st.pc >= ops.len() {
        Some(Seq::empty())
    } else {
        match pr_step(ops, slices, vars, st) {
            PrStep::Panic => None,
            PrStep::Next(st2, e) => {
                if st.pc < st2.pc <= ops.len() {
                    match pr_run(ops, slices, vars, st2) {
                        None => None,
                        Some(rest) => match e {
                            Some(x) => Some(seq![x] + rest),
                            None => Some(rest),
                        },
                    }
                } else {
                    None
                }
            },
        }
    }
}

/// The model of an output buffer after one piece of output.
pub open spec fn apply_emit(m: (Seq<u8>, Seq<u8>), cap: nat, min_flush: nat, e: Emit) -> (
    Seq<u8>,
    Seq<u8>,
) {
    match e {
        Emit::Byte(b) => spec_write_byte(m, cap, b),
        Emit::Slice(d) => spec_write(m, cap, min_flush, d),
        Emit::Num(v) => spec_format_num(m, cap, v),
    }
}

/// Whether an output buffer in model `m` accepts one piece of output.
pub open spec fn emit_ok(m: (Seq<u8>, Seq<u8>), cap: nat, min_flush: nat, e: Emit) -> bool {
    match e {
        Emit::Byte(_) => cap > 0,
        Emit::Slice(d) => d.len() < min_flush ==> d.len() <= cap + (cap - m.1.len()),
        Emit::Num(_) => cap >= 6,
    }
}

/// The model of an output buffer after the pieces `es`, in order.
pub open spec fn apply_emits(m: (Seq<u8>, Seq<u8>), cap: nat, min_flush: nat, es: Seq<Emit>) -> (
    Seq<u8>,
    Seq<u8>,
)
    decreases es.len(),
{
    if es.len() == 0 {
        m
    } else {
        apply_emit(apply_emits(m, cap, min_flush, es.drop_last()), cap, min_flush, es.last())
    }
}

/// Whether an output buffer in model `m` accepts the pieces `es`, one after the other.
pub open spec fn emits_ok(m: (Seq<u8>, Seq<u8>), cap: nat, min_flush: nat, es: Seq<Emit>) -> bool
    decreases es.len(),
{
    if es.len() == 0 {
        true
    } else {
        emits_ok(m, cap, min_flush, es.drop_last()) && emit_ok(
            apply_emits(m, cap, min_flush, es.drop_last()),
            cap,
            min_flush,
            es.last(),
        )
    }
}

/// Whether an output buffer in model `m` takes one piece of output without a call to its
/// device: a byte or a number that fits in the free room, or a slice shorter than
/// `min_flush` that fits in it.
pub open spec fn emit_unflushed(m: (Seq<u8>, Seq<u8>), cap: nat, min_flush: nat, e: Emit) -> bool {
    match e {
        Emit::Byte(_) => m.1.len() < cap,
        Emit::Slice(d) => d.len() < min_flush && m.1.len() + d.len() <= cap,
        Emit::Num(_) => m.1.len() + 6 <= cap,
    }
}

/// Whether an output buffer in model `m` takes the pieces `es`, one after the other, each
/// without a call to its device.
pub open spec fn emits_unflushed(m: (Seq<u8>, Seq<u8>), cap: nat, min_flush: nat, es: Seq<Emit>) -> bool
    decreases es.len(),
{
    if es.len() == 0 {
        true
    } else {
        emits_unflushed(m, cap, min_flush, es.drop_last()) && emit_unflushed(
            apply_emits(m, cap, min_flush, es.drop_last()),
            cap,
            min_flush,
            es.last(),
        )
    }
}

/// Where the literal slices start in a data buffer of `len` bytes: at `base`, or at the front
/// when `base` lies past the end; `None` when the slices and operations do not fit.
pub open spec fn cap_offset(len: nat, base: nat, slice_len: nat, op_len: nat) -> Option<nat> {
    let off = if base <= len {
        base
    } else {
        0
    };
    if off + slice_len + op_len <= len {
        Some(off)
    } else {
        None
    }
}

impl<const N: usize> ParsedStringCap<N> {
    /// The output of this capability over `data` with the values `vars`; `None` where the
    /// interpreter panics.
    pub open spec fn emits<'a>(&self, data: Seq<u8>, vars: Seq<Variable<'a>>) -> Option<Seq<Emit>> {
        match cap_offset(data.len(), self.base as nat, self.slice_len as nat, self.op_len as nat) {
            None => None,
            Some(off) => {
                let slices = data.subrange(off as int, off + self.slice_len);
                let ops = data.subrange(off + self.slice_len, off + self.slice_len + self.op_len);
                pr_run(ops, slices, vars, PrState { pc: 0, sp: 0, stack: Seq::empty() })
            },
        }
    }
}


/// The values handed to the interpreter for `params`.
pub open spec fn param_vars<'a>(params: Seq<Param<'a>>) -> Seq<Variable<'a>> {
    params.map_values(|p: Param<'a>| param_var(p))
}

// ---------------------------------------------------------------------------
// Facts the interpreter's proof rests on
// ---------------------------------------------------------------------------

/// A run that does not panic takes a step that does not panic and moves on.
proof fn lemma_pr_run_step<'a>(
    ops: Seq<u8>,
    slices: Seq<u8>,
    vars: Seq<Variable<'a>>,
    st: PrState<'a>,
)
    requires
        st.pc < ops.len(),
        pr_run(ops, slices, vars, st) is Some,
    ensures
        pr_step(ops, slices, vars, st) matches PrStep::Next(st2, e) && st.pc < st2.pc <= ops.len()
            && pr_run(ops, slices, vars, st2) is Some && pr_run(ops, slices, vars, st) == match e {
            Some(x) => Some(seq![x] + pr_run(ops, slices, vars, st2).unwrap()),
            None => pr_run(ops, slices, vars, st2),
        },
{
}

/// An output buffer that accepts a run of pieces accepts each prefix of it.
proof fn lemma_emits_ok_prefix(m: (Seq<u8>, Seq<u8>), cap: nat, min_flush: nat, es: Seq<Emit>, k: int)
    requires
        emits_ok(m, cap, min_flush, es),
        0 <= k <= es.len(),
    ensures
        emits_ok(m, cap, min_flush, es.take(k)),
    decreases es.len(),
{
    if k < es.len() {
        assert(es.drop_last().take(k) =~= es.take(k));
        lemma_emits_ok_prefix(m, cap, min_flush, es.drop_last(), k);
    } else {
        assert(es.take(k) =~= es);
    }
}

/// A buffer that takes a run of pieces without device calls takes each prefix of it so.
proof fn lemma_emits_unflushed_prefix(
    m: (Seq<u8>, Seq<u8>),
    cap: nat,
    min_flush: nat,
    es: Seq<Emit>,
    k: int,
)
    requires
        emits_unflushed(m, cap, min_flush, es),
        0 <= k <= es.len(),
    ensures
        emits_unflushed(m, cap, min_flush, es.take(k)),
    decreases es.len(),
{
    if k < es.len() {
        assert(es.drop_last().take(k) =~= es.take(k));
        lemma_emits_unflushed_prefix(m, cap, min_flush, es.drop_last(), k);
    } else {
        assert(es.take(k) =~= es);
    }
}

/// The piece `e` that follows the pieces `done` is taken without a device call.
proof fn lemma_next_unflushed(
    m: (Seq<u8>, Seq<u8>),
    cap: nat,
    min_flush: nat,
    all: Seq<Emit>,
    done: Seq<Emit>,
    e: Emit,
    rest: Seq<Emit>,
)
    requires
        emits_unflushed(m, cap, min_flush, all),
        all == done + (seq![e] + rest),
    ensures
        emit_unflushed(apply_emits(m, cap, min_flush, done), cap, min_flush, e),
{
    assert(all.take(done.len() + 1int) =~= done.push(e));
    lemma_emits_unflushed_prefix(m, cap, min_flush, all, done.len() + 1int);
    assert(done.push(e).drop_last() =~= done);
}

/// The bookkeeping of one piece of output `e` that follows the pieces `done`.
proof fn lemma_next_emit(
    m: (Seq<u8>, Seq<u8>),
    cap: nat,
    min_flush: nat,
    all: Seq<Emit>,
    done: Seq<Emit>,
    e: Emit,
    rest: Seq<Emit>,
)
    requires
        emits_ok(m, cap, min_flush, all),
        all == done + (seq![e] + rest),
    ensures
        emit_ok(apply_emits(m, cap, min_flush, done), cap, min_flush, e),
        apply_emits(m, cap, min_flush, done.push(e)) == apply_emit(
            apply_emits(m, cap, min_flush, done),
            cap,
            min_flush,
            e,
        ),
        all == done.push(e) + rest,
        all.take(done.len() as int) == done,
        done.len() < all.len(),
{
    assert(all.take(done.len() + 1int) =~= done.push(e));
    lemma_emits_ok_prefix(m, cap, min_flush, all, done.len() + 1int);
    assert(done.push(e).drop_last() =~= done);
    assert(all =~= done.push(e) + rest);
    assert(all.take(done.len() as int) =~= done);
}

/// The literal bytes among the pieces `es`: the slices, joined in order.
pub open spec fn slice_text(es: Seq<Emit>) -> Seq<u8>
    decreases es.len(),
{
    if es.len() == 0 {
        Seq::empty()
    } else {
        (match es[0] {
            Emit::Slice(d) => d,
            _ => Seq::empty(),
        }) + slice_text(es.drop_first())
    }
}

/// One step moves the literal position past the slice it prints, and only then.
proof fn lemma_step_sp<'a>(ops: Seq<u8>, slices: Seq<u8>, vars: Seq<Variable<'a>>, st: PrState<'a>)
    requires
        st.pc < ops.len(),
        st.sp <= slices.len(),
    ensures
        pr_step(ops, slices, vars, st) matches PrStep::Next(st2, e) ==> (match e {
            Some(Emit::Slice(d)) => st2.sp == st.sp + d.len() && st2.sp <= slices.len() && d
                == slices.subrange(st.sp as int, st2.sp as int),
            _ => st2.sp == st.sp,
        }),
{
    reveal(pr_step);
}

/// From state `st` on, the literal bytes printed are the slice area's bytes from `st.sp` on,
/// in order.
proof fn lemma_pr_slices<'a>(ops: Seq<u8>, slices: Seq<u8>, vars: Seq<Variable<'a>>, st: PrState<'a>)
    requires
        st.sp <= slices.len(),
        pr_run(ops, slices, vars, st) is Some,
    ensures
        ({
            let t = slice_text(pr_run(ops, slices, vars, st).unwrap());
            st.sp + t.len() <= slices.len() && t == slices.subrange(
                st.sp as int,
                (st.sp + t.len()) as int,
            )
        }),
    decreases ops.len() - st.pc,
{
    let es = pr_run(ops, slices, vars, st).unwrap();
    if st.pc >= ops.len() {
        assert(es =~= Seq::<Emit>::empty());
        assert(slices.subrange(st.sp as int, st.sp as int) =~= Seq::<u8>::empty());
    } else {
        lemma_pr_run_step(ops, slices, vars, st);
        lemma_step_sp(ops, slices, vars, st);
        let (st2, e) = match pr_step(ops, slices, vars, st) {
            PrStep::Next(a, b) => (a, b),
            PrStep::Panic => (st, None),
        };
        lemma_pr_slices(ops, slices, vars, st2);
        let rest = pr_run(ops, slices, vars, st2).unwrap();
        let t2 = slice_text(rest);
        match e {
            Some(x) => {
                assert(es == seq![x] + rest);
                assert(es.drop_first() =~= rest);
                match x {
                    Emit::Slice(d) => {
                        assert(slice_text(es) == d + t2);
                        assert(slices.subrange(st.sp as int, (st.sp + d.len() + t2.len()) as int) =~= d
                            + t2);
                    },
                    _ => {
                        assert(slice_text(es) =~= t2);
                    },
                }
            },
            None => {},
        }
    }
}

/// Printing consumes the literal area in order: the literal bytes that a capability prints,
/// joined, are the start of its literal area, each piece taken right after the one before.
pub proof fn law_slices_in_order<'a, const N: usize>(
    cap: ParsedStringCap<N>,
    data: Seq<u8>,
    vars: Seq<Variable<'a>>,
)
    requires
        cap.emits(data, vars) is Some,
    ensures
        ({
            let off = cap_offset(
                data.len(),
                cap.base as nat,
                cap.slice_len as nat,
                cap.op_len as nat,
            ).unwrap();
            let t = slice_text(cap.emits(data, vars).unwrap());
            t.len() <= cap.slice_len && t == data.subrange(off as int, (off + t.len()) as int)
        }),
{
    let off = cap_offset(data.len(), cap.base as nat, cap.slice_len as nat, cap.op_len as nat).unwrap();
    let slices = data.subrange(off as int, off + cap.slice_len);
    let ops = data.subrange(off + cap.slice_len, off + cap.slice_len + cap.op_len);
    let st = PrState { pc: 0, sp: 0, stack: Seq::<Variable<'a>>::empty() };
    lemma_pr_slices(ops, slices, vars, st);
    let t = slice_text(cap.emits(data, vars).unwrap());
    assert(slices.subrange(0, t.len() as int) =~= data.subrange(off as int, (off + t.len()) as int));
}

// ---------------------------------------------------------------------------
// The interpreter
// ---------------------------------------------------------------------------

impl<const N: usize> ParsedStringCap<N> {
    /// Runs the compiled capability that lies in `data` with the values `params` and writes its
    /// output to `buf`. The first failed write ends the run with its error.
    pub fn print<'a, const B: usize, I: StdIo>(
        &self,
        data: &[u8],
        buf: &mut VirtSeqBuf<B, I>,
        params: [Param<'a>; N],
    ) -> (r: std::io::Result<()>)
        requires
            old(buf).wf(),
            self.emits(data@, param_vars(params@)) is Some,
            emits_ok(
                old(buf).model(),
                B as nat,
                old(buf).min_flush_size as nat,
                self.emits(data@, param_vars(params@)).unwrap(),
            ),
        ensures
            final(buf).wf(),
            final(buf).min_flush_size == old(buf).min_flush_size,
            emits_unflushed(
                old(buf).model(),
                B as nat,
                old(buf).min_flush_size as nat,
                self.emits(data@, param_vars(params@)).unwrap(),
            ) ==> r is Ok,
            r is Ok ==> final(buf).model() == apply_emits(
                old(buf).model(),
                B as nat,
                old(buf).min_flush_size as nat,
                self.emits(data@, param_vars(params@)).unwrap(),
            ),
            r is Err ==> exists|k: int|
                0 <= k < self.emits(data@, param_vars(params@)).unwrap().len() && ({
                    let before = apply_emits(
                        old(buf).model(),
                        B as nat,
                        old(buf).min_flush_size as nat,
                        #[trigger] self.emits(data@, param_vars(params@)).unwrap().take(k),
                    );
                    final(buf).model() == before || final(buf).model() == spec_flushed(before)
                }),
    {
        let ghost pvars = param_vars(params@);
        let mut vars: Vec<Variable<'a>> = Vec::new();
        let mut k: usize = 0;
        while k < N
            invariant
                k <= N,
                N == params@.len(),
                pvars == param_vars(params@),
                vars@ == pvars.take(k as int),
            decreases N - k,
        {
            vars.push(params[k].to_var());
            assert(vars@ =~= pvars.take(k + 1));
            k = k + 1;
        }
        assert(vars@ =~= pvars);
        let ghost off = cap_offset(
            data@.len(),
            self.base as nat,
            self.slice_len as nat,
            self.op_len as nat,
        ).unwrap();
        let mut cur = SeqSlice::new(data);
        let _ = cur.get_next(self.base);
        assert(cur.consumed() == off);
        let slices = match cur.get_next(self.slice_len) {
            Some(s) => s,
            None => {
                proof {
                    assert(false);
                }
                return Ok(());
            },
        };
        let ops = match cur.get_next(self.op_len) {
            Some(o) => o,
            None => {
                proof {
                    assert(false);
                }
                return Ok(());
            },
        };
        assert(slices@ =~= data@.subrange(off as int, off + self.slice_len));
        assert(ops@ =~= data@.subrange(
            off + self.slice_len,
            off + self.slice_len + self.op_len,
        ));
        let ghost cap = B as nat;
        let ghost mfs = buf.min_flush_size as nat;
        let ghost m0 = buf.model();
        let ghost all = self.emits(data@, pvars).unwrap();
        let ghost mut done: Seq<Emit> = Seq::empty();
        let mut stack: Stack<Variable<'a>, 16> = Stack::new();
        let mut pc: usize = 0;
        let mut sp: usize = 0;
        let n = ops.len();
        let sn = slices.len();
        while pc < n
            invariant
                n == ops@.len(),
                sn == slices@.len(),
                pc <= n,
                sp <= slices@.len(),
                stack.wf(),
                pr_run(ops@, slices@, vars@, PrState { pc: pc as nat, sp: sp as nat, stack: stack@ })
                    is Some,
                all == done + pr_run(
                    ops@,
                    slices@,
                    vars@,
                    PrState { pc: pc as nat, sp: sp as nat, stack: stack@ },
                ).unwrap(),
                buf.wf(),
                buf.min_flush_size == mfs,
                cap == B,
                m0 == old(buf).model(),
                mfs == old(buf).min_flush_size,
                all == self.emits(data@, param_vars(params@)).unwrap(),
                buf.model() == apply_emits(m0, cap, mfs, done),
                emits_ok(m0, cap, mfs, all),
            decreases n - pc,
        {
            let ghost st = PrState { pc: pc as nat, sp: sp as nat, stack: stack@ };
            proof {
                lemma_pr_run_step(ops@, slices@, vars@, st);
                reveal(pr_step);
            }
            let op = ops[pc];
            if op == 18 {
                let b = ops[pc + 1];
                let ghost rest = pr_run(ops@, slices@, vars@, PrState { pc: (pc + 2) as nat, ..st }).unwrap();
                proof {
                    lemma_next_emit(m0, cap, mfs, all, done, Emit::Byte(b), rest);
                    if emits_unflushed(m0, cap, mfs, all) {
                        lemma_next_unflushed(m0, cap, mfs, all, done, Emit::Byte(b), rest);
                    }
                }
                let w = buf.write_byte(b);
                if w.is_err() {
                    return w;
                }
                pc = pc + 2;
                proof {
                    done = done.push(Emit::Byte(b));
                }
            } else if op == 19 {
                let l = ops[pc + 1] as usize;
                let piece = vstd::slice::slice_subrange(slices, sp, sp + l);
                let ghost st2 = PrState { pc: (pc + 2) as nat, sp: (sp + l) as nat, ..st };
                let ghost rest = pr_run(ops@, slices@, vars@, st2).unwrap();
                proof {
                    lemma_next_emit(m0, cap, mfs, all, done, Emit::Slice(piece@), rest);
                    if emits_unflushed(m0, cap, mfs, all) {
                        lemma_next_unflushed(m0, cap, mfs, all, done, Emit::Slice(piece@), rest);
                    }
                }
                let w = buf.write(piece);
                if w.is_err() {
                    return w;
                }
                pc = pc + 2;
                sp = sp + l;
                proof {
                    done = done.push(Emit::Slice(piece@));
                }
            } else if op == 21 {
                let top = stack.pop();
                let v = match top {
                    Some(Variable::Int(v)) => v,
                    _ => {
                        proof {
                            assert(false);
                        }
                        return Ok(());
                    },
                };
                let ghost rest = pr_run(ops@, slices@, vars@, PrState { pc: (pc + 1) as nat, stack: stack@, ..st }).unwrap();
                proof {
                    lemma_next_emit(m0, cap, mfs, all, done, Emit::Num(v), rest);
                    if emits_unflushed(m0, cap, mfs, all) {
                        lemma_next_unflushed(m0, cap, mfs, all, done, Emit::Num(v), rest);
                    }
                }
                let w = buf.format_num(v);
                if w.is_err() {
                    return w;
                }
                pc = pc + 1;
                proof {
                    done = done.push(Emit::Num(v));
                }
            } else if op == 17 {
                let idx = ops[pc + 1] as usize;
                stack.push_unchecked(vars[idx]);
                pc = pc + 2;
            } else if op == 16 {
                let b0 = ops[pc + 1];
                let b1 = ops[pc + 2];
                stack.push_unchecked(Variable::Int(le_i16(b0, b1)));
                pc = pc + 3;
            } else if op == 1 {
                let top = stack.pop();
                let v = match top {
                    Some(Variable::Int(v)) => v,
                    _ => {
                        proof {
                            assert(false);
                        }
                        return Ok(());
                    },
                };
                stack.push_unchecked(Variable::Int(v + 1));
                assert(stack@ =~= st.stack.update(st.stack.len() - 1, Variable::Int((v + 1) as i16)));
                pc = pc + 1;
            } else if op == 15 || op == 14 {
                pc = pc + 1;
            } else {
                let _ = stack.pop();
                pc = pc + 1;
            }
        }
        assert(all =~= done);
        Ok(())
    }
}

/// The `i16` whose little-endian bytes are `b0`, `b1`.
fn le_i16(b0: u8, b1: u8) -> (r: i16)
    ensures
        r == le_value(b0, b1),
{
    let u: i32 = b0 as i32 + 256 * (b1 as i32);
    if u >= 32768 {
        (u - 65536) as i16
    } else {
        u as i16
    }
}

} // verus!
