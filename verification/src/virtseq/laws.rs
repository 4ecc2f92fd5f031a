use vstd::prelude::*;

use super::control::{
    all_digits, count_bits, digits_value, first_input, i16_bytes, parse_i16, po_run, po_start,
    po_step, ExprType, PState, ParsedStringCap, PoOutcome, PoState, PoStep, Variable,
};
use super::interp::{
    apply_emits, emits_ok, emits_unflushed, le_value, pr_run, pr_step, Emit, PrState, PrStep,
};
use super::virtbuf::{spec_format_num, spec_stream, spec_write, spec_write_byte};
use crate::stuff::{decimal, lemma_decimal_digits, lemma_decimal_nonempty, signed_decimal};

verus! {

// ---------------------------------------------------------------------------
// Constants
// ---------------------------------------------------------------------------

/// A constant that the compiler stores in a capability is read back as itself by the
/// interpreter.
pub proof fn law_const_roundtrip(v: i16)
    ensures
        le_value(i16_bytes(v)[0], i16_bytes(v)[1]) == v,
{
}

/// The digits of `n` read back as `n`.
pub proof fn lemma_digits_value(n: nat)
    ensures
        digits_value(decimal(n)) == n,
        all_digits(decimal(n)),
    decreases n,
{
    lemma_decimal_digits(n);
    let d = decimal(n);
    if n >= 10 {
        lemma_digits_value(n / 10);
        assert(d.drop_last() =~= decimal(n / 10));
        assert(d.last() == 48 + n % 10);
    } else {
        assert(d.drop_last() =~= Seq::<u8>::empty());
        assert(digits_value(Seq::<u8>::empty()) == 0);
    }
}

/// The decimal text that a number is written as is read back, as a `%{..}` constant, as the
/// same number.
pub proof fn law_decimal_parses_back(v: i16)
    ensures
        parse_i16(signed_decimal(v as int)) == Some(v),
{
    let d = signed_decimal(v as int);
    if v < 0 {
        let m = (-v) as nat;
        lemma_digits_value(m);
        lemma_decimal_nonempty(m);
        assert(d.drop_first() =~= decimal(m));
    } else {
        lemma_digits_value(v as nat);
        lemma_decimal_nonempty(v as nat);
        assert(48 <= decimal(v as nat)[0] <= 57);
    }
}

// ---------------------------------------------------------------------------
// Capabilities without parameters
// ---------------------------------------------------------------------------

/// `s` holds no `%`: it has no parameter, operation or escape.
pub open spec fn no_percent(s: Seq<u8>) -> bool {
    forall|k: int| 0 <= k < s.len() ==> s[k] != 37
}

proof fn lemma_count_bits_zero(k: nat)
    ensures
        count_bits(0u16, k) == 0,
    decreases k,
{
    if k > 0 {
        assert(0u16 & 1u16 == 0u16 && 0u16 >> 1u16 == 0u16) by (bit_vector);
        lemma_count_bits_zero((k - 1) as nat);
    }
}

/// The compiler's state after the first `k` bytes (two or more) of a text without `%`: one
/// slice of `k` bytes.
pub open spec fn literal_state(s: Seq<u8>, b0: Seq<u8>, k: nat) -> PoState {
    PoState {
        i: k,
        stack: Seq::empty(),
        ops: seq![19u8, k as u8],
        buf: b0 + s.take(k as int),
        used: 0,
        state: PState::Slice,
        one: false,
    }
}

/// The compiled form of a text of two or more bytes without `%`.
pub open spec fn literal_outcome(s: Seq<u8>, b0: Seq<u8>) -> PoOutcome {
    PoOutcome::Done(
        ParsedStringCap { base: b0.len() as usize, slice_len: s.len() as usize, op_len: 2 },
        b0 + s + seq![19u8, s.len() as u8],
    )
}

proof fn lemma_literal_run(s: Seq<u8>, b0: Seq<u8>, k: nat)
    requires
        no_percent(s),
        2 <= k <= s.len() <= 255,
    ensures
        po_run(s, Seq::empty(), 0, b0.len(), literal_state(s, b0, k)) == literal_outcome(s, b0),
    decreases s.len() - k,
{
    let st = literal_state(s, b0, k);
    if k == s.len() {
        lemma_count_bits_zero(16);
        assert(s.take(k as int) =~= s);
        assert(st.buf.len() - b0.len() == s.len());
    } else {
        reveal(po_step);
        let st2 = literal_state(s, b0, k + 1);
        assert(s[k as int] != 37);
        assert(st.ops[1] == k as u8);
        assert(st.ops.update(1, (st.ops[1] + 1) as u8) =~= st2.ops);
        assert(st.buf.push(s[k as int]) =~= st2.buf);
        assert(po_step(s, Seq::empty(), st) == PoStep::Next(st2));
        lemma_literal_run(s, b0, k + 1);
    }
}

/// What compiling a text of one to 255 bytes without `%`, for no parameters, gives: the text
/// (from two bytes on) as one slice, and one operation that prints it.
pub proof fn lemma_literal_compiles(s: Seq<u8>, b0: Seq<u8>)
    requires
        no_percent(s),
        1 <= s.len() <= 255,
    ensures
        s.len() >= 2 ==> po_run(s, Seq::empty(), 0, b0.len(), po_start(b0)) == literal_outcome(
            s,
            b0,
        ),
        s.len() == 1 ==> po_run(s, Seq::empty(), 0, b0.len(), po_start(b0)) == PoOutcome::Done(
            ParsedStringCap { base: b0.len() as usize, slice_len: 0, op_len: 2 },
            b0 + seq![18u8, s[0]],
        ),
{
    reveal(po_step);
    let st0 = po_start(b0);
    let st1 = PoState {
        i: 1,
        ops: seq![18u8, s[0]],
        state: PState::Byte,
        ..st0
    };
    assert(s[0] != 37);
    assert(Seq::<u8>::empty() + seq![18u8, s[0]] =~= seq![18u8, s[0]]);
    assert(po_step(s, Seq::empty(), st0) == PoStep::Next(st1));
    if s.len() == 1 {
        lemma_count_bits_zero(16);
        assert(b0 + Seq::<u8>::empty() =~= b0);
        assert(po_run(s, Seq::empty(), 0, b0.len(), st1) == PoOutcome::Done(
            ParsedStringCap { base: b0.len() as usize, slice_len: 0, op_len: 2 },
            b0 + seq![18u8, s[0]],
        ));
    } else {
        let st2 = literal_state(s, b0, 2);
        assert(s[1] != 37);
        assert(st1.ops.update(1, 2u8).update(0, 19u8) =~= st2.ops);
        assert(b0 + seq![st1.ops[1], s[1]] =~= st2.buf);
        assert(po_step(s, Seq::empty(), st1) == PoStep::Next(st2));
        lemma_literal_run(s, b0, 2);
    }
}

/// A compiled capability whose operations are one print of the first `l` literal bytes.
proof fn lemma_print_one_slice<'a>(ops: Seq<u8>, slices: Seq<u8>, vars: Seq<Variable<'a>>)
    requires
        ops.len() == 2,
        ops[0] == 19,
        ops[1] <= slices.len(),
    ensures
        pr_run(ops, slices, vars, PrState { pc: 0, sp: 0, stack: Seq::empty() }) == Some(
            seq![Emit::Slice(slices.take(ops[1] as int))],
        ),
{
    reveal(pr_step);
    let st0 = PrState { pc: 0, sp: 0, stack: Seq::<Variable<'a>>::empty() };
    let st1 = PrState { pc: 2, sp: ops[1] as nat, stack: Seq::<Variable<'a>>::empty() };
    assert(slices.subrange(0, ops[1] as int) =~= slices.take(ops[1] as int));
    assert(pr_run(ops, slices, vars, st1) == Some(Seq::<Emit>::empty()));
    assert(pr_step(ops, slices, vars, st0) == PrStep::Next(
        st1,
        Some(Emit::Slice(slices.take(ops[1] as int))),
    ));
    assert(seq![Emit::Slice(slices.take(ops[1] as int))] + Seq::<Emit>::empty() =~= seq![
        Emit::Slice(slices.take(ops[1] as int)),
    ]);
}

/// A compiled capability whose operations are one print of the byte `b`.
proof fn lemma_print_one_byte<'a>(ops: Seq<u8>, slices: Seq<u8>, vars: Seq<Variable<'a>>)
    requires
        ops.len() == 2,
        ops[0] == 18,
    ensures
        pr_run(ops, slices, vars, PrState { pc: 0, sp: 0, stack: Seq::empty() }) == Some(
            seq![Emit::Byte(ops[1])],
        ),
{
    reveal(pr_step);
    let st0 = PrState { pc: 0, sp: 0, stack: Seq::<Variable<'a>>::empty() };
    let st1 = PrState { pc: 2, sp: 0, stack: Seq::<Variable<'a>>::empty() };
    assert(pr_step(ops, slices, vars, st0) == PrStep::Next(st1, Some(Emit::Byte(ops[1]))));
    assert(pr_run(ops, slices, vars, st1) == Some(Seq::<Emit>::empty()));
    assert(seq![Emit::Byte(ops[1])] + Seq::<Emit>::empty() =~= seq![Emit::Byte(ops[1])]);
}

/// A capability of one to 255 bytes without `%` compiles, for no parameters, to one that
/// prints exactly its text: printing it into a buffer appends the text to the buffer's byte
/// stream, unless the write is one that drops bytes (a short text that overflows a partly
/// filled buffer, see `lemma_write_overflow_drops`).
pub proof fn law_literal_capability<'a>(
    s: Seq<u8>,
    b0: Seq<u8>,
    m: (Seq<u8>, Seq<u8>),
    cap: nat,
    min_flush: nat,
)
    requires
        no_percent(s),
        1 <= s.len() <= 255,
        b0.len() + s.len() + 2 <= usize::MAX,
        m.1.len() <= cap,
        cap > 0,
        s.len() >= 2 ==> s.len() >= min_flush || cap - m.1.len() >= s.len() || m.1.len() == cap,
        s.len() >= 2 && s.len() < min_flush ==> s.len() <= cap + (cap - m.1.len()),
    ensures
        po_run(s, Seq::empty(), 0, b0.len(), po_start(b0)) matches PoOutcome::Done(c, out) && {
            let es = c.emits(out, Seq::<Variable<'a>>::empty());
            &&& es is Some
            &&& emits_ok(m, cap, min_flush, es.unwrap())
            &&& spec_stream(apply_emits(m, cap, min_flush, es.unwrap())) == spec_stream(m) + s
        },
{
    lemma_literal_compiles(s, b0);
    let l0: int = b0.len() as int;
    let ls: int = s.len() as int;
    let empty = Seq::<Variable<'a>>::empty();
    if s.len() >= 2 {
        let out = b0 + s + seq![19u8, s.len() as u8];
        let c = ParsedStringCap::<0> { base: b0.len() as usize, slice_len: s.len() as usize, op_len: 2 };
        let slices = out.subrange(l0, l0 + ls);
        let ops = out.subrange(l0 + ls, l0 + ls + 2);
        assert(slices =~= s);
        assert(ops =~= seq![19u8, s.len() as u8]);
        lemma_print_one_slice(ops, slices, empty);
        assert(slices.take(s.len() as int) =~= s);
        let es = seq![Emit::Slice(s)];
        assert(c.emits(out, empty) == Some(es));
        assert(es.drop_last() =~= Seq::<Emit>::empty());
        assert(apply_emits(m, cap, min_flush, Seq::<Emit>::empty()) == m);
        assert(emits_ok(m, cap, min_flush, Seq::<Emit>::empty()));
        assert(emits_ok(m, cap, min_flush, es));
        assert(apply_emits(m, cap, min_flush, es) == spec_write(m, cap, min_flush, s));
        super::virtbuf::lemma_write_keeps_stream(m, cap, min_flush, s);
    } else {
        let out = b0 + seq![18u8, s[0]];
        let c = ParsedStringCap::<0> { base: b0.len() as usize, slice_len: 0, op_len: 2 };
        let ops = out.subrange(l0, l0 + 2);
        assert(ops =~= seq![18u8, s[0]]);
        lemma_print_one_byte(ops, out.subrange(l0, l0), empty);
        let es = seq![Emit::Byte(s[0])];
        assert(c.emits(out, empty) == Some(es));
        assert(es.drop_last() =~= Seq::<Emit>::empty());
        assert(apply_emits(m, cap, min_flush, Seq::<Emit>::empty()) == m);
        assert(emits_ok(m, cap, min_flush, Seq::<Emit>::empty()));
        assert(emits_ok(m, cap, min_flush, es));
        assert(apply_emits(m, cap, min_flush, es) == spec_write_byte(m, cap, s[0]));
        super::virtbuf::lemma_write_byte_keeps_stream(m, cap, s[0]);
        assert(s =~= seq![s[0]]);
        assert(spec_stream(m).push(s[0]) =~= spec_stream(m) + s);
    }
}

// ---------------------------------------------------------------------------
// A parameter printed as a number
// ---------------------------------------------------------------------------

/// `%p1%d`: the first parameter, as a decimal number.
pub open spec fn p1_dec() -> Seq<u8> {
    seq![37u8, 112u8, 49u8, 37u8, 100u8]
}

/// The capability `%p1%d` compiles, for one numeric parameter, to one that writes the
/// parameter's decimal text: printing it with the value `v` appends exactly the decimal
/// text of `v` to the buffer's byte stream.
pub proof fn law_param_decimal<'a>(
    b0: Seq<u8>,
    v: i16,
    m: (Seq<u8>, Seq<u8>),
    cap: nat,
    min_flush: nat,
)
    requires
        b0.len() + 3 <= usize::MAX,
        cap >= 6,
    ensures
        po_run(p1_dec(), seq![(0u8, ExprType::Int)], 1, b0.len(), po_start(b0)) matches PoOutcome::Done(
            c,
            out,
        ) && {
            let es = c.emits(out, seq![Variable::<'a>::Int(v)]);
            &&& es == Some(seq![Emit::Num(v)])
            &&& emits_ok(m, cap, min_flush, es.unwrap())
            &&& spec_stream(apply_emits(m, cap, min_flush, es.unwrap())) == spec_stream(m)
                + signed_decimal(v as int)
        },
{
    reveal(po_step);
    reveal(pr_step);
    let s = p1_dec();
    let inputs = seq![(0u8, ExprType::Int)];
    assert(inputs[0].0 == 0u8);
    assert(first_input(inputs, 0) == Some(0nat));
    let st0 = po_start(b0);
    let st1 = PoState {
        i: 3,
        used: 1,
        stack: seq![ExprType::Int],
        ops: seq![17u8, 0u8],
        state: PState::Idle,
        ..st0
    };
    assert(0u16 | (1u16 << 0u16) == 1u16) by (bit_vector);
    assert(Seq::<ExprType>::empty().push(ExprType::Int) =~= seq![ExprType::Int]);
    assert(Seq::<u8>::empty() + seq![17u8, 0u8] + Seq::<u8>::empty() =~= seq![17u8, 0u8]);
    assert(po_step(s, inputs, st0) == PoStep::Next(st1));
    let st2 = PoState { i: 5, stack: Seq::empty(), ops: seq![17u8, 0u8, 21u8], ..st1 };
    assert(st1.stack.subrange(0, 1) =~= seq![ExprType::Int]);
    assert(st1.stack.take(0) =~= Seq::<ExprType>::empty());
    assert(st1.ops.push(21u8) =~= seq![17u8, 0u8, 21u8]);
    assert(po_step(s, inputs, st1) == PoStep::Next(st2));
    assert(1u16 & 1u16 == 1u16 && 1u16 >> 1u16 == 0u16) by (bit_vector);
    lemma_count_bits_zero(15);
    assert(count_bits(1u16, 16) == 1);
    let out = b0 + seq![17u8, 0u8, 21u8];
    let c = ParsedStringCap::<0> { base: b0.len() as usize, slice_len: 0, op_len: 3 };
    assert(po_run(s, inputs, 1, b0.len(), st2) == PoOutcome::Done(c, out));
    assert(po_run(s, inputs, 1, b0.len(), st1) == PoOutcome::Done(c, out));
    let vars = seq![Variable::<'a>::Int(v)];
    let l0 = b0.len() as int;
    let ops = out.subrange(l0, l0 + 3);
    let slices = out.subrange(l0, l0);
    assert(ops =~= seq![17u8, 0u8, 21u8]);
    let p0 = PrState { pc: 0, sp: 0, stack: Seq::<Variable<'a>>::empty() };
    let p1 = PrState { pc: 2, sp: 0, stack: seq![Variable::<'a>::Int(v)] };
    let p2 = PrState { pc: 3, sp: 0, stack: Seq::<Variable<'a>>::empty() };
    assert(Seq::<Variable<'a>>::empty().push(vars[0]) =~= seq![Variable::<'a>::Int(v)]);
    assert(pr_step(ops, slices, vars, p0) == PrStep::Next(p1, None));
    assert(seq![Variable::<'a>::Int(v)].drop_last() =~= Seq::<Variable<'a>>::empty());
    assert(pr_step(ops, slices, vars, p1) == PrStep::Next(p2, Some(Emit::Num(v))));
    assert(pr_run(ops, slices, vars, p2) == Some(Seq::<Emit>::empty()));
    assert(seq![Emit::Num(v)] + Seq::<Emit>::empty() =~= seq![Emit::Num(v)]);
    assert(pr_run(ops, slices, vars, p1) == Some(seq![Emit::Num(v)]));
    assert(c.emits(out, vars) == Some(seq![Emit::Num(v)]));
    let es = seq![Emit::Num(v)];
    assert(es.drop_last() =~= Seq::<Emit>::empty());
    assert(apply_emits(m, cap, min_flush, Seq::<Emit>::empty()) == m);
    assert(emits_ok(m, cap, min_flush, Seq::<Emit>::empty()));
    assert(emits_ok(m, cap, min_flush, es));
    assert(apply_emits(m, cap, min_flush, es) == spec_format_num(m, cap, v));
    super::virtbuf::lemma_format_num_keeps_stream(m, cap, v);
}

// ---------------------------------------------------------------------------
// Text around a parameter
// ---------------------------------------------------------------------------

/// The compiler's state after a run of `l` literal bytes of `s` from `i0` on, started with
/// the operations `ops0` and the data `buf0`: one slice print of `l` bytes added.
pub open spec fn segment_state(
    s: Seq<u8>,
    i0: nat,
    l: nat,
    ops0: Seq<u8>,
    buf0: Seq<u8>,
    used: u16,
) -> PoState {
    PoState {
        i: i0 + l,
        stack: Seq::empty(),
        ops: ops0 + seq![19u8, l as u8],
        buf: buf0 + s.subrange(i0 as int, (i0 + l) as int),
        used,
        state: PState::Slice,
        one: false,
    }
}

proof fn lemma_segment_grow(
    s: Seq<u8>,
    inputs: Seq<(u8, ExprType)>,
    n: nat,
    base: nat,
    i0: nat,
    k: nat,
    l: nat,
    ops0: Seq<u8>,
    buf0: Seq<u8>,
    used: u16,
)
    requires
        2 <= k <= l <= 255,
        i0 + l <= s.len(),
        forall|q: int| i0 <= q < i0 + l ==> s[q] != 37,
    ensures
        po_run(s, inputs, n, base, segment_state(s, i0, k, ops0, buf0, used)) == po_run(
            s,
            inputs,
            n,
            base,
            segment_state(s, i0, l, ops0, buf0, used),
        ),
    decreases l - k,
{
    if k < l {
        reveal(po_step);
        let st = segment_state(s, i0, k, ops0, buf0, used);
        let st2 = segment_state(s, i0, k + 1, ops0, buf0, used);
        let m = st.ops.len();
        assert(s[(i0 + k) as int] != 37);
        assert(st.ops[m - 1] == k as u8);
        assert(st.ops.update(m - 1, (st.ops[m - 1] + 1) as u8) =~= st2.ops);
        assert(st.buf.push(s[(i0 + k) as int]) =~= st2.buf);
        assert(po_step(s, inputs, st) == PoStep::Next(st2));
        lemma_segment_grow(s, inputs, n, base, i0, k + 1, l, ops0, buf0, used);
    }
}

/// A run of two to 255 literal bytes compiles to one slice print of them.
pub proof fn lemma_segment(
    s: Seq<u8>,
    inputs: Seq<(u8, ExprType)>,
    n: nat,
    base: nat,
    i0: nat,
    l: nat,
    ops0: Seq<u8>,
    buf0: Seq<u8>,
    used: u16,
)
    requires
        2 <= l <= 255,
        i0 + l <= s.len(),
        forall|q: int| i0 <= q < i0 + l ==> s[q] != 37,
    ensures
        po_run(
            s,
            inputs,
            n,
            base,
            PoState {
                i: i0,
                stack: Seq::empty(),
                ops: ops0,
                buf: buf0,
                used,
                state: PState::Idle,
                one: false,
            },
        ) == po_run(s, inputs, n, base, segment_state(s, i0, l, ops0, buf0, used)),
{
    let st0 = PoState {
        i: i0,
        stack: Seq::empty(),
        ops: ops0,
        buf: buf0,
        used,
        state: PState::Idle,
        one: false,
    };
    let c0 = s[i0 as int];
    let c1 = s[i0 as int + 1];
    assert(c0 != 37 && c1 != 37);
    let st1 = PoState { i: i0 + 1, ops: ops0 + seq![18u8, c0], state: PState::Byte, ..st0 };
    assert(po_step(s, inputs, st0) == PoStep::Next(st1)) by {
        reveal(po_step);
    }
    let st2 = segment_state(s, i0, 2, ops0, buf0, used);
    let m = st1.ops.len();
    assert(st1.ops.update(m - 1, 2u8).update(m - 2, 19u8) =~= st2.ops);
    assert(st1.buf + seq![st1.ops[m - 1], c1] =~= st2.buf);
    assert(po_step(s, inputs, st1) == PoStep::Next(st2)) by {
        reveal(po_step);
    }
    assert(po_run(s, inputs, n, base, st1) == po_run(s, inputs, n, base, st2));
    assert(po_run(s, inputs, n, base, st0) == po_run(s, inputs, n, base, st1));
    lemma_segment_grow(s, inputs, n, base, i0, 2, l, ops0, buf0, used);
}


/// The compiled form of `t1`, `%p1%d`, `t2` over the data `b0`.
pub open spec fn around_cap(t1: Seq<u8>, t2: Seq<u8>, b0: Seq<u8>) -> ParsedStringCap<0> {
    ParsedStringCap { base: b0.len() as usize, slice_len: (t1.len() + t2.len()) as usize, op_len: 7 }
}

/// The data after compiling `t1`, `%p1%d`, `t2` over `b0`: both texts, then the operations.
pub open spec fn around_out(t1: Seq<u8>, t2: Seq<u8>, b0: Seq<u8>) -> Seq<u8> {
    b0 + t1 + t2 + seq![19u8, t1.len() as u8, 17u8, 0u8, 21u8, 19u8, t2.len() as u8]
}

proof fn lemma_compile_around(t1: Seq<u8>, t2: Seq<u8>, b0: Seq<u8>)
    requires
        no_percent(t1),
        no_percent(t2),
        2 <= t1.len() <= 255,
        2 <= t2.len() <= 255,
        b0.len() + t1.len() + t2.len() + 7 <= usize::MAX,
    ensures
        po_run(t1 + p1_dec() + t2, seq![(0u8, ExprType::Int)], 1, b0.len(), po_start(b0))
            == PoOutcome::Done(around_cap(t1, t2, b0), around_out(t1, t2, b0)),
{
    let s = t1 + p1_dec() + t2;
    let inputs = seq![(0u8, ExprType::Int)];
    let l1 = t1.len();
    let l2 = t2.len();
    let base = b0.len();
    assert(forall|q: int| 0 <= q < l1 ==> s[q] == t1[q]);
    assert(forall|q: int| 0 <= q < l2 ==> s[l1 + 5 + q] == t2[q]);
    let li = l1 as int;
    assert(s[li] == 37 && s[li + 1] == 112 && s[li + 2] == 49 && s[li + 3] == 37 && s[li + 4]
        == 100);
    let e = Seq::<u8>::empty();
    lemma_segment(s, inputs, 1, base, 0, l1, e, b0, 0);
    let st1 = segment_state(s, 0, l1, e, b0, 0);
    assert(s.subrange(0, li) =~= t1);
    assert(inputs[0].0 == 0u8);
    assert(first_input(inputs, 0) == Some(0nat));
    assert(0u16 | (1u16 << 0u16) == 1u16) by (bit_vector);
    let ops2 = seq![19u8, l1 as u8, 17u8, 0u8];
    let st2 = PoState {
        i: l1 + 3,
        stack: seq![ExprType::Int],
        ops: ops2,
        buf: b0 + t1,
        used: 1,
        state: PState::Idle,
        one: false,
    };
    assert(e + seq![19u8, l1 as u8] + seq![17u8, 0u8] + Seq::<u8>::empty() =~= ops2);
    assert(Seq::<ExprType>::empty().push(ExprType::Int) =~= seq![ExprType::Int]);
    assert(po_step(s, inputs, st1) == PoStep::Next(st2)) by {
        reveal(po_step);
    }
    let ops3 = seq![19u8, l1 as u8, 17u8, 0u8, 21u8];
    let st3 = PoState { i: l1 + 5, stack: Seq::empty(), ops: ops3, ..st2 };
    assert(st2.stack.subrange(0, 1) =~= seq![ExprType::Int]);
    assert(st2.stack.take(0) =~= Seq::<ExprType>::empty());
    assert(ops2.push(21u8) =~= ops3);
    assert(po_step(s, inputs, st2) == PoStep::Next(st3)) by {
        reveal(po_step);
    }
    lemma_segment(s, inputs, 1, base, l1 + 5, l2, ops3, b0 + t1, 1);
    let st4 = segment_state(s, l1 + 5, l2, ops3, b0 + t1, 1);
    assert(s.subrange(li + 5, li + 5 + l2) =~= t2);
    assert(1u16 & 1u16 == 1u16 && 1u16 >> 1u16 == 0u16) by (bit_vector);
    lemma_count_bits_zero(15);
    assert(count_bits(1u16, 16) == 1);
    let out = around_out(t1, t2, b0);
    assert(st4.buf + st4.ops =~= out);
    assert(st4.buf.len() - base == l1 + l2);
    assert(po_run(s, inputs, 1, base, st4) == PoOutcome::Done(around_cap(t1, t2, b0), out));
    assert(po_run(s, inputs, 1, base, st2) == po_run(s, inputs, 1, base, st3));
    assert(po_run(s, inputs, 1, base, st1) == po_run(s, inputs, 1, base, st2));
}

proof fn lemma_print_around<'a>(t1: Seq<u8>, t2: Seq<u8>, b0: Seq<u8>, v: i16, vars: Seq<Variable<'a>>)
    requires
        vars == seq![Variable::<'a>::Int(v)],
        2 <= t1.len() <= 255,
        2 <= t2.len() <= 255,
        b0.len() + t1.len() + t2.len() + 7 <= usize::MAX,
    ensures
        around_cap(t1, t2, b0).emits(around_out(t1, t2, b0), vars) == Some(seq![Emit::Slice(t1), Emit::Num(v), Emit::Slice(t2)]),
{
    let l1 = t1.len();
    let l2 = t2.len();
    let out = around_out(t1, t2, b0);
    let b = b0.len() as int;
    let slices = out.subrange(b, b + l1 + l2);
    let pops = out.subrange(b + l1 + l2, b + l1 + l2 + 7);
    assert(slices =~= t1 + t2);
    assert(pops =~= seq![19u8, l1 as u8, 17u8, 0u8, 21u8, 19u8, l2 as u8]);
    let p0 = PrState { pc: 0, sp: 0, stack: Seq::<Variable<'a>>::empty() };
    let p1 = PrState { pc: 2, sp: l1, stack: Seq::<Variable<'a>>::empty() };
    let p2 = PrState { pc: 4, sp: l1, stack: seq![Variable::<'a>::Int(v)] };
    let p3 = PrState { pc: 5, sp: l1, stack: Seq::<Variable<'a>>::empty() };
    let p4 = PrState { pc: 7, sp: l1 + l2, stack: Seq::<Variable<'a>>::empty() };
    assert(slices.subrange(0, l1 as int) =~= t1);
    assert(slices.subrange(l1 as int, (l1 + l2) as int) =~= t2);
    assert(pr_step(pops, slices, vars, p0) == PrStep::Next(p1, Some(Emit::Slice(t1)))) by {
        reveal(pr_step);
    }
    assert(Seq::<Variable<'a>>::empty().push(vars[0]) =~= seq![Variable::<'a>::Int(v)]);
    assert(pr_step(pops, slices, vars, p1) == PrStep::Next(p2, None)) by {
        reveal(pr_step);
    }
    assert(seq![Variable::<'a>::Int(v)].drop_last() =~= Seq::<Variable<'a>>::empty());
    assert(pr_step(pops, slices, vars, p2) == PrStep::Next(p3, Some(Emit::Num(v)))) by {
        reveal(pr_step);
    }
    assert(pr_step(pops, slices, vars, p3) == PrStep::Next(p4, Some(Emit::Slice(t2)))) by {
        reveal(pr_step);
    }
    assert(pr_run(pops, slices, vars, p4) == Some(Seq::<Emit>::empty()));
    assert(seq![Emit::Slice(t2)] + Seq::<Emit>::empty() =~= seq![Emit::Slice(t2)]);
    assert(pr_run(pops, slices, vars, p3) == Some(seq![Emit::Slice(t2)]));
    assert(seq![Emit::Num(v)] + seq![Emit::Slice(t2)] =~= seq![Emit::Num(v), Emit::Slice(t2)]);
    assert(pr_run(pops, slices, vars, p2) == Some(seq![Emit::Num(v), Emit::Slice(t2)]));
    assert(pr_run(pops, slices, vars, p1) == Some(seq![Emit::Num(v), Emit::Slice(t2)]));
    let es = seq![Emit::Slice(t1), Emit::Num(v), Emit::Slice(t2)];
    assert(seq![Emit::Slice(t1)] + seq![Emit::Num(v), Emit::Slice(t2)] =~= es);
    assert(pr_run(pops, slices, vars, p0) == Some(es));
}

proof fn lemma_stream_around(
    m: (Seq<u8>, Seq<u8>),
    cap: nat,
    min_flush: nat,
    t1: Seq<u8>,
    v: i16,
    t2: Seq<u8>,
)
    requires
        emits_unflushed(m, cap, min_flush, seq![Emit::Slice(t1), Emit::Num(v), Emit::Slice(t2)]),
    ensures
        spec_stream(
            apply_emits(m, cap, min_flush, seq![Emit::Slice(t1), Emit::Num(v), Emit::Slice(t2)]),
        ) == spec_stream(m) + t1 + signed_decimal(v as int) + t2,
{
    let es = seq![Emit::Slice(t1), Emit::Num(v), Emit::Slice(t2)];
    let e1 = es.drop_last();
    let e0 = e1.drop_last();
    let em = e0.drop_last();
    assert(e1 =~= seq![Emit::Slice(t1), Emit::Num(v)]);
    assert(e0 =~= seq![Emit::Slice(t1)]);
    assert(em =~= Seq::<Emit>::empty());
    assert(apply_emits(m, cap, min_flush, em) == m);
    let m1 = apply_emits(m, cap, min_flush, e0);
    let m2 = apply_emits(m, cap, min_flush, e1);
    assert(emits_unflushed(m, cap, min_flush, e1));
    assert(emits_unflushed(m, cap, min_flush, e0));
    assert(t1.len() < min_flush && m.1.len() + t1.len() <= cap);
    assert(m1 == spec_write(m, cap, min_flush, t1));
    assert(m1 == (m.0, m.1 + t1));
    assert(m2 == spec_format_num(m1, cap, v));
    assert(apply_emits(m, cap, min_flush, es) == spec_write(m2, cap, min_flush, t2));
    assert(spec_stream(apply_emits(m, cap, min_flush, es)) =~= spec_stream(m) + t1
        + signed_decimal(v as int) + t2);
}

/// A capability of literal text around `%p1%d` (each side two to 255 bytes without `%`)
/// compiles, for one numeric parameter, to one that prints the text before, the parameter's
/// decimal text, then the text after; when the buffer takes all three without a device call,
/// printing with `v` appends exactly `t1`, the decimal text of `v`, and `t2` to its stream.
pub proof fn law_text_around_param<'a>(
    t1: Seq<u8>,
    t2: Seq<u8>,
    b0: Seq<u8>,
    v: i16,
    m: (Seq<u8>, Seq<u8>),
    cap: nat,
    min_flush: nat,
)
    requires
        no_percent(t1),
        no_percent(t2),
        2 <= t1.len() <= 255,
        2 <= t2.len() <= 255,
        b0.len() + t1.len() + t2.len() + 7 <= usize::MAX,
    ensures
        po_run(t1 + p1_dec() + t2, seq![(0u8, ExprType::Int)], 1, b0.len(), po_start(b0)) matches PoOutcome::Done(
            c,
            out,
        ) && {
            let es = c.emits(out, seq![Variable::<'a>::Int(v)]);
            &&& es == Some(seq![Emit::Slice(t1), Emit::Num(v), Emit::Slice(t2)])
            &&& emits_unflushed(m, cap, min_flush, es.unwrap()) ==> spec_stream(
                apply_emits(m, cap, min_flush, es.unwrap()),
            ) == spec_stream(m) + t1 + signed_decimal(v as int) + t2
        },
{
    lemma_compile_around(t1, t2, b0);
    lemma_print_around(t1, t2, b0, v, seq![Variable::<'a>::Int(v)]);
    let es = seq![Emit::Slice(t1), Emit::Num(v), Emit::Slice(t2)];
    if emits_unflushed(m, cap, min_flush, es) {
        lemma_stream_around(m, cap, min_flush, t1, v, t2);
    }
}

} // verus!
