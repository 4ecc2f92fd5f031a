use vstd::prelude::*;

use super::terminfo::ParseError;
use crate::stuff::Stack;

verus! {

/// The operations of a compiled string capability, one byte each.
#[derive(Clone, Copy, Debug, PartialEq, Eq, Structural)]
pub enum OpCode {
    Add,
    AddOne,
    Sub,
    Mul,
    Div,
    Mod,
    BitAnd,
    BitOr,
    BitXor,
    CondEq,
    CondLargerThen,
    CondSmallerThen,
    CondOr,
    CondAnd,
    CondNot,
    StrLen,
    PushConst,
    PushParam,
    PrintByte,
    PrintSlice,
    PrintOct,
    PrintDec,
    PrintHex,
    PrintBHex,
    PrintStr,
    PrintChar,
}

/// The byte that stands for an operation: its position in the list of operations.
pub open spec fn op_code(op: OpCode) -> u8 {
    match op {
        OpCode::Add => 0,
        OpCode::AddOne => 1,
        OpCode::Sub => 2,
        OpCode::Mul => 3,
        OpCode::Div => 4,
        OpCode::Mod => 5,
        OpCode::BitAnd => 6,
        OpCode::BitOr => 7,
        OpCode::BitXor => 8,
        OpCode::CondEq => 9,
        OpCode::CondLargerThen => 10,
        OpCode::CondSmallerThen => 11,
        OpCode::CondOr => 12,
        OpCode::CondAnd => 13,
        OpCode::CondNot => 14,
        OpCode::StrLen => 15,
        OpCode::PushConst => 16,
        OpCode::PushParam => 17,
        OpCode::PrintByte => 18,
        OpCode::PrintSlice => 19,
        OpCode::PrintOct => 20,
        OpCode::PrintDec => 21,
        OpCode::PrintHex => 22,
        OpCode::PrintBHex => 23,
        OpCode::PrintStr => 24,
        OpCode::PrintChar => 25,
    }
}

/// The little-endian bytes of `v`.
pub open spec fn i16_bytes(v: i16) -> Seq<u8> {
    let u: int = if v < 0 {
        v + 65536
    } else {
        v as int
    };
    seq![(u % 256) as u8, (u / 256) as u8]
}

impl OpCode {
    pub fn code(self) -> (r: u8)
        ensures
            r == op_code(self),
    {
        match self {
            OpCode::Add => 0,
            OpCode::AddOne => 1,
            OpCode::Sub => 2,
            OpCode::Mul => 3,
            OpCode::Div => 4,
            OpCode::Mod => 5,
            OpCode::BitAnd => 6,
            OpCode::BitOr => 7,
            OpCode::BitXor => 8,
            OpCode::CondEq => 9,
            OpCode::CondLargerThen => 10,
            OpCode::CondSmallerThen => 11,
            OpCode::CondOr => 12,
            OpCode::CondAnd => 13,
            OpCode::CondNot => 14,
            OpCode::StrLen => 15,
            OpCode::PushConst => 16,
            OpCode::PushParam => 17,
            OpCode::PrintByte => 18,
            OpCode::PrintSlice => 19,
            OpCode::PrintOct => 20,
            OpCode::PrintDec => 21,
            OpCode::PrintHex => 22,
            OpCode::PrintBHex => 23,
            OpCode::PrintStr => 24,
            OpCode::PrintChar => 25,
        }
    }

    /// Appends "push parameter `id`".
    pub fn push_p(ops: &mut Vec<u8>, id: u8)
        ensures
            final(ops)@ == old(ops)@ + seq![op_code(OpCode::PushParam), id],
    {
        ops.push(OpCode::PushParam.code());
        ops.push(id);
        assert(ops@ =~= old(ops)@ + seq![op_code(OpCode::PushParam), id]);
    }

    /// Appends "print `byte`".
    pub fn push_byte(ops: &mut Vec<u8>, byte: u8)
        ensures
            final(ops)@ == old(ops)@ + seq![op_code(OpCode::PrintByte), byte],
    {
        ops.push(OpCode::PrintByte.code());
        ops.push(byte);
        assert(ops@ =~= old(ops)@ + seq![op_code(OpCode::PrintByte), byte]);
    }

    /// Appends "push the constant `num`", the constant as two little-endian bytes.
    pub fn push_const(ops: &mut Vec<u8>, num: i16)
        ensures
            final(ops)@ == old(ops)@ + seq![op_code(OpCode::PushConst)] + i16_bytes(num),
    {
        ops.push(OpCode::PushConst.code());
        let u: u16 = if num < 0 {
            (num as i32 + 65536) as u16
        } else {
            num as u16
        };
        ops.push((u % 256) as u8);
        ops.push((u / 256) as u8);
        assert(ops@ =~= old(ops)@ + seq![op_code(OpCode::PushConst)] + i16_bytes(num));
    }
}

/// The type of a value on the compiler's stack.
#[derive(Clone, Copy, PartialEq, Eq, Debug, Structural)]
pub enum ExprType {
    String,
    Int,
    Bool,
}

/// Whether the literal text being compiled ends in a single byte, a slice, or neither.
#[derive(Clone, Copy, PartialEq, Eq, Structural)]
pub enum PState {
    Idle,
    Byte,
    Slice,
}

/// A parameter handed to a compiled capability.
#[derive(Clone, Copy)]
pub enum Param<'a> {
    Str(&'a str),
    Int(i16),
    Bool(bool),
}

/// A value on the interpreter's stack.
#[derive(Clone, Copy)]
pub enum Variable<'a> {
    Str(&'a str),
    Int(i16),
    Bool(bool),
}

impl<'a> Param<'a> {
    pub fn to_var(self) -> (r: Variable<'a>)
        ensures
            r == param_var(self),
    {
        match self {
            Param::Str(s) => Variable::Str(s),
            Param::Int(i) => Variable::Int(i),
            Param::Bool(b) => Variable::Bool(b),
        }
    }
}

pub open spec fn param_var<'a>(p: Param<'a>) -> Variable<'a> {
    match p {
        Param::Str(s) => Variable::Str(s),
        Param::Int(i) => Variable::Int(i),
        Param::Bool(b) => Variable::Bool(b),
    }
}

/// A compiled string capability: its literal slices and its operations lie in a data buffer
/// from `base` on, the slices first.
pub struct ParsedStringCap<const N: usize> {
    pub base: usize,
    pub slice_len: usize,
    pub op_len: usize,
}

pub const OP_STACK_SIZE: usize = 16;

// ---------------------------------------------------------------------------
// The compiler, stated
// ---------------------------------------------------------------------------

/// Which operand types an operation accepts.
#[derive(Clone, Copy, PartialEq, Eq, Structural)]
pub enum Operands {
    Ints,
    Bools,
    Strs,
    Never,
}

pub open spec fn operands_ok(k: Operands, args: Seq<ExprType>) -> bool {
    match k {
        Operands::Ints => forall|j: int| 0 <= j < args.len() ==> args[j] == ExprType::Int,
        Operands::Bools => forall|j: int| 0 <= j < args.len() ==> args[j] == ExprType::Bool,
        Operands::Strs => forall|j: int| 0 <= j < args.len() ==> args[j] == ExprType::String,
        Operands::Never => false,
    }
}

/// The operations that take values from the stack and push a result: the operation, how
/// many values it takes, their types and the type of the result.
pub open spec fn calc_op(c: u8) -> Option<(OpCode, nat, Operands, ExprType)> {
    if c == 43 {
        Some((OpCode::Add, 2, Operands::Ints, ExprType::Int))
    } else if c == 38 {
        Some((OpCode::BitAnd, 2, Operands::Ints, ExprType::Int))
    } else if c == 65 {
        Some((OpCode::CondAnd, 2, Operands::Bools, ExprType::Bool))
    } else if c == 33 {
        Some((OpCode::CondNot, 1, Operands::Bools, ExprType::Bool))
    } else if c == 79 {
        Some((OpCode::CondOr, 2, Operands::Bools, ExprType::Bool))
    } else if c == 47 {
        Some((OpCode::Div, 2, Operands::Ints, ExprType::Int))
    } else if c == 61 {
        Some((OpCode::CondEq, 2, Operands::Never, ExprType::Bool))
    } else if c == 62 {
        Some((OpCode::CondLargerThen, 2, Operands::Never, ExprType::Bool))
    } else if c == 109 {
        Some((OpCode::Mod, 2, Operands::Ints, ExprType::Int))
    } else if c == 42 {
        Some((OpCode::Mul, 2, Operands::Ints, ExprType::Int))
    } else if c == 124 {
        Some((OpCode::BitOr, 2, Operands::Ints, ExprType::Int))
    } else if c == 60 {
        Some((OpCode::CondSmallerThen, 2, Operands::Never, ExprType::Bool))
    } else if c == 108 {
        Some((OpCode::StrLen, 1, Operands::Strs, ExprType::Int))
    } else if c == 45 {
        Some((OpCode::Sub, 2, Operands::Ints, ExprType::Int))
    } else if c == 94 {
        Some((OpCode::BitXor, 2, Operands::Ints, ExprType::Int))
    } else {
        None
    }
}

/// The output operations: each takes one value of the given type.
pub open spec fn print_op(c: u8) -> Option<(OpCode, Operands)> {
    if c == 100 {
        Some((OpCode::PrintDec, Operands::Ints))
    } else if c == 111 {
        Some((OpCode::PrintOct, Operands::Ints))
    } else if c == 120 {
        Some((OpCode::PrintHex, Operands::Ints))
    } else if c == 88 {
        Some((OpCode::PrintBHex, Operands::Ints))
    } else if c == 115 {
        Some((OpCode::PrintStr, Operands::Strs))
    } else if c == 99 {
        Some((OpCode::PrintChar, Operands::Ints))
    } else {
        None
    }
}

/// The value of ASCII decimal digits.
pub open spec fn digits_value(d: Seq<u8>) -> int
    decreases d.len(),
{
    if d.len() == 0 {
        0
    } else {
        10 * digits_value(d.drop_last()) + (d.last() - 48)
    }
}

pub open spec fn all_digits(d: Seq<u8>) -> bool {
    forall|k: int| 0 <= k < d.len() ==> 48 <= #[trigger] d[k] <= 57
}

/// `i16::from_ascii`: an optional sign, then at least one digit, in range.
pub open spec fn parse_i16(d: Seq<u8>) -> Option<i16> {
    let neg = d.len() > 0 && d[0] == 45;
    let body = if d.len() > 0 && (d[0] == 45 || d[0] == 43) {
        d.drop_first()
    } else {
        d
    };
    if body.len() == 0 || !all_digits(body) {
        None
    } else {
        let v = if neg {
            -digits_value(body)
        } else {
            digits_value(body)
        };
        if -32768 <= v <= 32767 {
            Some(v as i16)
        } else {
            None
        }
    }
}

/// The state of the compiler after some of the input: read position, type stack, operations,
/// literal bytes appended to the data buffer, parameters used, literal state, `%i` seen.
pub struct PoState {
    pub i: nat,
    pub stack: Seq<ExprType>,
    pub ops: Seq<u8>,
    pub buf: Seq<u8>,
    pub used: u16,
    pub state: PState,
    pub one: bool,
}

pub enum PoStep {
    Panic,
    Fail(ParseError),
    Next(PoState),
}

/// Pushes onto the type stack when there is room; a full stack stays as it is.
pub open spec fn push_ty(stack: Seq<ExprType>, t: ExprType) -> Seq<ExprType> {
    if stack.len() < OP_STACK_SIZE {
        stack.push(t)
    } else {
        stack
    }
}

/// The first input declared for parameter `id`.
pub open spec fn first_input(inputs: Seq<(u8, ExprType)>, id: u8) -> Option<nat> {
    if exists|k: int| 0 <= k < inputs.len() && inputs[k].0 == id {
        Some(
            (choose|k: int|
                0 <= k < inputs.len() && inputs[k].0 == id && forall|j: int|
                    0 <= j < k ==> inputs[j].0 != id) as nat,
        )
    } else {
        None
    }
}

/// Reads the digits of a `%{..}` constant from `p` on: the digits and the position after `}`.
pub open spec fn scan_brace(s: Seq<u8>, p: nat, digits: Seq<u8>) -> Step2
    decreases s.len() - p,
{
    if p >= s.len() {
        Step2::Panic
    } else if s[p as int] == 125 {
        Step2::Done(digits, p + 1)
    } else if digits.len() == 6 {
        Step2::Fail(ParseError::InvalidConsts)
    } else {
        scan_brace(s, p + 1, digits.push(s[p as int]))
    }
}

pub enum Step2 {
    Panic,
    Fail(ParseError),
    Done(Seq<u8>, nat),
}

/// One step of the compiler at `st.i`.
#[verifier::opaque]
pub open spec fn po_step(s: Seq<u8>, inputs: Seq<(u8, ExprType)>, st: PoState) -> PoStep {
    let i = st.i;
    let c = s[i as int];
    if c == 37 {
        let st = PoState { state: PState::Idle, ..st };
        if i + 1 >= s.len() {
            PoStep::Panic
        } else {
            let c2 = s[(i + 1) as int];
            if c2 == 63 {
                PoStep::Fail(ParseError::MissingFeatureIf)
            } else if c2 == 37 {
                PoStep::Next(
                    PoState { i: i + 2, ops: st.ops + seq![op_code(OpCode::PrintByte), 37u8], ..st },
                )
            } else if c2 == 112 {
                if i + 2 >= s.len() {
                    PoStep::Panic
                } else {
                    let c3 = s[(i + 2) as int];
                    if 49 <= c3 <= 57 {
                        let id = (c3 - 49) as u8;
                        match first_input(inputs, id) {
                            None => PoStep::Panic,
                            Some(idx) => {
                                if idx >= 16 {
                                    PoStep::Panic
                                } else {
                                    let extra = if st.one && (id == 1 || id == 2) {
                                        seq![op_code(OpCode::AddOne)]
                                    } else {
                                        Seq::empty()
                                    };
                                    PoStep::Next(
                                        PoState {
                                            i: i + 3,
                                            used: st.used | (1u16 << (idx as u16)),
                                            stack: push_ty(st.stack, inputs[idx as int].1),
                                            ops: st.ops + seq![
                                                op_code(OpCode::PushParam),
                                                idx as u8,
                                            ] + extra,
                                            ..st
                                        },
                                    )
                                }
                            },
                        }
                    } else {
                        PoStep::Fail(ParseError::InvalidId)
                    }
                }
            } else if c2 == 91 {
                if exists|k: int| i + 2 <= k < s.len() && s[k] == 93 {
                    PoStep::Panic
                } else {
                    PoStep::Fail(ParseError::InvalidInputMatch)
                }
            } else if c2 == 123 {
                match scan_brace(s, i + 2, Seq::empty()) {
                    Step2::Panic => PoStep::Panic,
                    Step2::Fail(e) => PoStep::Fail(e),
                    Step2::Done(digits, p) => match parse_i16(digits) {
                        None => PoStep::Fail(ParseError::InvalidConsts),
                        Some(v) => PoStep::Next(
                            PoState {
                                i: p,
                                ops: st.ops + seq![op_code(OpCode::PushConst)] + i16_bytes(v),
                                ..st
                            },
                        ),
                    },
                }
            } else if c2 == 105 {
                PoStep::Next(PoState { i: i + 2, one: true, ..st })
            } else if c2 == 39 {
                if i + 3 >= s.len() {
                    PoStep::Panic
                } else if s[(i + 3) as int] == 39 {
                    PoStep::Next(
                        PoState {
                            i: i + 4,
                            ops: st.ops + seq![op_code(OpCode::PushConst), s[(i + 2) as int], 0u8],
                            stack: push_ty(st.stack, ExprType::Int),
                            ..st
                        },
                    )
                } else {
                    PoStep::Fail(ParseError::InvalidCharConst)
                }
            } else {
                let n = st.stack.len();
                match calc_op(c2) {
                    Some((op, argc, kinds, ret)) => {
                        if n < argc || !operands_ok(kinds, st.stack.subrange(n - argc, n as int)) {
                            PoStep::Panic
                        } else {
                            PoStep::Next(
                                PoState {
                                    i: i + 2,
                                    stack: push_ty(st.stack.take(n - argc), ret),
                                    ops: st.ops.push(op_code(op)),
                                    ..st
                                },
                            )
                        }
                    },
                    None => match print_op(c2) {
                        Some((op, kinds)) => {
                            if n < 1 || !operands_ok(kinds, st.stack.subrange(n - 1, n as int)) {
                                PoStep::Panic
                            } else {
                                PoStep::Next(
                                    PoState {
                                        i: i + 2,
                                        stack: st.stack.take(n - 1),
                                        ops: st.ops.push(op_code(op)),
                                        ..st
                                    },
                                )
                            }
                        },
                        None => PoStep::Fail(ParseError::InvalidMod),
                    },
                }
            }
        }
    } else {
        let m = st.ops.len();
        match st.state {
            PState::Idle => PoStep::Next(
                PoState {
                    i: i + 1,
                    ops: st.ops + seq![op_code(OpCode::PrintByte), c],
                    state: PState::Byte,
                    ..st
                },
            ),
            PState::Byte => {
                if m < 2 {
                    PoStep::Panic
                } else {
                    PoStep::Next(
                        PoState {
                            i: i + 1,
                            ops: st.ops.update(m - 1, 2u8).update(m - 2, op_code(OpCode::PrintSlice)),
                            buf: st.buf + seq![st.ops[m - 1], c],
                            state: PState::Slice,
                            ..st
                        },
                    )
                }
            },
            PState::Slice => {
                if m < 1 || st.ops[m - 1] == 255 {
                    PoStep::Panic
                } else {
                    PoStep::Next(
                        PoState {
                            i: i + 1,
                            ops: st.ops.update(m - 1, (st.ops[m - 1] + 1) as u8),
                            buf: st.buf.push(c),
                            ..st
                        },
                    )
                }
            },
        }
    }
}

/// The number of set bits among the lowest `k` bits of `x`.
pub open spec fn count_bits(x: u16, k: nat) -> nat
    decreases k,
{
    if k == 0 {
        0
    } else {
        (x & 1u16) as nat + count_bits(x >> 1u16, (k - 1) as nat)
    }
}

/// The compiler's outcome: the compiled capability and the data buffer after it, or the error
/// and the data buffer as the compiler left it.
pub enum PoOutcome {
    Panic,
    Fail(ParseError, Seq<u8>),
    Done(ParsedStringCap<0>, Seq<u8>),
}

/// The compiler from state `st` on, for `n` inputs, with the data buffer starting at `base`.
pub open spec fn po_run(
    s: Seq<u8>,
    inputs: Seq<(u8, ExprType)>,
    n: nat,
    base: nat,
    st: PoState,
) -> PoOutcome
    decreases s.len() - st.i,
{
    if st.i >= s.len() {
        if st.stack.len() != 0 {
            PoOutcome::Fail(ParseError::NotEmptyStack, st.buf)
        } else {
            let out = st.buf + st.ops;
            if count_bits(st.used, 16) != n {
                PoOutcome::Fail(ParseError::UnusedParam, out)
            } else {
                PoOutcome::Done(
                    ParsedStringCap {
                        base: base as usize,
                        slice_len: (st.buf.len() - base) as usize,
                        op_len: st.ops.len() as usize,
                    },
                    out,
                )
            }
        }
    } else {
        match po_step(s, inputs, st) {
            PoStep::Panic => PoOutcome::Panic,
            PoStep::Fail(e) => PoOutcome::Fail(e, st.buf),
            PoStep::Next(st2) => {
                if st.i < st2.i <= s.len() {
                    po_run(s, inputs, n, base, st2)
                } else {
                    PoOutcome::Panic
                }
            },
        }
    }
}

/// The compiler's start state over a data buffer `buf`.
pub open spec fn po_start(buf: Seq<u8>) -> PoState {
    PoState {
        i: 0,
        stack: Seq::empty(),
        ops: Seq::empty(),
        buf,
        used: 0,
        state: PState::Idle,
        one: false,
    }
}

// ---------------------------------------------------------------------------
// The compiler
// ---------------------------------------------------------------------------

enum StepOut {
    Continue,
    Panic,
    Fail(ParseError),
}

struct Compiler {
    i: usize,
    stack: Stack<ExprType, 16>,
    ops: Vec<u8>,
    used: u16,
    state: PState,
    one: bool,
}

spec fn cview(c: &Compiler, buf: Seq<u8>) -> PoState {
    PoState {
        i: c.i as nat,
        stack: c.stack@,
        ops: c.ops@,
        buf,
        used: c.used,
        state: c.state,
        one: c.one,
    }
}

spec fn step_agrees(
    r: StepOut,
    s: PoStep,
    c2: &Compiler,
    buf_before: Seq<u8>,
    buf_after: Seq<u8>,
) -> bool {
    match s {
        PoStep::Panic => r is Panic,
        PoStep::Fail(e) => r == StepOut::Fail(e) && buf_after == buf_before,
        PoStep::Next(st2) => r is Continue && cview(c2, buf_after) == st2,
    }
}

fn first_input_exec(inputs: &[(u8, ExprType)], id: u8) -> (r: Option<usize>)
    ensures
        r matches Some(k) ==> first_input(inputs@, id) == Some(k as nat) && k < inputs@.len(),
        r is None ==> first_input(inputs@, id) is None,
{
    let n = inputs.len();
    let mut k: usize = 0;
    while k < n
        invariant
            n == inputs@.len(),
            k <= n,
            forall|j: int| 0 <= j < k ==> inputs@[j].0 != id,
        decreases n - k,
    {
        if inputs[k].0 == id {
            proof {
                let k2 = choose|k2: int|
                    0 <= k2 < inputs@.len() && inputs@[k2].0 == id && forall|j: int|
                        0 <= j < k2 ==> inputs@[j].0 != id;
                assert(0 <= k2 < inputs@.len() && inputs@[k2].0 == id && forall|j: int|
                    0 <= j < k2 ==> inputs@[j].0 != id);
                if k2 < k {
                    assert(inputs@[k2].0 != id);
                } else if k2 > k {
                    assert(inputs@[k as int].0 != id);
                }
            }
            return Some(k);
        }
        k = k + 1;
    }
    None
}

fn calc_op_exec(c: u8) -> (r: Option<(OpCode, usize, Operands, ExprType)>)
    ensures
        match calc_op(c) {
            Some((op, argc, kinds, ret)) => r == Some((op, argc as usize, kinds, ret)),
            None => r is None,
        },
{
    if c == 43 {
        Some((OpCode::Add, 2, Operands::Ints, ExprType::Int))
    } else if c == 38 {
        Some((OpCode::BitAnd, 2, Operands::Ints, ExprType::Int))
    } else if c == 65 {
        Some((OpCode::CondAnd, 2, Operands::Bools, ExprType::Bool))
    } else if c == 33 {
        Some((OpCode::CondNot, 1, Operands::Bools, ExprType::Bool))
    } else if c == 79 {
        Some((OpCode::CondOr, 2, Operands::Bools, ExprType::Bool))
    } else if c == 47 {
        Some((OpCode::Div, 2, Operands::Ints, ExprType::Int))
    } else if c == 61 {
        Some((OpCode::CondEq, 2, Operands::Never, ExprType::Bool))
    } else if c == 62 {
        Some((OpCode::CondLargerThen, 2, Operands::Never, ExprType::Bool))
    } else if c == 109 {
        Some((OpCode::Mod, 2, Operands::Ints, ExprType::Int))
    } else if c == 42 {
        Some((OpCode::Mul, 2, Operands::Ints, ExprType::Int))
    } else if c == 124 {
        Some((OpCode::BitOr, 2, Operands::Ints, ExprType::Int))
    } else if c == 60 {
        Some((OpCode::CondSmallerThen, 2, Operands::Never, ExprType::Bool))
    } else if c == 108 {
        Some((OpCode::StrLen, 1, Operands::Strs, ExprType::Int))
    } else if c == 45 {
        Some((OpCode::Sub, 2, Operands::Ints, ExprType::Int))
    } else if c == 94 {
        Some((OpCode::BitXor, 2, Operands::Ints, ExprType::Int))
    } else {
        None
    }
}

fn print_op_exec(c: u8) -> (r: Option<(OpCode, Operands)>)
    ensures
        r == print_op(c),
{
    if c == 100 {
        Some((OpCode::PrintDec, Operands::Ints))
    } else if c == 111 {
        Some((OpCode::PrintOct, Operands::Ints))
    } else if c == 120 {
        Some((OpCode::PrintHex, Operands::Ints))
    } else if c == 88 {
        Some((OpCode::PrintBHex, Operands::Ints))
    } else if c == 115 {
        Some((OpCode::PrintStr, Operands::Strs))
    } else if c == 99 {
        Some((OpCode::PrintChar, Operands::Ints))
    } else {
        None
    }
}

fn operands_ok_exec(kinds: Operands, args: &[ExprType]) -> (r: bool)
    ensures
        r == operands_ok(kinds, args@),
{
    let want = match kinds {
        Operands::Ints => ExprType::Int,
        Operands::Bools => ExprType::Bool,
        Operands::Strs => ExprType::String,
        Operands::Never => {
            return false;
        },
    };
    assert(kinds == Operands::Ints ==> want == ExprType::Int);
    assert(kinds == Operands::Bools ==> want == ExprType::Bool);
    assert(kinds == Operands::Strs ==> want == ExprType::String);
    let n = args.len();
    let mut k: usize = 0;
    while k < n
        invariant
            n == args@.len(),
            k <= n,
            forall|j: int| 0 <= j < k ==> args@[j] == want,
            kinds == Operands::Ints ==> want == ExprType::Int,
            kinds == Operands::Bools ==> want == ExprType::Bool,
            kinds == Operands::Strs ==> want == ExprType::String,
            kinds != Operands::Never,
        decreases n - k,
    {
        if args[k] != want {
            assert(args@[k as int] != want);
            return false;
        }
        k = k + 1;
    }
    true
}

/// `i16::from_ascii` for at most six bytes.
fn i16_from_ascii(d: &[u8]) -> (r: Option<i16>)
    requires
        d@.len() <= 6,
    ensures
        r == parse_i16(d@),
{
    let n = d.len();
    if n == 0 {
        return None;
    }
    let neg = d[0] == 45;
    let start: usize = if d[0] == 45 || d[0] == 43 {
        1
    } else {
        0
    };
    let ghost body = if d[0] == 45 || d[0] == 43 {
        d@.drop_first()
    } else {
        d@
    };
    assert(body =~= d@.subrange(start as int, n as int));
    if start == n {
        return None;
    }
    let mut v: i32 = 0;
    let mut k: usize = start;
    let ghost mut p: int = 1;
    proof {
        reveal_with_fuel(crate::stuff::pow10, 3);
    }
    while k < n
        invariant
            n == d@.len(),
            n <= 6,
            start <= k <= n,
            body =~= d@.subrange(start as int, n as int),
            n > 0,
            neg == (d@[0] == 45),
            body == (if d@.len() > 0 && (d@[0] == 45 || d@[0] == 43) {
                d@.drop_first()
            } else {
                d@
            }),
            all_digits(body.take(k - start)),
            v == digits_value(body.take(k - start)),
            0 <= v < p,
            p == crate::stuff::pow10((k - start) as nat),
            p <= crate::stuff::pow10(k as nat),
        decreases n - k,
    {
        let c = d[k];
        if c < 48 || c > 57 {
            assert(body[k - start] == c);
            assert(!all_digits(body));
            return None;
        }
        proof {
            assert(body.take(k - start + 1).drop_last() =~= body.take(k - start));
            assert(body.take(k - start + 1) =~= body.take(k - start).push(c));
            reveal_with_fuel(crate::stuff::pow10, 8);
            assert(crate::stuff::pow10(k as nat) <= 100000);
        }
        v = 10 * v + (c - 48) as i32;
        proof {
            p = 10 * p;
        }
        k = k + 1;
    }
    assert(body.take(n - start) =~= body);
    let val: i32 = if neg {
        -v
    } else {
        v
    };
    if val < -32768 || val > 32767 {
        None
    } else {
        Some(val as i16)
    }
}

impl Compiler {
    fn step_param(&mut self, s: &[u8], inputs: &[(u8, ExprType)], buf: &Vec<u8>) -> (r: StepOut)
        requires
            old(self).i + 2 < s@.len(),
            s@[old(self).i as int] == 37,
            s@[old(self).i + 1] == 112,
            old(self).state == PState::Idle,
            old(self).stack.wf(),
        ensures
            step_agrees(r, po_step(s@, inputs@, cview(old(self), buf@)), final(self), buf@, buf@),
            final(self).stack.wf(),
    {
        reveal(po_step);
        let sl = s.len();
        let c3 = s[self.i + 2];
        if !(49 <= c3 && c3 <= 57) {
            return StepOut::Fail(ParseError::InvalidId);
        }
        let id = c3 - 49;
        let idx = match first_input_exec(inputs, id) {
            Some(k) => k,
            None => {
                return StepOut::Panic;
            },
        };
        if idx >= 16 {
            return StepOut::Panic;
        }
        self.used = self.used | (1u16 << (idx as u16));
        let _ = self.stack.push(inputs[idx].1);
        OpCode::push_p(&mut self.ops, idx as u8);
        if self.one && (id == 1 || id == 2) {
            self.ops.push(OpCode::AddOne.code());
        }
        self.i = self.i + 3;
        proof {
            assert(first_input(inputs@, id) == Some(idx as nat));
            assert(self.stack@ == push_ty(old(self).stack@, inputs@[idx as int].1));
            assert(self.used == old(self).used | (1u16 << (idx as u16)));
            if old(self).one && (id == 1 || id == 2) {
                assert(self.ops@ =~= old(self).ops@ + seq![op_code(OpCode::PushParam), idx as u8]
                    + seq![op_code(OpCode::AddOne)]);
            } else {
                assert(self.ops@ =~= old(self).ops@ + seq![op_code(OpCode::PushParam), idx as u8]
                    + Seq::<u8>::empty());
            }
        }
        StepOut::Continue
    }

    fn step_brace(&mut self, s: &[u8], buf: &Vec<u8>) -> (r: StepOut)
        requires
            old(self).i + 1 < s@.len(),
            s@[old(self).i as int] == 37,
            s@[old(self).i + 1] == 123,
            old(self).state == PState::Idle,
        ensures
            match scan_brace(s@, (old(self).i + 2) as nat, Seq::empty()) {
                Step2::Panic => r is Panic,
                Step2::Fail(e) => r == StepOut::Fail(e),
                Step2::Done(digits, p) => match parse_i16(digits) {
                    None => r == StepOut::Fail(ParseError::InvalidConsts),
                    Some(v) => r is Continue && cview(final(self), buf@) == PoState {
                        i: p,
                        ops: old(self).ops@ + seq![op_code(OpCode::PushConst)] + i16_bytes(v),
                        ..cview(old(self), buf@)
                    },
                },
            },
            final(self).stack == old(self).stack,
    {
        let n = s.len();
        let mut digits: Vec<u8> = Vec::new();
        let mut p = self.i + 2;
        loop
            invariant
                n == s@.len(),
                self.i + 2 <= p,
                digits@.len() <= 6,
                scan_brace(s@, p as nat, digits@) == scan_brace(
                    s@,
                    (self.i + 2) as nat,
                    Seq::empty(),
                ),
                self == old(self),
            ensures
                p < n,
                digits@.len() <= 6,
                self == old(self),
                scan_brace(s@, (self.i + 2) as nat, Seq::empty()) == Step2::Done(
                    digits@,
                    (p + 1) as nat,
                ),
            decreases n - p,
        {
            if p >= n {
                return StepOut::Panic;
            }
            let c = s[p];
            if c == 125 {
                assert(scan_brace(s@, p as nat, digits@) == Step2::Done(digits@, (p + 1) as nat));
                break;
            }
            if digits.len() == 6 {
                return StepOut::Fail(ParseError::InvalidConsts);
            }
            digits.push(c);
            p = p + 1;
        }
        match i16_from_ascii(digits.as_slice()) {
            None => StepOut::Fail(ParseError::InvalidConsts),
            Some(v) => {
                OpCode::push_const(&mut self.ops, v);
                self.i = p + 1;
                StepOut::Continue
            },
        }
    }

    fn step_char_const(&mut self, s: &[u8], buf: &Vec<u8>) -> (r: StepOut)
        requires
            old(self).i + 1 < s@.len(),
            s@[old(self).i as int] == 37,
            s@[old(self).i + 1] == 39,
            old(self).state == PState::Idle,
            old(self).stack.wf(),
        ensures
            step_agrees(r, po_step(s@, Seq::empty(), cview(old(self), buf@)), final(self), buf@, buf@),
            final(self).stack.wf(),
    {
        reveal(po_step);
        let sl = s.len();
        let i = self.i;
        if sl - i <= 3 {
            return StepOut::Panic;
        }
        let c = s[i + 2];
        if s[i + 3] != 39 {
            return StepOut::Fail(ParseError::InvalidCharConst);
        }
        OpCode::push_const(&mut self.ops, c as i16);
        let _ = self.stack.push(ExprType::Int);
        self.i = i + 4;
        assert(i16_bytes(c as i16) =~= seq![c, 0u8]);
        assert(self.ops@ =~= old(self).ops@ + seq![op_code(OpCode::PushConst), c, 0u8]);
        StepOut::Continue
    }

    fn step_op(&mut self, s: &[u8], buf: &Vec<u8>) -> (r: StepOut)
        requires
            old(self).i + 1 < s@.len(),
            s@[old(self).i as int] == 37,
            old(self).state == PState::Idle,
            old(self).stack.wf(),
            !(s@[old(self).i + 1] == 63 || s@[old(self).i + 1] == 37 || s@[old(self).i + 1] == 112
                || s@[old(self).i + 1] == 91 || s@[old(self).i + 1] == 123 || s@[old(self).i + 1]
                == 105 || s@[old(self).i + 1] == 39),
        ensures
            step_agrees(r, po_step(s@, Seq::empty(), cview(old(self), buf@)), final(self), buf@, buf@),
            final(self).stack.wf(),
    {
        reveal(po_step);
        let sl = s.len();
        let c2 = s[self.i + 1];
        let n = self.stack.len();
        match calc_op_exec(c2) {
            Some((op, argc, kinds, ret)) => {
                let top = match self.stack.slice_last(argc) {
                    Some(t) => t,
                    None => {
                        return StepOut::Panic;
                    },
                };
                if !operands_ok_exec(kinds, top) {
                    return StepOut::Panic;
                }
                let mut k: usize = 0;
                while k < argc
                    invariant
                        self.i == old(self).i,
                        self.ops == old(self).ops,
                        self.used == old(self).used,
                        self.state == old(self).state,
                        self.one == old(self).one,
                        k <= argc,
                        argc <= n,
                        n == old(self).stack@.len(),
                        self.stack@ == old(self).stack@.take(n - k),
                        self.stack.wf(),
                    decreases argc - k,
                {
                    let _ = self.stack.pop();
                    assert(old(self).stack@.take(n - k).drop_last() =~= old(self).stack@.take(
                        n - k - 1,
                    ));
                    k = k + 1;
                }
                let _ = self.stack.push(ret);
                self.ops.push(op.code());
                self.i = self.i + 2;
                StepOut::Continue
            },
            None => match print_op_exec(c2) {
                Some((op, kinds)) => {
                    let top = match self.stack.slice_last(1) {
                        Some(t) => t,
                        None => {
                            return StepOut::Panic;
                        },
                    };
                    if !operands_ok_exec(kinds, top) {
                        return StepOut::Panic;
                    }
                    let _ = self.stack.pop();
                    self.ops.push(op.code());
                    self.i = self.i + 2;
                    StepOut::Continue
                },
                None => StepOut::Fail(ParseError::InvalidMod),
            },
        }
    }

    fn step_literal(&mut self, s: &[u8], buf: &mut Vec<u8>) -> (r: StepOut)
        requires
            old(self).i < s@.len(),
            s@[old(self).i as int] != 37,
        ensures
            step_agrees(
                r,
                po_step(s@, Seq::empty(), cview(old(self), old(buf)@)),
                final(self),
                old(buf)@,
                final(buf)@,
            ),
            final(self).stack == old(self).stack,
    {
        reveal(po_step);
        let c = s[self.i];
        let m = self.ops.len();
        match self.state {
            PState::Idle => {
                OpCode::push_byte(&mut self.ops, c);
                self.state = PState::Byte;
                self.i = self.i + 1;
                StepOut::Continue
            },
            PState::Byte => {
                if m < 2 {
                    return StepOut::Panic;
                }
                let prev = self.ops[m - 1];
                self.ops.set(m - 1, 2u8);
                self.ops.set(m - 2, OpCode::PrintSlice.code());
                buf.push(prev);
                buf.push(c);
                assert(buf@ =~= old(buf)@ + seq![prev, c]);
                self.state = PState::Slice;
                self.i = self.i + 1;
                StepOut::Continue
            },
            PState::Slice => {
                if m < 1 || self.ops[m - 1] == 255 {
                    return StepOut::Panic;
                }
                let v = self.ops[m - 1] + 1;
                self.ops.set(m - 1, v);
                buf.push(c);
                self.i = self.i + 1;
                StepOut::Continue
            },
        }
    }
}

impl Compiler {
    fn step(&mut self, s: &[u8], inputs: &[(u8, ExprType)], buf: &mut Vec<u8>) -> (r: StepOut)
        requires
            old(self).i < s@.len(),
            old(self).stack.wf(),
        ensures
            step_agrees(
                r,
                po_step(s@, inputs@, cview(old(self), old(buf)@)),
                final(self),
                old(buf)@,
                final(buf)@,
            ),
            final(self).stack.wf(),
    {
        reveal(po_step);
        let sl = s.len();
        let c = s[self.i];
        if c != 37 {
            let r = self.step_literal(s, buf);
            assert(po_step(s@, inputs@, cview(old(self), old(buf)@)) == po_step(
                s@,
                Seq::empty(),
                cview(old(self), old(buf)@),
            ));
            return r;
        }
        self.state = PState::Idle;
        let i = self.i;
        if sl - i <= 1 {
            return StepOut::Panic;
        }
        let c2 = s[i + 1];
        if c2 == 63 {
            StepOut::Fail(ParseError::MissingFeatureIf)
        } else if c2 == 37 {
            OpCode::push_byte(&mut self.ops, 37);
            self.i = i + 2;
            StepOut::Continue
        } else if c2 == 112 {
            if sl - i <= 2 {
                return StepOut::Panic;
            }
            self.step_param(s, inputs, buf)
        } else if c2 == 91 {
            if has_byte_from(s, i + 2, 93) {
                StepOut::Panic
            } else {
                StepOut::Fail(ParseError::InvalidInputMatch)
            }
        } else if c2 == 123 {
            self.step_brace(s, buf)
        } else if c2 == 105 {
            self.one = true;
            self.i = i + 2;
            StepOut::Continue
        } else if c2 == 39 {
            let r = self.step_char_const(s, buf);
            assert(po_step(s@, inputs@, cview(old(self), old(buf)@)) == po_step(
                s@,
                Seq::empty(),
                cview(old(self), old(buf)@),
            ));
            r
        } else {
            let r = self.step_op(s, buf);
            assert(po_step(s@, inputs@, cview(old(self), old(buf)@)) == po_step(
                s@,
                Seq::empty(),
                cview(old(self), old(buf)@),
            ));
            r
        }
    }
}

/// Whether `b` occurs in `s` from `from` on.
fn has_byte_from(s: &[u8], from: usize, b: u8) -> (r: bool)
    ensures
        r == exists|k: int| from <= k < s@.len() && s@[k] == b,
{
    let sl = s.len();
    let mut k = from;
    while k < sl
        invariant
            sl == s@.len(),
            from <= k,
            forall|j: int| from <= j < k && j < sl ==> s@[j] != b,
        decreases sl - k,
    {
        if s[k] == b {
            return true;
        }
        k = k + 1;
    }
    false
}

/// One step of the compiler: how the run from a state continues.
proof fn lemma_po_run_unfold(
    s: Seq<u8>,
    inputs: Seq<(u8, ExprType)>,
    n: nat,
    base: nat,
    st: PoState,
)
    requires
        st.i < s.len(),
    ensures
        po_step(s, inputs, st) is Panic ==> po_run(s, inputs, n, base, st) is Panic,
        po_step(s, inputs, st) matches PoStep::Fail(e) ==> po_run(s, inputs, n, base, st)
            == PoOutcome::Fail(e, st.buf),
        po_step(s, inputs, st) matches PoStep::Next(st2) ==> (st.i < st2.i <= s.len()
            ==> po_run(s, inputs, n, base, st) == po_run(s, inputs, n, base, st2)) && (!(st.i
            < st2.i <= s.len()) ==> po_run(s, inputs, n, base, st) is Panic),
        po_step(s, inputs, st) matches PoStep::Next(st2) ==> st2.buf.len() >= st.buf.len()
            && st2.buf.subrange(0, st.buf.len() as int) == st.buf,
{
    reveal(po_step);
    match po_step(s, inputs, st) {
        PoStep::Next(st2) => {
            assert(st2.buf.subrange(0, st.buf.len() as int) =~= st.buf);
        },
        _ => {},
    }
}

/// The number of set bits of `x`.
fn count_ones16(x: u16) -> (r: u32)
    ensures
        r == count_bits(x, 16),
{
    let mut y = x;
    let mut c: u32 = 0;
    let mut k: u32 = 0;
    while k < 16
        invariant
            k <= 16,
            c <= k,
            count_bits(x, 16) == c + count_bits(y, (16 - k) as nat),
        decreases 16 - k,
    {
        let b = y & 1u16;
        assert(y & 1u16 <= 1) by (bit_vector);
        c = c + b as u32;
        y = y >> 1u16;
        k = k + 1;
    }
    c
}

impl<const N: usize> ParsedStringCap<N> {
    /// Compiles the capability string `str` for `N` parameters, typed by `inputs`: appends the
    /// literal slices and then the operations to `buf`, and returns where they lie.
    pub fn parse_out(buf: &mut Vec<u8>, str: &[u8], inputs: [(u8, ExprType); N]) -> (r: Result<
        ParsedStringCap<N>,
        ParseError,
    >)
        requires
            !(po_run(str@, inputs@, N as nat, old(buf)@.len(), po_start(old(buf)@)) is Panic),
        ensures
            match po_run(str@, inputs@, N as nat, old(buf)@.len(), po_start(old(buf)@)) {
                PoOutcome::Fail(e, b) => r == Err::<ParsedStringCap<N>, ParseError>(e)
                    && final(buf)@ == b,
                PoOutcome::Done(cap, b) => r matches Ok(c) && c.base == cap.base && c.slice_len
                    == cap.slice_len && c.op_len == cap.op_len && final(buf)@ == b,
                PoOutcome::Panic => false,
            },
            r matches Ok(c) ==> c.base == old(buf)@.len() && final(buf)@.len() == c.base
                + c.slice_len + c.op_len && final(buf)@.subrange(0, old(buf)@.len() as int)
                == old(buf)@,
    {
        let ghost base = buf@.len();
        let ghost start = po_start(buf@);
        let mut c = Compiler {
            i: 0,
            stack: Stack::new(),
            ops: Vec::new(),
            used: 0,
            state: PState::Idle,
            one: false,
        };
        assert(cview(&c, buf@) =~= start);
        let base_exec = buf.len();
        let n = str.len();
        while c.i < n
            invariant
                n == str@.len(),
                c.i <= n,
                c.stack.wf(),
                base_exec == base,
                po_run(str@, inputs@, N as nat, base, cview(&c, buf@)) == po_run(
                    str@,
                    inputs@,
                    N as nat,
                    base,
                    start,
                ),
                !(po_run(str@, inputs@, N as nat, base, start) is Panic),
                buf@.len() >= base,
                buf@.subrange(0, base as int) == old(buf)@,
                base == old(buf)@.len(),
                start == po_start(old(buf)@),
            decreases n - c.i,
        {
            let ghost before = cview(&c, buf@);
            proof {
                lemma_po_run_unfold(str@, inputs@, N as nat, base, before);
            }
            let ghost pre = buf@;
            match c.step(str, inputs.as_slice(), buf) {
                StepOut::Continue => {
                    assert(buf@.subrange(0, base as int) =~= pre.subrange(0, base as int));
                },
                StepOut::Panic => {
                    proof {
                        assert(false);
                    }
                    return Err(ParseError::UnknownError);
                },
                StepOut::Fail(e) => {
                    return Err(e);
                },
            }
        }
        if c.stack.len() != 0 {
            return Err(ParseError::NotEmptyStack);
        }
        let ops_base = buf.len();
        let ghost mid = buf@;
        let mut k: usize = 0;
        while k < c.ops.len()
            invariant
                k <= c.ops@.len(),
                buf@ =~= mid + c.ops@.take(k as int),
            decreases c.ops@.len() - k,
        {
            buf.push(c.ops[k]);
            assert(mid + c.ops@.take(k + 1) =~= (mid + c.ops@.take(k as int)).push(c.ops@[k as int]));
            k = k + 1;
        }
        assert(c.ops@.take(c.ops@.len() as int) =~= c.ops@);
        assert(buf@.subrange(0, base as int) =~= mid.subrange(0, base as int));
        if count_ones16(c.used) as usize != N {
            return Err(ParseError::UnusedParam);
        }
        Ok(ParsedStringCap { slice_len: ops_base - base_exec, op_len: buf.len() - ops_base, base: base_exec })
    }
}

} // verus!
