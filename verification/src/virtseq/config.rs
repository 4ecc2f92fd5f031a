use vstd::prelude::*;

use super::control::{po_run, po_start, ExprType, Param, ParsedStringCap, PoOutcome};
use super::control::Variable;
use super::interp::{apply_emits, emits_ok, emits_unflushed, param_vars, Emit};
use super::terminfo::{ParseError, StrView, TermInfo, TermInfoString, TermInfoView};
use super::virtbuf::{spec_flushed, spec_write, VirtSeqBuf};
use crate::stdio::StdIo;
use crate::stuff::{boxed_from_vec, SeqBuf};

verus! {

/// What a terminal is told to do, written as byte sequences into a [`VirtSeqBuf`].
pub trait TermControl {
    /// Whether a buffer in model `m` takes the clear-screen sequence.
    spec fn clear_fits(&self, m: (Seq<u8>, Seq<u8>), cap: nat, min_flush: nat) -> bool;

    /// Whether a buffer in model `m` takes the request for the cursor position.
    spec fn get_pos_fits(&self, m: (Seq<u8>, Seq<u8>), cap: nat, min_flush: nat) -> bool;

    /// Whether a buffer in model `m` takes the sequence that moves the cursor to (`x`, `y`).
    spec fn set_pos_fits(&self, m: (Seq<u8>, Seq<u8>), cap: nat, min_flush: nat, x: i16, y: i16) -> bool;

    fn clear_screen<const B: usize, I: StdIo>(&self, buf: &mut VirtSeqBuf<B, I>) -> (r:
        std::io::Result<()>)
        requires
            old(buf).wf(),
            self.clear_fits(old(buf).model(), B as nat, old(buf).min_flush_size as nat),
        ensures
            final(buf).wf(),
            final(buf).min_flush_size == old(buf).min_flush_size,
    ;

    /// Asks the terminal for the cursor position; the answer comes back through the input,
    /// which has to be processed to get the position.
    fn get_cursor_pos<const B: usize, I: StdIo>(
        &mut self,
        buf: &mut VirtSeqBuf<B, I>,
        user_data: usize,
    ) -> (r: std::io::Result<()>)
        requires
            old(buf).wf(),
            old(self).get_pos_fits(old(buf).model(), B as nat, old(buf).min_flush_size as nat),
        ensures
            final(buf).wf(),
            final(buf).min_flush_size == old(buf).min_flush_size,
    ;

    fn set_cursor_pos<const B: usize, I: StdIo>(&self, buf: &mut VirtSeqBuf<B, I>, x: i16, y: i16) -> (r:
        std::io::Result<()>)
        requires
            old(buf).wf(),
            self.set_pos_fits(old(buf).model(), B as nat, old(buf).min_flush_size as nat, x, y),
        ensures
            final(buf).wf(),
            final(buf).min_flush_size == old(buf).min_flush_size,
    ;
}

/// The control sequences of one terminal, taken from its terminfo entry.
pub struct TermInfoConfig {
    resp: Vec<(Vec<u8>, usize)>,
    buf: Box<[u8]>,
    clear: Vec<u8>,
    get_pos_res: Vec<u8>,
    get_pos_req: Vec<u8>,
    set_pos: ParsedStringCap<2>,
}

pub struct ConfigView {
    /// The answers awaited from the terminal, with the caller's tag of each.
    pub resp: Seq<(Seq<u8>, usize)>,
    /// The data buffer that holds the compiled cursor-address capability.
    pub data: Seq<u8>,
    pub clear: Seq<u8>,
    pub get_pos_res: Seq<u8>,
    pub get_pos_req: Seq<u8>,
    /// Where the compiled cursor-address capability lies in `data`: base, slice and operation
    /// lengths.
    pub set_pos: (usize, usize, usize),
}

impl View for TermInfoConfig {
    type V = ConfigView;

    closed spec fn view(&self) -> ConfigView {
        ConfigView {
            resp: self.resp@.map_values(|p: (Vec<u8>, usize)| (p.0@, p.1)),
            data: self.buf@,
            clear: self.clear@,
            get_pos_res: self.get_pos_res@,
            get_pos_req: self.get_pos_req@,
            set_pos: (self.set_pos.base, self.set_pos.slice_len, self.set_pos.op_len),
        }
    }
}

/// The index of `clear_screen` among the string capabilities.
pub const CLEAR_SCREEN: usize = 5;

/// The index of `cursor_address` among the string capabilities.
pub const CURSOR_ADDRESS: usize = 10;

/// The index of `user6` (the answer to a cursor-position request) among the string capabilities.
pub const USER6: usize = 293;

/// The index of `user7` (the cursor-position request) among the string capabilities.
pub const USER7: usize = 294;

pub open spec fn there(s: StrView) -> Option<Seq<u8>> {
    match s {
        StrView::There(b) => Some(b),
        _ => None,
    }
}

/// The parameters of `cursor_address`: two numbers.
pub open spec fn cursor_inputs() -> Seq<(u8, ExprType)> {
    seq![(0u8, ExprType::Int), (1u8, ExprType::Int)]
}

pub enum ConfigOutcome {
    Panic,
    Fail(ParseError),
    Done(ConfigView),
}

/// What building a configuration from an entry gives: a missing capability slot panics, a slot
/// without a string is an error, and `cursor_address` must compile.
pub open spec fn config_outcome(e: TermInfoView) -> ConfigOutcome {
    let s = e.strings;
    if s.len() <= CLEAR_SCREEN {
        ConfigOutcome::Panic
    } else if there(s[CLEAR_SCREEN as int]) is None {
        ConfigOutcome::Fail(ParseError::EmptyStr)
    } else if s.len() <= USER6 {
        ConfigOutcome::Panic
    } else if there(s[USER6 as int]) is None {
        ConfigOutcome::Fail(ParseError::EmptyStr)
    } else if s.len() <= USER7 {
        ConfigOutcome::Panic
    } else if there(s[USER7 as int]) is None {
        ConfigOutcome::Fail(ParseError::EmptyStr)
    } else if there(s[CURSOR_ADDRESS as int]) is None {
        ConfigOutcome::Fail(ParseError::EmptyStrOut)
    } else {
        let clear = there(s[CLEAR_SCREEN as int]).unwrap();
        let res = there(s[USER6 as int]).unwrap();
        let req = there(s[USER7 as int]).unwrap();
        let b = clear + res + req;
        match po_run(
            there(s[CURSOR_ADDRESS as int]).unwrap(),
            cursor_inputs(),
            2,
            b.len(),
            po_start(b),
        ) {
            PoOutcome::Done(cap, out) => ConfigOutcome::Done(
                ConfigView {
                    resp: Seq::empty(),
                    data: out,
                    clear,
                    get_pos_res: res,
                    get_pos_req: req,
                    set_pos: (cap.base, cap.slice_len, cap.op_len),
                },
            ),
            _ => ConfigOutcome::Panic,
        }
    }
}

/// Appends the bytes of `src` to `dst`.
fn append_bytes(dst: &mut Vec<u8>, src: &[u8])
    ensures
        final(dst)@ == old(dst)@ + src@,
{
    let mut i: usize = 0;
    while i < src.len()
        invariant
            0 <= i <= src@.len(),
            dst@ == old(dst)@ + src@.take(i as int),
        decreases src@.len() - i,
    {
        dst.push(src[i]);
        assert(old(dst)@ + src@.take(i + 1) =~= (old(dst)@ + src@.take(i as int)).push(src@[i as int]));
        i = i + 1;
    }
    assert(src@.take(src@.len() as int) =~= src@);
}

/// The bytes of string capability `idx`; `None` when the slot holds no string.
fn string_cap(entry: &TermInfo, idx: usize) -> (r: Option<&Vec<u8>>)
    requires
        idx < entry@.strings.len(),
    ensures
        r matches Some(v) ==> there(entry@.strings[idx as int]) == Some(v@),
        r is None ==> there(entry@.strings[idx as int]) is None,
{
    match entry.get_str(idx) {
        Some(TermInfoString::There(v)) => Some(v),
        _ => None,
    }
}

/// Takes the block of a compiled capability from `buf`.
fn dyn_str<const N: usize>(buf: &mut SeqBuf, str: ParsedStringCap<N>) -> (r: Result<
    ParsedStringCap<N>,
    ParseError,
>)
    ensures
        str.op_len + str.slice_len <= old(buf).rest().len() ==> r == Ok::<
            ParsedStringCap<N>,
            ParseError,
        >(str) && final(buf).data() == old(buf).data() && final(buf).consumed() == old(
            buf,
        ).consumed() + str.op_len + str.slice_len,
        str.op_len + str.slice_len > old(buf).rest().len() ==> r is Err,
{
    let left = buf.len();
    if str.op_len > left || str.slice_len > left - str.op_len {
        return Err(ParseError::UnknownError);
    }
    match buf.get_next(str.op_len + str.slice_len) {
        Some(_) => Ok(str),
        None => Err(ParseError::UnknownError),
    }
}

impl TermInfoConfig {
    pub const DEFAULT_PRE_ALLOC: usize = 15;

    /// Builds the configuration from a terminfo entry: the clear-screen sequence, the request
    /// for the cursor position and its answer, and the compiled cursor-address capability.
    pub fn with_entry(entry: TermInfo) -> (r: Result<TermInfoConfig, ParseError>)
        requires
            !(config_outcome(entry@) is Panic),
        ensures
            match config_outcome(entry@) {
                ConfigOutcome::Fail(e) => r == Err::<TermInfoConfig, ParseError>(e),
                ConfigOutcome::Done(v) => r matches Ok(c) && c@ == v,
                ConfigOutcome::Panic => false,
            },
    {
        let mut buf: Vec<u8> = Vec::with_capacity(Self::DEFAULT_PRE_ALLOC);
        let clear = match string_cap(&entry, CLEAR_SCREEN) {
            Some(v) => {
                append_bytes(&mut buf, v.as_slice());
                v.len()
            },
            None => {
                return Err(ParseError::EmptyStr);
            },
        };
        let get_pos_res = match string_cap(&entry, USER6) {
            Some(v) => {
                append_bytes(&mut buf, v.as_slice());
                v.len()
            },
            None => {
                return Err(ParseError::EmptyStr);
            },
        };
        let get_pos_req = match string_cap(&entry, USER7) {
            Some(v) => {
                append_bytes(&mut buf, v.as_slice());
                v.len()
            },
            None => {
                return Err(ParseError::EmptyStr);
            },
        };
        let ghost b = buf@;
        let ghost clear_s = there(entry@.strings[CLEAR_SCREEN as int]).unwrap();
        let ghost res_s = there(entry@.strings[USER6 as int]).unwrap();
        let ghost req_s = there(entry@.strings[USER7 as int]).unwrap();
        assert(b == clear_s + res_s + req_s);
        let set_pos = match string_cap(&entry, CURSOR_ADDRESS) {
            Some(v) => {
                match ParsedStringCap::<2>::parse_out(
                    &mut buf,
                    v.as_slice(),
                    [(0u8, ExprType::Int), (1u8, ExprType::Int)],
                ) {
                    Ok(c) => c,
                    Err(_) => {
                        proof {
                            assert(false);
                        }
                        return Err(ParseError::UnknownError);
                    },
                }
            },
            None => {
                return Err(ParseError::EmptyStrOut);
            },
        };
        let ghost out = buf@;
        assert(out.subrange(0, b.len() as int) == b);
        let mut sb = SeqBuf::new(boxed_from_vec(buf));
        let clear = match sb.get_next(clear) {
            Some(v) => v,
            None => {
                proof {
                    assert(false);
                }
                return Err(ParseError::UnknownError);
            },
        };
        let get_pos_res = match sb.get_next(get_pos_res) {
            Some(v) => v,
            None => {
                proof {
                    assert(false);
                }
                return Err(ParseError::UnknownError);
            },
        };
        let get_pos_req = match sb.get_next(get_pos_req) {
            Some(v) => v,
            None => {
                proof {
                    assert(false);
                }
                return Err(ParseError::UnknownError);
            },
        };
        let ghost l1: int = clear_s.len() as int;
        let ghost l2: int = l1 + res_s.len();
        let ghost l3: int = b.len() as int;
        assert(clear@ =~= clear_s) by {
            assert(clear_s =~= b.subrange(0, l1));
            assert(out.subrange(0, l1) =~= b.subrange(0, l1));
        }
        assert(get_pos_res@ =~= res_s) by {
            assert(res_s =~= b.subrange(l1, l2));
            assert(out.subrange(l1, l2) =~= b.subrange(l1, l2));
        }
        assert(get_pos_req@ =~= req_s) by {
            assert(req_s =~= b.subrange(l2, l3));
            assert(out.subrange(l2, l3) =~= b.subrange(l2, l3));
        }
        let set_pos = match dyn_str(&mut sb, set_pos) {
            Ok(c) => c,
            Err(_) => {
                proof {
                    assert(false);
                }
                return Err(ParseError::UnknownError);
            },
        };
        let data = match sb.end() {
            Some(d) => d,
            None => {
                return Err(ParseError::UnknownError);
            },
        };
        let r = TermInfoConfig {
                clear,
                get_pos_res,
                get_pos_req,
                set_pos,
                buf: data,
                resp: Vec::with_capacity(4),
            };
        assert(r@.resp =~= Seq::<(Seq<u8>, usize)>::empty());
        Ok(r)
    }
}

impl TermInfoConfig {
    /// The compiled cursor-address capability, as a spec value.
    pub open spec fn set_pos_cap(&self) -> ParsedStringCap<2> {
        ParsedStringCap { base: self@.set_pos.0, slice_len: self@.set_pos.1, op_len: self@.set_pos.2 }
    }

    /// The output that moves the cursor to (`x`, `y`); `None` where running the compiled
    /// capability panics.
    pub open spec fn set_pos_emits(&self, x: i16, y: i16) -> Option<Seq<Emit>> {
        self.set_pos_cap().emits(self@.data, seq![Variable::Int(x), Variable::Int(y)])
    }
}

impl TermControl for TermInfoConfig {
    open spec fn clear_fits(&self, m: (Seq<u8>, Seq<u8>), cap: nat, min_flush: nat) -> bool {
        self@.clear.len() < min_flush ==> self@.clear.len() <= cap + (cap - m.1.len())
    }

    open spec fn get_pos_fits(&self, m: (Seq<u8>, Seq<u8>), cap: nat, min_flush: nat) -> bool {
        self@.get_pos_req.len() < min_flush ==> self@.get_pos_req.len() <= cap + (cap - m.1.len())
    }

    open spec fn set_pos_fits(&self, m: (Seq<u8>, Seq<u8>), cap: nat, min_flush: nat, x: i16, y: i16) -> bool {
        &&& self.set_pos_emits(x, y) is Some
        &&& emits_ok(m, cap, min_flush, self.set_pos_emits(x, y).unwrap())
    }

    /// Writes the clear-screen sequence.
    fn clear_screen<const B: usize, I: StdIo>(&self, buf: &mut VirtSeqBuf<B, I>) -> (r:
        std::io::Result<()>)
        ensures
            self@.clear.len() < old(buf).min_flush_size && B - old(buf).pending().len()
                >= self@.clear.len() ==> r is Ok,
            r is Ok ==> final(buf).model() == spec_write(
                old(buf).model(),
                B as nat,
                old(buf).min_flush_size as nat,
                self@.clear,
            ),
            r is Err ==> final(buf).model() == old(buf).model() || (self@.clear.len()
                >= old(buf).min_flush_size && final(buf).model() == spec_flushed(old(buf).model())),
    {
        buf.write(self.clear.as_slice())
    }

    /// Writes the request for the cursor position and records that its answer, tagged with
    /// `user_data`, is awaited.
    fn get_cursor_pos<const B: usize, I: StdIo>(
        &mut self,
        buf: &mut VirtSeqBuf<B, I>,
        user_data: usize,
    ) -> (r: std::io::Result<()>)
        ensures
            final(self)@ == (ConfigView {
                resp: old(self)@.resp.push((old(self)@.get_pos_res, user_data)),
                ..old(self)@
            }),
            old(self)@.get_pos_req.len() < old(buf).min_flush_size && B - old(buf).pending().len()
                >= old(self)@.get_pos_req.len() ==> r is Ok,
            r is Ok ==> final(buf).model() == spec_write(
                old(buf).model(),
                B as nat,
                old(buf).min_flush_size as nat,
                old(self)@.get_pos_req,
            ),
            r is Err ==> final(buf).model() == old(buf).model() || (old(self)@.get_pos_req.len()
                >= old(buf).min_flush_size && final(buf).model() == spec_flushed(old(buf).model())),
    {
        let res = vstd::slice::slice_to_vec(self.get_pos_res.as_slice());
        self.resp.push((res, user_data));
        assert(self@.resp =~= old(self)@.resp.push((old(self)@.get_pos_res, user_data)));
        buf.write(self.get_pos_req.as_slice())
    }

    /// Writes the sequence that moves the cursor to (`x`, `y`).
    fn set_cursor_pos<const B: usize, I: StdIo>(&self, buf: &mut VirtSeqBuf<B, I>, x: i16, y: i16) -> (r:
        std::io::Result<()>)
        ensures
            emits_unflushed(
                old(buf).model(),
                B as nat,
                old(buf).min_flush_size as nat,
                self.set_pos_emits(x, y).unwrap(),
            ) ==> r is Ok,
            r is Ok ==> final(buf).model() == apply_emits(
                old(buf).model(),
                B as nat,
                old(buf).min_flush_size as nat,
                self.set_pos_emits(x, y).unwrap(),
            ),
            r is Err ==> exists|k: int|
                0 <= k < self.set_pos_emits(x, y).unwrap().len() && ({
                    let before = apply_emits(
                        old(buf).model(),
                        B as nat,
                        old(buf).min_flush_size as nat,
                        #[trigger] self.set_pos_emits(x, y).unwrap().take(k),
                    );
                    final(buf).model() == before || final(buf).model() == spec_flushed(before)
                }),
    {
        let params = [Param::Int(x), Param::Int(y)];
        assert(param_vars(params@) =~= seq![Variable::Int(x), Variable::Int(y)]);
        self.set_pos.print(&self.buf, buf, params)
    }
}

} // verus!
