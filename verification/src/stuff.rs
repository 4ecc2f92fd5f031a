use vstd::prelude::*;
use core::marker::PhantomData;
use vstd::string::StringSliceAdditionalSpecFns;

verus! {

// ---------------------------------------------------------------------------
// Decimal formatting
// ---------------------------------------------------------------------------

/// The ASCII decimal digits of `n`, most significant first, without leading zeros.
pub open spec fn decimal(n: nat) -> Seq<u8>
    decreases n,
{
    if n < 10 {
        seq![(48 + n) as u8]
    } else {
        decimal(n / 10).push((48 + n % 10) as u8)
    }
}

/// The ASCII decimal text of `v`: a `-` before the digits of a negative number.
pub open spec fn signed_decimal(v: int) -> Seq<u8> {
    if v < 0 {
        seq![45u8] + decimal((-v) as nat)
    } else {
        decimal(v as nat)
    }
}

/// Ten to the power `k`.
pub open spec fn pow10(k: nat) -> nat
    decreases k,
{
    if k == 0 {
        1
    } else {
        10 * pow10((k - 1) as nat)
    }
}

/// A number below `10^k` (with `k >= 1`) has at most `k` digits.
pub proof fn lemma_decimal_len(n: nat, k: nat)
    requires
        1 <= k,
        n < pow10(k),
    ensures
        1 <= decimal(n).len() <= k,
    decreases k,
{
    if n >= 10 {
        if k == 1 {
            assert(pow10(1) == 10) by {
                reveal_with_fuel(pow10, 2);
            }
        } else {
            let p = pow10((k - 1) as nat);
            assert(n / 10 < p) by (nonlinear_arith)
                requires
                    n < 10 * p,
            ;
            lemma_decimal_len(n / 10, (k - 1) as nat);
        }
    }
}

/// Every digit text is ASCII digits only.
pub proof fn lemma_decimal_digits(n: nat)
    ensures
        forall|i: int| 0 <= i < decimal(n).len() ==> 48 <= #[trigger] decimal(n)[i] <= 57,
    decreases n,
{
    if n >= 10 {
        lemma_decimal_digits(n / 10);
        let d = decimal(n);
        assert forall|i: int| 0 <= i < d.len() implies 48 <= #[trigger] d[i] <= 57 by {
            if i < d.len() - 1 {
                assert(d[i] == decimal(n / 10)[i]);
            }
        }
    }
}

/// Every digit text is non-empty.
pub proof fn lemma_decimal_nonempty(n: nat)
    ensures
        decimal(n).len() >= 1,
    decreases n,
{
    if n >= 10 {
        lemma_decimal_nonempty(n / 10);
    }
}

/// Bytes below 128 are valid UTF-8, one character each.
pub proof fn lemma_ascii_valid_utf8(b: Seq<u8>)
    requires
        forall|k: int| 0 <= k < b.len() ==> #[trigger] b[k] < 128,
    ensures
        vstd::utf8::valid_utf8(b),
    decreases b.len(),
{
    if b.len() > 0 {
        let rest = b.subrange(1, b.len() as int);
        assert(forall|k: int| 0 <= k < rest.len() ==> #[trigger] rest[k] == b[k + 1]);
        lemma_ascii_valid_utf8(rest);
        assert(vstd::utf8::valid_first_scalar(b));
        assert(vstd::utf8::pop_first_scalar(b) =~= rest);
    }
}

/// The decimal text of a number is valid UTF-8, so it can be read as a `str` (as
/// [`NumberSlice::as_str`] asks) after it is formatted.
pub proof fn law_decimal_text_is_utf8(v: int)
    ensures
        vstd::utf8::valid_utf8(signed_decimal(v)),
{
    let n: nat = if v < 0 {
        (-v) as nat
    } else {
        v as nat
    };
    lemma_decimal_digits(n);
    let t = signed_decimal(v);
    if v < 0 {
        assert forall|k: int| 0 <= k < t.len() implies #[trigger] t[k] < 128 by {
            if k > 0 {
                assert(t[k] == decimal(n)[k - 1]);
            }
        }
    }
    lemma_ascii_valid_utf8(t);
}

/// What formatting writes at the start of a buffer reads back, as text, as the decimal text of
/// the value: the first `len` bytes are that text, and they are valid UTF-8.
pub proof fn law_formatted_text_reads_back(v: int, rest: Seq<u8>)
    ensures
        (signed_decimal(v) + rest).take(signed_decimal(v).len() as int) == signed_decimal(v),
        vstd::utf8::valid_utf8(
            (signed_decimal(v) + rest).take(signed_decimal(v).len() as int),
        ),
{
    assert((signed_decimal(v) + rest).take(signed_decimal(v).len() as int) =~= signed_decimal(v));
    law_decimal_text_is_utf8(v);
}

proof fn lemma_pow10_values()
    ensures
        pow10(3) == 1000,
        pow10(5) == 100000,
        pow10(10) == 10000000000,
        pow10(19) == 10000000000000000000,
        pow10(20) == 100000000000000000000,
        pow10(39) == 1000000000000000000000000000000000000000,
{
    reveal_with_fuel(pow10, 40);
}

/// `std::str::from_utf8`: the text of `v` exactly when `v` is valid UTF-8; the text's bytes
/// are those of `v`.
#[verifier::external_body]
pub(crate) fn str_from_utf8(v: &[u8]) -> (r: Option<&str>)
    ensures
        r.is_some() <==> vstd::utf8::valid_utf8(v@),
        r.is_some() ==> r.unwrap().spec_bytes() == v@,
{
    std::str::from_utf8(v).ok()
}

/// The first `T::buf_size()` bytes of a caller's buffer, borrowed for formatting a `T` into.
pub struct NumberSlice<'a, T> {
    pub buf: &'a mut [u8],
    pub marker: PhantomData<T>,
}

impl<'a, T> View for NumberSlice<'a, T> {
    type V = Seq<u8>;

    open spec fn view(&self) -> Seq<u8> {
        self.buf@
    }
}

impl<'a, T: FastForwardFormat> NumberSlice<'a, T> {
    /// Borrows the first `T::buf_size()` bytes of `buf`; `None` (and `buf` untouched) when
    /// `buf` is shorter. What is written through the result lands in those bytes of `buf`.
    pub fn new(buf: &'a mut [u8]) -> (r: Option<NumberSlice<'a, T>>)
        ensures
            old(buf)@.len() < T::spec_buf_size() ==> r is None && final(buf)@ == old(buf)@,
            old(buf)@.len() >= T::spec_buf_size() ==> (r matches Some(n) && n@ == old(buf)@.take(
                T::spec_buf_size() as int,
            ) && final(buf)@ == final(n.buf)@ + old(buf)@.skip(T::spec_buf_size() as int)),
    {
        let size = T::buf_size();
        if buf.len() < size {
            return None;
        }
        let (head, rest) = buf.split_at_mut(size);
        proof {
            assert(head@ =~= old(buf)@.take(size as int));
        }
        Some(NumberSlice { buf: head, marker: PhantomData })
    }
    /// A zeroed buffer of `T::buf_size()` bytes.
    pub fn new_buf() -> (r: Vec<u8>)
        ensures
            r@ == Seq::new(T::spec_buf_size(), |i: int| 0u8),
    {
        let size = T::buf_size();
        let r = vec![0u8; size];
        proof {
            assert(r@ =~= Seq::new(T::spec_buf_size(), |i: int| 0u8));
        }
        r
    }

}

/// Writes the text of `-mag` (when `neg`) or `mag` at the start of `buf` and returns
/// its length; the bytes after it are left as they were.
fn write_decimal(buf: &mut [u8], neg: bool, mag: u128) -> (len: usize)
    requires
        (if neg { 1int } else { 0int }) + decimal(mag as nat).len() <= old(buf)@.len(),
    ensures
        len == (if neg { 1int } else { 0int }) + decimal(mag as nat).len(),
        final(buf)@ == (if neg { seq![45u8] } else { Seq::<u8>::empty() }) + decimal(
            mag as nat,
        ) + old(buf)@.skip(len as int),
{
    let ghost d = decimal(mag as nat);
    let bl = buf.len();
    proof {
        lemma_decimal_nonempty(mag as nat);
    }
    let mut n: usize = 1;
    let mut m: u128 = mag;
    while m >= 10
        invariant
            d.len() == decimal(m as nat).len() + n - 1,
            d == decimal(mag as nat),
            1 <= n <= d.len(),
            d.len() <= bl,
        decreases m,
    {
        assert(decimal(m as nat) == decimal((m / 10) as nat).push((48 + m % 10) as u8));
        proof {
            lemma_decimal_nonempty((m / 10) as nat);
        }
        m = m / 10;
        n = n + 1;
    }
    let start: usize = if neg { 1 } else { 0 };
    if neg {
        buf[0] = 45u8;
    }
    let end = start + n;
    let ghost after = buf@;
    let mut pos = end;
    m = mag;
    while m >= 10
        invariant
            start < pos <= end,
            end == start + n,
            n == d.len(),
            d == decimal(mag as nat),
            end <= buf@.len(),
            buf@.len() == after.len(),
            decimal(m as nat).len() == pos - start,
            d =~= decimal(m as nat) + buf@.subrange(pos as int, end as int),
            buf@.subrange(0, start as int) == after.subrange(0, start as int),
            buf@.skip(end as int) == after.skip(end as int),
        decreases m,
    {
        let ghost before = buf@;
        let digit = (m % 10) as u8;
        pos = pos - 1;
        buf[pos] = 48u8 + digit;
        proof {
            assert(decimal(m as nat) == decimal((m / 10) as nat).push((48 + m % 10) as u8));
            assert(buf@.subrange(pos as int, end as int) =~= seq![(48 + digit) as u8]
                + before.subrange(pos + 1, end as int));
            assert(buf@.subrange(0, start as int) =~= before.subrange(0, start as int));
            assert(buf@.skip(end as int) =~= before.skip(end as int));
        }
        m = m / 10;
    }
    let ghost before = buf@;
    buf[start] = 48u8 + (m as u8);
    proof {
        assert(pos == start + 1);
        assert(buf@.subrange(0, start as int) =~= before.subrange(0, start as int));
        assert(buf@.subrange(start as int, end as int) =~= seq![(48 + m) as u8]
            + before.subrange(pos as int, end as int));
        assert(buf@.subrange(start as int, end as int) =~= d);
        assert(buf@.skip(end as int) =~= before.skip(end as int));
        assert(after.skip(end as int) =~= old(buf)@.skip(end as int));
        if neg {
            assert(after[0] == 45u8);
            assert(after.subrange(0, 1) =~= seq![45u8]);
        }
        assert(buf@ =~= buf@.subrange(0, start as int) + buf@.subrange(
            start as int,
            end as int,
        ) + buf@.skip(end as int));
    }
    end
}

impl<'a, T> NumberSlice<'a, T> {
    /// The first `len` bytes.
    pub fn as_slice(&self, len: usize) -> (r: &[u8])
        requires
            len <= self@.len(),
        ensures
            r@ == self@.take(len as int),
    {
        let r = vstd::slice::slice_subrange(&*self.buf, 0, len);
        proof {
            assert(r@ =~= self@.take(len as int));
        }
        r
    }

    /// The first `len` bytes as text; they must be UTF-8.
    pub fn as_str(&self, len: usize) -> (r: &str)
        requires
            len <= self@.len(),
            vstd::utf8::valid_utf8(self@.take(len as int)),
        ensures
            r.spec_bytes() == self@.take(len as int),
    {
        let bytes = self.as_slice(len);
        match str_from_utf8(bytes) {
            Some(s) => s,
            None => {
                proof {
                    assert(false);
                }
                ""
            },
        }
    }

    /// Writes the decimal text of `v` at the start of the buffer and returns its length.
    fn put_int(&mut self, v: i128) -> (len: usize)
        requires
            signed_decimal(v as int).len() <= old(self)@.len(),
        ensures
            len == signed_decimal(v as int).len(),
            final(self)@ == signed_decimal(v as int) + old(self)@.skip(len as int),
            final(final(self).buf)@ == final(old(self).buf)@,
    {
        let neg = v < 0;
        let mag: u128 = if neg {
            ((-(v + 1)) as u128) + 1
        } else {
            v as u128
        };
        proof {
            if !neg {
                assert(Seq::<u8>::empty() + decimal(mag as nat) =~= decimal(mag as nat));
            }
        }
        write_decimal(self.buf, neg, mag)
    }

    /// Writes the decimal text of `v` at the start of the buffer and returns its length.
    fn put_uint(&mut self, v: u128) -> (len: usize)
        requires
            decimal(v as nat).len() <= old(self)@.len(),
        ensures
            len == signed_decimal(v as int).len(),
            final(self)@ == signed_decimal(v as int) + old(self)@.skip(len as int),
            final(final(self).buf)@ == final(old(self).buf)@,
    {
        proof {
            assert(Seq::<u8>::empty() + decimal(v as nat) =~= decimal(v as nat));
        }
        write_decimal(self.buf, false, v)
    }
}

/// Decimal formatting into a [`NumberSlice`] without going through `core::fmt`.
pub trait FastForwardFormat: Sized {
    /// The value as a mathematical integer.
    spec fn spec_value(&self) -> int;

    /// The size of a buffer that holds the decimal text of every value of the type.
    spec fn spec_buf_size() -> nat;

    fn buf_size() -> (r: usize)
        ensures
            r == Self::spec_buf_size(),
    ;

    /// Writes the decimal text of `self` at the start of `buf` and returns its length.
    fn forward_format(&self, buf: &mut NumberSlice<'_, Self>) -> (len: usize)
        requires
            old(buf)@.len() == Self::spec_buf_size(),
        ensures
            len == signed_decimal(self.spec_value()).len(),
            len <= Self::spec_buf_size(),
            final(buf)@ == signed_decimal(self.spec_value()) + old(buf)@.skip(len as int),
            final(final(buf).buf)@ == final(old(buf).buf)@,
    ;
}


impl FastForwardFormat for i8 {
    open spec fn spec_value(&self) -> int {
        *self as int
    }

    open spec fn spec_buf_size() -> nat {
        4
    }

    fn buf_size() -> (r: usize) {
        4
    }

    fn forward_format(&self, buf: &mut NumberSlice<'_, i8>) -> (len: usize) {
        let v = *self as i128;
        proof {
            lemma_pow10_values();
            if v < 0 {
                lemma_decimal_len((-v) as nat, 3);
            } else {
                lemma_decimal_len(v as nat, 3);
            }
        }
        buf.put_int(v)
    }
}

impl FastForwardFormat for u8 {
    open spec fn spec_value(&self) -> int {
        *self as int
    }

    open spec fn spec_buf_size() -> nat {
        3
    }

    fn buf_size() -> (r: usize) {
        3
    }

    fn forward_format(&self, buf: &mut NumberSlice<'_, u8>) -> (len: usize) {
        let v = *self as u128;
        proof {
            lemma_pow10_values();
            lemma_decimal_len(v as nat, 3);
        }
        buf.put_uint(v)
    }
}

impl FastForwardFormat for i16 {
    open spec fn spec_value(&self) -> int {
        *self as int
    }

    open spec fn spec_buf_size() -> nat {
        6
    }

    fn buf_size() -> (r: usize) {
        6
    }

    fn forward_format(&self, buf: &mut NumberSlice<'_, i16>) -> (len: usize) {
        let v = *self as i128;
        proof {
            lemma_pow10_values();
            if v < 0 {
                lemma_decimal_len((-v) as nat, 5);
            } else {
                lemma_decimal_len(v as nat, 5);
            }
        }
        buf.put_int(v)
    }
}

impl FastForwardFormat for u16 {
    open spec fn spec_value(&self) -> int {
        *self as int
    }

    open spec fn spec_buf_size() -> nat {
        5
    }

    fn buf_size() -> (r: usize) {
        5
    }

    fn forward_format(&self, buf: &mut NumberSlice<'_, u16>) -> (len: usize) {
        let v = *self as u128;
        proof {
            lemma_pow10_values();
            lemma_decimal_len(v as nat, 5);
        }
        buf.put_uint(v)
    }
}

impl FastForwardFormat for i32 {
    open spec fn spec_value(&self) -> int {
        *self as int
    }

    open spec fn spec_buf_size() -> nat {
        11
    }

    fn buf_size() -> (r: usize) {
        11
    }

    fn forward_format(&self, buf: &mut NumberSlice<'_, i32>) -> (len: usize) {
        let v = *self as i128;
        proof {
            lemma_pow10_values();
            if v < 0 {
                lemma_decimal_len((-v) as nat, 10);
            } else {
                lemma_decimal_len(v as nat, 10);
            }
        }
        buf.put_int(v)
    }
}

impl FastForwardFormat for u32 {
    open spec fn spec_value(&self) -> int {
        *self as int
    }

    open spec fn spec_buf_size() -> nat {
        10
    }

    fn buf_size() -> (r: usize) {
        10
    }

    fn forward_format(&self, buf: &mut NumberSlice<'_, u32>) -> (len: usize) {
        let v = *self as u128;
        proof {
            lemma_pow10_values();
            lemma_decimal_len(v as nat, 10);
        }
        buf.put_uint(v)
    }
}

impl FastForwardFormat for i64 {
    open spec fn spec_value(&self) -> int {
        *self as int
    }

    open spec fn spec_buf_size() -> nat {
        20
    }

    fn buf_size() -> (r: usize) {
        20
    }

    fn forward_format(&self, buf: &mut NumberSlice<'_, i64>) -> (len: usize) {
        let v = *self as i128;
        proof {
            lemma_pow10_values();
            if v < 0 {
                lemma_decimal_len((-v) as nat, 19);
            } else {
                lemma_decimal_len(v as nat, 19);
            }
        }
        buf.put_int(v)
    }
}

impl FastForwardFormat for u64 {
    open spec fn spec_value(&self) -> int {
        *self as int
    }

    open spec fn spec_buf_size() -> nat {
        20
    }

    fn buf_size() -> (r: usize) {
        20
    }

    fn forward_format(&self, buf: &mut NumberSlice<'_, u64>) -> (len: usize) {
        let v = *self as u128;
        proof {
            lemma_pow10_values();
            lemma_decimal_len(v as nat, 20);
        }
        buf.put_uint(v)
    }
}

impl FastForwardFormat for isize {
    open spec fn spec_value(&self) -> int {
        *self as int
    }

    open spec fn spec_buf_size() -> nat {
        20
    }

    fn buf_size() -> (r: usize) {
        20
    }

    fn forward_format(&self, buf: &mut NumberSlice<'_, isize>) -> (len: usize) {
        let v = *self as i128;
        proof {
            lemma_pow10_values();
            if v < 0 {
                lemma_decimal_len((-v) as nat, 19);
            } else {
                lemma_decimal_len(v as nat, 19);
            }
        }
        buf.put_int(v)
    }
}

impl FastForwardFormat for usize {
    open spec fn spec_value(&self) -> int {
        *self as int
    }

    open spec fn spec_buf_size() -> nat {
        20
    }

    fn buf_size() -> (r: usize) {
        20
    }

    fn forward_format(&self, buf: &mut NumberSlice<'_, usize>) -> (len: usize) {
        let v = *self as u128;
        proof {
            lemma_pow10_values();
            lemma_decimal_len(v as nat, 20);
        }
        buf.put_uint(v)
    }
}

impl FastForwardFormat for i128 {
    open spec fn spec_value(&self) -> int {
        *self as int
    }

    open spec fn spec_buf_size() -> nat {
        40
    }

    fn buf_size() -> (r: usize) {
        40
    }

    fn forward_format(&self, buf: &mut NumberSlice<'_, i128>) -> (len: usize) {
        let v = *self as i128;
        proof {
            lemma_pow10_values();
            if v < 0 {
                lemma_decimal_len((-v) as nat, 39);
            } else {
                lemma_decimal_len(v as nat, 39);
            }
        }
        buf.put_int(v)
    }
}

impl FastForwardFormat for u128 {
    open spec fn spec_value(&self) -> int {
        *self as int
    }

    open spec fn spec_buf_size() -> nat {
        39
    }

    fn buf_size() -> (r: usize) {
        39
    }

    fn forward_format(&self, buf: &mut NumberSlice<'_, u128>) -> (len: usize) {
        let v = *self as u128;
        proof {
            lemma_pow10_values();
            lemma_decimal_len(v as nat, 39);
        }
        buf.put_uint(v)
    }
}

// ---------------------------------------------------------------------------
// A bounded stack
// ---------------------------------------------------------------------------

/// A stack that holds at most `SIZE` values.
pub struct Stack<T: Copy, const SIZE: usize> {
    stack: Vec<T>,
}

impl<T: Copy, const SIZE: usize> View for Stack<T, SIZE> {
    type V = Seq<T>;

    /// The values on the stack, bottom first.
    closed spec fn view(&self) -> Seq<T> {
        self.stack@
    }
}

impl<T: Copy, const SIZE: usize> Stack<T, SIZE> {
    /// Well-formedness: the stack holds at most `SIZE` values.
    pub open spec fn wf(&self) -> bool {
        self@.len() <= SIZE
    }

    pub fn new() -> (s: Self)
        ensures
            s@ == Seq::<T>::empty(),
            s.wf(),
    {
        Stack { stack: Vec::new() }
    }

    pub fn len(&self) -> (r: usize)
        ensures
            r == self@.len(),
    {
        self.stack.len()
    }

    /// Pushes `value` when there is room; `None` (and no change) when the stack is full.
    pub fn push(&mut self, value: T) -> (r: Option<()>)
        ensures
            old(self)@.len() < SIZE ==> r == Some(()) && final(self)@ == old(self)@.push(value),
            old(self)@.len() >= SIZE ==> r.is_none() && final(self)@ == old(self)@,
            old(self).wf() ==> final(self).wf(),
            final(self)@ == stack_after(old(self)@, SIZE as nat, seq![Some(value)]),
    {
        proof {
            lemma_stack_step(self@, SIZE as nat, Some(value));
        }
        if self.stack.len() < SIZE {
            self.stack.push(value);
            Some(())
        } else {
            None
        }
    }

    /// Pushes `value`; the stack must not be full.
    pub fn push_unchecked(&mut self, value: T)
        requires
            old(self)@.len() < SIZE,
        ensures
            final(self)@ == old(self)@.push(value),
            final(self).wf(),
    {
        self.stack.push(value);
    }

    /// Removes and returns the top value; `None` on an empty stack.
    pub fn pop(&mut self) -> (r: Option<T>)
        ensures
            old(self)@.len() == 0 ==> r.is_none() && final(self)@ == old(self)@,
            old(self)@.len() > 0 ==> r == Some(old(self)@.last()) && final(self)@ == old(
                self,
            )@.drop_last(),
            old(self).wf() ==> final(self).wf(),
            final(self)@ == stack_after(old(self)@, SIZE as nat, seq![None]),
    {
        proof {
            lemma_stack_step(self@, SIZE as nat, None);
        }
        self.stack.pop()
    }

    /// The `len` topmost values, bottom first; `None` when fewer are on the stack.
    pub fn slice_last(&self, len: usize) -> (r: Option<&[T]>)
        ensures
            len <= self@.len() ==> r.is_some() && r.unwrap()@ == self@.subrange(
                self@.len() - len,
                self@.len() as int,
            ),
            len > self@.len() ==> r.is_none(),
    {
        let n = self.stack.len();
        if len <= n {
            Some(vstd::slice::slice_subrange(self.stack.as_slice(), n - len, n))
        } else {
            None
        }
    }
}

// ---------------------------------------------------------------------------
// Cursors over byte buffers
// ---------------------------------------------------------------------------

/// `Vec::into_boxed_slice`: the same bytes, boxed.
#[verifier::external_body]
pub(crate) fn boxed_from_vec(v: Vec<u8>) -> (b: Box<[u8]>)
    ensures
        b@ == v@,
{
    v.into_boxed_slice()
}

/// The `c` bytes consumed so far, then the next `k`, are the first `c + k`.
proof fn lemma_block_step(d: Seq<u8>, c: nat, k: nat)
    requires
        c + k <= d.len(),
    ensures
        d.take(c as int) + d.subrange(c as int, d.len() as int).take(k as int) == d.take(
            (c + k) as int,
        ),
{
    assert(d.take(c as int) + d.subrange(c as int, d.len() as int).take(k as int) =~= d.take(
        (c + k) as int,
    ));
}

/// What successive requests for blocks of the lengths `ks` get from a buffer `d` with `c`
/// bytes consumed: a request that fits in the rest gets the next bytes, one that does not
/// gets nothing and consumes nothing (as `get_next` of [`SeqBuf`] and [`SeqSlice`] does).
pub open spec fn blocks_taken(d: Seq<u8>, c: nat, ks: Seq<nat>) -> Seq<Option<Seq<u8>>>
    decreases ks.len(),
{
    if ks.len() == 0 {
        Seq::empty()
    } else if c + ks[0] <= d.len() {
        seq![Some(d.subrange(c as int, (c + ks[0]) as int))] + blocks_taken(
            d,
            c + ks[0],
            ks.drop_first(),
        )
    } else {
        seq![None] + blocks_taken(d, c, ks.drop_first())
    }
}

/// How many bytes are consumed after the requests `ks`.
pub open spec fn consumed_after(d: Seq<u8>, c: nat, ks: Seq<nat>) -> nat
    decreases ks.len(),
{
    if ks.len() == 0 {
        c
    } else if c + ks[0] <= d.len() {
        consumed_after(d, c + ks[0], ks.drop_first())
    } else {
        consumed_after(d, c, ks.drop_first())
    }
}

/// One request: the count moves on by the request when it fits and stays otherwise.
proof fn lemma_consumed_step(d: Seq<u8>, c: nat, k: nat)
    ensures
        consumed_after(d, c, seq![k]) == if c + k <= d.len() {
            c + k
        } else {
            c
        },
{
    assert(seq![k].drop_first() =~= Seq::<nat>::empty());
    reveal_with_fuel(consumed_after, 2);
}

/// The blocks that were handed out, joined in order.
pub open spec fn joined(bs: Seq<Option<Seq<u8>>>) -> Seq<u8>
    decreases bs.len(),
{
    if bs.len() == 0 {
        Seq::empty()
    } else {
        (match bs[0] {
            Some(b) => b,
            None => Seq::empty(),
        }) + joined(bs.drop_first())
    }
}

/// The blocks handed out by successive requests, joined in the order they were handed out,
/// are exactly the bytes consumed by them; the consumed count never passes the end, and a
/// request answers `None` exactly when it does not fit in what is left.
pub proof fn law_blocks_join(d: Seq<u8>, c: nat, ks: Seq<nat>)
    requires
        c <= d.len(),
    ensures
        c <= consumed_after(d, c, ks) <= d.len(),
        joined(blocks_taken(d, c, ks)) == d.subrange(c as int, consumed_after(d, c, ks) as int),
        blocks_taken(d, c, ks).len() == ks.len(),
    decreases ks.len(),
{
    if ks.len() == 0 {
        assert(d.subrange(c as int, c as int) =~= Seq::<u8>::empty());
    } else {
        let bs = blocks_taken(d, c, ks);
        if c + ks[0] <= d.len() {
            let c2 = c + ks[0];
            law_blocks_join(d, c2, ks.drop_first());
            assert(bs.drop_first() =~= blocks_taken(d, c2, ks.drop_first()));
            assert(d.subrange(c as int, consumed_after(d, c, ks) as int) =~= d.subrange(
                c as int,
                c2 as int,
            ) + d.subrange(c2 as int, consumed_after(d, c2, ks.drop_first()) as int));
        } else {
            law_blocks_join(d, c, ks.drop_first());
            assert(bs.drop_first() =~= blocks_taken(d, c, ks.drop_first()));
            assert(joined(bs) =~= joined(bs.drop_first()));
        }
    }
}

/// The stack after the operations `ops` on a stack holding `t` with room for `size` values:
/// `Some(v)` pushes `v` when there is room and is refused otherwise, `None` pops the top
/// value when there is one (as [`Stack::push`] and [`Stack::pop`] do).
pub open spec fn stack_after<T>(t: Seq<T>, size: nat, ops: Seq<Option<T>>) -> Seq<T>
    decreases ops.len(),
{
    if ops.len() == 0 {
        t
    } else {
        let next = match ops[0] {
            Some(v) => if t.len() < size {
                t.push(v)
            } else {
                t
            },
            None => if t.len() > 0 {
                t.drop_last()
            } else {
                t
            },
        };
        stack_after(next, size, ops.drop_first())
    }
}

/// How many of the operations `ops` on a stack holding `t` are pushes that stored their value.
pub open spec fn stored_pushes<T>(t: Seq<T>, size: nat, ops: Seq<Option<T>>) -> nat
    decreases ops.len(),
{
    if ops.len() == 0 {
        0
    } else {
        let next = stack_after(t, size, seq![ops[0]]);
        let stored: nat = if ops[0] is Some && t.len() < size {
            1
        } else {
            0
        };
        stored + stored_pushes(next, size, ops.drop_first())
    }
}

/// How many of the operations `ops` on a stack holding `t` are pops that returned a value.
pub open spec fn returned_pops<T>(t: Seq<T>, size: nat, ops: Seq<Option<T>>) -> nat
    decreases ops.len(),
{
    if ops.len() == 0 {
        0
    } else {
        let next = stack_after(t, size, seq![ops[0]]);
        let returned: nat = if ops[0] is None && t.len() > 0 {
            1
        } else {
            0
        };
        returned + returned_pops(next, size, ops.drop_first())
    }
}

/// One operation on a stack.
proof fn lemma_stack_step<T>(t: Seq<T>, size: nat, op: Option<T>)
    ensures
        stack_after(t, size, seq![op]) == match op {
            Some(v) => if t.len() < size {
                t.push(v)
            } else {
                t
            },
            None => if t.len() > 0 {
                t.drop_last()
            } else {
                t
            },
        },
{
    assert(seq![op].drop_first() =~= Seq::<Option<T>>::empty());
    reveal_with_fuel(stack_after, 2);
}

/// What `n` pops of a stack holding `t` return, in order.
pub open spec fn popped<T>(t: Seq<T>, n: nat) -> Seq<T>
    decreases n,
{
    if n == 0 || t.len() == 0 {
        Seq::empty()
    } else {
        seq![t.last()] + popped(t.drop_last(), (n - 1) as nat)
    }
}

/// A stack is last in, first out: pushing the values `vs` (all fitting) and then popping as
/// many times returns them in reverse order and leaves the stack as it was before the pushes.
/// And whatever the pushes and pops, a stack that starts within its room of `size` values
/// never holds more than `size`, and holds what it started with plus the pushes that stored a
/// value, less the pops that returned one.
pub proof fn law_stack_lifo<T>(s: Seq<T>, vs: Seq<T>, size: nat, ops: Seq<Option<T>>)
    requires
        s.len() <= size,
    ensures
        s.len() + vs.len() <= size ==> stack_after(
            s,
            size,
            vs.map_values(|v: T| Some(v)),
        ) == s + vs && popped(s + vs, vs.len()) == vs.reverse() && stack_after(
            s + vs,
            size,
            Seq::new(vs.len(), |i: int| None::<T>),
        ) == s,
        stack_after(s, size, ops).len() <= size,
        stack_after(s, size, ops).len() + returned_pops(s, size, ops) == s.len() + stored_pushes(
            s,
            size,
            ops,
        ),
{
    lemma_stack_bound(s, size, ops);
    if s.len() + vs.len() <= size {
        lemma_push_all(s, size, vs);
        lemma_pop_all(s, vs);
        lemma_pop_state(s, size, vs);
    }
}

proof fn lemma_stack_bound<T>(t: Seq<T>, size: nat, ops: Seq<Option<T>>)
    requires
        t.len() <= size,
    ensures
        stack_after(t, size, ops).len() <= size,
        stack_after(t, size, ops).len() + returned_pops(t, size, ops) == t.len() + stored_pushes(
            t,
            size,
            ops,
        ),
    decreases ops.len(),
{
    if ops.len() > 0 {
        lemma_stack_step(t, size, ops[0]);
        let next = match ops[0] {
            Some(v) => if t.len() < size {
                t.push(v)
            } else {
                t
            },
            None => if t.len() > 0 {
                t.drop_last()
            } else {
                t
            },
        };
        lemma_stack_bound(next, size, ops.drop_first());
    }
}

proof fn lemma_push_all<T>(s: Seq<T>, size: nat, vs: Seq<T>)
    requires
        s.len() + vs.len() <= size,
    ensures
        stack_after(s, size, vs.map_values(|v: T| Some(v))) == s + vs,
    decreases vs.len(),
{
    let ops = vs.map_values(|v: T| Some(v));
    if vs.len() == 0 {
        assert(s + vs =~= s);
    } else {
        lemma_push_all(s.push(vs[0]), size, vs.drop_first());
        assert(ops.drop_first() =~= vs.drop_first().map_values(|v: T| Some(v)));
        assert(s.push(vs[0]) + vs.drop_first() =~= s + vs);
    }
}

proof fn lemma_pop_all<T>(s: Seq<T>, vs: Seq<T>)
    ensures
        popped(s + vs, vs.len()) == vs.reverse(),
    decreases vs.len(),
{
    if vs.len() == 0 {
        assert(vs.reverse() =~= Seq::<T>::empty());
    } else {
        let front = vs.drop_last();
        lemma_pop_all(s, front);
        assert((s + vs).drop_last() =~= s + front);
        assert((s + vs).last() == vs.last());
        assert(vs.reverse() =~= seq![vs.last()] + front.reverse());
    }
}

proof fn lemma_pop_state<T>(s: Seq<T>, size: nat, vs: Seq<T>)
    ensures
        stack_after(s + vs, size, Seq::new(vs.len(), |i: int| None::<T>)) == s,
    decreases vs.len(),
{
    let ops = Seq::new(vs.len(), |i: int| None::<T>);
    if vs.len() == 0 {
        assert(s + vs =~= s);
    } else {
        let front = vs.drop_last();
        lemma_pop_state(s, size, front);
        assert((s + vs).drop_last() =~= s + front);
        assert(ops.drop_first() =~= Seq::new(front.len(), |i: int| None::<T>));
    }
}

/// An owned byte buffer that is consumed from the front, block by block.
pub struct SeqBuf {
    buf: Vec<u8>,
    pos: usize,
}

impl SeqBuf {
    #[verifier::type_invariant]
    closed spec fn inv(self) -> bool {
        self.pos <= self.buf@.len()
    }

    /// All bytes of the buffer.
    pub closed spec fn data(&self) -> Seq<u8> {
        self.buf@
    }

    /// How many bytes have been consumed.
    pub closed spec fn consumed(&self) -> nat {
        self.pos as nat
    }

    /// The bytes not consumed yet.
    pub open spec fn rest(&self) -> Seq<u8> {
        self.data().subrange(self.consumed() as int, self.data().len() as int)
    }

    pub fn new(buf: Box<[u8]>) -> (s: SeqBuf)
        ensures
            s.data() == buf@,
            s.consumed() == 0,
    {
        SeqBuf { buf: buf.into_vec(), pos: 0 }
    }

    /// Takes the next `block_len` bytes; `None` (and no change) when fewer are left.
    pub fn get_next(&mut self, block_len: usize) -> (r: Option<Vec<u8>>)
        ensures
            final(self).data() == old(self).data(),
            final(self).consumed() <= final(self).data().len(),
            block_len <= old(self).rest().len() ==> r.is_some() && r.unwrap()@ == old(
                self,
            ).rest().take(block_len as int) && final(self).consumed() == old(self).consumed()
                + block_len,
            block_len > old(self).rest().len() ==> r.is_none() && final(self).consumed() == old(
                self,
            ).consumed(),
            r matches Some(v) ==> final(self).data().take(final(self).consumed() as int) == old(
                self,
            ).data().take(old(self).consumed() as int) + v@,
            final(self).consumed() == consumed_after(
                old(self).data(),
                old(self).consumed(),
                seq![block_len as nat],
            ),
    {
        proof {
            use_type_invariant(&*self);
        }
        proof {
            lemma_consumed_step(self.data(), self.consumed(), block_len as nat);
        }
        if self.buf.len() - self.pos >= block_len {
            let start = self.pos;
            self.pos = self.pos + block_len;
            let block = vstd::slice::slice_to_vec(
                vstd::slice::slice_subrange(self.buf.as_slice(), start, start + block_len),
            );
            proof {
                assert(block@ =~= old(self).rest().take(block_len as int));
                lemma_block_step(self.data(), start as nat, block_len as nat);
            }
            Some(block)
        } else {
            None
        }
    }

    /// The offset of the next unconsumed byte.
    pub fn base(&self) -> (r: usize)
        ensures
            r == self.consumed(),
    {
        self.pos
    }

    /// The number of bytes not consumed yet.
    pub fn len(&self) -> (r: usize)
        ensures
            r == self.rest().len(),
            self.consumed() <= self.data().len(),
    {
        proof {
            use_type_invariant(self);
        }
        self.buf.len() - self.pos
    }

    /// Gives the buffer back when every byte has been consumed.
    pub fn end(self) -> (r: Option<Box<[u8]>>)
        ensures
            self.rest().len() == 0 ==> r.is_some() && r.unwrap()@ == self.data(),
            self.rest().len() != 0 ==> r.is_none(),
    {
        proof {
            use_type_invariant(&self);
        }
        if self.buf.len() == self.pos {
            Some(boxed_from_vec(self.buf))
        } else {
            None
        }
    }
}

/// A borrowed byte buffer that is consumed from the front, block by block.
pub struct SeqSlice<'a> {
    buf: &'a [u8],
    pos: usize,
}

impl<'a> SeqSlice<'a> {
    #[verifier::type_invariant]
    closed spec fn inv(self) -> bool {
        self.pos <= self.buf@.len()
    }

    /// All bytes of the buffer.
    pub closed spec fn data(&self) -> Seq<u8> {
        self.buf@
    }

    /// How many bytes have been consumed.
    pub closed spec fn consumed(&self) -> nat {
        self.pos as nat
    }

    /// The bytes not consumed yet.
    pub open spec fn rest(&self) -> Seq<u8> {
        self.data().subrange(self.consumed() as int, self.data().len() as int)
    }

    pub fn new(buf: &'a [u8]) -> (s: SeqSlice<'a>)
        ensures
            s.data() == buf@,
            s.consumed() == 0,
    {
        SeqSlice { buf, pos: 0 }
    }

    /// Takes the next `block_len` bytes; `None` (and no change) when fewer are left.
    pub fn get_next(&mut self, block_len: usize) -> (r: Option<&'a [u8]>)
        ensures
            final(self).data() == old(self).data(),
            final(self).consumed() <= final(self).data().len(),
            block_len <= old(self).rest().len() ==> r.is_some() && r.unwrap()@ == old(
                self,
            ).rest().take(block_len as int) && final(self).consumed() == old(self).consumed()
                + block_len,
            block_len > old(self).rest().len() ==> r.is_none() && final(self).consumed() == old(
                self,
            ).consumed(),
            r matches Some(v) ==> final(self).data().take(final(self).consumed() as int) == old(
                self,
            ).data().take(old(self).consumed() as int) + v@,
            final(self).consumed() == consumed_after(
                old(self).data(),
                old(self).consumed(),
                seq![block_len as nat],
            ),
    {
        proof {
            use_type_invariant(&*self);
        }
        proof {
            lemma_consumed_step(self.data(), self.consumed(), block_len as nat);
        }
        if self.buf.len() - self.pos >= block_len {
            let start = self.pos;
            self.pos = self.pos + block_len;
            let block = vstd::slice::slice_subrange(self.buf, start, start + block_len);
            proof {
                assert(block@ =~= old(self).rest().take(block_len as int));
                lemma_block_step(self.data(), start as nat, block_len as nat);
            }
            Some(block)
        } else {
            None
        }
    }

    /// The offset of the next unconsumed byte.
    pub fn base(&self) -> (r: usize)
        ensures
            r == self.consumed(),
    {
        self.pos
    }

    /// The number of bytes not consumed yet.
    pub fn len(&self) -> (r: usize)
        ensures
            r == self.rest().len(),
            self.consumed() <= self.data().len(),
    {
        proof {
            use_type_invariant(self);
        }
        self.buf.len() - self.pos
    }

    /// `Some(())` exactly when every byte has been consumed.
    pub fn end(self) -> (r: Option<()>)
        ensures
            r.is_some() <==> self.rest().len() == 0,
    {
        proof {
            use_type_invariant(&self);
        }
        if self.buf.len() == self.pos {
            Some(())
        } else {
            None
        }
    }
}

} // verus!
