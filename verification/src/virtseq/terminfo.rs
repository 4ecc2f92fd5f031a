use vstd::prelude::*;
use vstd::string::{StrSliceExecFns, StringSliceAdditionalSpecFns};
use vstd::utf8::{decode_utf8, valid_utf8};

use crate::stuff::str_from_utf8;

verus! {

// ---------------------------------------------------------------------------
// Errors and parsed values
// ---------------------------------------------------------------------------

/// Why a compiled terminfo entry, or a string capability in it, was rejected.
#[derive(Debug, PartialEq, Clone, Copy)]
pub enum ParseError {
    Debug,
    NoPadding,
    FileNotEmpty,
    NoHeader,
    InvalidHeader,
    NoExtHeader,
    InvalidExtHeader,
    NoNames,
    InvalidNames,
    InvalidUTF8Name,
    NoBools,
    InvalidBool,
    NoExtBools,
    InvalidExtBool,
    NoInts,
    InvalidInt(i32),
    NoExtInts,
    InvalidExtInt(i32),
    NoStrOffs,
    NoStrTable,
    InvalidStrIdx,
    InvalidCStr,
    InvalidStrTable,
    NoExtStrOffs,
    NoExtNameOffs,
    NoExtStrTable,
    InvalidExtStrIdx,
    InvalidExtCStr,
    InvalidExtName,
    InvalidExtStrTable,
    IncompleteMod,
    IncompleteParam,
    InvalidParam,
    WrongType,
    EmptyStack,
    InvalidMod,
    NotEmptyStack,
    IncompleteCharConst,
    InvalidCharConst,
    MissingFeatureIf,
    InvalidInputMatch,
    MissingFeatureMatch,
    InvalidConsts,
    MissingFeatureConsts,
    EmptyStr,
    EmptyStrOut,
    UnknownError,
    InvalidId,
    UnusedParam,
}

/// A boolean capability.
#[derive(Clone, Copy, Debug, PartialEq)]
pub enum TermInfoBool {
    Working,
    Disabled,
    NotImpl,
    IdkCanceled,
}

/// The boolean capability that the byte `b` (read as `i8`) encodes: 1, 0, -1 or -2.
pub open spec fn bool_of(b: u8) -> Option<TermInfoBool> {
    if b == 1 {
        Some(TermInfoBool::Working)
    } else if b == 0 {
        Some(TermInfoBool::Disabled)
    } else if b == 255 {
        Some(TermInfoBool::NotImpl)
    } else if b == 254 {
        Some(TermInfoBool::IdkCanceled)
    } else {
        None
    }
}

impl TermInfoBool {
    /// Every value of the type stands for one of the four encodings.
    pub fn valid(&self) -> (r: bool)
        ensures
            r,
    {
        true
    }

    fn from_byte(b: u8) -> (r: Option<TermInfoBool>)
        ensures
            r == bool_of(b),
    {
        if b == 1 {
            Some(TermInfoBool::Working)
        } else if b == 0 {
            Some(TermInfoBool::Disabled)
        } else if b == 255 {
            Some(TermInfoBool::NotImpl)
        } else if b == 254 {
            Some(TermInfoBool::IdkCanceled)
        } else {
            None
        }
    }
}

/// The numeric capabilities: 16-bit in a legacy entry, 32-bit in an extended one.
pub enum FormatnInts {
    Legacy(Vec<i16>),
    Extended(Vec<i32>),
}

pub enum IntsView {
    Legacy(Seq<i16>),
    Extended(Seq<i32>),
}

impl View for FormatnInts {
    type V = IntsView;

    open spec fn view(&self) -> IntsView {
        match self {
            FormatnInts::Legacy(v) => IntsView::Legacy(v@),
            FormatnInts::Extended(v) => IntsView::Extended(v@),
        }
    }
}

pub open spec fn ints_len(v: IntsView) -> nat {
    match v {
        IntsView::Legacy(s) => s.len(),
        IntsView::Extended(s) => s.len(),
    }
}

impl FormatnInts {
    pub fn len(&self) -> (r: usize)
        ensures
            r == ints_len(self@),
    {
        match self {
            FormatnInts::Legacy(ints) => ints.len(),
            FormatnInts::Extended(ints) => ints.len(),
        }
    }
}

/// A string capability, or a name of an extended capability.
pub enum TermInfoString {
    There(Vec<u8>),
    Name(String),
    NotImpl,
    IdkCanceled,
}

pub enum StrView {
    There(Seq<u8>),
    Name(Seq<char>),
    NotImpl,
    IdkCanceled,
}

impl View for TermInfoString {
    type V = StrView;

    open spec fn view(&self) -> StrView {
        match self {
            TermInfoString::There(v) => StrView::There(v@),
            TermInfoString::Name(s) => StrView::Name(s@),
            TermInfoString::NotImpl => StrView::NotImpl,
            TermInfoString::IdkCanceled => StrView::IdkCanceled,
        }
    }
}

pub open spec fn strs_view(v: Seq<TermInfoString>) -> Seq<StrView> {
    v.map_values(|x: TermInfoString| x@)
}

/// The extended section of an entry: names of the extra capabilities, then their values.
pub struct TermInfoExt {
    name_table: Vec<TermInfoString>,
    bools: Vec<TermInfoBool>,
    ints: FormatnInts,
    str_table: Vec<TermInfoString>,
}

pub struct ExtView {
    pub name_table: Seq<StrView>,
    pub bools: Seq<TermInfoBool>,
    pub ints: IntsView,
    pub str_table: Seq<StrView>,
}

impl View for TermInfoExt {
    type V = ExtView;

    closed spec fn view(&self) -> ExtView {
        ExtView {
            name_table: strs_view(self.name_table@),
            bools: self.bools@,
            ints: self.ints@,
            str_table: strs_view(self.str_table@),
        }
    }
}

impl TermInfoExt {
    /// The name of the extra boolean capability `idx`.
    pub fn get_bool_name(&self, idx: usize) -> (r: Option<&TermInfoString>)
        requires
            idx < self@.bools.len() ==> idx < self@.name_table.len(),
        ensures
            idx < self@.bools.len() ==> r.is_some() && r.unwrap()@ == self@.name_table[idx as int],
            idx >= self@.bools.len() ==> r.is_none(),
    {
        if idx < self.bools.len() {
            Some(&self.name_table[idx])
        } else {
            None
        }
    }

    /// The name that the entry gives for the extra numeric capability `idx`: the table is
    /// read from its start, as for booleans.
    pub fn get_int_name(&self, idx: usize) -> (r: Option<&TermInfoString>)
        requires
            idx < ints_len(self@.ints) ==> idx < self@.name_table.len(),
        ensures
            idx < ints_len(self@.ints) ==> r.is_some() && r.unwrap()@
                == self@.name_table[idx as int],
            idx >= ints_len(self@.ints) ==> r.is_none(),
    {
        if idx < self.ints.len() {
            Some(&self.name_table[idx])
        } else {
            None
        }
    }

    /// The name of the extra string capability `idx`, which follows the boolean and numeric
    /// names.
    pub fn get_str_name(&self, idx: usize) -> (r: Option<&TermInfoString>)
        requires
            idx < self@.str_table.len() ==> idx + self@.bools.len() + ints_len(self@.ints)
                < self@.name_table.len(),
        ensures
            idx < self@.str_table.len() ==> r.is_some() && r.unwrap()@ == self@.name_table[idx
                + self@.bools.len() + ints_len(self@.ints)],
            idx >= self@.str_table.len() ==> r.is_none(),
    {
        let names = self.name_table.len();
        if idx < self.str_table.len() {
            assert(strs_view(self.name_table@).len() == names);
            Some(&self.name_table[idx + self.bools.len() + self.ints.len()])
        } else {
            None
        }
    }
}

/// A parsed compiled terminfo entry.
pub struct TermInfo {
    file: Vec<u8>,
    names: Vec<String>,
    bools: Vec<TermInfoBool>,
    ints: FormatnInts,
    strings: Vec<TermInfoString>,
    ext_format: Option<TermInfoExt>,
}

pub struct TermInfoView {
    pub file: Seq<u8>,
    pub names: Seq<Seq<char>>,
    pub bools: Seq<TermInfoBool>,
    pub ints: IntsView,
    pub strings: Seq<StrView>,
    pub ext: Option<ExtView>,
}

impl View for TermInfo {
    type V = TermInfoView;

    closed spec fn view(&self) -> TermInfoView {
        TermInfoView {
            file: self.file@,
            names: self.names@.map_values(|s: String| s@),
            bools: self.bools@,
            ints: self.ints@,
            strings: strs_view(self.strings@),
            ext: match self.ext_format {
                Some(e) => Some(e@),
                None => None,
            },
        }
    }
}

impl TermInfo {
    /// The string capability `idx`.
    pub fn get_str(&self, idx: usize) -> (r: Option<&TermInfoString>)
        ensures
            idx < self@.strings.len() ==> r.is_some() && r.unwrap()@ == self@.strings[idx as int],
            idx >= self@.strings.len() ==> r.is_none(),
    {
        if idx < self.strings.len() {
            Some(&self.strings[idx])
        } else {
            None
        }
    }
}


// ---------------------------------------------------------------------------
// The compiled terminfo format
// ---------------------------------------------------------------------------

/// The outcome of a parsing step: the input is one that the reader cannot take (it would cut
/// the string table at an offset outside it), or it is rejected with an error, or it yields a
/// value and the position after it.
pub enum Step<T> {
    Panic,
    Fail(ParseError),
    Done(T, nat),
}

/// The little-endian 16-bit signed value at byte `i`.
pub open spec fn le16(d: Seq<u8>, i: int) -> int {
    let u = d[i] as int + 256 * (d[i + 1] as int);
    if u >= 32768 {
        u - 65536
    } else {
        u
    }
}

/// The little-endian 32-bit signed value at byte `i`.
pub open spec fn le32(d: Seq<u8>, i: int) -> int {
    let u = d[i] as int + 256 * (d[i + 1] as int) + 65536 * (d[i + 2] as int) + 16777216 * (d[i
        + 3] as int);
    if u >= 2147483648 {
        u - 4294967296
    } else {
        u
    }
}

/// `n` little-endian 16-bit values from byte `pos` on.
pub open spec fn i16s(d: Seq<u8>, pos: int, n: nat) -> Seq<i16> {
    Seq::new(n, |k: int| le16(d, pos + 2 * k) as i16)
}

pub const LEGACY_MAGIC: i16 = 0x011A;

pub const EXTENDED_MAGIC: i16 = 0x021E;

/// A C string with its terminator: at least one byte, the last one zero, no other zero.
pub open spec fn with_nul_ok(s: Seq<u8>) -> bool {
    &&& s.len() > 0
    &&& s.last() == 0
    &&& forall|k: int| 0 <= k < s.len() - 1 ==> s[k] != 0
}

/// The index of the first zero byte of `s`.
pub open spec fn first_nul(s: Seq<u8>) -> Option<nat> {
    if exists|k: int| 0 <= k < s.len() && s[k] == 0 {
        Some(
            (choose|k: int| 0 <= k < s.len() && s[k] == 0 && forall|j: int| 0 <= j < k ==> s[j] != 0) as nat,
        )
    } else {
        None
    }
}

/// The first strictly positive offset after index `i`.
pub open spec fn next_positive(offs: Seq<i16>, i: int) -> Option<int>
    decreases offs.len() - i,
{
    if i + 1 >= offs.len() {
        None
    } else if offs[i + 1] >= 1 {
        Some(offs[i + 1] as int)
    } else {
        next_positive(offs, i + 1)
    }
}

/// `s` split at every `|`, as `str::split` does.
pub open spec fn split_bar_prefix(s: Seq<char>, k: nat) -> (Seq<Seq<char>>, Seq<char>)
    decreases k,
{
    if k == 0 {
        (Seq::empty(), Seq::empty())
    } else {
        let (done, cur) = split_bar_prefix(s, (k - 1) as nat);
        if k - 1 < s.len() && s[k - 1] == '|' {
            (done.push(cur), Seq::empty())
        } else {
            (done, cur.push(s[k - 1]))
        }
    }
}

pub open spec fn split_bar(s: Seq<char>) -> Seq<Seq<char>> {
    let (done, cur) = split_bar_prefix(s, s.len());
    done.push(cur)
}

/// Which table a run of offsets describes; the error variants and the handling of the last
/// string differ between them.
#[derive(Clone, Copy, PartialEq, Eq, Structural)]
pub enum TableMode {
    Strings,
    ExtStrings,
    ExtNames,
}

pub open spec fn cstr_err(mode: TableMode) -> ParseError {
    if mode == TableMode::Strings {
        ParseError::InvalidCStr
    } else {
        ParseError::InvalidExtCStr
    }
}

pub open spec fn idx_err(mode: TableMode) -> ParseError {
    if mode == TableMode::Strings {
        ParseError::InvalidStrIdx
    } else {
        ParseError::InvalidExtStrIdx
    }
}

/// The entry that ends where the next positive offset `n` points: a C string that fills
/// `table[idx..n]`.
pub open spec fn spec_entry_bounded(mode: TableMode, idx: nat, n: int, table: Seq<u8>) -> Step<
    (StrView, Seq<u8>),
> {
    if !(idx <= n <= table.len()) {
        Step::Panic
    } else {
        let piece = table.subrange(idx as int, n);
        if !with_nul_ok(piece) {
            Step::Fail(cstr_err(mode))
        } else {
            let text = piece.drop_last();
            if mode == TableMode::ExtNames {
                if valid_utf8(text) {
                    Step::Done((StrView::Name(decode_utf8(text)), table), n as nat)
                } else {
                    Step::Fail(ParseError::InvalidExtName)
                }
            } else {
                Step::Done((StrView::There(text), table), n as nat)
            }
        }
    }
}

/// An entry with no positive offset after it: the C string at `idx`, which must end the
/// table (for extended strings only when there are no names); extended strings go on in the
/// rest of the table.
pub open spec fn spec_entry_last(mode: TableMode, idx: nat, table: Seq<u8>, names_zero: bool) -> Step<
    (StrView, Seq<u8>),
> {
    if idx > table.len() {
        Step::Panic
    } else {
        let rest = table.subrange(idx as int, table.len() as int);
        match first_nul(rest) {
            None => Step::Fail(cstr_err(mode)),
            Some(c) => {
                let text = rest.take(c as int);
                let ends = idx + c + 1 == table.len();
                if mode == TableMode::Strings {
                    if !ends {
                        Step::Fail(ParseError::InvalidStrTable)
                    } else {
                        Step::Done((StrView::There(text), table), idx)
                    }
                } else if mode == TableMode::ExtStrings {
                    if names_zero && !ends {
                        Step::Fail(ParseError::InvalidExtStrTable)
                    } else {
                        Step::Done((StrView::There(text), table.skip((idx + c + 1) as int)), 0)
                    }
                } else {
                    if !ends {
                        Step::Fail(ParseError::InvalidStrTable)
                    } else if valid_utf8(text) {
                        Step::Done((StrView::Name(decode_utf8(text)), table), idx)
                    } else {
                        Step::Fail(ParseError::InvalidExtName)
                    }
                }
            },
        }
    }
}

/// The entry for offset `i`, read from `table` at `idx`: the entry with the table and the
/// read position after it. Only the sign of the offset matters.
pub open spec fn spec_entry(
    mode: TableMode,
    offs: Seq<i16>,
    i: int,
    idx: nat,
    table: Seq<u8>,
    names_zero: bool,
) -> Step<(StrView, Seq<u8>)> {
    let off = offs[i];
    if off >= 0 {
        match next_positive(offs, i) {
            Some(n) => spec_entry_bounded(mode, idx, n, table),
            None => spec_entry_last(mode, idx, table, names_zero),
        }
    } else if off == -1 {
        Step::Done((StrView::NotImpl, table), idx)
    } else if off == -2 {
        Step::Done((StrView::IdkCanceled, table), idx)
    } else {
        Step::Fail(idx_err(mode))
    }
}

/// The entries of the first `k` offsets, with the table and read position after them.
pub open spec fn spec_walk(
    mode: TableMode,
    offs: Seq<i16>,
    k: nat,
    idx0: nat,
    table0: Seq<u8>,
    names_zero: bool,
) -> Step<(Seq<StrView>, Seq<u8>)>
    decreases k,
{
    if k == 0 {
        Step::Done((Seq::empty(), table0), idx0)
    } else {
        match spec_walk(mode, offs, (k - 1) as nat, idx0, table0, names_zero) {
            Step::Panic => Step::Panic,
            Step::Fail(e) => Step::Fail(e),
            Step::Done((out, t), idx) => match spec_entry(
                mode,
                offs,
                k - 1,
                idx,
                t,
                names_zero,
            ) {
                Step::Panic => Step::Panic,
                Step::Fail(e) => Step::Fail(e),
                Step::Done((entry, t2), idx2) => Step::Done((out.push(entry), t2), idx2),
            },
        }
    }
}

/// The boolean section: `count` bytes, each 1, 0, -1 or -2.
pub open spec fn spec_bools(f: Seq<u8>, pos: nat, count: nat, ext: bool) -> Step<
    Seq<TermInfoBool>,
> {
    if pos + count > f.len() {
        Step::Fail(
            if ext {
                ParseError::NoExtBools
            } else {
                ParseError::NoBools
            },
        )
    } else if exists|k: int| 0 <= k < count && #[trigger] bool_of(f[pos + k]) is None {
        Step::Fail(
            if ext {
                ParseError::InvalidExtBool
            } else {
                ParseError::InvalidBool
            },
        )
    } else {
        Step::Done(Seq::new(count, |k: int| bool_of(f[pos + k]).unwrap()), pos + count)
    }
}

/// The padding byte that follows a section ending at an odd offset.
pub open spec fn spec_pad(f: Seq<u8>, pos: nat) -> Step<()> {
    if pos % 2 == 1 {
        if pos >= f.len() {
            Step::Fail(ParseError::NoPadding)
        } else {
            Step::Done((), pos + 1)
        }
    } else {
        Step::Done((), pos)
    }
}

/// The values of the numeric section: `count` 16-bit (legacy) or 32-bit values.
pub open spec fn int_vals(f: Seq<u8>, pos: nat, count: nat, legacy: bool) -> Seq<int> {
    Seq::new(
        count,
        |k: int|
            if legacy {
                le16(f, pos + 2 * k)
            } else {
                le32(f, pos + 4 * k)
            },
    )
}

/// The index of the first value below -2, when there is one.
pub open spec fn first_bad_int(vals: Seq<int>) -> Option<int> {
    if exists|k: int| 0 <= k < vals.len() && vals[k] < -2 && forall|j: int| 0 <= j < k ==> vals[j] >= -2 {
        Some(choose|k: int| 0 <= k < vals.len() && vals[k] < -2 && forall|j: int| 0 <= j < k ==> vals[j] >= -2)
    } else {
        None
    }
}

/// The numeric section; a value below -2 is rejected with the first such value.
pub open spec fn spec_ints(f: Seq<u8>, pos: nat, count: nat, legacy: bool, ext: bool) -> Step<
    IntsView,
> {
    let w: nat = if legacy {
        2
    } else {
        4
    };
    if pos + w * count > f.len() {
        Step::Fail(
            if ext {
                ParseError::NoExtInts
            } else {
                ParseError::NoInts
            },
        )
    } else {
        let vals = int_vals(f, pos, count, legacy);
        match first_bad_int(vals) {
            Some(k) => Step::Fail(
                if ext {
                    ParseError::InvalidExtInt(vals[k] as i32)
                } else {
                    ParseError::InvalidInt(vals[k] as i32)
                },
            ),
            None => Step::Done(
                if legacy {
                    IntsView::Legacy(vals.map_values(|v: int| v as i16))
                } else {
                    IntsView::Extended(vals.map_values(|v: int| v as i32))
                },
                pos + w * count,
            ),
        }
    }
}

/// The string section: `str_count` offsets, in an extended section `name_count` name
/// offsets, then a table of `table_size` bytes; the strings, then the names.
pub open spec fn spec_strings(
    f: Seq<u8>,
    pos: nat,
    str_count: nat,
    ext: bool,
    name_count: nat,
    table_size: nat,
) -> Step<(Seq<StrView>, Seq<StrView>)> {
    let p1 = pos + 2 * str_count;
    let p2 = if ext {
        p1 + 2 * name_count
    } else {
        p1
    };
    if p1 > f.len() {
        Step::Fail(
            if ext {
                ParseError::NoExtStrOffs
            } else {
                ParseError::NoStrOffs
            },
        )
    } else if p2 > f.len() {
        Step::Fail(ParseError::NoExtNameOffs)
    } else if table_size == 0 {
        Step::Done((Seq::empty(), Seq::empty()), p2)
    } else if p2 + table_size > f.len() {
        Step::Fail(
            if ext {
                ParseError::NoExtStrTable
            } else {
                ParseError::NoStrTable
            },
        )
    } else {
        let offs = i16s(f, pos as int, str_count);
        let table = f.subrange(p2 as int, (p2 + table_size) as int);
        let mode = if ext {
            TableMode::ExtStrings
        } else {
            TableMode::Strings
        };
        match spec_walk(mode, offs, str_count, 0, table, name_count == 0) {
            Step::Panic => Step::Panic,
            Step::Fail(e) => Step::Fail(e),
            Step::Done((strs, t), idx) => {
                if ext && name_count != 0 {
                    let noffs = i16s(f, p1 as int, name_count);
                    match spec_walk(TableMode::ExtNames, noffs, name_count, idx, t, false) {
                        Step::Panic => Step::Panic,
                        Step::Fail(e) => Step::Fail(e),
                        Step::Done((names, _), _) => Step::Done((strs, names), p2 + table_size),
                    }
                } else {
                    Step::Done((strs, Seq::empty()), p2 + table_size)
                }
            },
        }
    }
}

/// The bounds of a valid legacy header: version, name size, and the counts.
pub open spec fn header_valid(f: Seq<u8>) -> bool {
    &&& (le16(f, 0) == LEGACY_MAGIC || le16(f, 0) == EXTENDED_MAGIC)
    &&& 0 < le16(f, 2) < 512
    &&& 0 <= le16(f, 4) <= 44
    &&& 0 <= le16(f, 6) <= 39
    &&& 0 <= le16(f, 8) <= 414
    &&& 0 <= le16(f, 10)
}

/// The bounds of a valid extended header at `p`.
pub open spec fn ext_header_valid(f: Seq<u8>, p: int, max_entry: int) -> bool {
    let b = le16(f, p);
    let i = le16(f, p + 2);
    let s = le16(f, p + 4);
    let tc = le16(f, p + 6);
    let ts = le16(f, p + 8);
    &&& b >= 0 && i >= 0 && s >= 0 && tc >= 0 && ts >= 0
    &&& ts < max_entry
    &&& tc < max_entry
    &&& b + i + s < max_entry / 2
}

/// The extended section at `pos`.
pub open spec fn spec_ext(f: Seq<u8>, pos: nat, legacy: bool) -> Step<ExtView> {
    match spec_pad(f, pos) {
        Step::Done(_, p) => {
            if p + 10 > f.len() {
                Step::Fail(ParseError::NoExtHeader)
            } else if !ext_header_valid(
                f,
                p as int,
                if legacy {
                    4096
                } else {
                    32768
                },
            ) {
                Step::Fail(ParseError::InvalidExtHeader)
            } else {
                let b = le16(f, p as int) as nat;
                let i = le16(f, (p + 2) as int) as nat;
                let s = le16(f, (p + 4) as int) as nat;
                let ts = le16(f, (p + 8) as int) as nat;
                match spec_bools(f, p + 10, b, true) {
                    Step::Done(bools, p2) => match spec_pad(f, p2) {
                        Step::Done(_, p3) => match spec_ints(f, p3, i, legacy, true) {
                            Step::Done(ints, p4) => match spec_strings(f, p4, s, true, b + i + s, ts) {
                                Step::Done((strs, names), p5) => Step::Done(
                                    ExtView { name_table: names, bools, ints, str_table: strs },
                                    p5,
                                ),
                                Step::Fail(e) => Step::Fail(e),
                                Step::Panic => Step::Panic,
                            },
                            Step::Fail(e) => Step::Fail(e),
                            Step::Panic => Step::Panic,
                        },
                        Step::Fail(e) => Step::Fail(e),
                        Step::Panic => Step::Panic,
                    },
                    Step::Fail(e) => Step::Fail(e),
                    Step::Panic => Step::Panic,
                }
            }
        },
        Step::Fail(e) => Step::Fail(e),
        Step::Panic => Step::Panic,
    }
}

/// A whole compiled entry: header, names, booleans, numbers, strings, then an optional
/// extended section; every byte must be used.
pub open spec fn spec_parse(f: Seq<u8>) -> Step<TermInfoView> {
    if f.len() < 12 {
        Step::Fail(ParseError::NoHeader)
    } else if !header_valid(f) {
        Step::Fail(ParseError::InvalidHeader)
    } else {
        let legacy = le16(f, 0) == LEGACY_MAGIC;
        let ns = le16(f, 2) as nat;
        if 12 + ns > f.len() {
            Step::Fail(ParseError::NoNames)
        } else {
            let nb = f.subrange(12, (12 + ns) as int);
            if !with_nul_ok(nb) {
                Step::Fail(ParseError::InvalidNames)
            } else if !valid_utf8(nb.drop_last()) {
                Step::Fail(ParseError::InvalidUTF8Name)
            } else {
                let names = split_bar(decode_utf8(nb.drop_last()));
                match spec_bools(f, 12 + ns, le16(f, 4) as nat, false) {
                    Step::Done(bools, p1) => match spec_pad(f, p1) {
                        Step::Done(_, p2) => match spec_ints(f, p2, le16(f, 6) as nat, legacy, false) {
                            Step::Done(ints, p3) => match spec_strings(
                                f,
                                p3,
                                le16(f, 8) as nat,
                                false,
                                0,
                                le16(f, 10) as nat,
                            ) {
                                Step::Done((strings, _), p4) => {
                                    if p4 != f.len() {
                                        match spec_ext(f, p4, legacy) {
                                            Step::Done(ext, p5) => {
                                                if p5 != f.len() {
                                                    Step::Fail(ParseError::FileNotEmpty)
                                                } else {
                                                    Step::Done(
                                                        TermInfoView {
                                                            file: f,
                                                            names,
                                                            bools,
                                                            ints,
                                                            strings,
                                                            ext: Some(ext),
                                                        },
                                                        p5,
                                                    )
                                                }
                                            },
                                            Step::Fail(e) => Step::Fail(e),
                                            Step::Panic => Step::Panic,
                                        }
                                    } else {
                                        Step::Done(
                                            TermInfoView {
                                                file: f,
                                                names,
                                                bools,
                                                ints,
                                                strings,
                                                ext: None,
                                            },
                                            p4,
                                        )
                                    }
                                },
                                Step::Fail(e) => Step::Fail(e),
                                Step::Panic => Step::Panic,
                            },
                            Step::Fail(e) => Step::Fail(e),
                            Step::Panic => Step::Panic,
                        },
                        Step::Fail(e) => Step::Fail(e),
                        Step::Panic => Step::Panic,
                    },
                    Step::Fail(e) => Step::Fail(e),
                    Step::Panic => Step::Panic,
                }
            }
        }
    }
}

// ---------------------------------------------------------------------------
// The parser
// ---------------------------------------------------------------------------

/// Why a parsing step stopped: on an input that the reader cannot take, or with an error.
enum Failure {
    Panic,
    Error(ParseError),
}

spec fn agrees<T, V>(r: Result<(T, usize), Failure>, s: Step<V>, view: spec_fn(T) -> V) -> bool {
    match s {
        Step::Panic => r matches Err(Failure::Panic),
        Step::Fail(e) => r matches Err(Failure::Error(e2)) && e2 == e,
        Step::Done(v, p) => r matches Ok((t, q)) && view(t) == v && q == p,
    }
}

fn read_le16(d: &[u8], i: usize) -> (r: i16)
    requires
        i + 2 <= d@.len(),
    ensures
        r as int == le16(d@, i as int),
{
    let u: i32 = d[i] as i32 + 256 * (d[i + 1] as i32);
    if u >= 32768 {
        (u - 65536) as i16
    } else {
        u as i16
    }
}

fn read_le32(d: &[u8], i: usize) -> (r: i32)
    requires
        i + 4 <= d@.len(),
    ensures
        r as int == le32(d@, i as int),
{
    let u: i64 = d[i] as i64 + 256 * (d[i + 1] as i64) + 65536 * (d[i + 2] as i64) + 16777216 * (
    d[i + 3] as i64);
    if u >= 2147483648 {
        (u - 4294967296) as i32
    } else {
        u as i32
    }
}

fn read_i16s(d: &[u8], pos: usize, n: usize) -> (r: Vec<i16>)
    requires
        pos + 2 * n <= d@.len(),
    ensures
        r@ == i16s(d@, pos as int, n as nat),
{
    let dl = d.len();
    let mut out: Vec<i16> = Vec::new();
    let mut k: usize = 0;
    while k < n
        invariant
            dl == d@.len(),
            pos + 2 * n <= d@.len(),
            k <= n,
            out@ =~= i16s(d@, pos as int, k as nat),
        decreases n - k,
    {
        let v = read_le16(d, pos + 2 * k);
        out.push(v);
        k = k + 1;
    }
    out
}

fn parse_bools(f: &[u8], pos: usize, count: usize, ext: bool) -> (r: Result<
    (Vec<TermInfoBool>, usize),
    Failure,
>)
    requires
        pos <= f@.len(),
    ensures
        agrees(r, spec_bools(f@, pos as nat, count as nat, ext), |v: Vec<TermInfoBool>| v@),
{
    if count > f.len() - pos {
        return Err(
            Failure::Error(
                if ext {
                    ParseError::NoExtBools
                } else {
                    ParseError::NoBools
                },
            ),
        );
    }
    let fl = f.len();
    let mut out: Vec<TermInfoBool> = Vec::new();
    let mut k: usize = 0;
    while k < count
        invariant
            fl == f@.len(),
            pos + count <= f@.len(),
            k <= count,
            out@ =~= Seq::new(k as nat, |j: int| bool_of(f@[pos + j]).unwrap()),
            forall|j: int| 0 <= j < k ==> #[trigger] bool_of(f@[pos + j]) is Some,
        decreases count - k,
    {
        match TermInfoBool::from_byte(f[pos + k]) {
            Some(b) => out.push(b),
            None => {
                assert(bool_of(f@[pos + k as int]) is None);
                return Err(
                    Failure::Error(
                        if ext {
                            ParseError::InvalidExtBool
                        } else {
                            ParseError::InvalidBool
                        },
                    ),
                );
            },
        }
        k = k + 1;
    }
    Ok((out, pos + count))
}

fn parse_pad(f: &[u8], pos: usize) -> (r: Result<((), usize), Failure>)
    requires
        pos <= f@.len(),
    ensures
        agrees(r, spec_pad(f@, pos as nat), |u: ()| u),
        r matches Ok((_, p)) ==> p <= f@.len(),
{
    if pos % 2 == 1 {
        if pos >= f.len() {
            Err(Failure::Error(ParseError::NoPadding))
        } else {
            Ok(((), pos + 1))
        }
    } else {
        Ok(((), pos))
    }
}

proof fn lemma_first_bad_int(vals: Seq<int>, k: int)
    requires
        0 <= k < vals.len(),
        vals[k] < -2,
        forall|j: int| 0 <= j < k ==> vals[j] >= -2,
    ensures
        first_bad_int(vals) == Some(k),
{
    let k2 = choose|k2: int|
        0 <= k2 < vals.len() && vals[k2] < -2 && forall|j: int| 0 <= j < k2 ==> vals[j] >= -2;
    assert(0 <= k2 < vals.len() && vals[k2] < -2 && forall|j: int| 0 <= j < k2 ==> vals[j] >= -2);
    if k2 < k {
        assert(vals[k2] >= -2);
    } else if k2 > k {
        assert(vals[k] >= -2);
    }
}

fn parse_ints(f: &[u8], pos: usize, count: usize, legacy: bool, ext: bool) -> (r: Result<
    (FormatnInts, usize),
    Failure,
>)
    requires
        pos <= f@.len(),
        count <= 0x10000,
    ensures
        agrees(r, spec_ints(f@, pos as nat, count as nat, legacy, ext), |v: FormatnInts| v@),
        r matches Ok((_, p)) ==> p <= f@.len(),
{
    let w: usize = if legacy {
        2
    } else {
        4
    };
    if w * count > f.len() - pos {
        return Err(
            Failure::Error(
                if ext {
                    ParseError::NoExtInts
                } else {
                    ParseError::NoInts
                },
            ),
        );
    }
    let ghost vals = int_vals(f@, pos as nat, count as nat, legacy);
    let fl = f.len();
    if legacy {
        let mut out: Vec<i16> = Vec::new();
        let mut k: usize = 0;
        while k < count
            invariant
                fl == f@.len(),
                pos + 2 * count <= f@.len(),
                k <= count,
                legacy,
                vals == int_vals(f@, pos as nat, count as nat, legacy),
                out@ =~= vals.take(k as int).map_values(|v: int| v as i16),
                forall|j: int| 0 <= j < k ==> vals[j] >= -2,
            decreases count - k,
        {
            let v = read_le16(f, pos + 2 * k);
            assert(vals[k as int] == v as int);
            if v < -2 {
                proof {
                    lemma_first_bad_int(vals, k as int);
                }
                return Err(
                    Failure::Error(
                        if ext {
                            ParseError::InvalidExtInt(v as i32)
                        } else {
                            ParseError::InvalidInt(v as i32)
                        },
                    ),
                );
            }
            out.push(v);
            k = k + 1;
        }
        assert(vals.take(count as int) =~= vals);
        assert(first_bad_int(vals) is None);
        Ok((FormatnInts::Legacy(out), pos + 2 * count))
    } else {
        let mut out: Vec<i32> = Vec::new();
        let mut k: usize = 0;
        while k < count
            invariant
                fl == f@.len(),
                pos + 4 * count <= f@.len(),
                k <= count,
                !legacy,
                vals == int_vals(f@, pos as nat, count as nat, legacy),
                out@ =~= vals.take(k as int).map_values(|v: int| v as i32),
                forall|j: int| 0 <= j < k ==> vals[j] >= -2,
            decreases count - k,
        {
            let v = read_le32(f, pos + 4 * k);
            assert(vals[k as int] == v as int);
            if v < -2 {
                proof {
                    lemma_first_bad_int(vals, k as int);
                }
                return Err(
                    Failure::Error(
                        if ext {
                            ParseError::InvalidExtInt(v)
                        } else {
                            ParseError::InvalidInt(v)
                        },
                    ),
                );
            }
            out.push(v);
            k = k + 1;
        }
        assert(vals.take(count as int) =~= vals);
        assert(first_bad_int(vals) is None);
        Ok((FormatnInts::Extended(out), pos + 4 * count))
    }
}

/// `str::from_utf8` into an owned string.
fn utf8_string(text: &[u8]) -> (r: Option<String>)
    ensures
        r.is_some() <==> valid_utf8(text@),
        r matches Some(s) ==> s@ == decode_utf8(text@),
{
    match str_from_utf8(text) {
        Some(s) => {
            proof {
                vstd::utf8::encode_utf8_decode_utf8(s@);
            }
            Some(s.to_owned())
        },
        None => None,
    }
}

fn cstr_with_nul(s: &[u8]) -> (r: bool)
    ensures
        r == with_nul_ok(s@),
{
    let n = s.len();
    if n == 0 {
        return false;
    }
    if s[n - 1] != 0 {
        return false;
    }
    let mut k: usize = 0;
    while k < n - 1
        invariant
            n == s@.len(),
            n > 0,
            k <= n - 1,
            forall|j: int| 0 <= j < k ==> s@[j] != 0,
        decreases n - 1 - k,
    {
        if s[k] == 0 {
            return false;
        }
        k = k + 1;
    }
    true
}

fn cstr_until_nul(s: &[u8]) -> (r: Option<usize>)
    ensures
        r matches Some(c) ==> first_nul(s@) == Some(c as nat) && c < s@.len(),
        r is None ==> first_nul(s@) is None,
{
    let n = s.len();
    let mut k: usize = 0;
    while k < n
        invariant
            n == s@.len(),
            k <= n,
            forall|j: int| 0 <= j < k ==> s@[j] != 0,
        decreases n - k,
    {
        if s[k] == 0 {
            proof {
                let k2 = choose|k2: int|
                    0 <= k2 < s@.len() && s@[k2] == 0 && forall|j: int| 0 <= j < k2 ==> s@[j] != 0;
                assert(0 <= k2 < s@.len() && s@[k2] == 0 && forall|j: int|
                    0 <= j < k2 ==> s@[j] != 0);
                if k2 < k {
                    assert(s@[k2] != 0);
                } else if k2 > k {
                    assert(s@[k as int] != 0);
                }
            }
            return Some(k);
        }
        k = k + 1;
    }
    None
}

fn get_next_offs(offs: &[i16], i: usize) -> (r: Option<usize>)
    requires
        i < offs@.len(),
    ensures
        match next_positive(offs@, i as int) {
            Some(n) => r == Some(n as usize) && 1 <= n <= i16::MAX,
            None => r is None,
        },
{
    let len = offs.len();
    let mut j = i + 1;
    while j < len
        invariant
            len == offs@.len(),
            i < j <= offs@.len(),
            next_positive(offs@, i as int) == next_positive(offs@, j - 1),
        decreases offs@.len() - j,
    {
        if offs[j] >= 1 {
            return Some(offs[j] as usize);
        }
        j = j + 1;
    }
    None
}

fn entry_cstr_err(mode: TableMode) -> (r: ParseError)
    ensures
        r == cstr_err(mode),
{
    if mode == TableMode::Strings {
        ParseError::InvalidCStr
    } else {
        ParseError::InvalidExtCStr
    }
}

fn entry_idx_err(mode: TableMode) -> (r: ParseError)
    ensures
        r == idx_err(mode),
{
    if mode == TableMode::Strings {
        ParseError::InvalidStrIdx
    } else {
        ParseError::InvalidExtStrIdx
    }
}

spec fn entry_agrees<'a>(
    r: Result<(TermInfoString, &'a [u8], usize), Failure>,
    s: Step<(StrView, Seq<u8>)>,
) -> bool {
    match s {
        Step::Panic => r matches Err(Failure::Panic),
        Step::Fail(e) => r matches Err(Failure::Error(e2)) && e2 == e,
        Step::Done((v, t), p) => r matches Ok((x, t2, q)) && x@ == v && t2@ == t && q == p,
    }
}

fn entry_bounded<'a>(mode: TableMode, idx: usize, n: usize, table: &'a [u8]) -> (r: Result<
    (TermInfoString, &'a [u8], usize),
    Failure,
>)
    ensures
        entry_agrees(r, spec_entry_bounded(mode, idx as nat, n as int, table@)),
{
    if !(idx <= n && n <= table.len()) {
        return Err(Failure::Panic);
    }
    let piece = vstd::slice::slice_subrange(table, idx, n);
    if !cstr_with_nul(piece) {
        return Err(Failure::Error(entry_cstr_err(mode)));
    }
    let text = vstd::slice::slice_subrange(piece, 0, piece.len() - 1);
    assert(text@ =~= piece@.drop_last());
    if mode == TableMode::ExtNames {
        match utf8_string(text) {
            Some(name) => Ok((TermInfoString::Name(name), table, n)),
            None => Err(Failure::Error(ParseError::InvalidExtName)),
        }
    } else {
        Ok((TermInfoString::There(vstd::slice::slice_to_vec(text)), table, n))
    }
}

#[verifier::rlimit(40)]
fn entry_last<'a>(mode: TableMode, idx: usize, table: &'a [u8], names_zero: bool) -> (r: Result<
    (TermInfoString, &'a [u8], usize),
    Failure,
>)
    ensures
        entry_agrees(r, spec_entry_last(mode, idx as nat, table@, names_zero)),
{
    if idx > table.len() {
        return Err(Failure::Panic);
    }
    let rest = vstd::slice::slice_subrange(table, idx, table.len());
    match cstr_until_nul(rest) {
        None => Err(Failure::Error(entry_cstr_err(mode))),
        Some(c) => {
            let text = vstd::slice::slice_subrange(rest, 0, c);
            assert(text@ =~= rest@.take(c as int));
            let ends = idx + c + 1 == table.len();
            if mode == TableMode::Strings {
                if !ends {
                    Err(Failure::Error(ParseError::InvalidStrTable))
                } else {
                    Ok((TermInfoString::There(vstd::slice::slice_to_vec(text)), table, idx))
                }
            } else if mode == TableMode::ExtStrings {
                if names_zero && !ends {
                    Err(Failure::Error(ParseError::InvalidExtStrTable))
                } else {
                    let t2 = vstd::slice::slice_subrange(table, idx + c + 1, table.len());
                    assert(t2@ =~= table@.skip((idx + c + 1) as int));
                    Ok((TermInfoString::There(vstd::slice::slice_to_vec(text)), t2, 0))
                }
            } else {
                if !ends {
                    Err(Failure::Error(ParseError::InvalidStrTable))
                } else {
                    match utf8_string(text) {
                        Some(name) => Ok((TermInfoString::Name(name), table, idx)),
                        None => Err(Failure::Error(ParseError::InvalidExtName)),
                    }
                }
            }
        },
    }
}

fn parse_entry<'a>(
    mode: TableMode,
    offs: &[i16],
    i: usize,
    idx: usize,
    table: &'a [u8],
    names_zero: bool,
) -> (r: Result<(TermInfoString, &'a [u8], usize), Failure>)
    requires
        i < offs@.len(),
    ensures
        entry_agrees(r, spec_entry(mode, offs@, i as int, idx as nat, table@, names_zero)),
{
    let off = offs[i];
    if off >= 0 {
        match get_next_offs(offs, i) {
            Some(n) => entry_bounded(mode, idx, n, table),
            None => entry_last(mode, idx, table, names_zero),
        }
    } else if off == -1 {
        Ok((TermInfoString::NotImpl, table, idx))
    } else if off == -2 {
        Ok((TermInfoString::IdkCanceled, table, idx))
    } else {
        Err(Failure::Error(entry_idx_err(mode)))
    }
}

/// Once a walk stops, taking more offsets does not change how it stops.
proof fn lemma_walk_stuck(
    mode: TableMode,
    offs: Seq<i16>,
    k: nat,
    m: nat,
    idx0: nat,
    table0: Seq<u8>,
    names_zero: bool,
)
    requires
        k <= m,
        !(spec_walk(mode, offs, k, idx0, table0, names_zero) is Done),
    ensures
        spec_walk(mode, offs, m, idx0, table0, names_zero) == spec_walk(
            mode,
            offs,
            k,
            idx0,
            table0,
            names_zero,
        ),
    decreases m - k,
{
    if k < m {
        lemma_walk_stuck(mode, offs, k, (m - 1) as nat, idx0, table0, names_zero);
    }
}

spec fn walk_agrees<'a>(
    r: Result<(Vec<TermInfoString>, &'a [u8], usize), Failure>,
    s: Step<(Seq<StrView>, Seq<u8>)>,
) -> bool {
    match s {
        Step::Panic => r matches Err(Failure::Panic),
        Step::Fail(e) => r matches Err(Failure::Error(e2)) && e2 == e,
        Step::Done((v, t), p) => r matches Ok((x, t2, q)) && strs_view(x@) == v && t2@ == t && q
            == p,
    }
}

fn walk_table<'a>(
    mode: TableMode,
    offs: &[i16],
    idx0: usize,
    table0: &'a [u8],
    names_zero: bool,
) -> (r: Result<(Vec<TermInfoString>, &'a [u8], usize), Failure>)
    ensures
        walk_agrees(
            r,
            spec_walk(mode, offs@, offs@.len(), idx0 as nat, table0@, names_zero),
        ),
{
    let mut out: Vec<TermInfoString> = Vec::new();
    let mut table = table0;
    let mut idx = idx0;
    let mut k: usize = 0;
    assert(strs_view(out@) =~= Seq::<StrView>::empty());
    while k < offs.len()
        invariant
            k <= offs@.len(),
            spec_walk(mode, offs@, k as nat, idx0 as nat, table0@, names_zero) == Step::Done(
                (strs_view(out@), table@),
                idx as nat,
            ),
        decreases offs@.len() - k,
    {
        match parse_entry(mode, offs, k, idx, table, names_zero) {
            Ok((entry, t2, idx2)) => {
                proof {
                    assert(strs_view(out@.push(entry)) =~= strs_view(out@).push(entry@));
                }
                out.push(entry);
                table = t2;
                idx = idx2;
            },
            Err(e) => {
                proof {
                    lemma_walk_stuck(mode, offs@, (k + 1) as nat, offs@.len(), idx0 as nat, table0@, names_zero);
                }
                return Err(e);
            },
        }
        k = k + 1;
    }
    Ok((out, table, idx))
}

spec fn strings_agrees(
    r: Result<((Vec<TermInfoString>, Vec<TermInfoString>), usize), Failure>,
    s: Step<(Seq<StrView>, Seq<StrView>)>,
) -> bool {
    match s {
        Step::Panic => r matches Err(Failure::Panic),
        Step::Fail(e) => r matches Err(Failure::Error(e2)) && e2 == e,
        Step::Done((a, b), p) => r matches Ok(((x, y), q)) && strs_view(x@) == a && strs_view(y@)
            == b && q == p,
    }
}

fn parse_strings(
    f: &[u8],
    pos: usize,
    str_count: usize,
    ext: bool,
    name_count: usize,
    table_size: usize,
) -> (r: Result<((Vec<TermInfoString>, Vec<TermInfoString>), usize), Failure>)
    requires
        pos <= f@.len(),
        str_count <= 0x10000,
        name_count <= 0x40000,
        table_size <= 0x10000,
    ensures
        strings_agrees(
            r,
            spec_strings(f@, pos as nat, str_count as nat, ext, name_count as nat, table_size as nat),
        ),
        r matches Ok((_, p)) ==> p <= f@.len(),
{
    if 2 * str_count > f.len() - pos {
        return Err(
            Failure::Error(
                if ext {
                    ParseError::NoExtStrOffs
                } else {
                    ParseError::NoStrOffs
                },
            ),
        );
    }
    let p1 = pos + 2 * str_count;
    let offs = read_i16s(f, pos, str_count);
    let p2 = if ext {
        if 2 * name_count > f.len() - p1 {
            return Err(Failure::Error(ParseError::NoExtNameOffs));
        }
        p1 + 2 * name_count
    } else {
        p1
    };
    if table_size == 0 {
        let a: Vec<TermInfoString> = Vec::new();
        let b: Vec<TermInfoString> = Vec::new();
        assert(strs_view(a@) =~= Seq::<StrView>::empty());
        return Ok(((a, b), p2));
    }
    if table_size > f.len() - p2 {
        return Err(
            Failure::Error(
                if ext {
                    ParseError::NoExtStrTable
                } else {
                    ParseError::NoStrTable
                },
            ),
        );
    }
    let table = vstd::slice::slice_subrange(f, p2, p2 + table_size);
    let mode = if ext {
        TableMode::ExtStrings
    } else {
        TableMode::Strings
    };
    let (strs, t, idx) = match walk_table(mode, offs.as_slice(), 0, table, name_count == 0) {
        Ok(x) => x,
        Err(e) => {
            return Err(e);
        },
    };
    if ext && name_count != 0 {
        let noffs = read_i16s(f, p1, name_count);
        match walk_table(TableMode::ExtNames, noffs.as_slice(), idx, t, false) {
            Ok((names, _, _)) => Ok(((strs, names), p2 + table_size)),
            Err(e) => Err(e),
        }
    } else {
        let b: Vec<TermInfoString> = Vec::new();
        assert(strs_view(b@) =~= Seq::<StrView>::empty());
        Ok(((strs, b), p2 + table_size))
    }
}

/// The legacy terminfo header.
struct Header {
    version: i16,
    name_size: i16,
    bool_count: i16,
    int_count: i16,
    offs_count: i16,
    str_table_size: i16,
}

impl Header {
    fn valid(&self) -> (r: bool)
        ensures
            r == ((self.version == LEGACY_MAGIC || self.version == EXTENDED_MAGIC) && 0
                < self.name_size < 512 && 0 <= self.bool_count <= 44 && 0 <= self.int_count <= 39
                && 0 <= self.offs_count <= 414 && 0 <= self.str_table_size),
    {
        if !(self.version == LEGACY_MAGIC || self.version == EXTENDED_MAGIC) {
            return false;
        }
        if self.name_size <= 0 || self.name_size >= 512 || self.bool_count < 0 || self.bool_count
            > 44 || self.int_count < 0 || self.int_count > 39 || self.offs_count < 0
            || self.offs_count > 414 || self.str_table_size < 0 {
            return false;
        }
        true
    }
}

/// The header of an extended section.
struct ExtHeader {
    bool_count: i16,
    int_count: i16,
    str_count: i16,
    str_table_count: i16,
    str_table_size: i16,
}

impl ExtHeader {
    fn valid(&self, max_entry: usize) -> (r: bool)
        requires
            max_entry <= 32768,
        ensures
            r == (self.bool_count >= 0 && self.int_count >= 0 && self.str_count >= 0
                && self.str_table_count >= 0 && self.str_table_size >= 0 && self.str_table_size
                < max_entry && self.str_table_count < max_entry && self.bool_count
                + self.int_count + self.str_count < max_entry as int / 2),
    {
        if self.bool_count < 0 || self.int_count < 0 || self.str_count < 0 || self.str_table_count
            < 0 || self.str_table_size < 0 || self.str_table_size as usize >= max_entry
            || self.str_table_count as usize >= max_entry || self.bool_count as usize
            + self.int_count as usize + self.str_count as usize >= max_entry / 2 {
            return false;
        }
        true
    }
}

fn parse_ext(f: &[u8], pos: usize, legacy: bool) -> (r: Result<(TermInfoExt, usize), Failure>)
    requires
        pos <= f@.len(),
    ensures
        agrees(r, spec_ext(f@, pos as nat, legacy), |e: TermInfoExt| e@),
{
    let p = match parse_pad(f, pos) {
        Ok((_, p)) => p,
        Err(e) => {
            return Err(e);
        },
    };
    if 10 > f.len() - p {
        return Err(Failure::Error(ParseError::NoExtHeader));
    }
    let h = ExtHeader {
        bool_count: read_le16(f, p),
        int_count: read_le16(f, p + 2),
        str_count: read_le16(f, p + 4),
        str_table_count: read_le16(f, p + 6),
        str_table_size: read_le16(f, p + 8),
    };
    if !h.valid(
        if legacy {
            4096
        } else {
            32768
        },
    ) {
        return Err(Failure::Error(ParseError::InvalidExtHeader));
    }
    let b = h.bool_count as usize;
    let i = h.int_count as usize;
    let s = h.str_count as usize;
    let ts = h.str_table_size as usize;
    let (bools, p2) = match parse_bools(f, p + 10, b, true) {
        Ok(x) => x,
        Err(e) => {
            return Err(e);
        },
    };
    let p3 = match parse_pad(f, p2) {
        Ok((_, p3)) => p3,
        Err(e) => {
            return Err(e);
        },
    };
    let (ints, p4) = match parse_ints(f, p3, i, legacy, true) {
        Ok(x) => x,
        Err(e) => {
            return Err(e);
        },
    };
    let ((str_table, name_table), p5) = match parse_strings(f, p4, s, true, b + i + s, ts) {
        Ok(x) => x,
        Err(e) => {
            return Err(e);
        },
    };
    Ok((TermInfoExt { name_table, bools, ints, str_table }, p5))
}

/// `s` split at every `|`.
fn split_bar_exec(s: &str) -> (r: Vec<String>)
    ensures
        r@.map_values(|x: String| x@) == split_bar(s@),
{
    let n = s.unicode_len();
    let mut out: Vec<String> = Vec::new();
    let mut start: usize = 0;
    let mut k: usize = 0;
    while k < n
        invariant
            n == s@.len(),
            start <= k <= n,
            split_bar_prefix(s@, k as nat) == (
                out@.map_values(|x: String| x@),
                s@.subrange(start as int, k as int),
            ),
        decreases n - k,
    {
        let c = s.get_char(k);
        let ghost old_out = out@;
        let ghost old_start = start;
        if c == '|' {
            let piece = s.substring_char(start, k).to_owned();
            out.push(piece);
            start = k + 1;
            proof {
                assert(out@.map_values(|x: String| x@) =~= old_out.map_values(|x: String| x@).push(
                    s@.subrange(old_start as int, k as int),
                ));
                assert(s@.subrange(start as int, k + 1) =~= Seq::<char>::empty());
            }
        } else {
            proof {
                assert(s@.subrange(start as int, k + 1) =~= s@.subrange(start as int, k as int).push(
                    c,
                ));
            }
        }
        k = k + 1;
    }
    let last = s.substring_char(start, n).to_owned();
    let ghost old_out = out@;
    out.push(last);
    proof {
        assert(out@.map_values(|x: String| x@) =~= old_out.map_values(|x: String| x@).push(
            s@.subrange(start as int, n as int),
        ));
    }
    out
}

/// The whole entry, or where it stops.
fn parse_entry_file(f: &[u8]) -> (r: Result<(TermInfo, usize), Failure>)
    ensures
        agrees(r, spec_parse(f@), |t: TermInfo| t@),
{
    if f.len() < 12 {
        return Err(Failure::Error(ParseError::NoHeader));
    }
    let header = Header {
        version: read_le16(f, 0),
        name_size: read_le16(f, 2),
        bool_count: read_le16(f, 4),
        int_count: read_le16(f, 6),
        offs_count: read_le16(f, 8),
        str_table_size: read_le16(f, 10),
    };
    if !header.valid() {
        return Err(Failure::Error(ParseError::InvalidHeader));
    }
    let legacy = header.version == LEGACY_MAGIC;
    let ns = header.name_size as usize;
    if ns > f.len() - 12 {
        return Err(Failure::Error(ParseError::NoNames));
    }
    let nb = vstd::slice::slice_subrange(f, 12, 12 + ns);
    if !cstr_with_nul(nb) {
        return Err(Failure::Error(ParseError::InvalidNames));
    }
    let text = vstd::slice::slice_subrange(nb, 0, ns - 1);
    assert(text@ =~= nb@.drop_last());
    let names = match str_from_utf8(text) {
        Some(s) => {
            proof {
                vstd::utf8::encode_utf8_decode_utf8(s@);
            }
            split_bar_exec(s)
        },
        None => {
            return Err(Failure::Error(ParseError::InvalidUTF8Name));
        },
    };
    let (bools, p1) = match parse_bools(f, 12 + ns, header.bool_count as usize, false) {
        Ok(x) => x,
        Err(e) => {
            return Err(e);
        },
    };
    let p2 = match parse_pad(f, p1) {
        Ok((_, p)) => p,
        Err(e) => {
            return Err(e);
        },
    };
    let (ints, p3) = match parse_ints(f, p2, header.int_count as usize, legacy, false) {
        Ok(x) => x,
        Err(e) => {
            return Err(e);
        },
    };
    let ((strings, _), p4) = match parse_strings(
        f,
        p3,
        header.offs_count as usize,
        false,
        0,
        header.str_table_size as usize,
    ) {
        Ok(x) => x,
        Err(e) => {
            return Err(e);
        },
    };
    let file = vstd::slice::slice_to_vec(f);
    if p4 != f.len() {
        let (ext, p5) = match parse_ext(f, p4, legacy) {
            Ok(x) => x,
            Err(e) => {
                return Err(e);
            },
        };
        if p5 != f.len() {
            return Err(Failure::Error(ParseError::FileNotEmpty));
        }
        Ok((TermInfo { file, names, bools, ints, strings, ext_format: Some(ext) }, p5))
    } else {
        Ok((TermInfo { file, names, bools, ints, strings, ext_format: None }, p4))
    }
}

impl TermInfo {
    /// Parses a compiled terminfo entry. The entry must not be one that the reader cannot
    /// take (see [`TermInfo::panics_on`]).
    pub fn from_bytes(file: &[u8]) -> (r: Result<TermInfo, ParseError>)
        requires
            !(spec_parse(file@) is Panic),
        ensures
            match spec_parse(file@) {
                Step::Done(v, _) => r matches Ok(t) && t@ == v,
                Step::Fail(e) => r == Err::<TermInfo, ParseError>(e),
                Step::Panic => false,
            },
    {
        match parse_entry_file(file) {
            Ok((t, _)) => Ok(t),
            Err(Failure::Error(e)) => Err(e),
            Err(Failure::Panic) => {
                proof {
                    assert(false);
                }
                Err(ParseError::UnknownError)
            },
        }
    }

    /// Whether the entry is one that the reader cannot take: an offset that points before the
    /// previous string or past the string table.
    pub fn panics_on(file: &[u8]) -> (r: bool)
        ensures
            r == spec_parse(file@) is Panic,
    {
        match parse_entry_file(file) {
            Err(Failure::Panic) => true,
            _ => false,
        }
    }
}

} // verus!
