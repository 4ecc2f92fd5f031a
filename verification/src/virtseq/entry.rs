use vstd::prelude::*;

use vstd::utf8::{decode_utf8, valid_utf8};

use super::terminfo::{
    bool_of, header_valid, i16s, int_vals, le16, le32, spec_bools, spec_ints, spec_pad,
    spec_parse, spec_strings, spec_walk, split_bar, with_nul_ok, IntsView, Step, StrView,
    TableMode, TermInfoView, EXTENDED_MAGIC, LEGACY_MAGIC, first_nul, next_positive,
    spec_entry, spec_entry_bounded, spec_entry_last, first_bad_int,
};

verus! {

// ---------------------------------------------------------------------------
// Writing a compiled entry
// ---------------------------------------------------------------------------

/// The two little-endian bytes of a 16-bit value.
pub open spec fn enc16(v: int) -> Seq<u8> {
    let u = if v < 0 {
        v + 65536
    } else {
        v
    };
    seq![(u % 256) as u8, (u / 256) as u8]
}

/// The four little-endian bytes of a 32-bit value.
pub open spec fn enc32(v: int) -> Seq<u8> {
    let u = if v < 0 {
        v + 4294967296
    } else {
        v
    };
    seq![(u % 256) as u8, ((u / 256) % 256) as u8, ((u / 65536) % 256) as u8, (u / 16777216) as u8]
}

/// A 16-bit value reads back as itself.
proof fn lemma_enc16(d: Seq<u8>, i: int, v: int)
    requires
        -32768 <= v < 32768,
        0 <= i,
        i + 1 < d.len(),
        d[i] == enc16(v)[0],
        d[i + 1] == enc16(v)[1],
    ensures
        le16(d, i) == v,
{
    let u = if v < 0 {
        v + 65536
    } else {
        v
    };
    assert(0 <= u < 65536);
    assert(u == u % 256 + 256 * (u / 256));
}

/// A 32-bit value reads back as itself.
proof fn lemma_enc32(d: Seq<u8>, i: int, v: int)
    requires
        -2147483648 <= v < 2147483648,
        0 <= i,
        i + 3 < d.len(),
        d[i] == enc32(v)[0],
        d[i + 1] == enc32(v)[1],
        d[i + 2] == enc32(v)[2],
        d[i + 3] == enc32(v)[3],
    ensures
        le32(d, i) == v,
{
    let u = if v < 0 {
        v + 4294967296
    } else {
        v
    };
    assert(0 <= u < 4294967296);
    assert(u == u % 256 + 256 * ((u / 256) % 256) + 65536 * ((u / 65536) % 256) + 16777216 * (u
        / 16777216)) by (nonlinear_arith)
        requires
            0 <= u < 4294967296,
    ;
}

/// The string table of `strs`: each string followed by a zero byte, in order.
pub open spec fn str_table(strs: Seq<Seq<u8>>) -> Seq<u8>
    decreases strs.len(),
{
    if strs.len() == 0 {
        Seq::empty()
    } else {
        str_table(strs.drop_last()) + strs.last().push(0u8)
    }
}

/// Where string `k` starts in the string table.
pub open spec fn str_offset(strs: Seq<Seq<u8>>, k: int) -> int {
    str_table(strs.take(k)).len() as int
}

/// The numbers, two bytes each, or four in an extended-number entry.
pub open spec fn enc_values(vals: Seq<int>, wide: bool) -> Seq<u8> {
    if wide {
        Seq::new(4 * vals.len(), |j: int| enc32(vals[j / 4])[j % 4])
    } else {
        Seq::new(2 * vals.len(), |j: int| enc16(vals[j / 2])[j % 2])
    }
}

/// The offsets of the strings in the string table, two bytes each.
pub open spec fn enc_offsets(strs: Seq<Seq<u8>>) -> Seq<u8> {
    Seq::new(2 * strs.len(), |j: int| enc16(str_offset(strs, j / 2))[j % 2])
}

/// The header: magic (extended-number or legacy), name size, section counts, table size.
pub open spec fn entry_header(extended: bool, name: Seq<u8>, bools: Seq<u8>, nums: Seq<int>, strs: Seq<
    Seq<u8>,
>) -> Seq<u8> {
    enc16(
        if extended {
            EXTENDED_MAGIC as int
        } else {
            LEGACY_MAGIC as int
        },
    ) + enc16(name.len() + 1int) + enc16(bools.len() as int) + enc16(nums.len() as int) + enc16(
        strs.len() as int,
    ) + enc16(str_table(strs).len() as int)
}

/// The padding byte after the names and booleans when they end at an odd offset.
pub open spec fn entry_pad(name: Seq<u8>, bools: Seq<u8>) -> Seq<u8> {
    if (12 + name.len() + 1 + bools.len()) % 2 == 1 {
        seq![0u8]
    } else {
        Seq::empty()
    }
}

/// A compiled entry without an extended section, laid out as the format asks: header, the
/// names and a zero byte, the booleans, padding to an even offset, the numbers, the string
/// offsets and the string table.
pub open spec fn entry_bytes(extended: bool, name: Seq<u8>, bools: Seq<u8>, nums: Seq<int>, strs: Seq<
    Seq<u8>,
>) -> Seq<u8> {
    entry_header(extended, name, bools, nums, strs) + name.push(0u8) + bools + entry_pad(
        name,
        bools,
    ) + enc_values(nums, extended) + enc_offsets(strs) + str_table(strs)
}

/// What such an entry can hold: names of fewer than 511 bytes, valid UTF-8 with no zero
/// byte; at most 44 booleans, each a valid encoding; at most 39 numbers, none below -2 and
/// each fitting its width; at most 414 strings with no zero byte, in a table below 32768
/// bytes.
pub open spec fn entry_fits(extended: bool, name: Seq<u8>, bools: Seq<u8>, nums: Seq<int>, strs: Seq<
    Seq<u8>,
>) -> bool {
    &&& name.len() + 1 < 512
    &&& forall|k: int| 0 <= k < name.len() ==> name[k] != 0
    &&& valid_utf8(name)
    &&& bools.len() <= 44
    &&& forall|k: int| 0 <= k < bools.len() ==> #[trigger] bool_of(bools[k]) is Some
    &&& nums.len() <= 39
    &&& forall|k: int|
        0 <= k < nums.len() ==> -2 <= #[trigger] nums[k] < if extended {
            2147483648int
        } else {
            32768int
        }
    &&& strs.len() <= 414
    &&& forall|k: int, j: int| 0 <= k < strs.len() && 0 <= j < strs[k].len() ==> strs[k][j] != 0
    &&& str_table(strs).len() < 32768
}

/// What reading such an entry gives.
pub open spec fn entry_view(f: Seq<u8>, extended: bool, name: Seq<u8>, bools: Seq<u8>, nums: Seq<int>, strs: Seq<
    Seq<u8>,
>) -> TermInfoView {
    TermInfoView {
        file: f,
        names: split_bar(decode_utf8(name)),
        bools: bools.map_values(|b: u8| bool_of(b).unwrap()),
        ints: if extended {
            IntsView::Extended(nums.map_values(|v: int| v as i32))
        } else {
            IntsView::Legacy(nums.map_values(|v: int| v as i16))
        },
        strings: strs.map_values(|t: Seq<u8>| StrView::There(t)),
        ext: None,
    }
}

/// The table of the first `k + 1` strings is that of the first `k`, then string `k` and its
/// zero byte.
proof fn lemma_table_step(strs: Seq<Seq<u8>>, k: int)
    requires
        0 <= k < strs.len(),
    ensures
        str_table(strs.take(k + 1)) == str_table(strs.take(k)) + strs[k].push(0u8),
        str_offset(strs, k + 1) == str_offset(strs, k) + strs[k].len() + 1,
{
    assert(strs.take(k + 1).drop_last() =~= strs.take(k));
}

/// The table of the first `k` strings starts the whole table.
proof fn lemma_table_prefix(strs: Seq<Seq<u8>>, k: int)
    requires
        0 <= k <= strs.len(),
    ensures
        str_offset(strs, k) <= str_table(strs).len(),
        str_table(strs).subrange(0, str_offset(strs, k)) == str_table(strs.take(k)),
    decreases strs.len(),
{
    if k == strs.len() {
        assert(strs.take(k) =~= strs);
        assert(str_table(strs).subrange(0, str_offset(strs, k)) =~= str_table(strs));
    } else {
        let d = strs.drop_last();
        assert(d.take(k) =~= strs.take(k));
        lemma_table_prefix(d, k);
        assert(str_table(strs).subrange(0, str_offset(strs, k)) =~= str_table(d).subrange(
            0,
            str_offset(d, k),
        ));
    }
}

/// String `k` and its zero byte lie between the offsets of strings `k` and `k + 1`.
proof fn lemma_table_piece(strs: Seq<Seq<u8>>, k: int)
    requires
        0 <= k < strs.len(),
    ensures
        0 <= str_offset(strs, k) < str_offset(strs, k + 1) <= str_table(strs).len(),
        str_table(strs).subrange(str_offset(strs, k), str_offset(strs, k + 1)) == strs[k].push(
            0u8,
        ),
{
    lemma_table_step(strs, k);
    lemma_table_prefix(strs, k + 1);
    let t = str_table(strs);
    let a = str_offset(strs, k);
    let b = str_offset(strs, k + 1);
    assert(t.subrange(a, b) =~= t.subrange(0, b).subrange(a, b));
    assert(str_table(strs.take(k + 1)).subrange(a, b) =~= strs[k].push(0u8));
}

/// Reading the offsets of the first `k` strings (not the last one) gives those strings.
proof fn lemma_walk(strs: Seq<Seq<u8>>, offs: Seq<i16>, k: nat)
    requires
        k < strs.len(),
        offs.len() == strs.len(),
        forall|j: int| 0 <= j < strs.len() ==> #[trigger] offs[j] as int == str_offset(strs, j),
        forall|j: int, q: int| 0 <= j < strs.len() && 0 <= q < strs[j].len() ==> strs[j][q] != 0,
    ensures
        spec_walk(TableMode::Strings, offs, k, 0, str_table(strs), true) == Step::Done(
            (strs.take(k as int).map_values(|t: Seq<u8>| StrView::There(t)), str_table(strs)),
            str_offset(strs, k as int) as nat,
        ),
    decreases k,
{
    let t = str_table(strs);
    if k == 0 {
        assert(strs.take(0).map_values(|t: Seq<u8>| StrView::There(t)) =~= Seq::<StrView>::empty());
        assert(strs.take(0) =~= Seq::<Seq<u8>>::empty());
    } else {
        let j = k - 1;
        lemma_walk(strs, offs, j as nat);
        lemma_table_piece(strs, j);
        let a = str_offset(strs, j);
        let b = str_offset(strs, j + 1);
        assert(offs[j] as int == a);
        assert(offs[j + 1] as int == b);
        assert(next_positive(offs, j) == Some(b));
        let piece = strs[j].push(0u8);
        assert(with_nul_ok(piece));
        assert(piece.drop_last() =~= strs[j]);
        assert(spec_entry_bounded(TableMode::Strings, a as nat, b, t) == Step::Done(
            (StrView::There(strs[j]), t),
            b as nat,
        ));
        assert(spec_entry(TableMode::Strings, offs, j, a as nat, t, true) == Step::Done(
            (StrView::There(strs[j]), t),
            b as nat,
        ));
        assert(strs.take(j).map_values(|t: Seq<u8>| StrView::There(t)).push(StrView::There(strs[j]))
            =~= strs.take(k as int).map_values(|t: Seq<u8>| StrView::There(t)));
    }
}

/// Reading all the offsets gives all the strings.
proof fn lemma_walk_all(strs: Seq<Seq<u8>>, offs: Seq<i16>)
    requires
        strs.len() > 0,
        offs.len() == strs.len(),
        forall|j: int| 0 <= j < strs.len() ==> #[trigger] offs[j] as int == str_offset(strs, j),
        forall|j: int, q: int| 0 <= j < strs.len() && 0 <= q < strs[j].len() ==> strs[j][q] != 0,
    ensures
        spec_walk(TableMode::Strings, offs, strs.len(), 0, str_table(strs), true) matches Step::Done(
            (v, _),
            _,
        ) && v == strs.map_values(|t: Seq<u8>| StrView::There(t)),
{
    let n = strs.len();
    let j = n - 1;
    let t = str_table(strs);
    lemma_walk(strs, offs, j as nat);
    lemma_table_piece(strs, j);
    lemma_table_step(strs, j);
    assert(strs.take(j + 1) =~= strs);
    let a = str_offset(strs, j);
    assert(offs[j] as int == a);
    assert(next_positive(offs, j) is None);
    let rest = t.subrange(a, t.len() as int);
    assert(rest =~= strs[j].push(0u8));
    let c = strs[j].len();
    assert(rest[c as int] == 0);
    assert(forall|q: int| 0 <= q < c ==> rest[q] != 0);
    assert(first_nul(rest) == Some(c));
    assert(rest.take(c as int) =~= strs[j]);
    assert(spec_entry_last(TableMode::Strings, a as nat, t, true) == Step::Done(
        (StrView::There(strs[j]), t),
        a as nat,
    ));
    assert(spec_entry(TableMode::Strings, offs, j, a as nat, t, true) == Step::Done(
        (StrView::There(strs[j]), t),
        a as nat,
    ));
    assert(strs.take(j).map_values(|t: Seq<u8>| StrView::There(t)).push(StrView::There(strs[j]))
        =~= strs.map_values(|t: Seq<u8>| StrView::There(t)));
}

/// Where each part of a written entry lies.
proof fn lemma_layout(extended: bool, name: Seq<u8>, bools: Seq<u8>, nums: Seq<int>, strs: Seq<Seq<u8>>)
    ensures
        ({
            let f = entry_bytes(extended, name, bools, nums, strs);
            let p1 = 12 + name.len() + 1;
            let p2 = p1 + bools.len();
            let p3 = p2 + entry_pad(name, bools).len();
            let p4 = p3 + enc_values(nums, extended).len();
            let p5 = p4 + 2 * strs.len();
            &&& entry_header(extended, name, bools, nums, strs).len() == 12
            &&& f.len() == p5 + str_table(strs).len()
            &&& f.subrange(0, 12) == entry_header(extended, name, bools, nums, strs)
            &&& f.subrange(12, p1 as int) == name.push(0u8)
            &&& f.subrange(p1 as int, p2 as int) == bools
            &&& f.subrange(p3 as int, p4 as int) == enc_values(nums, extended)
            &&& f.subrange(p4 as int, p5 as int) == enc_offsets(strs)
            &&& f.subrange(p5 as int, f.len() as int) == str_table(strs)
        }),
{
    let h = entry_header(extended, name, bools, nums, strs);
    let a = h + name.push(0u8);
    let b = a + bools;
    let c = b + entry_pad(name, bools);
    let d = c + enc_values(nums, extended);
    let e = d + enc_offsets(strs);
    let f = e + str_table(strs);
    assert(f.subrange(0, 12) =~= h);
    assert(f.subrange(12, a.len() as int) =~= name.push(0u8));
    assert(f.subrange(a.len() as int, b.len() as int) =~= bools);
    assert(f.subrange(c.len() as int, d.len() as int) =~= enc_values(nums, extended));
    assert(f.subrange(d.len() as int, e.len() as int) =~= enc_offsets(strs));
    assert(f.subrange(e.len() as int, f.len() as int) =~= str_table(strs));
}

/// The 16-bit values at byte `i` of `f` that a part `part` written at `at` holds.
proof fn lemma_read16(f: Seq<u8>, at: int, part: Seq<u8>, i: int, v: int)
    requires
        0 <= at,
        at + part.len() <= f.len(),
        f.subrange(at, at + part.len()) == part,
        0 <= i,
        i + 1 < part.len(),
        part[i] == enc16(v)[0],
        part[i + 1] == enc16(v)[1],
        -32768 <= v < 32768,
    ensures
        le16(f, at + i) == v,
{
    assert(f[at + i] == f.subrange(at, at + part.len())[i]);
    assert(f[at + i + 1] == f.subrange(at, at + part.len())[i + 1]);
    lemma_enc16(f, at + i, v);
}

/// The header of a written entry reads back as its counts.
proof fn lemma_header(extended: bool, name: Seq<u8>, bools: Seq<u8>, nums: Seq<int>, strs: Seq<Seq<u8>>)
    requires
        entry_fits(extended, name, bools, nums, strs),
    ensures
        ({
            let f = entry_bytes(extended, name, bools, nums, strs);
            &&& le16(f, 0) == if extended {
                EXTENDED_MAGIC as int
            } else {
                LEGACY_MAGIC as int
            }
            &&& le16(f, 2) == name.len() + 1
            &&& le16(f, 4) == bools.len()
            &&& le16(f, 6) == nums.len()
            &&& le16(f, 8) == strs.len()
            &&& le16(f, 10) == str_table(strs).len()
        }),
{
    lemma_layout(extended, name, bools, nums, strs);
    let f = entry_bytes(extended, name, bools, nums, strs);
    let h = entry_header(extended, name, bools, nums, strs);
    let m = if extended {
        EXTENDED_MAGIC as int
    } else {
        LEGACY_MAGIC as int
    };
    assert(h[0] == enc16(m)[0] && h[1] == enc16(m)[1]);
    lemma_read16(f, 0, h, 0, m);
    assert(h[2] == enc16(name.len() + 1int)[0] && h[3] == enc16(name.len() + 1int)[1]);
    lemma_read16(f, 0, h, 2, name.len() + 1int);
    assert(h[4] == enc16(bools.len() as int)[0] && h[5] == enc16(bools.len() as int)[1]);
    lemma_read16(f, 0, h, 4, bools.len() as int);
    assert(h[6] == enc16(nums.len() as int)[0] && h[7] == enc16(nums.len() as int)[1]);
    lemma_read16(f, 0, h, 6, nums.len() as int);
    assert(h[8] == enc16(strs.len() as int)[0] && h[9] == enc16(strs.len() as int)[1]);
    lemma_read16(f, 0, h, 8, strs.len() as int);
    let tl = str_table(strs).len() as int;
    assert(h[10] == enc16(tl)[0] && h[11] == enc16(tl)[1]);
    lemma_read16(f, 0, h, 10, tl);
}

/// The 32-bit value at byte `i` of a part `part` written at `at` in `f`.
proof fn lemma_read32(f: Seq<u8>, at: int, part: Seq<u8>, i: int, v: int)
    requires
        0 <= at,
        at + part.len() <= f.len(),
        f.subrange(at, at + part.len()) == part,
        0 <= i,
        i + 3 < part.len(),
        part[i] == enc32(v)[0],
        part[i + 1] == enc32(v)[1],
        part[i + 2] == enc32(v)[2],
        part[i + 3] == enc32(v)[3],
        -2147483648 <= v < 2147483648,
    ensures
        le32(f, at + i) == v,
{
    assert(f[at + i] == f.subrange(at, at + part.len())[i]);
    assert(f[at + i + 1] == f.subrange(at, at + part.len())[i + 1]);
    assert(f[at + i + 2] == f.subrange(at, at + part.len())[i + 2]);
    assert(f[at + i + 3] == f.subrange(at, at + part.len())[i + 3]);
    lemma_enc32(f, at + i, v);
}

/// The numbers of a written entry read back as themselves, at the width its magic names.
proof fn lemma_ints(f: Seq<u8>, at: nat, nums: Seq<int>, extended: bool)
    requires
        at + enc_values(nums, extended).len() <= f.len(),
        f.subrange(at as int, (at + enc_values(nums, extended).len()) as int) == enc_values(nums, extended),
        forall|k: int|
            0 <= k < nums.len() ==> -2 <= #[trigger] nums[k] < if extended {
                2147483648int
            } else {
                32768int
            },
    ensures
        spec_ints(f, at, nums.len(), !extended, false) == Step::Done(
            if extended {
                IntsView::Extended(nums.map_values(|v: int| v as i32))
            } else {
                IntsView::Legacy(nums.map_values(|v: int| v as i16))
            },
            at + enc_values(nums, extended).len(),
        ),
{
    let ev = enc_values(nums, extended);
    let vals = int_vals(f, at, nums.len(), !extended);
    assert forall|k: int| 0 <= k < nums.len() implies #[trigger] vals[k] == nums[k] by {
        if extended {
            assert((4 * k) / 4 == k && (4 * k) % 4 == 0);
            assert((4 * k + 1) / 4 == k && (4 * k + 1) % 4 == 1);
            assert((4 * k + 2) / 4 == k && (4 * k + 2) % 4 == 2);
            assert((4 * k + 3) / 4 == k && (4 * k + 3) % 4 == 3);
            lemma_read32(f, at as int, ev, 4 * k, nums[k]);
        } else {
            assert((2 * k) / 2 == k && (2 * k) % 2 == 0);
            assert((2 * k + 1) / 2 == k && (2 * k + 1) % 2 == 1);
            lemma_read16(f, at as int, ev, 2 * k, nums[k]);
        }
    }
    assert(vals =~= nums);
    assert(first_bad_int(vals) is None);
}

/// The string section of a written entry reads back as its strings.
proof fn lemma_strings(f: Seq<u8>, at: nat, strs: Seq<Seq<u8>>)
    requires
        at + 2 * strs.len() + str_table(strs).len() == f.len(),
        f.subrange(at as int, (at + 2 * strs.len()) as int) == enc_offsets(strs),
        f.subrange((at + 2 * strs.len()) as int, f.len() as int) == str_table(strs),
        forall|k: int, j: int| 0 <= k < strs.len() && 0 <= j < strs[k].len() ==> strs[k][j] != 0,
        str_table(strs).len() < 32768,
    ensures
        spec_strings(f, at, strs.len(), false, 0, str_table(strs).len()) == Step::Done(
            (strs.map_values(|t: Seq<u8>| StrView::There(t)), Seq::<StrView>::empty()),
            f.len(),
        ),
{
    let n = strs.len();
    let t = str_table(strs);
    if n == 0 {
        assert(strs.map_values(|t: Seq<u8>| StrView::There(t)) =~= Seq::<StrView>::empty());
    } else {
        lemma_table_piece(strs, 0);
        let offs = i16s(f, at as int, n);
        let eo = enc_offsets(strs);
        assert forall|j: int| 0 <= j < n implies #[trigger] offs[j] as int == str_offset(strs, j) by {
            lemma_table_prefix(strs, j);
            assert(str_offset(strs, j) >= 0);
            assert((2 * j) / 2 == j && (2 * j) % 2 == 0);
            assert((2 * j + 1) / 2 == j && (2 * j + 1) % 2 == 1);
            lemma_read16(f, at as int, eo, 2 * j, str_offset(strs, j));
        }
        assert(f.subrange((at + 2 * n) as int, (at + 2 * n + t.len()) as int) == t);
        lemma_walk_all(strs, offs);
    }
}

/// Reading back a written entry: an entry laid out as the format asks, with 16-bit numbers
/// under the legacy magic or 32-bit numbers under the extended-number magic, reads back as
/// exactly its names, booleans, numbers (at that width) and strings, with no extended section.
pub proof fn law_entry_roundtrip(
    extended: bool,
    name: Seq<u8>,
    bools: Seq<u8>,
    nums: Seq<int>,
    strs: Seq<Seq<u8>>,
)
    requires
        entry_fits(extended, name, bools, nums, strs),
    ensures
        spec_parse(entry_bytes(extended, name, bools, nums, strs)) == Step::Done(
            entry_view(entry_bytes(extended, name, bools, nums, strs), extended, name, bools, nums, strs),
            entry_bytes(extended, name, bools, nums, strs).len(),
        ),
{
    let f = entry_bytes(extended, name, bools, nums, strs);
    lemma_layout(extended, name, bools, nums, strs);
    lemma_header(extended, name, bools, nums, strs);
    let nl = name.len() + 1;
    let p1 = 12 + nl;
    let p2 = p1 + bools.len();
    let p3 = p2 + entry_pad(name, bools).len();
    let p4 = p3 + enc_values(nums, extended).len();
    let p5 = p4 + 2 * strs.len();
    assert(header_valid(f));
    let legacy = le16(f, 0) == LEGACY_MAGIC;
    assert(legacy == !extended);
    // names
    let nb = f.subrange(12, p1 as int);
    assert(nb == name.push(0u8));
    assert(with_nul_ok(nb));
    assert(nb.drop_last() =~= name);
    // booleans
    assert forall|k: int| 0 <= k < bools.len() implies f[p1 + k] == bools[k] by {
        assert(f[p1 + k] == f.subrange(p1 as int, p2 as int)[k]);
    }
    assert(!(exists|k: int| 0 <= k < bools.len() && #[trigger] bool_of(f[p1 + k]) is None));
    assert(Seq::new(bools.len(), |k: int| bool_of(f[p1 + k]).unwrap()) =~= bools.map_values(
        |b: u8| bool_of(b).unwrap(),
    ));
    assert(spec_bools(f, p1 as nat, bools.len(), false) == Step::Done(
        bools.map_values(|b: u8| bool_of(b).unwrap()),
        p2 as nat,
    ));
    // padding
    assert(spec_pad(f, p2 as nat) == Step::<()>::Done((), p3 as nat));
    // numbers
    lemma_ints(f, p3 as nat, nums, extended);
    // strings
    assert(f.subrange(p4 as int, p5 as int) == enc_offsets(strs));
    lemma_strings(f, p4 as nat, strs);
}

} // verus!
