use std::cell::RefCell;
use std::rc::Rc;

use termseq::stdio::{IoType, StdIo};
use termseq::virtseq::{
    ExprType, OpCode, Param, ParseError, ParsedStringCap, TermControl, TermInfo, TermInfoBool,
    TermInfoConfig, TermInfoString, VirtSeqBuf, MIN_FLUSH_SIZE,
};

/// A byte channel that records what is written to it.
struct Rec {
    out: Rc<RefCell<Vec<u8>>>,
    fail: bool,
}

impl StdIo for Rec {
    fn new_stdio() -> std::io::Result<Self> {
        Ok(Rec { out: Rc::new(RefCell::new(Vec::new())), fail: false })
    }
    fn io_type() -> IoType {
        IoType::Synchronous
    }
    fn write_all(&mut self, buf: &[u8]) -> std::io::Result<()> {
        if self.fail {
            return Err(std::io::Error::from_raw_os_error(5));
        }
        self.out.borrow_mut().extend_from_slice(buf);
        Ok(())
    }
    fn read(&mut self, _buf: &mut [u8]) -> std::io::Result<usize> {
        Ok(0)
    }
}

fn rec() -> (Rec, Rc<RefCell<Vec<u8>>>) {
    let out = Rc::new(RefCell::new(Vec::new()));
    (Rec { out: out.clone(), fail: false }, out)
}

// ---------------------------------------------------------------------------
// The write buffer
// ---------------------------------------------------------------------------

#[test]
fn virtbuf_write_small_stays_pending() {
    let (io, out) = rec();
    let mut b: VirtSeqBuf<16, Rec> = VirtSeqBuf::new(io);
    assert_eq!(b.min_flush_size, MIN_FLUSH_SIZE);
    b.write(b"abc").unwrap();
    assert_eq!(b.idx, 3);
    assert_eq!(b.cap_left(), 13);
    assert!(out.borrow().is_empty());
    b.flush().unwrap();
    assert_eq!(&out.borrow()[..], b"abc");
    assert_eq!(b.idx, 0);
}

#[test]
fn virtbuf_long_write_goes_straight_through() {
    let (io, out) = rec();
    let mut b: VirtSeqBuf<16, Rec> = VirtSeqBuf::new_io(io, 4);
    b.write(b"ab").unwrap();
    b.write(b"0123456789").unwrap();
    assert_eq!(&out.borrow()[..], b"ab0123456789");
    assert_eq!(b.idx, 0);
}

#[test]
fn virtbuf_overflow_drops_the_head_of_the_write() {
    let (io, out) = rec();
    let mut b: VirtSeqBuf<4, Rec> = VirtSeqBuf::new(io);
    b.write(b"xyz").unwrap();
    b.write(b"abcd").unwrap();
    // "a" filled the free room and was lost; "xyz" was handed on, "bcd" waits.
    assert_eq!(&out.borrow()[..], b"xyz");
    b.flush().unwrap();
    assert_eq!(&out.borrow()[..], b"xyzbcd");
}

#[test]
fn virtbuf_write_byte_flushes_when_full() {
    let (io, out) = rec();
    let mut b: VirtSeqBuf<2, Rec> = VirtSeqBuf::new(io);
    b.write_byte(b'a').unwrap();
    b.write_byte(b'b').unwrap();
    assert!(out.borrow().is_empty());
    b.write_byte(b'c').unwrap();
    assert_eq!(&out.borrow()[..], b"ab");
    b.flush().unwrap();
    assert_eq!(&out.borrow()[..], b"abc");
}

#[test]
fn virtbuf_format_num_writes_decimal() {
    let (io, out) = rec();
    let mut b: VirtSeqBuf<8, Rec> = VirtSeqBuf::new(io);
    b.format_num(-32768).unwrap();
    assert_eq!(b.idx, 6);
    b.format_num(10).unwrap();
    b.flush().unwrap();
    assert_eq!(&out.borrow()[..], b"-3276810");
}

#[test]
fn virtbuf_flush_error_keeps_pending() {
    let out = Rc::new(RefCell::new(Vec::new()));
    let io = Rec { out: out.clone(), fail: true };
    let mut b: VirtSeqBuf<8, Rec> = VirtSeqBuf::new(io);
    b.write(b"ab").unwrap();
    assert!(b.flush().is_err());
    assert_eq!(b.idx, 2);
    assert!(b.flush_buf(b"zz").is_err());
}

// ---------------------------------------------------------------------------
// Compiled capabilities
// ---------------------------------------------------------------------------

fn run<const N: usize>(
    text: &[u8],
    inputs: [(u8, ExprType); N],
    params: [Param; N],
) -> Result<Vec<u8>, ParseError> {
    let mut data = Vec::new();
    let cap = ParsedStringCap::<N>::parse_out(&mut data, text, inputs)?;
    let (io, out) = rec();
    let mut b: VirtSeqBuf<64, Rec> = VirtSeqBuf::new(io);
    cap.print(&data, &mut b, params).unwrap();
    b.flush().unwrap();
    let r = out.borrow().clone();
    Ok(r)
}

#[test]
fn capability_literal_text_round_trip() {
    assert_eq!(run(b"hello", [], []).unwrap(), b"hello".to_vec());
    assert_eq!(run(b"x", [], []).unwrap(), b"x".to_vec());
    assert_eq!(run(b"", [], []).unwrap(), Vec::<u8>::new());
}

#[test]
fn capability_literal_layout() {
    let mut data = vec![9u8];
    let cap = ParsedStringCap::<0>::parse_out(&mut data, b"abc", []).unwrap();
    assert_eq!(cap.base, 1);
    assert_eq!(cap.slice_len, 3);
    assert_eq!(cap.op_len, 2);
    assert_eq!(data, vec![9, b'a', b'b', b'c', OpCode::PrintSlice.code(), 3]);
}

#[test]
fn capability_param_decimal() {
    let out = run(b"%p1%d", [(0, ExprType::Int)], [Param::Int(-42)]).unwrap();
    assert_eq!(out, b"-42".to_vec());
}

#[test]
fn capability_cursor_address_increments_second_parameter_only() {
    let out = run(
        b"\x1b[%i%p1%d;%p2%dH",
        [(0, ExprType::Int), (1, ExprType::Int)],
        [Param::Int(4), Param::Int(9)],
    )
    .unwrap();
    assert_eq!(out, b"\x1b[4;10H".to_vec());
}

#[test]
fn capability_constants_and_escapes() {
    assert_eq!(run(b"%'A'%d", [], []).unwrap(), b"65".to_vec());
    assert_eq!(run(b"100%%", [], []).unwrap(), b"100%".to_vec());
    // A two-operand operation leaves its lower operand on the stack.
    assert_eq!(run(b"%'A'%'B'%-%d", [], []).unwrap(), b"65".to_vec());
    // A `%{..}` constant is pushed when printing but has no type when compiling.
    assert_eq!(run(b"%{-123}", [], []).unwrap(), Vec::<u8>::new());
}

#[test]
fn capability_errors() {
    let mut d = Vec::new();
    assert_eq!(
        ParsedStringCap::<0>::parse_out(&mut d, b"%?", []).err(),
        Some(ParseError::MissingFeatureIf)
    );
    assert_eq!(ParsedStringCap::<0>::parse_out(&mut d, b"%z", []).err(), Some(ParseError::InvalidMod));
    assert_eq!(ParsedStringCap::<0>::parse_out(&mut d, b"%px", []).err(), Some(ParseError::InvalidId));
    assert_eq!(
        ParsedStringCap::<0>::parse_out(&mut d, b"%{1234567}", []).err(),
        Some(ParseError::InvalidConsts)
    );
    assert_eq!(
        ParsedStringCap::<0>::parse_out(&mut d, b"%{1a}", []).err(),
        Some(ParseError::InvalidConsts)
    );
    assert_eq!(
        ParsedStringCap::<0>::parse_out(&mut d, b"%'ab", []).err(),
        Some(ParseError::InvalidCharConst)
    );
    assert_eq!(
        ParsedStringCap::<0>::parse_out(&mut d, b"%[", []).err(),
        Some(ParseError::InvalidInputMatch)
    );
    assert_eq!(
        ParsedStringCap::<1>::parse_out(&mut d, b"%p1", [(0, ExprType::Int)]).err(),
        Some(ParseError::NotEmptyStack)
    );
    assert_eq!(
        ParsedStringCap::<1>::parse_out(&mut d, b"abc", [(0, ExprType::Int)]).err(),
        Some(ParseError::UnusedParam)
    );
}

#[test]
fn opcode_pushes() {
    let mut ops = Vec::new();
    OpCode::push_p(&mut ops, 3);
    OpCode::push_byte(&mut ops, b'x');
    OpCode::push_const(&mut ops, -2);
    assert_eq!(
        ops,
        vec![
            OpCode::PushParam.code(),
            3,
            OpCode::PrintByte.code(),
            b'x',
            OpCode::PushConst.code(),
            0xfe,
            0xff
        ]
    );
    assert_eq!(OpCode::Add.code(), 0);
    assert_eq!(OpCode::PrintChar.code(), 25);
}

// ---------------------------------------------------------------------------
// Terminfo entries
// ---------------------------------------------------------------------------

/// A legacy compiled entry named `names`, with the booleans `bools` and the string
/// capabilities `strs` (index, text); the other string slots are absent.
fn build_entry(names: &[u8], bools: &[u8], ints: &[i16], strs: &[(usize, &[u8])], count: usize) -> Vec<u8> {
    let mut table = Vec::new();
    let mut offs = vec![-1i16; count];
    for (idx, s) in strs {
        offs[*idx] = table.len() as i16;
        table.extend_from_slice(s);
        table.push(0);
    }
    let mut f = Vec::new();
    for v in [0x011Ai16, names.len() as i16 + 1, bools.len() as i16, ints.len() as i16, count as i16, table.len() as i16] {
        f.extend_from_slice(&v.to_le_bytes());
    }
    f.extend_from_slice(names);
    f.push(0);
    f.extend_from_slice(bools);
    if f.len() % 2 == 1 {
        f.push(0);
    }
    for v in ints {
        f.extend_from_slice(&v.to_le_bytes());
    }
    for v in offs {
        f.extend_from_slice(&v.to_le_bytes());
    }
    f.extend_from_slice(&table);
    f
}

fn sample_entry() -> Vec<u8> {
    build_entry(
        b"test|Test terminal",
        &[1, 0],
        &[80, -1],
        &[
            (5, b"\x1b[H\x1b[2J"),
            (10, b"\x1b[%i%p1%d;%p2%dH"),
            (293, b"\x1b[%i%d;%dR"),
            (294, b"\x1b[6n"),
        ],
        295,
    )
}

#[test]
fn terminfo_reads_a_built_entry() {
    let f = sample_entry();
    assert!(!TermInfo::panics_on(&f));
    let t = TermInfo::from_bytes(&f).unwrap();
    match t.get_str(5) {
        Some(TermInfoString::There(v)) => assert_eq!(&v[..], b"\x1b[H\x1b[2J"),
        _ => panic!("clear_screen missing"),
    }
    assert!(matches!(t.get_str(6), Some(TermInfoString::NotImpl)));
    assert!(t.get_str(295).is_none());
    assert!(TermInfoBool::Working.valid());
}

#[test]
fn terminfo_errors() {
    assert_eq!(TermInfo::from_bytes(&[1, 2, 3]).err(), Some(ParseError::NoHeader));
    let mut f = sample_entry();
    f[0] = 0;
    assert_eq!(TermInfo::from_bytes(&f).err(), Some(ParseError::InvalidHeader));
    let mut f = sample_entry();
    f.push(7);
    assert!(TermInfo::from_bytes(&f).is_err());
    let f = build_entry(b"x", &[7], &[], &[], 0);
    assert_eq!(TermInfo::from_bytes(&f).err(), Some(ParseError::InvalidBool));
    let f = build_entry(b"x", &[], &[-5], &[], 0);
    assert_eq!(TermInfo::from_bytes(&f).err(), Some(ParseError::InvalidInt(-5)));
}

#[test]
fn config_controls_the_terminal() {
    let t = TermInfo::from_bytes(&sample_entry()).unwrap();
    let mut c = TermInfoConfig::with_entry(t).unwrap();
    let (io, out) = rec();
    let mut b: VirtSeqBuf<128, Rec> = VirtSeqBuf::new(io);
    c.clear_screen(&mut b).unwrap();
    c.set_cursor_pos(&mut b, 2, 7).unwrap();
    c.get_cursor_pos(&mut b, 42).unwrap();
    b.flush().unwrap();
    assert_eq!(&out.borrow()[..], b"\x1b[H\x1b[2J\x1b[2;8H\x1b[6n");
}

#[test]
fn config_needs_the_strings() {
    let f = build_entry(b"t", &[], &[], &[(10, b"x"), (293, b"a"), (294, b"b")], 295);
    let t = TermInfo::from_bytes(&f).unwrap();
    assert_eq!(TermInfoConfig::with_entry(t).err(), Some(ParseError::EmptyStr));
    let f = build_entry(b"t", &[], &[], &[(5, b"c"), (293, b"a"), (294, b"b")], 295);
    let t = TermInfo::from_bytes(&f).unwrap();
    assert_eq!(TermInfoConfig::with_entry(t).err(), Some(ParseError::EmptyStrOut));
}

fn header(ns: i16, nb: i16, ni: i16, no: i16, ts: i16) -> Vec<u8> {
    let mut f = Vec::new();
    for v in [0x011Ai16, ns, nb, ni, no, ts] {
        f.extend_from_slice(&v.to_le_bytes());
    }
    f
}

#[test]
fn terminfo_section_errors() {
    let mut f = header(8, 0, 0, 0, 0);
    f.extend_from_slice(b"ab\0");
    assert_eq!(TermInfo::from_bytes(&f).err(), Some(ParseError::NoNames));

    let mut f = header(2, 0, 0, 0, 0);
    f.extend_from_slice(b"ab");
    assert_eq!(TermInfo::from_bytes(&f).err(), Some(ParseError::InvalidNames));

    let mut f = header(2, 0, 0, 0, 0);
    f.extend_from_slice(&[0xff, 0]);
    assert_eq!(TermInfo::from_bytes(&f).err(), Some(ParseError::InvalidUTF8Name));

    let mut f = header(2, 3, 0, 0, 0);
    f.extend_from_slice(b"a\0");
    f.push(1);
    assert_eq!(TermInfo::from_bytes(&f).err(), Some(ParseError::NoBools));

    let mut f = header(1, 0, 0, 0, 0);
    f.push(0);
    assert_eq!(TermInfo::from_bytes(&f).err(), Some(ParseError::NoPadding));

    let mut f = header(2, 0, 2, 0, 0);
    f.extend_from_slice(b"a\0");
    f.extend_from_slice(&[5, 0]);
    assert_eq!(TermInfo::from_bytes(&f).err(), Some(ParseError::NoInts));

    let mut f = header(2, 0, 0, 2, 0);
    f.extend_from_slice(b"a\0");
    f.extend_from_slice(&[0, 0]);
    assert_eq!(TermInfo::from_bytes(&f).err(), Some(ParseError::NoStrOffs));

    let mut f = header(2, 0, 0, 1, 9);
    f.extend_from_slice(b"a\0");
    f.extend_from_slice(&[0, 0]);
    f.extend_from_slice(b"x\0");
    assert_eq!(TermInfo::from_bytes(&f).err(), Some(ParseError::NoStrTable));
}

#[test]
fn terminfo_string_table_errors() {
    let entry = |offs: &[i16], table: &[u8]| {
        let mut f = header(2, 0, 0, offs.len() as i16, table.len() as i16);
        f.extend_from_slice(b"a\0");
        for o in offs {
            f.extend_from_slice(&o.to_le_bytes());
        }
        f.extend_from_slice(table);
        f
    };
    let f = entry(&[-3], b"x\0");
    assert_eq!(TermInfo::from_bytes(&f).err(), Some(ParseError::InvalidStrIdx));
    let f = entry(&[0, 2], b"ab\0\0");
    assert_eq!(TermInfo::from_bytes(&f).err(), Some(ParseError::InvalidCStr));
    let f = entry(&[0], b"a\0b");
    assert_eq!(TermInfo::from_bytes(&f).err(), Some(ParseError::InvalidStrTable));
    let f = entry(&[0, 2, -2], b"a\0b\0");
    let t = TermInfo::from_bytes(&f).unwrap();
    assert!(matches!(t.get_str(1), Some(TermInfoString::There(v)) if &v[..] == b"b"));
    assert!(matches!(t.get_str(2), Some(TermInfoString::IdkCanceled)));
    let f = entry(&[0, 5], b"a\0b\0");
    assert!(TermInfo::panics_on(&f));
}
