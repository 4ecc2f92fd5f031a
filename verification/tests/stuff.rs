use termseq::{SeqBuf, SeqSlice, Stack};

#[test]
fn stack_push_pop() {
    let mut s: Stack<u8, 2> = Stack::new();
    assert_eq!(s.len(), 0);
    assert_eq!(s.pop(), None);
    assert_eq!(s.push(1), Some(()));
    s.push_unchecked(2);
    assert_eq!(s.push(3), None);
    assert_eq!(s.len(), 2);
    assert_eq!(s.slice_last(2), Some(&[1u8, 2][..]));
    assert_eq!(s.slice_last(3), None);
    assert_eq!(s.pop(), Some(2));
    assert_eq!(s.pop(), Some(1));
    assert_eq!(s.len(), 0);
}

#[test]
fn seq_buf_blocks() {
    let mut b = SeqBuf::new(vec![1u8, 2, 3, 4, 5].into_boxed_slice());
    assert_eq!(b.len(), 5);
    assert_eq!(b.get_next(2), Some(vec![1, 2]));
    assert_eq!(b.base(), 2);
    assert_eq!(b.get_next(4), None);
    assert_eq!(b.len(), 3);
    assert_eq!(b.get_next(3), Some(vec![3, 4, 5]));
    let all = b.end().unwrap();
    assert_eq!(&all[..], &[1, 2, 3, 4, 5]);
}

#[test]
fn seq_buf_end_needs_everything_consumed() {
    let mut b = SeqBuf::new(vec![1u8, 2].into_boxed_slice());
    let _ = b.get_next(1);
    assert!(b.end().is_none());
}

#[test]
fn seq_slice_blocks() {
    let data = [7u8, 8, 9];
    let mut s = SeqSlice::new(&data);
    assert_eq!(s.get_next(1), Some(&[7u8][..]));
    assert_eq!(s.base(), 1);
    assert_eq!(s.len(), 2);
    assert_eq!(s.get_next(3), None);
    assert_eq!(s.get_next(2), Some(&[8u8, 9][..]));
    assert_eq!(s.end(), Some(()));
    let s2 = SeqSlice::new(&data);
    assert_eq!(s2.end(), None);
}

#[test]
fn stack_pops_in_reverse_order_of_pushes() {
    let mut s: Stack<u16, 4> = Stack::new();
    s.push(9);
    for v in [1u16, 2, 3] {
        assert_eq!(s.push(v), Some(()));
    }
    assert_eq!(s.push(4), None);
    assert_eq!(s.len(), 4);
    assert_eq!(s.pop(), Some(3));
    assert_eq!(s.pop(), Some(2));
    assert_eq!(s.pop(), Some(1));
    assert_eq!(s.len(), 1);
    assert_eq!(s.pop(), Some(9));
}

#[test]
fn slice_blocks_join_to_what_was_consumed() {
    let data = [1u8, 2, 3, 4, 5, 6];
    let mut s = SeqSlice::new(&data);
    let mut joined: Vec<u8> = Vec::new();
    for k in [2usize, 9, 1, 3, 1] {
        if let Some(b) = s.get_next(k) {
            joined.extend_from_slice(b);
        }
    }
    assert_eq!(s.base(), 6);
    assert_eq!(&joined[..], &data[..s.base()]);
}
