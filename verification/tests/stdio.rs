use termseq::stdio::IouCQEntry;

#[test]
fn completion_results() {
    let ok = IouCQEntry { user_data: 1, result: 3, flags: 0 };
    assert!(ok.get_result().is_ok());
    assert_eq!(ok.as_result().ok().map(|e| e.result), Some(3));
    let bad = IouCQEntry { user_data: 1, result: -2, flags: 0 };
    assert_eq!(bad.get_result().unwrap_err().raw_os_error(), Some(2));
    match bad.as_result() {
        Err((e, err)) => {
            assert_eq!(e.user_data, 1);
            assert_eq!(err.raw_os_error(), Some(2));
        }
        Ok(_) => panic!("a negative result is an error"),
    }
}
