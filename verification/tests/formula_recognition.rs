use calc_engine::formula::recognizes_sum;

#[test]
fn sum_keyword_is_recognized() {
    assert!(recognizes_sum("=SUM"));
    assert!(recognizes_sum("=SUM(A1:B2)"));
    assert!(recognizes_sum("=SUMMARY"));
}

#[test]
fn everything_else_is_unrecognized() {
    assert!(!recognizes_sum(""));
    assert!(!recognizes_sum("="));
    assert!(!recognizes_sum("=SU"));
    assert!(!recognizes_sum("SUM"));
    assert!(!recognizes_sum("=sum"));
    assert!(!recognizes_sum(" =SUM"));
    assert!(!recognizes_sum("=AVG"));
}

#[test]
fn recognition_reads_bytes_not_characters() {
    // a non-ASCII formula is still dispatched on its leading bytes
    assert!(recognizes_sum("=SUM\u{00e9}"));
    assert!(!recognizes_sum("\u{00e9}SUM"));
}
