use calc_engine::bridge::{cycle_tables, EngineError, Runtime, SafeTable};

fn sum_bits(out: Vec<u64>) -> f64 {
    let mut acc = 0.0f64;
    for b in out {
        acc += f64::from_bits(b);
    }
    acc
}

#[test]
fn bridged_table_starts_empty() {
    let mut rt = Runtime::new();
    let st = SafeTable::new(&mut rt).expect("acquisition");
    assert_eq!(f64::from_bits(st.get_number(&rt, 0, 0)), 0.0);
    assert_eq!(st.eval(&rt, "=SUM").len(), 0);
    st.release(&mut rt);
}

#[test]
fn bridged_set_get_eval_match_native_contract() {
    let mut rt = Runtime::new();
    let st = SafeTable::new(&mut rt).expect("acquisition");
    st.set_number(&mut rt, 0, 0, 10.5f64.to_bits());
    st.set_number(&mut rt, 1, 0, 20.0f64.to_bits());
    st.set_text(&mut rt, 2, 0, "hello").expect("plain text crosses");
    assert_eq!(f64::from_bits(st.get_number(&rt, 0, 0)), 10.5);
    assert_eq!(f64::from_bits(st.get_number(&rt, 2, 0)), 0.0);
    assert_eq!(sum_bits(st.eval(&rt, "=SUM")), 30.5);
    assert_eq!(st.eval(&rt, "=AVG").len(), 0);
    st.release(&mut rt);
}

#[test]
fn embedded_terminator_is_rejected_and_nothing_changes() {
    let mut rt = Runtime::new();
    let st = SafeTable::new(&mut rt).expect("acquisition");
    st.set_number(&mut rt, 4, 2, 6.25f64.to_bits());
    let r = st.set_text(&mut rt, 4, 2, "bad\0text");
    assert_eq!(r, Err(EngineError::InvalidTextEncoding));
    // the failed call left the target coordinate untouched
    assert_eq!(f64::from_bits(st.get_number(&rt, 4, 2)), 6.25);
    assert_eq!(sum_bits(st.eval(&rt, "=SUM")), 6.25);
    // a terminator anywhere in the text is rejected
    assert_eq!(st.set_text(&mut rt, 0, 0, "\0"), Err(EngineError::InvalidTextEncoding));
    assert_eq!(st.set_text(&mut rt, 0, 0, "tail\0"), Err(EngineError::InvalidTextEncoding));
    assert_eq!(f64::from_bits(st.get_number(&rt, 0, 0)), 0.0);
    st.release(&mut rt);
}

#[test]
fn create_destroy_sequence_releases_every_resource() {
    let mut rt = Runtime::new();
    let n = 100u64;
    for _ in 0..n {
        let st = SafeTable::new(&mut rt).expect("acquisition");
        st.release(&mut rt);
    }
    assert_eq!(rt.created_count(), n);
    assert_eq!(rt.destroyed_count(), n);
    assert_eq!(rt.live_table_count(), 0);
}

#[test]
fn cycle_tables_balances_the_account() {
    let mut rt = Runtime::new();
    let keeper = SafeTable::new(&mut rt).expect("acquisition");
    keeper.set_number(&mut rt, 0, 0, 1.5f64.to_bits());
    cycle_tables(&mut rt, 50);
    assert_eq!(rt.created_count(), 51);
    assert_eq!(rt.destroyed_count(), 50);
    assert_eq!(rt.live_table_count(), 1);
    // the surviving table is untouched by the churn
    assert_eq!(f64::from_bits(keeper.get_number(&rt, 0, 0)), 1.5);
    keeper.release(&mut rt);
    assert_eq!(rt.live_table_count(), 0);
}

#[test]
fn tables_are_independent() {
    let mut rt = Runtime::new();
    let a = SafeTable::new(&mut rt).expect("acquisition");
    let b = SafeTable::new(&mut rt).expect("acquisition");
    a.set_number(&mut rt, 0, 0, 3.0f64.to_bits());
    b.set_number(&mut rt, 0, 0, 8.0f64.to_bits());
    assert_eq!(f64::from_bits(a.get_number(&rt, 0, 0)), 3.0);
    assert_eq!(f64::from_bits(b.get_number(&rt, 0, 0)), 8.0);
    a.release(&mut rt);
    // releasing one table leaves the other live and intact
    assert_eq!(rt.live_table_count(), 1);
    assert_eq!(f64::from_bits(b.get_number(&rt, 0, 0)), 8.0);
    assert_eq!(sum_bits(b.eval(&rt, "=SUM")), 8.0);
    b.release(&mut rt);
    assert_eq!(rt.created_count(), 2);
    assert_eq!(rt.destroyed_count(), 2);
}
