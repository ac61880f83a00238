use calc_engine::table::Table;

fn sum_bits(out: Vec<u64>) -> f64 {
    let mut acc = 0.0f64;
    for b in out {
        acc += f64::from_bits(b);
    }
    acc
}

#[test]
fn get_unset_returns_zero() {
    let t = Table::new();
    assert_eq!(t.get_number(3, 4), 0u64);
    assert_eq!(f64::from_bits(t.get_number(3, 4)), 0.0);
    assert_eq!(f64::from_bits(t.get_number(-7, 12)), 0.0);
}

#[test]
fn text_cell_reads_zero() {
    let mut t = Table::new();
    t.set_text(2, 0, String::from("hello"));
    assert_eq!(f64::from_bits(t.get_number(2, 0)), 0.0);
}

#[test]
fn number_roundtrip_exact_finite() {
    let mut t = Table::new();
    t.set_number(0, 0, 10.5f64.to_bits());
    t.set_number(1, 0, (-3.25f64).to_bits());
    assert_eq!(f64::from_bits(t.get_number(0, 0)), 10.5);
    assert_eq!(f64::from_bits(t.get_number(1, 0)), -3.25);
}

#[test]
fn number_roundtrip_exact_nonfinite() {
    let mut t = Table::new();
    t.set_number(0, 0, f64::NAN.to_bits());
    t.set_number(0, 1, f64::INFINITY.to_bits());
    t.set_number(0, 2, f64::NEG_INFINITY.to_bits());
    t.set_number(0, 3, (-0.0f64).to_bits());
    assert_eq!(t.get_number(0, 0), f64::NAN.to_bits());
    assert!(f64::from_bits(t.get_number(0, 0)).is_nan());
    assert_eq!(f64::from_bits(t.get_number(0, 1)), f64::INFINITY);
    assert_eq!(f64::from_bits(t.get_number(0, 2)), f64::NEG_INFINITY);
    assert!(f64::from_bits(t.get_number(0, 3)).is_sign_negative());
    assert_eq!(f64::from_bits(t.get_number(0, 3)), -0.0);
}

#[test]
fn overwrite_number_with_number() {
    let mut t = Table::new();
    t.set_number(5, 5, 1.0f64.to_bits());
    t.set_number(5, 5, 2.5f64.to_bits());
    assert_eq!(f64::from_bits(t.get_number(5, 5)), 2.5);
}

#[test]
fn overwrite_number_with_text() {
    let mut t = Table::new();
    t.set_number(5, 5, 1.0f64.to_bits());
    t.set_text(5, 5, String::from("gone"));
    assert_eq!(f64::from_bits(t.get_number(5, 5)), 0.0);
    let out = t.eval("=SUM");
    assert_eq!(out.len(), 0);
}

#[test]
fn overwrite_text_with_number() {
    let mut t = Table::new();
    t.set_text(5, 5, String::from("soon a number"));
    t.set_number(5, 5, 4.25f64.to_bits());
    assert_eq!(f64::from_bits(t.get_number(5, 5)), 4.25);
    assert_eq!(sum_bits(t.eval("=SUM")), 4.25);
}

#[test]
fn eval_sum_mixed_cells() {
    let mut t = Table::new();
    t.set_number(0, 0, 10.5f64.to_bits());
    t.set_number(1, 0, 20.0f64.to_bits());
    t.set_text(2, 0, String::from("hello"));
    assert_eq!(sum_bits(t.eval("=SUM")), 30.5);
}

#[test]
fn eval_sum_empty_table() {
    let t = Table::new();
    let out = t.eval("=SUM");
    assert_eq!(out.len(), 0);
    assert_eq!(sum_bits(out), 0.0);
}

#[test]
fn eval_unrecognized_formulas() {
    let mut t = Table::new();
    t.set_number(0, 0, 10.5f64.to_bits());
    for f in ["", "SUM", "=SU", "=AVG", "hello", "=sum"] {
        let out = t.eval(f);
        assert_eq!(out.len(), 0, "formula {:?} must evaluate to nothing", f);
        assert_eq!(sum_bits(out), 0.0);
    }
}

#[test]
fn eval_sum_prefix_is_enough() {
    let mut t = Table::new();
    t.set_number(0, 0, 1.5f64.to_bits());
    t.set_number(9, 9, 2.0f64.to_bits());
    assert_eq!(sum_bits(t.eval("=SUM(A1:A2)")), 3.5);
    assert_eq!(sum_bits(t.eval("=SUMMARY")), 3.5);
}

#[test]
fn negative_coordinates_are_ordinary() {
    let mut t = Table::new();
    t.set_number(-1, -2, 7.0f64.to_bits());
    assert_eq!(f64::from_bits(t.get_number(-1, -2)), 7.0);
    assert_eq!(f64::from_bits(t.get_number(-2, -1)), 0.0);
}
