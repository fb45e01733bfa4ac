use times_table::decimal::FixedDecimal;

#[test]
fn new_keeps_parts() {
    let d = FixedDecimal::new(201, 2);
    assert_eq!(d.mantissa, 201);
    assert_eq!(d.scale, 2);
}

#[test]
fn plus_aligns_scales() {
    let two = FixedDecimal::new(2, 0);
    let hundredth = FixedDecimal::new(1, 2);
    assert_eq!(two.plus(hundredth), FixedDecimal::new(201, 2));
}

#[test]
fn plus_same_scale() {
    let a = FixedDecimal::new(150, 2);
    let b = FixedDecimal::new(25, 2);
    assert_eq!(a.plus(b), FixedDecimal::new(175, 2));
}

#[test]
fn minus_aligns_scales() {
    let a = FixedDecimal::new(201, 2);
    let b = FixedDecimal::new(1, 2);
    assert_eq!(a.minus(b), FixedDecimal::new(200, 2));
}

#[test]
fn minus_can_go_negative() {
    let a = FixedDecimal::new(1, 2);
    let b = FixedDecimal::new(3, 2);
    assert_eq!(a.minus(b), FixedDecimal::new(-2, 2));
}

#[test]
fn times_ten_prefers_the_scale() {
    assert_eq!(FixedDecimal::new(1, 2).times_ten(), FixedDecimal::new(1, 1));
    assert_eq!(FixedDecimal::new(7, 0).times_ten(), FixedDecimal::new(70, 0));
}

#[test]
fn tenth_prefers_the_mantissa() {
    assert_eq!(FixedDecimal::new(70, 0).tenth(), FixedDecimal::new(7, 0));
    assert_eq!(FixedDecimal::new(-70, 0).tenth(), FixedDecimal::new(-7, 0));
    assert_eq!(FixedDecimal::new(1, 1).tenth(), FixedDecimal::new(1, 2));
}

#[test]
fn tenth_at_the_precision_floor_is_a_no_op() {
    let smallest = FixedDecimal::new(1, 18);
    assert_eq!(smallest.tenth(), smallest);
}

#[test]
fn scale_round_trip_is_bit_identical_a_thousand_times() {
    let base = FixedDecimal::new(1, 2);
    let mut d = base;
    for _ in 0..1000 {
        d = d.times_ten();
        d = d.tenth();
        assert_eq!(d, base);
    }
}

#[test]
fn scale_round_trip_through_scale_zero() {
    // 0.01 raised four times passes scale zero and widens the mantissa ...
    let mut d = FixedDecimal::new(1, 2);
    for _ in 0..4 {
        d = d.times_ten();
    }
    assert_eq!(d, FixedDecimal::new(100, 0));
    // ... and lowering four times narrows it back, bit for bit.
    for _ in 0..4 {
        d = d.tenth();
    }
    assert_eq!(d, FixedDecimal::new(1, 2));
}
