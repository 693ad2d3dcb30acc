use perlin_noise::fixed::{add_saturating, div_saturating, mul_saturating, LIMIT, ONE};

#[test]
fn one_has_sixteen_fractional_bits() {
    assert_eq!(ONE, 1 << 16);
    assert_eq!(LIMIT, i64::MAX);
}

#[test]
fn products_round_down() {
    assert_eq!(mul_saturating(3 * ONE, ONE / 2), 98304);
    assert_eq!(mul_saturating(-3, ONE / 2), -2);
    assert_eq!(mul_saturating(-1, 1), -1);
    assert_eq!(mul_saturating(163840, -98304), -245760);
    assert_eq!(mul_saturating(98304, -163840), -245760);
}

#[test]
fn multiplying_by_one_changes_nothing() {
    for v in [0, 1, -1, 12345, -98765, i64::MAX, -i64::MAX] {
        assert_eq!(mul_saturating(v, ONE), v);
    }
}

#[test]
fn saturating_product_stops_at_the_limit() {
    assert_eq!(mul_saturating(1 << 62, 4 * ONE), LIMIT);
    assert_eq!(mul_saturating(i64::MIN, 3 * ONE), -LIMIT);
    assert_eq!(mul_saturating(i64::MIN, ONE), -LIMIT);
    assert_eq!(mul_saturating(i64::MIN, i64::MIN), LIMIT);
}

#[test]
fn saturating_sum_stops_at_the_limit() {
    assert_eq!(add_saturating(2, 3), 5);
    assert_eq!(add_saturating(-7, 3), -4);
    assert_eq!(add_saturating(i64::MAX, 1), LIMIT);
    assert_eq!(add_saturating(i64::MIN, -1), -LIMIT);
    assert_eq!(add_saturating(i64::MIN, 0), -LIMIT);
    assert_eq!(add_saturating(i64::MAX, i64::MIN), -1);
}

#[test]
fn quotients_round_down() {
    assert_eq!(div_saturating(3 * ONE, 2 * ONE), 98304);
    assert_eq!(div_saturating(-3 * ONE, 2 * ONE), -98304);
    assert_eq!(div_saturating(3 * ONE, -2 * ONE), -98304);
    assert_eq!(div_saturating(1, 3 * ONE), 0);
    assert_eq!(div_saturating(-1, 3 * ONE), -1);
    assert_eq!(div_saturating(1, -3 * ONE), -1);
    assert_eq!(div_saturating(85628, 129024), 43493);
}

#[test]
fn quotient_by_zero_saturates_toward_the_sign() {
    assert_eq!(div_saturating(5, 0), LIMIT);
    assert_eq!(div_saturating(-5, 0), -LIMIT);
    assert_eq!(div_saturating(0, 0), 0);
}

#[test]
fn quotient_stops_at_the_limit() {
    assert_eq!(div_saturating(1 << 62, 1), LIMIT);
    assert_eq!(div_saturating(-(1 << 62), 1), -LIMIT);
    assert_eq!(div_saturating(i64::MIN, -1), LIMIT);
}
