use lispy::number::{equal, less, less_or_equal, nan, truthy, INFINITY, ONE, PI, ZERO};

fn samples() -> Vec<f64> {
    vec![
        0.0,
        -0.0,
        1.0,
        -1.0,
        0.5,
        -0.5,
        2.0,
        1e300,
        -1e300,
        f64::MIN_POSITIVE,
        -f64::MIN_POSITIVE,
        5e-324,
        -5e-324,
        f64::MAX,
        f64::MIN,
        f64::INFINITY,
        f64::NEG_INFINITY,
        f64::NAN,
        -f64::NAN,
        f64::from_bits(0x7ff0_0000_0000_0001),
        f64::from_bits(0xfff8_0000_0000_0000),
        std::f64::consts::PI,
        100.0,
    ]
}

#[test]
fn constants_are_the_bit_patterns() {
    assert_eq!(ZERO, 0.0f64.to_bits());
    assert_eq!(ONE, 1.0f64.to_bits());
    assert_eq!(PI, std::f64::consts::PI.to_bits());
    assert_eq!(INFINITY, f64::INFINITY.to_bits());
}

#[test]
fn less_orders_as_the_hardware_does() {
    for a in samples() {
        for b in samples() {
            assert_eq!(less(a.to_bits(), b.to_bits()), a < b, "{} < {}", a, b);
        }
    }
}

#[test]
fn less_or_equal_orders_as_the_hardware_does() {
    for a in samples() {
        for b in samples() {
            assert_eq!(less_or_equal(a.to_bits(), b.to_bits()), a <= b, "{} <= {}", a, b);
        }
    }
}

#[test]
fn equal_compares_as_the_hardware_does() {
    for a in samples() {
        for b in samples() {
            assert_eq!(equal(a.to_bits(), b.to_bits()), a == b, "{} == {}", a, b);
        }
    }
}

#[test]
fn nan_is_recognised() {
    for a in samples() {
        assert_eq!(nan(a.to_bits()), a.is_nan(), "{}", a);
    }
}

#[test]
fn every_number_but_zero_is_true() {
    for a in samples() {
        assert_eq!(truthy(a.to_bits()), a != 0.0, "{}", a);
    }
    assert!(!truthy(ZERO));
    assert!(!truthy((-0.0f64).to_bits()));
    assert!(truthy(ONE));
    assert!(truthy((-3.0f64).to_bits()));
    assert!(truthy(f64::NAN.to_bits()));
}

#[test]
fn zeros_are_equal_and_neither_is_less() {
    let plus = 0.0f64.to_bits();
    let minus = (-0.0f64).to_bits();
    assert!(equal(plus, minus));
    assert!(!less(minus, plus));
    assert!(!less(plus, minus));
    assert!(less_or_equal(minus, plus));
}

#[test]
fn numbers_that_are_not_nan_are_ordered() {
    for a in samples() {
        for b in samples() {
            let (x, y) = (a.to_bits(), b.to_bits());
            let holding = [less(x, y), equal(x, y), less(y, x)].iter().filter(|h| **h).count();
            if nan(x) || nan(y) {
                assert_eq!(holding, 0, "{} {}", a, b);
                assert!(!less_or_equal(x, y));
            } else {
                assert_eq!(holding, 1, "{} {}", a, b);
                assert_eq!(less_or_equal(x, y), less(x, y) || equal(x, y));
            }
        }
    }
}

#[test]
fn the_order_is_transitive() {
    for a in samples() {
        for b in samples() {
            for c in samples() {
                let (x, y, z) = (a.to_bits(), b.to_bits(), c.to_bits());
                if less(x, y) && less(y, z) {
                    assert!(less(x, z), "{} {} {}", a, b, c);
                }
                if less_or_equal(x, y) && less_or_equal(y, z) {
                    assert!(less_or_equal(x, z), "{} {} {}", a, b, c);
                }
                if equal(x, y) && equal(y, z) {
                    assert!(equal(x, z), "{} {} {}", a, b, c);
                }
            }
        }
    }
}
