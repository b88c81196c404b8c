use ferrugem::value::{less, less_equal, nan, negated, same_number, CallableImpl, Value};

fn samples() -> Vec<f64> {
    vec![
        0.0,
        -0.0,
        1.0,
        -1.0,
        0.5,
        -0.5,
        1.5e300,
        -1.5e300,
        5e-324,
        -5e-324,
        f64::MIN_POSITIVE,
        f64::MAX,
        f64::MIN,
        f64::INFINITY,
        f64::NEG_INFINITY,
        f64::NAN,
        -f64::NAN,
        f64::from_bits(0x7ff0_0000_0000_0001),
        f64::from_bits(0xfff8_0000_0000_0000),
        3.0,
        2.9999999999999996,
    ]
}

#[test]
fn nan_is_told_by_its_bits() {
    for x in samples() {
        assert_eq!(nan(x.to_bits()), x.is_nan(), "{}", x);
    }
}

#[test]
fn order_of_floats_by_their_bits() {
    for a in samples() {
        for b in samples() {
            assert_eq!(less(a.to_bits(), b.to_bits()), a < b, "{} < {}", a, b);
            assert_eq!(less_equal(a.to_bits(), b.to_bits()), a <= b, "{} <= {}", a, b);
            assert_eq!(same_number(a.to_bits(), b.to_bits()), a == b, "{} == {}", a, b);
        }
    }
}

#[test]
fn the_two_zeros_are_equal() {
    assert!(same_number(0.0f64.to_bits(), (-0.0f64).to_bits()));
    assert!(!less((-0.0f64).to_bits(), 0.0f64.to_bits()));
    assert!(less_equal(0.0f64.to_bits(), (-0.0f64).to_bits()));
}

#[test]
fn negation_turns_the_sign() {
    for x in samples() {
        assert_eq!(negated(x.to_bits()), (-x).to_bits(), "{}", x);
    }
    assert_eq!(negated(0x4008_0000_0000_0000), 0xc008_0000_0000_0000);
}

#[test]
fn only_nothing_and_false_count_as_false() {
    assert!(!Value::Nil.is_truthy());
    assert!(!Value::False.is_truthy());
    assert!(Value::True.is_truthy());
    assert!(Value::Number(0).is_truthy());
    assert!(Value::Number(f64::NAN.to_bits()).is_truthy());
    assert!(Value::StringValue(String::new()).is_truthy());
    assert!(Value::LoxClass(0).is_truthy());
    assert!(Value::LoxInstance(0).is_truthy());
    assert!(Value::Callable(CallableImpl::NativeFunction { native: 0 }).is_truthy());
}

#[test]
fn from_bool_gives_the_two_constants() {
    assert!(matches!(Value::from_bool(true), Value::True));
    assert!(matches!(Value::from_bool(false), Value::False));
}

#[test]
fn values_are_equal_by_what_they_hold() {
    let one = Value::Number(1.0f64.to_bits());
    assert!(one.equals(&Value::Number(1.0f64.to_bits())));
    assert!(!one.equals(&Value::Number(2.0f64.to_bits())));
    let nan = Value::Number(f64::NAN.to_bits());
    assert!(!nan.equals(&nan));
    assert!(Value::StringValue("ab".to_string()).equals(&Value::StringValue("ab".to_string())));
    assert!(!Value::StringValue("ab".to_string()).equals(&Value::StringValue("ac".to_string())));
    assert!(Value::Nil.equals(&Value::Nil));
    assert!(Value::True.equals(&Value::True));
    assert!(!Value::True.equals(&Value::False));
    assert!(!Value::Nil.equals(&Value::False));
    assert!(!one.equals(&Value::StringValue("1".to_string())));
}

#[test]
fn handles_are_equal_only_to_themselves() {
    let f = Value::Callable(CallableImpl::LoxFunction { function: 1, env: 2 });
    assert!(f.equals(&Value::Callable(CallableImpl::LoxFunction { function: 1, env: 2 })));
    assert!(!f.equals(&Value::Callable(CallableImpl::LoxFunction { function: 1, env: 3 })));
    assert!(!f.equals(&Value::Callable(CallableImpl::LoxFunction { function: 2, env: 2 })));
    assert!(!f.equals(&Value::Callable(CallableImpl::NativeFunction { native: 1 })));
    assert!(Value::LoxClass(4).equals(&Value::LoxClass(4)));
    assert!(!Value::LoxClass(4).equals(&Value::LoxClass(5)));
    assert!(!Value::LoxClass(4).equals(&Value::LoxInstance(4)));
    assert!(Value::LoxInstance(0).equals(&Value::LoxInstance(0)));
    assert!(!Value::LoxInstance(0).equals(&Value::LoxInstance(1)));
}

#[test]
fn kinds_have_names() {
    assert_eq!(Value::Number(0).to_type(), "Número");
    assert_eq!(Value::StringValue(String::new()).to_type(), "Texto");
    assert_eq!(Value::True.to_type(), "Booleano");
    assert_eq!(Value::False.to_type(), "Booleano");
    assert_eq!(Value::Nil.to_type(), "nulo");
    assert_eq!(Value::LoxClass(0).to_type(), "Classe");
    assert_eq!(Value::LoxInstance(0).to_type(), "Instância");
}
