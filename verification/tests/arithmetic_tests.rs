use abzu_interpreter::ast::Operator;
use abzu_interpreter::interpreter::{Interpreter, RuntimeError};
use abzu_interpreter::value::{SexagesimalNum, Value};

fn whole(n: i64) -> Value {
    Value::Integer(n)
}

fn float(x: f64) -> Value {
    Value::Float(x.to_bits())
}

fn sex(integer: i64, fraction: i64) -> Value {
    Value::Sexagesimal(SexagesimalNum::new(integer, fraction).unwrap())
}

fn apply(op: Operator, left: Value, right: Value) -> Result<Value, RuntimeError> {
    Interpreter::new().eval_binary_operation(&op, &left, &right)
}

fn plus(left: Value, right: Value) -> Value {
    Interpreter::new().add_values(&left, &right).unwrap()
}

fn minus(left: Value, right: Value) -> Value {
    Interpreter::new().subtract_values(&left, &right).unwrap()
}

fn times(left: Value, right: Value) -> Value {
    Interpreter::new().multiply_values(&left, &right).unwrap()
}

fn over(left: Value, right: Value) -> Value {
    Interpreter::new().divide_values(&left, &right).unwrap()
}

fn negate(value: Value) -> Value {
    Interpreter::new().negate_value(&value).unwrap()
}

#[test]
fn integers_stay_integers() {
    assert_eq!(plus(whole(1), whole(2)), whole(3));
    assert_eq!(minus(whole(1), whole(2)), whole(-1));
    assert_eq!(times(whole(-4), whole(5)), whole(-20));
    assert_eq!(negate(whole(7)), whole(-7));
    assert_eq!(negate(whole(0)), whole(0));
}

#[test]
fn integer_division_is_an_integer_where_exact() {
    assert_eq!(over(whole(6), whole(3)), whole(2));
    assert_eq!(over(whole(-6), whole(3)), whole(-2));
    assert_eq!(over(whole(6), whole(-3)), whole(-2));
    assert_eq!(over(whole(-6), whole(-3)), whole(2));
    assert_eq!(over(whole(0), whole(5)), whole(0));
    assert_eq!(over(whole(7), whole(1)), whole(7));
    assert_eq!(over(whole(7), whole(-1)), whole(-7));
    assert_eq!(over(whole(i64::MIN), whole(1)), whole(i64::MIN));
    assert_eq!(over(whole(i64::MIN), whole(2)), whole(i64::MIN / 2));
    assert_eq!(over(whole(i64::MIN), whole(i64::MIN)), whole(1));
}

#[test]
fn integer_division_is_a_double_where_inexact() {
    assert_eq!(over(whole(5), whole(2)), float(2.5));
    assert_eq!(over(whole(-5), whole(2)), float(-2.5));
    assert_eq!(over(whole(1), whole(3)), float(1.0 / 3.0));
    assert_eq!(over(whole(1), whole(i64::MIN)), float(1.0 / i64::MIN as f64));
    assert_eq!(over(whole(i64::MAX), whole(2)), float(i64::MAX as f64 / 2.0));
}

#[test]
fn integer_arithmetic_wraps_in_64_bits() {
    assert_eq!(plus(whole(i64::MAX), whole(1)), whole(i64::MIN));
    assert_eq!(minus(whole(i64::MIN), whole(1)), whole(i64::MAX));
    assert_eq!(times(whole(i64::MAX), whole(2)), whole(-2));
    assert_eq!(times(whole(i64::MIN), whole(i64::MIN)), whole(0));
    assert_eq!(times(whole(i64::MAX), whole(i64::MAX)), whole(1));
    assert_eq!(negate(whole(i64::MIN)), whole(i64::MIN));
    assert_eq!(over(whole(i64::MIN), whole(-1)), whole(i64::MIN));
    for (a, b) in [(i64::MAX, i64::MAX), (i64::MIN, -7), (1 << 40, 1 << 40), (-3, i64::MAX)] {
        assert_eq!(plus(whole(a), whole(b)), whole(a.wrapping_add(b)));
        assert_eq!(minus(whole(a), whole(b)), whole(a.wrapping_sub(b)));
        assert_eq!(times(whole(a), whole(b)), whole(a.wrapping_mul(b)));
    }
}

#[test]
fn a_double_on_either_side_gives_a_double() {
    assert_eq!(plus(whole(1), float(0.5)), float(1.5));
    assert_eq!(plus(float(0.5), whole(1)), float(1.5));
    assert_eq!(plus(float(1.5), float(2.5)), float(4.0));
    assert_eq!(minus(whole(1), float(0.5)), float(0.5));
    assert_eq!(minus(float(0.5), whole(1)), float(-0.5));
    assert_eq!(times(whole(3), float(0.5)), float(1.5));
    assert_eq!(times(float(0.5), float(0.5)), float(0.25));
    assert_eq!(over(float(5.0), float(2.0)), float(2.5));
    assert_eq!(over(whole(1), float(4.0)), float(0.25));
    assert_eq!(over(float(1.0), whole(4)), float(0.25));
    assert_eq!(plus(sex(1, 30), float(0.25)), float(1.75));
    assert_eq!(plus(float(0.25), sex(1, 30)), float(1.75));
    assert_eq!(minus(sex(12, 30), float(5.5)), float(7.0));
    assert_eq!(minus(float(5.5), sex(12, 30)), float(-7.0));
    assert_eq!(times(sex(1, 30), float(2.0)), float(3.0));
    assert_eq!(times(float(2.0), sex(1, 30)), float(3.0));
    assert_eq!(over(sex(1, 30), float(2.0)), float(0.75));
    assert_eq!(over(float(3.0), sex(1, 30)), float(2.0));
}

#[test]
fn doubles_follow_ieee_arithmetic() {
    assert_eq!(plus(float(0.1), float(0.2)), float(0.1 + 0.2));
    assert_eq!(minus(float(0.3), float(0.1)), float(0.3 - 0.1));
    assert_eq!(times(float(0.1), float(3.0)), float(0.1 * 3.0));
    assert_eq!(over(float(1.0), float(3.0)), float(1.0 / 3.0));
    assert_eq!(times(float(1e308), float(10.0)), float(f64::INFINITY));
    assert_eq!(times(float(-1e308), float(10.0)), float(f64::NEG_INFINITY));
    assert_eq!(over(float(5e-324), float(2.0)), float(0.0));
    assert_eq!(plus(float(9007199254740992.0), float(1.0)), float(9007199254740992.0));
    assert_eq!(plus(float(-0.0), float(0.0)), float(0.0));
    assert_eq!(plus(float(-0.0), float(-0.0)), float(-0.0));
    match minus(float(f64::INFINITY), float(f64::INFINITY)) {
        Value::Float(bits) => assert!(f64::from_bits(bits).is_nan()),
        other => panic!("expected a double, got {:?}", other),
    }
}

#[test]
fn doubles_agree_with_the_machine_on_many_operands() {
    let mut state: u64 = 0x9E37_79B9_7F4A_7C15;
    let mut next = || {
        state ^= state << 13;
        state ^= state >> 7;
        state ^= state << 17;
        state
    };
    let same = |got: Value, expected: f64| match got {
        Value::Float(bits) => {
            let got = f64::from_bits(bits);
            assert!(
                (got.is_nan() && expected.is_nan()) || bits == expected.to_bits(),
                "{:?} != {:?}",
                got,
                expected
            );
        }
        other => panic!("expected a double, got {:?}", other),
    };
    for round in 0..3000 {
        let (a, b) = if round % 3 == 0 {
            (f64::from_bits(next()), f64::from_bits(next()))
        } else if round % 3 == 1 {
            let x = f64::from_bits(next());
            (x, x * (1.0 + (next() % 1000) as f64 * 1e-16))
        } else {
            ((next() as i64) as f64 / 1024.0, ((next() % 100000) as f64) / 7.0)
        };
        same(plus(float(a), float(b)), a + b);
        same(minus(float(a), float(b)), a - b);
        same(times(float(a), float(b)), a * b);
        if b != 0.0 {
            same(over(float(a), float(b)), a / b);
        }
        let n = next() as i64;
        same(plus(whole(n), float(0.0)), n as f64 + 0.0);
    }
}

#[test]
fn negating_a_double_flips_its_sign() {
    assert_eq!(negate(float(1.5)), float(-1.5));
    assert_eq!(negate(float(-1.5)), float(1.5));
    assert_eq!(negate(float(0.0)), float(-0.0));
    assert_eq!(negate(float(f64::INFINITY)), float(f64::NEG_INFINITY));
}

#[test]
fn sexagesimal_sums_and_differences() {
    assert_eq!(plus(sex(1, 30), sex(0, 30)), sex(2, 0));
    assert_eq!(plus(sex(1, 45), sex(2, 45)), sex(4, 30));
    assert_eq!(plus(sex(0, 59), sex(0, 1)), sex(1, 0));
    assert_eq!(minus(sex(2, 0), sex(0, 1)), sex(1, 59));
    assert_eq!(minus(sex(0, 30), sex(1, 0)), sex(-1, 30));
    assert_eq!(minus(sex(1, 30), sex(1, 30)), sex(0, 0));
    assert_eq!(plus(sex(-1, 30), sex(0, 30)), sex(0, 0));
}

#[test]
fn sexagesimal_with_integer_stays_sexagesimal() {
    assert_eq!(plus(whole(10), sex(2, 30)), sex(12, 30));
    assert_eq!(plus(sex(2, 30), whole(10)), sex(12, 30));
    assert_eq!(minus(sex(2, 30), whole(3)), sex(-1, 30));
    assert_eq!(minus(whole(3), sex(2, 30)), sex(0, 30));
    assert_eq!(times(sex(1, 30), whole(2)), sex(3, 0));
    assert_eq!(times(whole(2), sex(1, 30)), sex(3, 0));
    assert_eq!(times(sex(0, 20), whole(3)), sex(1, 0));
    assert_eq!(times(sex(0, 1), whole(59)), sex(0, 59));
    assert_eq!(times(sex(1, 30), whole(-1)), sex(-2, 30));
    assert_eq!(times(sex(1, 30), whole(0)), sex(0, 0));
    assert_eq!(over(sex(3, 0), whole(2)), sex(1, 30));
    assert_eq!(over(sex(1, 0), whole(3)), sex(0, 20));
    assert_eq!(over(whole(3), sex(1, 30)), sex(2, 0));
    assert_eq!(over(whole(1), sex(0, 20)), sex(3, 0));
    assert_eq!(over(whole(1), sex(3, 0)), sex(0, 20));
}

#[test]
fn sexagesimal_quotients_round_to_the_nearest_sixtieth() {
    assert_eq!(over(sex(1, 0), whole(7)), sex(0, 9));
    assert_eq!(over(sex(1, 30), whole(4)), sex(0, 23));
    assert_eq!(over(sex(0, 1), whole(2)), sex(0, 1));
    assert_eq!(over(sex(0, 1), whole(3)), sex(0, 0));
    assert_eq!(over(sex(0, 59), whole(-2)), sex(-1, 31));
    assert_eq!(over(sex(-1, 59), whole(2)), sex(0, 0));
    assert_eq!(over(sex(-1, 0), whole(7)), sex(-1, 51));
    assert_eq!(over(whole(2), sex(0, 7)), sex(17, 9));
    assert_eq!(over(whole(-1), sex(0, 7)), sex(-9, 26));
    assert_eq!(over(sex(1, 59), whole(1)), sex(1, 59));
    assert_eq!(over(sex(119, 59), whole(120)), sex(1, 0));
}

#[test]
fn two_sexagesimal_numbers_multiply_and_divide_to_a_double() {
    assert_eq!(times(sex(1, 30), sex(1, 30)), float(2.25));
    assert_eq!(over(sex(3, 0), sex(1, 30)), float(2.0));
    assert_eq!(times(sex(0, 20), sex(3, 0)), float((20.0 / 60.0) * 3.0));
}

#[test]
fn sexagesimal_results_are_held_to_64_bits_of_whole_units() {
    let top = Value::Sexagesimal(SexagesimalNum::new(i64::MAX, 59).unwrap());
    let bottom = Value::Sexagesimal(SexagesimalNum::new(i64::MIN, 0).unwrap());
    assert_eq!(plus(top, sex(0, 1)), sex(i64::MAX, 0));
    assert_eq!(plus(top, whole(5)), sex(i64::MAX, 0));
    assert_eq!(minus(bottom, sex(0, 1)), sex(i64::MIN, 0));
    assert_eq!(times(top, whole(i64::MAX)), sex(i64::MAX, 0));
    assert_eq!(times(top, whole(i64::MIN)), sex(i64::MIN, 0));
    assert_eq!(times(bottom, whole(i64::MIN)), sex(i64::MAX, 0));
    assert_eq!(times(whole(2), bottom), sex(i64::MIN, 0));
    assert_eq!(negate(bottom), sex(i64::MAX, 0));
    assert_eq!(negate(top), sex(i64::MIN, 1));
    assert_eq!(over(whole(i64::MAX), sex(0, 1)), sex(i64::MAX, 0));
    assert_eq!(over(whole(i64::MIN), sex(0, 1)), sex(i64::MIN, 0));
    assert_eq!(over(top, whole(1)), top);
}

#[test]
fn negating_a_sexagesimal_number() {
    assert_eq!(negate(sex(1, 30)), sex(-2, 30));
    assert_eq!(negate(sex(-2, 30)), sex(1, 30));
    assert_eq!(negate(sex(2, 0)), sex(-2, 0));
    assert_eq!(negate(sex(0, 0)), sex(0, 0));
    assert_eq!(negate(sex(0, 1)), sex(-1, 59));
}

#[test]
fn negating_twice_gives_the_number_back() {
    for i in [i64::MIN + 1, -100, -1, 0, 1, 2, 77, i64::MAX] {
        for f in 0..60 {
            assert_eq!(negate(negate(sex(i, f))), sex(i, f));
        }
    }
    for f in 1..60 {
        assert_eq!(negate(negate(sex(i64::MIN, f))), sex(i64::MIN, f));
    }
}

#[test]
fn division_by_zero_whatever_the_kinds() {
    let zeros = [whole(0), float(0.0), float(-0.0), sex(0, 0)];
    let dividends = [whole(5), whole(0), float(1.0), float(f64::NAN), sex(1, 30), sex(0, 0)];
    for zero in zeros {
        for dividend in dividends {
            let r = Interpreter::new().divide_values(&dividend, &zero);
            assert_eq!(r, Err(RuntimeError::DivisionByZero));
            assert_eq!(apply(Operator::Divide, dividend, zero), Err(RuntimeError::DivisionByZero));
        }
    }
}

#[test]
fn a_sexagesimal_divisor_is_zero_where_its_sixtieths_cancel() {
    let cancels = Value::Sexagesimal(SexagesimalNum {
        integer_part: -1,
        fractional_part: 60,
        has_fraction: true,
    });
    assert_eq!(
        Interpreter::new().divide_values(&whole(5), &cancels),
        Err(RuntimeError::DivisionByZero)
    );
}

#[test]
fn only_division_fails_on_a_zero() {
    for zero in [whole(0), float(0.0), sex(0, 0)] {
        assert!(apply(Operator::Plus, whole(1), zero).is_ok());
        assert!(apply(Operator::Minus, whole(1), zero).is_ok());
        assert!(apply(Operator::Multiply, whole(1), zero).is_ok());
        assert!(apply(Operator::Divide, zero, whole(1)).is_ok());
    }
    assert_eq!(over(float(1.0), float(5e-324)), float(f64::INFINITY));
}

#[test]
fn kinds_of_results() {
    let kind = |v: Value| match v {
        Value::Integer(_) => 'i',
        Value::Float(_) => 'f',
        Value::Sexagesimal(_) => 's',
    };
    let operands = [whole(7), float(7.5), sex(7, 30)];
    let expected = [
        (Operator::Plus, ["ifs", "fff", "sfs"]),
        (Operator::Minus, ["ifs", "fff", "sfs"]),
        (Operator::Multiply, ["ifs", "fff", "sff"]),
        (Operator::Divide, ["ifs", "fff", "sff"]),
    ];
    for (op, rows) in expected {
        for (l, row) in rows.iter().enumerate() {
            for (r, want) in row.chars().enumerate() {
                let got = kind(apply(op, operands[l], operands[r]).unwrap());
                assert_eq!(got, want, "{:?} {:?} {:?}", operands[l], op, operands[r]);
            }
        }
    }
}

#[test]
fn binary_operators_dispatch() {
    assert_eq!(apply(Operator::Plus, whole(6), whole(3)), Ok(whole(9)));
    assert_eq!(apply(Operator::Minus, whole(6), whole(3)), Ok(whole(3)));
    assert_eq!(apply(Operator::Multiply, whole(6), whole(3)), Ok(whole(18)));
    assert_eq!(apply(Operator::Divide, whole(6), whole(3)), Ok(whole(2)));
}

#[test]
fn unary_operators() {
    let i = Interpreter::new();
    assert_eq!(i.eval_unary_operation(&Operator::Plus, &sex(1, 30)), Ok(sex(1, 30)));
    assert_eq!(i.eval_unary_operation(&Operator::Plus, &float(-2.5)), Ok(float(-2.5)));
    assert_eq!(i.eval_unary_operation(&Operator::Minus, &whole(3)), Ok(whole(-3)));
    assert_eq!(
        i.eval_unary_operation(&Operator::Multiply, &whole(3)),
        Err(RuntimeError::InvalidOperator("Cannot apply * to a single operand".to_string()))
    );
    assert_eq!(
        i.eval_unary_operation(&Operator::Divide, &whole(3)),
        Err(RuntimeError::InvalidOperator("Cannot apply / to a single operand".to_string()))
    );
}
