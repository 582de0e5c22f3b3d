use troll::eval;
use troll::EvalError;

#[test]
fn test_eval_atom() {
    for _x in 0..50 {
        match eval("d6") {
            Ok(v) => match v.as_slice() {
                [n] => assert!(n < &7 && n > &0),
                other => assert_eq!(vec![1], other),
            },
            other => assert_eq!(Ok(vec![]), other),
        };
    }
}

#[test]
fn test_eval_tuple() {
    for _x in 0..50 {
        match eval("3d6") {
            Ok(v) => match v.as_slice() {
                [a, b, c] => {
                    assert!(a < &7 && a > &0);
                    assert!(b < &7 && b > &0);
                    assert!(c < &7 && c > &0);
                },
                other => assert_eq!(vec![1], other),
            },
            other => assert_eq!(Ok(vec![]), other),
        };
    }
}

#[test]
fn test_eval_sum() {
    for _x in 0..50 {
        match eval("sum 3d6") {
            Ok(v) => match v.as_slice() {
                [s] => assert!(s >= &3 && s <= &18),
                other => assert_eq!(vec![1], other),
            },
            other => assert_eq!(Ok(vec![]), other),
        };
    }
}

#[test]
fn eval_literal_yields_its_value() {
    assert_eq!(eval("0"), Ok(vec![0]));
    assert_eq!(eval("123"), Ok(vec![123]));
    assert_eq!(eval("255"), Ok(vec![255]));
}

#[test]
fn eval_single_roll_in_range() {
    for _x in 0..50 {
        let v = eval("d10").unwrap();
        assert_eq!(v.len(), 1);
        assert!(1 <= v[0] && v[0] <= 10);
        let w = eval("1d10").unwrap();
        assert_eq!(w.len(), 1);
        assert!(1 <= w[0] && w[0] <= 10);
    }
}

#[test]
fn eval_dice_count_and_range() {
    for _x in 0..50 {
        let v = eval("5d4").unwrap();
        assert_eq!(v.len(), 5);
        for x in v {
            assert!(1 <= x && x <= 4);
        }
    }
}

#[test]
fn eval_dice_with_whitespace() {
    let v = eval("3 d 6").unwrap();
    assert_eq!(v.len(), 3);
    for x in v {
        assert!(1 <= x && x <= 6);
    }
}

#[test]
fn eval_sum_in_range() {
    for _x in 0..50 {
        let v = eval("sum 2d8").unwrap();
        assert_eq!(v.len(), 1);
        assert!(2 <= v[0] && v[0] <= 16);
    }
}

#[test]
fn eval_zero_sided_die_fails() {
    assert_eq!(eval("d0"), Err(EvalError::InvalidDieSize));
    assert_eq!(eval("1d0"), Err(EvalError::InvalidDieSize));
}

#[test]
fn eval_rejects_oversized_literal() {
    assert_eq!(eval("1234"), Err(EvalError::ParseError));
    assert_eq!(eval("256"), Err(EvalError::ParseError));
}

#[test]
fn eval_rejects_trailing_operator() {
    assert_eq!(eval("3d"), Err(EvalError::ParseError));
}

#[test]
fn eval_rejects_garbage() {
    assert_eq!(eval(""), Err(EvalError::ParseError));
    assert_eq!(eval("abc"), Err(EvalError::ParseError));
    assert_eq!(eval("3d6!"), Err(EvalError::ParseError));
    assert_eq!(eval("3é6"), Err(EvalError::ParseError));
}

#[test]
fn eval_round_trip_thousand_times() {
    for _x in 0..1000 {
        let v = eval("3d6").unwrap();
        assert_eq!(v.len(), 3);
        for x in v {
            assert!(1 <= x && x <= 6);
        }
    }
}

#[test]
fn eval_nested_roll() {
    for _x in 0..50 {
        let v = eval("(1d6) d d6").unwrap();
        assert!(1 <= v.len() && v.len() <= 6);
        for x in v {
            assert!(1 <= x && x <= 6);
        }
    }
}

#[test]
fn eval_parenthesized_roll() {
    let v = eval("(d6)").unwrap();
    assert_eq!(v.len(), 1);
    assert!(1 <= v[0] && v[0] <= 6);
}

#[test]
fn eval_rolls_vary() {
    // A roll source that handed its face count back unchanged would make
    // every d6 come up 6; one hundred dice all showing 6 is (1/6)^100.
    let v = eval("100d6").unwrap();
    assert_eq!(v.len(), 100);
    assert!(v.iter().any(|x| *x != 6));
}

#[test]
fn eval_sum_overflow() {
    // The count is itself a sum of 255 d255 rolls, so around 32000 dice of
    // 255 faces are added: beyond 16 bits except for astronomically
    // unlikely draws.
    let r = eval("sum (sum 255d255) d255");
    assert_eq!(r, Err(EvalError::Overflow));
}
