use quadratic_inequality::error::Error;
use quadratic_inequality::types::{Monomial, Number, Quadratic, QuadraticInequality, Sign};

/// The roots `(−b − √d)/(2a)` and `(−b + √d)/(2a)` as 32-bit floats.
fn float_roots(q: &Quadratic) -> (f32, f32) {
    let d = q.get_d();
    let solution1 = ((-q.b) as f32 - (d as f32).sqrt()) / (2 * q.a) as f32;
    let solution2 = ((-q.b) as f32 + (d as f32).sqrt()) / (2 * q.a) as f32;
    (solution1, solution2)
}

fn solution_of(inequality: &QuadraticInequality) -> String {
    let (minus, plus) = float_roots(&inequality.quadratic);
    inequality.get_solution(&format!("{}", minus), &format!("{}", plus))
}

#[test]
fn new_quadratic() {
    assert_eq!(
        Quadratic::from_monomials(vec![
            Monomial {
                coefficient: Number(1),
                character: Some("x"),
                degree: Number(2)
            },
            Monomial {
                coefficient: Number(5),
                character: Some("x"),
                degree: Number(1)
            },
            Monomial {
                coefficient: Number(4),
                character: None,
                degree: Number(1)
            },
            Monomial {
                coefficient: Number(3),
                character: Some("x"),
                degree: Number(1)
            },
        ]),
        Ok(Quadratic {
            character: "x".to_string(),
            a: 1,
            b: 8,
            c: 4,
        })
    );
}

#[test]
fn new_quadratic_2() {
    assert_eq!(
        Quadratic::from_monomials(vec![
            Monomial {
                coefficient: Number(1),
                character: Some("x"),
                degree: Number(2)
            },
            Monomial {
                coefficient: Number(5),
                character: Some("x"),
                degree: Number(1)
            },
            Monomial {
                coefficient: Number(4),
                character: None,
                degree: Number(1)
            },
        ]),
        Ok(Quadratic {
            character: "x".to_string(),
            a: 1,
            b: 5,
            c: 4,
        })
    );
}

#[test]
fn new_quadratic_wrong_character() {
    assert_eq!(
        Quadratic::from_monomials(vec![
            Monomial {
                coefficient: Number(1),
                character: Some("x"),
                degree: Number(2),
            },
            Monomial {
                coefficient: Number(5),
                character: Some("y"),
                degree: Number(1),
            },
            Monomial {
                coefficient: Number(4),
                character: None,
                degree: Number(0),
            },
        ]),
        Err(Error::InvalidCharacter {
            expected: "x".to_string(),
            found: "y".to_string()
        })
    );
}

#[test]
fn get_solution_of_quadratic() {
    assert_eq!(
        float_roots(&Quadratic {
            character: "x".to_string(),
            a: 1,
            b: 5,
            c: 4,
        }),
        (-4.0, -1.0)
    );
}

#[test]
fn new_quadratic_inequality() {
    assert_eq!(
        QuadraticInequality::from_expr((
            Quadratic {
                character: "x".to_string(),
                a: 1,
                b: 5,
                c: 2,
            },
            Sign::Lt,
            Quadratic {
                character: "x".to_string(),
                a: -1,
                b: 0,
                c: -2,
            }
        )),
        QuadraticInequality {
            quadratic: Quadratic {
                character: "x".to_string(),
                a: 2,
                b: 5,
                c: 4,
            },
            sign: Sign::Lt,
        }
    );
}

#[test]
fn add_quadratic() {
    let left = Quadratic {
        character: "x".to_string(),
        a: 1,
        b: 3,
        c: 2,
    };

    let right = Quadratic {
        character: "x".to_string(),
        a: 3,
        b: 1,
        c: -3,
    };
    let result = Quadratic {
        character: "x".to_string(),
        a: 4,
        b: 4,
        c: -1,
    };

    assert_eq!(left + right, result);
}

#[test]
fn get_solution_of_quadratic_inequality() {
    assert_eq!(
        solution_of(&QuadraticInequality {
            quadratic: Quadratic {
                character: "x".to_string(),
                a: 1,
                b: 5,
                c: 4,
            },
            sign: Sign::Lt,
        }),
        "-4 < x < -1".to_string()
    );
}

#[test]
fn get_solution_of_quadratic_inequality_a_lt_0() {
    assert_eq!(
        solution_of(&QuadraticInequality {
            quadratic: Quadratic {
                character: "x".to_string(),
                a: -1,
                b: 5,
                c: -4,
            },
            sign: Sign::Lt,
        }),
        "x < 1 OR x > 4".to_string()
    );
}

#[test]
fn get_special_solutions() {
    assert_eq!(
        solution_of(&QuadraticInequality {
            quadratic: Quadratic {
                character: "x".to_string(),
                a: 1,
                b: 4,
                c: 4,
            },
            sign: Sign::Lte,
        }),
        "x = -2".to_string()
    );
    assert_eq!(
        solution_of(&QuadraticInequality {
            quadratic: Quadratic {
                character: "x".to_string(),
                a: 1,
                b: 4,
                c: 4,
            },
            sign: Sign::Gte,
        }),
        "all real numbers".to_string()
    );
    assert_eq!(
        solution_of(&QuadraticInequality {
            quadratic: Quadratic {
                character: "x".to_string(),
                a: 1,
                b: 4,
                c: 5,
            },
            sign: Sign::Lt,
        }),
        "no solution".to_string()
    );
    assert_eq!(
        solution_of(&QuadraticInequality {
            quadratic: Quadratic {
                character: "x".to_string(),
                a: 1,
                b: 4,
                c: 5,
            },
            sign: Sign::Gt,
        }),
        "all real numbers".to_string()
    );
    assert_eq!(
        solution_of(&QuadraticInequality {
            quadratic: Quadratic {
                character: "x".to_string(),
                a: 1,
                b: 4,
                c: 5,
            },
            sign: Sign::Lte,
        }),
        "no solution".to_string()
    );
}

#[test]
fn number_from_literal() {
    assert_eq!(Number::new_with_default(Some("12"), 1), Number::new(12));
    assert_eq!(Number::new_with_default(Some("0"), 1), Number::new(0));
    assert_eq!(Number::new_with_default(Some("007"), 1), Number::new(7));
    assert_eq!(Number::new_with_default(Some("-7"), 1), Number::new(-7));
    assert_eq!(Number::new_with_default(Some("+7"), 1), Number::new(7));
    assert_eq!(Number::new_with_default(Some("-0"), 5), Number::new(0));
    assert_eq!(
        Number::new_with_default(Some("2147483647"), 1),
        Number::new(i32::MAX)
    );
    assert_eq!(
        Number::new_with_default(Some("-2147483648"), 1),
        Number::new(i32::MIN)
    );
}

#[test]
fn number_from_default() {
    assert_eq!(Number::new_with_default(None, 1), Number::new(1));
    assert_eq!(Number::new_with_default(None, -3), Number::new(-3));
    assert_eq!(Number::new_with_default(Some(""), 4), Number::new(4));
    assert_eq!(Number::new_with_default(Some("+"), 4), Number::new(4));
    assert_eq!(Number::new_with_default(Some("-"), 4), Number::new(-4));
    assert_eq!(Number::new_with_default(Some("-"), -4), Number::new(4));
    assert_eq!(Number::new_with_default(Some("-x"), 1), Number::new(-1));
    assert_eq!(Number::new_with_default(Some("x"), 1), Number::new(1));
    assert_eq!(Number::new_with_default(Some("1x"), 9), Number::new(9));
    assert_eq!(Number::new_with_default(Some("--1"), 9), Number::new(-9));
    assert_eq!(Number::new_with_default(Some(" 1"), 9), Number::new(9));
    assert_eq!(Number::new_with_default(Some("١"), 9), Number::new(9));
    assert_eq!(Number::new_with_default(Some("2147483648"), 9), Number::new(9));
    assert_eq!(Number::new_with_default(Some("-2147483649"), 9), Number::new(-9));
    assert_eq!(
        Number::new_with_default(Some("99999999999999999999999"), 9),
        Number::new(9)
    );
    assert_eq!(Number::new_with_default(Some("x"), i32::MIN), Number::new(i32::MIN));
}

#[test]
fn number_reads_literals_as_std_does() {
    for text in [
        "", "+", "-", "0", "-0", "+0", "12", "-12", "+12", "0012", "1 2", "12 ", " 12", "1_2",
        "--1", "+-1", "-+1", "2147483647", "2147483648", "-2147483648", "-2147483649",
        "00000000000000000001", "x", "1x", "１２",
    ] {
        let expected = match text.parse::<i32>() {
            Ok(value) => value,
            Err(_) => 77,
        };
        if !text.starts_with('-') || text.parse::<i32>().is_ok() {
            assert_eq!(
                Number::new_with_default(Some(text), 77),
                Number::new(expected),
                "on {:?}",
                text
            );
        } else {
            assert_eq!(
                Number::new_with_default(Some(text), 77),
                Number::new(-77),
                "on {:?}",
                text
            );
        }
    }
}

#[test]
fn number_takes_a_sign() {
    let mut n = Number::new(5);
    n.set_sign("-");
    assert_eq!(n, Number::new(-5));
    n.set_sign("-");
    assert_eq!(n, Number::new(-5));
    n.set_sign("+");
    assert_eq!(n, Number::new(5));
    let mut m = Number::new(-8);
    m.set_sign("");
    assert_eq!(m, Number::new(8));
    let mut k = Number::new(-8);
    k.set_sign("--");
    assert_eq!(k, Number::new(8));
    let mut zero = Number::new(0);
    zero.set_sign("-");
    assert_eq!(zero, Number::new(0));
}

#[test]
fn relation_from_token() {
    assert_eq!(Sign::new("<"), Ok(Sign::Lt));
    assert_eq!(Sign::new("<="), Ok(Sign::Lte));
    assert_eq!(Sign::new("≤"), Ok(Sign::Lte));
    assert_eq!(Sign::new(">"), Ok(Sign::Gt));
    assert_eq!(Sign::new(">="), Ok(Sign::Gte));
    assert_eq!(Sign::new("≥"), Ok(Sign::Gte));
    assert_eq!(Sign::new("="), Err(Error::InvalidIneqSign("=".to_string())));
    assert_eq!(Sign::new("=="), Err(Error::InvalidIneqSign("==".to_string())));
    assert_eq!(Sign::new("=<"), Err(Error::InvalidIneqSign("=<".to_string())));
    assert_eq!(Sign::new(""), Err(Error::InvalidIneqSign(String::new())));
    assert_eq!(Sign::new("<=0"), Err(Error::InvalidIneqSign("<=0".to_string())));
    assert_eq!(Sign::new("≤="), Err(Error::InvalidIneqSign("≤=".to_string())));
}

#[test]
fn relation_reversed_twice() {
    assert_eq!(Sign::Lt.reverse(), Sign::Gt);
    assert_eq!(Sign::Lte.reverse(), Sign::Gte);
    assert_eq!(Sign::Gt.reverse(), Sign::Lt);
    assert_eq!(Sign::Gte.reverse(), Sign::Lte);
    for sign in [Sign::Lt, Sign::Lte, Sign::Gt, Sign::Gte] {
        assert_eq!(sign.reverse().reverse(), sign);
    }
}

#[test]
fn quadratic_reversed_twice() {
    let mut q = Quadratic::new("x".to_string(), 1, -5, 0);
    q.reverse();
    assert_eq!(q, Quadratic::new("x".to_string(), -1, 5, 0));
    q.reverse();
    assert_eq!(q, Quadratic::new("x".to_string(), 1, -5, 0));
    let mut wide = Quadratic::new("t".to_string(), i32::MAX, -i32::MAX, 7);
    wide.reverse();
    assert_eq!(wide, Quadratic::new("t".to_string(), -i32::MAX, i32::MAX, -7));
}

#[test]
fn discriminant() {
    assert_eq!(Quadratic::new("x".to_string(), 1, 5, 4).get_d(), 9);
    assert_eq!(Quadratic::new("x".to_string(), 1, 4, 4).get_d(), 0);
    assert_eq!(Quadratic::new("x".to_string(), 1, 4, 5).get_d(), -4);
    assert_eq!(Quadratic::new("x".to_string(), -2, 3, 7).get_d(), 65);
    assert_eq!(Quadratic::new("x".to_string(), 0, -3, 7).get_d(), 9);
    assert_eq!(Quadratic::new("x".to_string(), 1, 5, 4).discriminant(), 9);
    assert_eq!(
        Quadratic::new("x".to_string(), i32::MIN, i32::MIN, i32::MIN).discriminant(),
        -3 * (1i128 << 62)
    );
    assert_eq!(
        Quadratic::new("x".to_string(), i32::MIN, i32::MIN, i32::MAX).discriminant(),
        (1i128 << 62) + 4 * (1i128 << 31) * ((1i128 << 31) - 1)
    );
}

#[test]
fn terms_in_any_order() {
    let x2 = || Monomial::new(Number::new(1), Some("x"), Number::new(2));
    let x4 = || Monomial::new(Number::new(4), Some("x"), Number::new(1));
    let x7 = || Monomial::new(Number::new(7), Some("x"), Number::new(1));
    let c5 = || Monomial::new(Number::new(5), None, Number::new(1));
    let expected = Ok(Quadratic::new("x".to_string(), 1, 11, 5));
    assert_eq!(Quadratic::from_monomials(vec![x2(), x4(), c5(), x7()]), expected);
    assert_eq!(Quadratic::from_monomials(vec![x2(), x7(), x4(), c5()]), expected);
    assert_eq!(Quadratic::from_monomials(vec![c5(), x7(), x4(), x2()]), expected);
    assert_eq!(Quadratic::from_monomials(vec![x7(), c5(), x2(), x4()]), expected);
}

#[test]
fn two_variables_in_any_order() {
    let x = || Monomial::new(Number::new(1), Some("x"), Number::new(2));
    let y = || Monomial::new(Number::new(5), Some("y"), Number::new(1));
    let c = || Monomial::new(Number::new(4), None, Number::new(1));
    let mismatch = |expected: &str, found: &str| {
        Err(Error::InvalidCharacter {
            expected: expected.to_string(),
            found: found.to_string(),
        })
    };
    assert_eq!(Quadratic::from_monomials(vec![x(), y(), c()]), mismatch("x", "y"));
    assert_eq!(Quadratic::from_monomials(vec![y(), x(), c()]), mismatch("y", "x"));
    assert_eq!(Quadratic::from_monomials(vec![c(), y(), x()]), mismatch("y", "x"));
    assert_eq!(Quadratic::from_monomials(vec![c(), x(), c(), y()]), mismatch("x", "y"));
    assert_eq!(
        Quadratic::from_monomials(vec![
            Monomial::new(Number::new(1), Some("x"), Number::new(1)),
            Monomial::new(Number::new(1), Some("xy"), Number::new(1)),
        ]),
        mismatch("x", "xy")
    );
}

#[test]
fn terms_without_a_place() {
    let term = |variable, degree| Monomial::new(Number::new(1), variable, Number::new(degree));
    assert_eq!(
        Quadratic::from_monomials(vec![term(Some("x"), 3)]),
        Err(Error::InvalidQuadratic)
    );
    assert_eq!(
        Quadratic::from_monomials(vec![term(Some("x"), 0)]),
        Err(Error::InvalidQuadratic)
    );
    assert_eq!(
        Quadratic::from_monomials(vec![term(Some("x"), -1)]),
        Err(Error::InvalidQuadratic)
    );
    assert_eq!(
        Quadratic::from_monomials(vec![term(None, 0)]),
        Err(Error::InvalidQuadratic)
    );
    assert_eq!(
        Quadratic::from_monomials(vec![term(None, 2)]),
        Err(Error::InvalidQuadratic)
    );
    assert_eq!(
        Quadratic::from_monomials(vec![term(Some("x"), 2), term(None, 1), term(Some("x"), 4)]),
        Err(Error::InvalidQuadratic)
    );
    assert_eq!(
        Quadratic::from_monomials(vec![]),
        Ok(Quadratic::new(String::new(), 0, 0, 0))
    );
}

#[test]
fn sums_that_do_not_fit() {
    let big = |k| Monomial::new(Number::new(k), Some("x"), Number::new(2));
    assert_eq!(
        Quadratic::from_monomials(vec![big(i32::MAX), big(1)]),
        Err(Error::Overflow)
    );
    assert_eq!(
        Quadratic::from_monomials(vec![big(i32::MIN), big(-1)]),
        Err(Error::Overflow)
    );
    assert_eq!(
        Quadratic::from_monomials(vec![big(i32::MAX), big(1), big(-1)]),
        Ok(Quadratic::new("x".to_string(), i32::MAX, 0, 0))
    );
    assert_eq!(
        Quadratic::from_monomials(vec![big(i32::MAX), big(i32::MAX), big(i32::MIN), big(i32::MIN)]),
        Ok(Quadratic::new("x".to_string(), -2, 0, 0))
    );
}

#[test]
fn sides_that_can_be_moved() {
    let q = |a, b, c| Quadratic::new("x".to_string(), a, b, c);
    assert!(QuadraticInequality::can_move(&q(1, 5, 2), &q(-1, 0, -2)));
    assert!(QuadraticInequality::can_move(&q(0, 0, 0), &q(i32::MAX, 0, 0)));
    assert!(!QuadraticInequality::can_move(&q(0, 0, 0), &q(i32::MIN, 0, 0)));
    assert!(!QuadraticInequality::can_move(&q(-1, 0, 0), &q(0, 0, i32::MIN)));
    assert!(!QuadraticInequality::can_move(&q(0, -2, 0), &q(0, i32::MAX, 0)));
    assert!(!QuadraticInequality::can_move(&q(0, 0, i32::MAX), &q(0, 0, -1)));
    assert!(QuadraticInequality::can_move(&q(0, 0, i32::MIN), &q(0, 0, 0)));
}

#[test]
fn right_side_keeps_the_left_name() {
    assert_eq!(
        QuadraticInequality::from_expr((
            Quadratic::new("x".to_string(), 1, 0, 0),
            Sign::Gte,
            Quadratic::new("y".to_string(), 3, -2, 1),
        )),
        QuadraticInequality::new(Quadratic::new("x".to_string(), -2, 2, -1), Sign::Gte)
    );
}

#[test]
fn solution_in_words() {
    let words = |a, b, c, sign| {
        QuadraticInequality::new(Quadratic::new("t".to_string(), a, b, c), sign)
            .get_solution("M", "P")
    };
    assert_eq!(words(1, 0, -1, Sign::Lt), "M < t < P");
    assert_eq!(words(1, 0, -1, Sign::Lte), "M ≤ t ≤ P");
    assert_eq!(words(1, 0, -1, Sign::Gt), "t < M OR t > P");
    assert_eq!(words(1, 0, -1, Sign::Gte), "t ≤ M OR t ≥ P");
    assert_eq!(words(-1, 0, 1, Sign::Gt), "P < t < M");
    assert_eq!(words(-1, 0, 1, Sign::Gte), "P ≤ t ≤ M");
    assert_eq!(words(-1, 0, 1, Sign::Lt), "t < P OR t > M");
    assert_eq!(words(-1, 0, 1, Sign::Lte), "t ≤ P OR t ≥ M");
    assert_eq!(words(1, 2, 1, Sign::Lt), "no solution");
    assert_eq!(words(1, 2, 1, Sign::Lte), "t = M");
    assert_eq!(words(1, 2, 1, Sign::Gt), "all real numbers with t ≠ M");
    assert_eq!(words(1, 2, 1, Sign::Gte), "all real numbers");
    assert_eq!(words(-1, 2, -1, Sign::Gte), "t = P");
    assert_eq!(words(-1, 2, -1, Sign::Lt), "all real numbers with t ≠ P");
    assert_eq!(words(1, 0, 1, Sign::Lt), "no solution");
    assert_eq!(words(1, 0, 1, Sign::Lte), "no solution");
    assert_eq!(words(1, 0, 1, Sign::Gt), "all real numbers");
    assert_eq!(words(1, 0, 1, Sign::Gte), "all real numbers");
    assert_eq!(words(-1, 0, -1, Sign::Lt), "all real numbers");
    assert_eq!(words(-1, 0, -1, Sign::Gt), "no solution");
    assert_eq!(words(0, 3, 1, Sign::Lt), "t < P OR t > M");
    assert_eq!(words(0, 0, 1, Sign::Lte), "all real numbers");
    assert_eq!(words(i32::MAX, i32::MIN, i32::MAX, Sign::Lt), "no solution");
    assert_eq!(words(1, i32::MIN, 1, Sign::Lt), "M < t < P");
    assert_eq!(words(i32::MIN, i32::MIN, i32::MAX, Sign::Lt), "t < P OR t > M");
    assert_eq!(words(46341, 0, -46341, Sign::Gt), "t < M OR t > P");
}

#[test]
fn roots_come_out_in_order() {
    for (a, b, c) in [(1, 5, 4), (-1, 5, -4), (2, 3, -2), (-3, 1, 7), (1, 0, -2), (-5, 0, 1)] {
        let q = Quadratic::new("x".to_string(), a, b, c);
        let (minus, plus) = float_roots(&q);
        let text = QuadraticInequality::new(q, Sign::Lt).get_solution(
            &format!("{}", minus),
            &format!("{}", plus),
        );
        let text = if a > 0 {
            text
        } else {
            QuadraticInequality::new(Quadratic::new("x".to_string(), a, b, c), Sign::Gt)
                .get_solution(&format!("{}", minus), &format!("{}", plus))
        };
        let mut parts = text.split(" < x < ");
        let first: f32 = parts.next().unwrap().parse().unwrap();
        let second: f32 = parts.next().unwrap().parse().unwrap();
        assert!(first <= second, "{}", text);
    }
}
