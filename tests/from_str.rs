use fit_data::param::param_name_at;
use fit_data::{Function, PARAMETERS_AMOUNT};

#[test]
fn function_x() {
    assert_eq!(
        Ok(Function::X),
        Function::from_str("x")
    );
}
#[test]
fn const_() {
    assert_eq!(
        Ok(Function::Const { value: "3.14".to_string() }),
        Function::from_str("3.14")
    );
}
#[test]
fn zero() {
    assert_eq!(
        Ok(Function::Zero),
        Function::from_str("0")
    );
}
#[test]
fn one() {
    assert_eq!(
        Ok(Function::One),
        Function::from_str("1")
    );
}
#[test]
fn param() {
    for i in 0..PARAMETERS_AMOUNT {
        let letter = param_name_at(i);
        assert_eq!(
            Ok(Function::Param { name: letter }),
            Function::from_str(&letter.to_string())
        );
    }
}
#[test]
fn neg() {
    assert_eq!(
        Ok(Function::Neg { value: Box::new(Function::X) }),
        Function::from_str("-x")
    );
}
#[test]
fn exp() {
    assert_eq!(
        Ok(Function::Exp { value: Box::new(Function::X) }),
        Function::from_str("exp(x)")
    );
}
#[test]
fn ln() {
    assert_eq!(
        Ok(Function::Ln { value: Box::new(Function::X) }),
        Function::from_str("ln(x)")
    );
}
#[test]
fn sqrt() {
    assert_eq!(
        Ok(Function::Sqrt { value: Box::new(Function::X) }),
        Function::from_str("sqrt(x)")
    );
}
#[test]
fn sq() {
    assert_eq!(
        Ok(Function::Sq { value: Box::new(Function::X) }),
        Function::from_str("x^2")
    );
}
#[test]
fn sq_with_brackets() {
    assert_eq!(
        Ok(Function::Sq { value: Box::new(Function::X) }),
        Function::from_str("(x)^2")
    );
}
#[test]
fn sin() {
    assert_eq!(
        Ok(Function::Sin { value: Box::new(Function::X) }),
        Function::from_str("sin(x)")
    );
}
#[test]
fn cos() {
    assert_eq!(
        Ok(Function::Cos { value: Box::new(Function::X) }),
        Function::from_str("cos(x)")
    );
}
#[test]
fn tan() {
    assert_eq!(
        Ok(Function::Tan { value: Box::new(Function::X) }),
        Function::from_str("tan(x)")
    );
}
#[test]
fn add() {
    assert_eq!(
        Ok(Function::Add {
            lhs: Box::new(Function::X),
            rhs: Box::new(Function::Const { value: "3.14".to_string() })
        }),
        Function::from_str("x + 3.14")
    );
}
#[test]
fn sub() {
    assert_eq!(
        Ok(Function::Sub {
            lhs: Box::new(Function::X),
            rhs: Box::new(Function::Const { value: "3.14".to_string() })
        }),
        Function::from_str("x - 3.14")
    );
}
#[test]
fn mul() {
    assert_eq!(
        Ok(Function::Mul {
            lhs: Box::new(Function::X),
            rhs: Box::new(Function::Const { value: "3.14".to_string() })
        }),
        Function::from_str("x * 3.14")
    );
}
#[test]
fn div() {
    assert_eq!(
        Ok(Function::Div {
            lhs: Box::new(Function::X),
            rhs: Box::new(Function::Const { value: "3.14".to_string() })
        }),
        Function::from_str("x / 3.14")
    );
}
#[test]
fn pow() {
    assert_eq!(
        Ok(Function::Pow {
            lhs: Box::new(Function::X),
            rhs: Box::new(Function::Const { value: "3.14".to_string() })
        }),
        Function::from_str("x ^ 3.14")
    );
}
#[test]
fn operations_neg_x_sq() {
    assert_eq!(
        Ok(Function::Neg {
            value: Box::new(Function::Sq {
                value: Box::new(Function::X)
            })
        }),
        Function::from_str("-x^2")
    );
}
#[test]
fn operations_neg_lb_x_rb_sq() {
    assert_eq!(
        Ok(Function::Neg {
            value: Box::new(Function::Sq {
                value: Box::new(Function::X)
            })
        }),
        Function::from_str("-(x)^2")
    );
}
#[test]
fn operations_lb_neg_x_rb_sq() {
    assert_eq!(
        Ok(Function::Sq {
            value: Box::new(Function::Neg {
                value: Box::new(Function::X)
            })
        }),
        Function::from_str("(-x)^2")
    );
}
#[test]
fn operations_neg_a_add_b() {
    assert_eq!(
        Ok(Function::Add {
            lhs: Box::new(Function::Neg {
                value: Box::new(Function::Param { name: 'a' })
            }),
            rhs: Box::new(Function::Param { name: 'b' })
        }),
        Function::from_str("-a+b")
    );
}
#[test]
fn operations_neg_sin_a_add_cos_b() {
    assert_eq!(
        Ok(Function::Add {
            lhs: Box::new(Function::Neg {
                value: Box::new(Function::Sin {
                    value: Box::new(Function::Param { name: 'a' })
                })
            }),
            rhs: Box::new(Function::Cos {
                value: Box::new(Function::Param { name: 'b' })
            })
        }),
        Function::from_str("-sin(a)+cos(b)")
    );
}
#[test]
fn operations_neg_a_mul_b() {
    assert_eq!(
        Ok(Function::Neg {
            value: Box::new(Function::Mul {
                lhs: Box::new(Function::Param { name: 'a' }),
                rhs: Box::new(Function::Param { name: 'b' })
            })
        }),
        Function::from_str("-a*b")
    );
}
#[test]
fn operations_order_add_mul() {
    assert_eq!(
        Ok(Function::Add {
            lhs: Box::new(Function::Const { value: "145".to_string() }),
            rhs: Box::new(Function::Mul {
                lhs: Box::new(Function::Const { value: "42".to_string() }),
                rhs: Box::new(Function::Const { value: "3.14".to_string() })
            })
        }),
        Function::from_str("145 + 42 * 3.14")
    );
}
#[test]
fn operations_order_mul_add() {
    assert_eq!(
        Ok(Function::Add {
            lhs: Box::new(Function::Mul {
                lhs: Box::new(Function::Const { value: "145".to_string() }),
                rhs: Box::new(Function::Const { value: "42".to_string() })
            }),
            rhs: Box::new(Function::Const { value: "3.14".to_string() })
        }),
        Function::from_str("145 * 42 + 3.14")
    );
}
#[test]
fn operations_order_lb_add_rb_mul() {
    assert_eq!(
        Ok(Function::Mul {
            lhs: Box::new(Function::Add {
                lhs: Box::new(Function::Const { value: "145".to_string() }),
                rhs: Box::new(Function::Const { value: "42".to_string() })
            }),
            rhs: Box::new(Function::Const { value: "3.14".to_string() })
        }),
        Function::from_str("(145 + 42) * 3.14")
    );
}
#[test]
fn operations_order_add_lb_mul_rb() {
    assert_eq!(
        Ok(Function::Add {
            lhs: Box::new(Function::Const { value: "145".to_string() }),
            rhs: Box::new(Function::Mul {
                lhs: Box::new(Function::Const { value: "42".to_string() }),
                rhs: Box::new(Function::Const { value: "3.14".to_string() })
            })
        }),
        Function::from_str("145 + (42 * 3.14)")
    );
}
#[test]
fn operations_order_lb_mul_rb_add() {
    assert_eq!(
        Ok(Function::Add {
            lhs: Box::new(Function::Mul {
                lhs: Box::new(Function::Const { value: "145".to_string() }),
                rhs: Box::new(Function::Const { value: "42".to_string() })
            }),
            rhs: Box::new(Function::Const { value: "3.14".to_string() })
        }),
        Function::from_str("(145 * 42) + 3.14")
    );
}
#[test]
fn operations_order_mul_lb_add_rb() {
    assert_eq!(
        Ok(Function::Mul {
            lhs: Box::new(Function::Const { value: "145".to_string() }),
            rhs: Box::new(Function::Add {
                lhs: Box::new(Function::Const { value: "42".to_string() }),
                rhs: Box::new(Function::Const { value: "3.14".to_string() })
            })
        }),
        Function::from_str("145 * (42 + 3.14)")
    );
}
#[test]
fn operations_order_sub_sub() {
    assert_eq!(
        Ok(Function::Sub {
            lhs: Box::new(Function::Sub {
                lhs: Box::new(Function::Const { value: "145".to_string() }),
                rhs: Box::new(Function::Const { value: "42".to_string() })
            }),
            rhs: Box::new(Function::Const { value: "3.14".to_string() })
        }),
        Function::from_str("145 - 42 - 3.14")
    );
}
#[test]
fn operations_order_add_mul_pow() {
    assert_eq!(
        Ok(Function::Add {
            lhs: Box::new(Function::Const { value: "145".to_string() }),
            rhs: Box::new(Function::Mul {
                lhs: Box::new(Function::Const { value: "42".to_string() }),
                rhs: Box::new(Function::Pow {
                    lhs: Box::new(Function::Const { value: "3.14".to_string() }),
                    rhs: Box::new(Function::Const { value: "2.71".to_string() })
                })
            }),
        }),
        Function::from_str("145 + 42 * 3.14 ^ 2.71")
    );
}
#[test]
fn operations_order_add_pow_mul() {
    assert_eq!(
        Ok(Function::Add {
            lhs: Box::new(Function::Const { value: "145".to_string() }),
            rhs: Box::new(Function::Mul {
                lhs: Box::new(Function::Pow {
                    lhs: Box::new(Function::Const { value: "42".to_string() }),
                    rhs: Box::new(Function::Const { value: "3.14".to_string() })
                }),
                rhs: Box::new(Function::Const { value: "2.71".to_string() })
            }),
        }),
        Function::from_str("145 + 42 ^ 3.14 * 2.71")
    );
}
#[test]
fn operations_order_mul_add_pow() {
    assert_eq!(
        Ok(Function::Add {
            lhs: Box::new(Function::Mul {
                lhs: Box::new(Function::Const { value: "145".to_string() }),
                rhs: Box::new(Function::Const { value: "42".to_string() })
            }),
            rhs: Box::new(Function::Pow {
                lhs: Box::new(Function::Const { value: "3.14".to_string() }),
                rhs: Box::new(Function::Const { value: "2.71".to_string() })
            })
        }),
        Function::from_str("145 * 42 + 3.14 ^ 2.71")
    );
}
#[test]
fn operations_order_mul_pow_add() {
    assert_eq!(
        Ok(Function::Add {
            lhs: Box::new(Function::Mul {
                lhs: Box::new(Function::Const { value: "145".to_string() }),
                rhs: Box::new(Function::Pow {
                    lhs: Box::new(Function::Const { value: "42".to_string() }),
                    rhs: Box::new(Function::Const { value: "3.14".to_string() })
                })
            }),
            rhs: Box::new(Function::Const { value: "2.71".to_string() }),
        }),
        Function::from_str("145 * 42 ^ 3.14 + 2.71")
    );
}
#[test]
fn operations_order_pow_add_mul() {
    assert_eq!(
        Ok(Function::Add {
            lhs: Box::new(Function::Pow {
                lhs: Box::new(Function::Const { value: "145".to_string() }),
                rhs: Box::new(Function::Const { value: "42".to_string() })
            }),
            rhs: Box::new(Function::Mul {
                lhs: Box::new(Function::Const { value: "3.14".to_string() }),
                rhs: Box::new(Function::Const { value: "2.71".to_string() })
            })
        }),
        Function::from_str("145 ^ 42 + 3.14 * 2.71")
    );
}
#[test]
fn operations_order_pow_mul_add() {
    assert_eq!(
        Ok(Function::Add {
            lhs: Box::new(Function::Mul {
                lhs: Box::new(Function::Pow {
                    lhs: Box::new(Function::Const { value: "145".to_string() }),
                    rhs: Box::new(Function::Const { value: "42".to_string() })
                }),
                rhs: Box::new(Function::Const { value: "3.14".to_string() })
            }),
            rhs: Box::new(Function::Const { value: "2.71".to_string() })
        }),
        Function::from_str("145 ^ 42 * 3.14 + 2.71")
    );
}
#[test]
fn from_str() {
    assert_eq!(
        Ok(Function::Neg {
            value: Box::new(Function::Sin {
                value: Box::new(Function::X)
            })
        }),
        Function::from_str("-sin(x)")
    );
}
#[test]
fn complex_two_gausses() {
    assert_eq!(
        Ok(Function::Add {
            lhs: Box::new(Function::Param { name: 'h' }),
            rhs: Box::new(Function::Add {
                lhs: Box::new(Function::Mul {
                    lhs: Box::new(Function::Param { name: 'a' }),
                    rhs: Box::new(Function::Exp {
                        value: Box::new(Function::Neg {
                            value: Box::new(Function::Sq {
                                value: Box::new(Function::Div {
                                    lhs: Box::new(Function::Sub {
                                        lhs: Box::new(Function::X),
                                        rhs: Box::new(Function::Param { name: 'm' })
                                    }),
                                    rhs: Box::new(Function::Param { name: 's' })
                                })
                            })
                        })
                    })
                }),
                rhs: Box::new(Function::Mul {
                    lhs: Box::new(Function::Param { name: 'b' }),
                    rhs: Box::new(Function::Exp {
                        value: Box::new(Function::Neg {
                            value: Box::new(Function::Sq {
                                value: Box::new(Function::Div {
                                    lhs: Box::new(Function::Sub {
                                        lhs: Box::new(Function::X),
                                        rhs: Box::new(Function::Param { name: 'n' })
                                    }),
                                    rhs: Box::new(Function::Param { name: 't' })
                                })
                            })
                        })
                    })
                })
            })
        }),
        Function::from_str("h + a*exp(-((x-m)/s)^2) + b*exp(-((x-n)/t)^2)")
    );
}
#[test]
fn function_complex() {
    assert_eq!(
        Ok(Function::Mul {
            lhs: Box::new(Function::Mul {
                lhs: Box::new(Function::One),
                rhs: Box::new(Function::X)
            }),
            rhs: Box::new(Function::Add {
                lhs: Box::new(Function::Div {
                    lhs: Box::new(Function::Param { name: 'c' }),
                    rhs: Box::new(Function::Add {
                        lhs: Box::new(Function::Neg {
                            value: Box::new(Function::Mul {
                                lhs: Box::new(Function::X),
                                rhs: Box::new(Function::Param { name: 't' })
                            })
                        }),
                        rhs: Box::new(Function::Add {
                            lhs: Box::new(Function::Param { name: 'u' }),
                            rhs: Box::new(Function::Sin {
                                value: Box::new(Function::Mul {
                                    lhs: Box::new(Function::Param { name: 'v' }),
                                    rhs: Box::new(Function::X)
                                })
                            })
                        })
                    })
                }),
                rhs: Box::new(Function::Param { name: 'm' })
            })
        }),
        Function::from_str("(1*x) * ((c/(-(x*t)+(u+sin(v*x))))+m)")
    );
}
#[test]
fn complex_2() {
    assert_eq!(
        Ok(Function::Mul {
            lhs: Box::new(Function::Pow {
                lhs: Box::new(Function::Pow {
                    lhs: Box::new(Function::Div {
                        lhs: Box::new(Function::Exp {
                            value: Box::new(Function::X)
                        }),
                        rhs: Box::new(Function::X)
                    }),
                    rhs: Box::new(Function::Param { name: 'w' })
                }),
                rhs: Box::new(Function::Param { name: 'q' })
            }),
            rhs: Box::new(Function::Mul {
                lhs: Box::new(Function::X),
                rhs: Box::new(Function::Param { name: 'v' })
            })
        }),
        Function::from_str("((exp(x) / x)^(w))^(q) * (x * v)")
    );
}
