use fit_data::Function;

/// The value of a tree of numbers, in floating point.
fn value_of(f: &Function) -> f64 {
    match f {
        Function::Const { value } => value.parse::<f64>().unwrap(),
        Function::Zero => 0.0,
        Function::One => 1.0,
        Function::Neg { value } => -value_of(value),
        Function::Exp { value } => value_of(value).exp(),
        Function::Ln { value } => value_of(value).ln(),
        Function::Sqrt { value } => value_of(value).sqrt(),
        Function::Sq { value } => value_of(value).powi(2),
        Function::Sin { value } => value_of(value).sin(),
        Function::Cos { value } => value_of(value).cos(),
        Function::Tan { value } => value_of(value).tan(),
        Function::Add { lhs, rhs } => value_of(lhs) + value_of(rhs),
        Function::Sub { lhs, rhs } => value_of(lhs) - value_of(rhs),
        Function::Mul { lhs, rhs } => value_of(lhs) * value_of(rhs),
        Function::Div { lhs, rhs } => value_of(lhs) / value_of(rhs),
        Function::Pow { lhs, rhs } => value_of(lhs).powf(value_of(rhs)),
        _ => panic!("not a tree of numbers: {:?}", f),
    }
}

/// Folds a node of numbers into the spelling of its value.
fn fold_constants(f: &Function) -> String {
    format!("{}", value_of(f))
}

#[test]
fn neg_neg_x() {
    assert_eq!(
        Function::X,
        Function::Neg {
            value: Box::new(Function::Neg {
                value: Box::new(Function::X)
            })
        }.simplify(&fold_constants)
    );
}
#[test]
fn _4neg_x() {
    assert_eq!(
        Function::X,
        Function::Neg {
            value: Box::new(Function::Neg {
                value: Box::new(Function::Neg {
                    value: Box::new(Function::Neg {
                        value: Box::new(Function::X)
                    })
                })
            })
        }.simplify(&fold_constants)
    );
}
#[test]
fn _6neg_x() {
    assert_eq!(
        Function::X,
        Function::Neg {
            value: Box::new(Function::Neg {
                value: Box::new(Function::Neg {
                    value: Box::new(Function::Neg {
                        value: Box::new(Function::Neg {
                            value: Box::new(Function::Neg {
                                value: Box::new(Function::X)
                            })
                        })
                    })
                })
            })
        }.simplify(&fold_constants)
    );
}
#[test]
fn exp_neg_neg_x() {
    assert_eq!(
        Function::Exp {
            value: Box::new(Function::X)
        },
        Function::Exp {
            value: Box::new(Function::Neg {
                value: Box::new(Function::Neg {
                    value: Box::new(Function::X)
                })
            })
        }.simplify(&fold_constants)
    );
}
#[test]
fn exp_exp_0() {
    assert_eq!(
        Function::Const {
            value: "2.718281828459045".to_string(),
        },
        Function::Exp {
            value: Box::new(Function::Exp {
                value: Box::new(Function::Const { value: "0".to_string() })
            })
        }.simplify(&fold_constants)
    );
}

fn p(name: char) -> Box<Function> {
    Box::new(Function::Param { name })
}

fn c(value: &str) -> Box<Function> {
    Box::new(Function::Const { value: value.to_string() })
}

fn x() -> Box<Function> {
    Box::new(Function::X)
}

fn neg(value: Box<Function>) -> Box<Function> {
    Box::new(Function::Neg { value })
}

fn no_folding(f: &Function) -> String {
    panic!("nothing to fold in {:?}", f)
}

#[test]
fn parameters_absorb_what_is_done_to_them() {
    assert_eq!(Function::Exp { value: p('a') }.simplify(&no_folding), Function::Param { name: 'a' });
    assert_eq!(
        Function::Add { lhs: p('a'), rhs: c("2") }.simplify(&no_folding),
        Function::Param { name: 'a' }
    );
    assert_eq!(
        Function::Pow { lhs: p('a'), rhs: p('b') }.simplify(&no_folding),
        Function::Param { name: 'a' }
    );
    assert_eq!(
        Function::Div { lhs: x(), rhs: p('b') }.simplify(&no_folding),
        Function::Mul { lhs: x(), rhs: p('b') }
    );
}

#[test]
fn numbers_fold() {
    assert_eq!(
        Function::Add { lhs: c("2"), rhs: Box::new(Function::One) }.simplify(&fold_constants),
        Function::Const { value: "3".to_string() }
    );
    assert_eq!(
        Function::Mul { lhs: Box::new(Function::Zero), rhs: c("5") }.simplify(&fold_constants),
        Function::Const { value: "0".to_string() }
    );
    assert_eq!(
        Function::Ln { value: Box::new(Function::Zero) }.simplify(&fold_constants),
        Function::Const { value: "-inf".to_string() }
    );
}

#[test]
fn zero_and_one_rules() {
    assert_eq!(Function::Sub { lhs: x(), rhs: x() }.simplify(&no_folding), Function::Zero);
    assert_eq!(Function::Add { lhs: neg(x()), rhs: x() }.simplify(&no_folding), Function::Zero);
    assert_eq!(
        Function::Mul { lhs: Box::new(Function::Sin { value: x() }), rhs: Box::new(Function::Zero) }
            .simplify(&no_folding),
        Function::Zero
    );
    assert_eq!(Function::Div { lhs: x(), rhs: neg(x()) }.simplify(&no_folding), Function::One);
    assert_eq!(
        Function::Pow { lhs: x(), rhs: Box::new(Function::Zero) }.simplify(&no_folding),
        Function::One
    );
}

#[test]
fn inverse_functions_cancel() {
    assert_eq!(
        Function::Ln { value: Box::new(Function::Exp { value: x() }) }.simplify(&no_folding),
        Function::X
    );
    assert_eq!(
        Function::Sq { value: Box::new(Function::Sqrt { value: x() }) }.simplify(&no_folding),
        Function::X
    );
}

#[test]
fn identities_and_signs() {
    assert_eq!(
        Function::Add { lhs: Box::new(Function::Zero), rhs: x() }.simplify(&no_folding),
        Function::X
    );
    assert_eq!(
        Function::Pow { lhs: x(), rhs: Box::new(Function::One) }.simplify(&no_folding),
        Function::X
    );
    assert_eq!(
        Function::Sub { lhs: Box::new(Function::Zero), rhs: x() }.simplify(&no_folding),
        Function::Neg { value: x() }
    );
    assert_eq!(Function::Sq { value: neg(x()) }.simplify(&no_folding), Function::Sq { value: x() });
}

#[test]
fn one_pass_leaves_deeper_reductions() {
    let f = Function::Sub {
        lhs: Box::new(Function::Sin { value: x() }),
        rhs: Box::new(Function::Sin { value: x() }),
    };
    assert_eq!(f.clone().simplify(&no_folding), f);
}

#[test]
fn exp_exp_zero_literal() {
    assert_eq!(
        Function::Exp { value: Box::new(Function::Exp { value: Box::new(Function::Zero) }) }
            .simplify(&fold_constants),
        Function::Const { value: "2.718281828459045".to_string() }
    );
}

#[test]
fn exp_of_double_negation_keeps_exp() {
    assert_eq!(
        Function::Exp { value: neg(neg(x())) }.simplify(&no_folding),
        Function::Exp { value: x() }
    );
}
