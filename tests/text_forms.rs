use fit_data::parse::ParseError;
use fit_data::Function;

fn parse(s: &str) -> Function {
    Function::from_str(s).unwrap()
}

#[test]
fn display_brackets_every_operation() {
    let f = parse("x + 2*a*(x+1)^2 - sin(x+1) + exp(3*x)/exp(x)");
    assert_eq!(
        f.to_display_string(),
        "(x + (((2 * (a * ((x + 1))^2)) - sin((x + 1))) + (exp((3 * x)) / exp(x))))"
    );
}

#[test]
fn display_of_negation_power_and_root() {
    let f = parse("-sqrt(x)^(a) / ln(b)");
    assert_eq!(f.to_display_string(), "(-((sqrt(x))^(a) / ln(b)))");
    assert_eq!(f.to_plot_string(), "-((\\sqrt{x})^{a} / ln(b))");
}

#[test]
fn plot_string_of_square_and_trigonometry() {
    let f = parse("cos(x)^2 * tan(-x)");
    assert_eq!(f.to_plot_string(), "((cos(x))^2 * tan(-x))");
}

#[test]
fn polynomial_forms() {
    let p = Function::Polynomial { degree: 3 };
    assert_eq!(p.to_display_string(), "a + bx + cx^2 + dx^3");
    assert_eq!(p.to_plot_string(), "a + bx + cx^2 + dx^3");
    let q = Function::BtrPolynomial { degree: 2 };
    assert_eq!(q.to_display_string(), "a/0! + bx/1! + cx^2/2!");
    let big = Function::Polynomial { degree: 12 };
    assert!(big.to_display_string().ends_with(" + mx^12"));
}

#[test]
fn display_round_trip_on_a_corpus() {
    let corpus = [
        "x",
        "3.14",
        "h + a*exp(-((x-m)/s)^2) + b*exp(-((x-n)/t)^2)",
        "(1*x) * ((c/(-(x*t)+(u+sin(v*x))))+m)",
        "((exp(x) / x)^(w))^(q) * (x * v)",
        "x + 2*a*(x+1)^2 - sin(x+1) + exp(3*x)/exp(x)",
        "-a*b",
        "145 - 42 - 3.14",
        "145 ^ 42 * 3.14 + 2.71",
        "tan(a - (exp((b*x+i) * (c - sin(x))))^(d - cos(cos(h*x+g))))^2",
    ];
    for s in corpus {
        let f = parse(s);
        let back = Function::from_str(&f.to_display_string());
        assert_eq!(back, Ok(f), "{}", s);
    }
}

#[test]
fn unbalanced_brackets_are_rejected() {
    assert_eq!(Function::from_str("(x+1"), Err(ParseError::UnbalancedBrackets));
    assert_eq!(Function::from_str("x+1)"), Err(ParseError::UnbalancedBrackets));
    assert_eq!(Function::from_str("exp(x"), Err(ParseError::UnbalancedBrackets));
    assert_eq!(Function::from_str("((x)"), Err(ParseError::UnbalancedBrackets));
}

#[test]
fn closing_before_opening_is_rejected() {
    assert_eq!(Function::from_str(")x("), Err(ParseError::BracketOrderViolation));
    assert_eq!(Function::from_str("x)+(1"), Err(ParseError::BracketOrderViolation));
}

#[test]
fn unknown_texts_are_rejected() {
    assert_eq!(Function::from_str(""), Err(ParseError::UnrecognizedLiteral));
    assert_eq!(Function::from_str("foo"), Err(ParseError::UnrecognizedLiteral));
    assert_eq!(Function::from_str("1.2.3"), Err(ParseError::UnrecognizedLiteral));
    assert_eq!(Function::from_str("f(x)"), Err(ParseError::UnrecognizedExpression));
    assert_eq!(Function::from_str("x+"), Err(ParseError::UnrecognizedLiteral));
}

#[test]
fn error_messages() {
    assert_eq!(
        ParseError::UnbalancedBrackets.message(),
        "Bad brackets sequence: opening and closing brackets count doesn't match."
    );
    assert_eq!(ParseError::UnrecognizedExpression.message(), "Unable to parse.");
}

#[test]
fn other_brackets_and_spaces_are_normalized() {
    assert_eq!(parse("{x + 1} * [ x ]"), parse("(x+1)*(x)"));
    assert_eq!(parse(" \tx\n"), Function::X);
}

#[test]
fn literals_of_the_float_grammar() {
    for s in ["2.", ".5", "1e5", "1E5", "inf", "NaN", "infinity", "007"] {
        assert_eq!(parse(s), Function::Const { value: s.to_string() }, "{}", s);
    }
}

#[test]
fn spellings_of_two_make_a_square() {
    let sq = Function::Sq { value: Box::new(Function::X) };
    assert_eq!(parse("x^2"), sq);
    assert_eq!(parse("(x)^2"), sq);
    assert_eq!(parse("x^(2)"), sq);
    assert_eq!(parse("x^2.0"), sq);
    assert_eq!(parse("x^02"), sq);
    assert_eq!(
        parse("x^3"),
        Function::Pow {
            lhs: Box::new(Function::X),
            rhs: Box::new(Function::Const { value: "3".to_string() })
        }
    );
}

#[test]
fn division_is_left_split_and_not_rewritten() {
    assert_eq!(
        parse("x/a/b"),
        Function::Div {
            lhs: Box::new(Function::X),
            rhs: Box::new(Function::Div {
                lhs: Box::new(Function::Param { name: 'a' }),
                rhs: Box::new(Function::Param { name: 'b' })
            })
        }
    );
}

#[test]
fn parameter_names_in_order_with_repeats() {
    let f = parse("a*x + b*sin(a) - c");
    assert_eq!(f.get_params_names(), vec!['a', 'b', 'a', 'c']);
    assert_eq!(parse("x").get_params_names(), Vec::<char>::new());
    let p = Function::Add {
        lhs: Box::new(Function::Param { name: 'z' }),
        rhs: Box::new(Function::BtrPolynomial { degree: 2 }),
    };
    assert_eq!(p.get_params_names(), vec!['z', 'a', 'b', 'c']);
    let all = Function::Polynomial { degree: 24 }.get_params_names();
    assert_eq!(all.len(), 25);
    assert_eq!(all[22], 'w');
    assert_eq!(all[23], 'y');
    assert!(!all.contains(&'x'));
}
