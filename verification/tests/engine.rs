use calculator::{check_postfix, parse, postfix_to_string, EvalError, ParseError, Token};
use std::collections::HashMap;

/// Reduces a postfix sequence at a bound value of the variable by one
/// left-to-right stack pass, the way a numeric evaluator does.
fn eval_postfix(x: f64, postfix: &[Token]) -> f64 {
    let mut stack: Vec<f64> = vec![];
    for token in postfix {
        match token {
            Token::Variable => stack.push(x),
            Token::Number(num) => stack.push(*num as f64),
            Token::Operator(op, _precedence) => {
                let right = stack.pop().expect("right operand");
                let left = stack.pop().expect("left operand");
                match op {
                    '+' => stack.push(left + right),
                    '-' => stack.push(left - right),
                    '*' => stack.push(left * right),
                    '/' => stack.push(left / right),
                    _ => panic!("unsupported operator"),
                }
            }
            Token::Function(fun) => {
                let operand = stack.pop().expect("operand");
                match fun.as_str() {
                    "abs" => stack.push(operand.abs()),
                    "sin" => stack.push(operand.sin()),
                    "cos" => stack.push(operand.cos()),
                    "ln" => stack.push(operand.ln()),
                    "exp" => stack.push(operand.exp()),
                    "sqrt" => stack.push(operand.sqrt()),
                    _ => panic!("unrecognized function"),
                }
            }
        }
    }
    stack.pop().expect("result")
}

#[test]
fn it_works() {
    let result = calculator::add(2, 2);
    assert_eq!(result, 4);
}

#[test]
fn calculator_test() {
    let mut variations: HashMap<&str, (&str, f64)> = HashMap::new();
    variations.insert("3+x-2", ("[3, x, 2, -, +]", 5_f64));
    variations.insert("3+x*2", ("[3, x, 2, *, +]", 11_f64));
    variations.insert("x+18/(9-3)", ("[x, 18, 9, 3, -, /, +]", 7_f64));
    variations.insert("3+x*2/(1-5)", ("[3, x, 2, *, 1, 5, -, /, +]", 1_f64));
    variations.insert("3+x*sin(0)", ("[3, x, 0, sin, *, +]", 3_f64));
    variations.insert(
        "cos(2*x)-1/3",
        ("[2, x, *, cos, 1, 3, /, -]", (2_f64 * 4_f64).cos() - 1_f64 / 3_f64),
    );

    for v in variations {
        let postfix = parse(v.0).unwrap();
        assert_eq!(postfix_to_string(&postfix), v.1 .0);
        let result = eval_postfix(4_f64, &postfix);
        assert_eq!(result, v.1 .1);
    }
}

#[test]
fn two_term_precedence() {
    let postfix = parse("1+2").unwrap();
    assert_eq!(postfix_to_string(&postfix), "[1, 2, +]");
    assert_eq!(eval_postfix(0.0, &postfix), 3.0);

    let postfix = parse("8/4").unwrap();
    assert_eq!(postfix_to_string(&postfix), "[8, 4, /]");
    assert_eq!(eval_postfix(0.0, &postfix), 2.0);
}

#[test]
fn three_term_precedence() {
    // multiplicative first operator: left-associative grouping
    let postfix = parse("2*3*4").unwrap();
    assert_eq!(postfix_to_string(&postfix), "[2, 3, *, 4, *]");
    assert_eq!(eval_postfix(0.0, &postfix), 24.0);

    let postfix = parse("8/4-1").unwrap();
    assert_eq!(postfix_to_string(&postfix), "[8, 4, /, 1, -]");
    assert_eq!(eval_postfix(0.0, &postfix), 1.0);

    // additive first operator, multiplicative second: the second binds
    let postfix = parse("1+2*3").unwrap();
    assert_eq!(postfix_to_string(&postfix), "[1, 2, 3, *, +]");
    assert_eq!(eval_postfix(0.0, &postfix), 7.0);
}

#[test]
fn additive_chain_groups_right() {
    // the documented gap: a chain of precedence-1 operators is emitted in
    // reverse push order, so it groups to the right, not to the left
    let postfix = parse("5-2+1").unwrap();
    assert_eq!(postfix_to_string(&postfix), "[5, 2, 1, +, -]");
    assert_eq!(eval_postfix(0.0, &postfix), 2.0);
}

#[test]
fn parse_is_pure() {
    let first = parse("cos(2*x)-1/3").unwrap();
    let second = parse("cos(2*x)-1/3").unwrap();
    assert_eq!(postfix_to_string(&first), postfix_to_string(&second));
    assert_eq!(eval_postfix(4.0, &first), eval_postfix(4.0, &second));
}

#[test]
fn unsupported_symbol_is_rejected() {
    assert_eq!(parse("3%2"), Err(ParseError::UnsupportedSymbol));
    assert_eq!(parse("3 + 2"), Err(ParseError::UnsupportedSymbol));
    assert_eq!(parse("3.5"), Err(ParseError::UnsupportedSymbol));
}

#[test]
fn number_overflow_is_rejected() {
    assert_eq!(parse("99999"), Err(ParseError::InvalidNumber));
    assert_eq!(parse("65536"), Err(ParseError::InvalidNumber));
    let postfix = parse("65535").unwrap();
    assert_eq!(postfix_to_string(&postfix), "[65535]");
}

#[test]
fn unbalanced_parentheses_are_rejected() {
    assert_eq!(parse("3)"), Err(ParseError::UnbalancedParentheses));
    assert_eq!(parse(")"), Err(ParseError::UnbalancedParentheses));
    assert_eq!(parse("(3"), Err(ParseError::UnbalancedParentheses));
    assert_eq!(parse("(1+2))"), Err(ParseError::UnbalancedParentheses));
}

#[test]
fn unknown_function_is_rejected() {
    let postfix = parse("foo(2)").unwrap();
    assert_eq!(check_postfix(&postfix), Err(EvalError::UnknownFunction));
}

#[test]
fn missing_operand_is_rejected() {
    let postfix = parse("3+").unwrap();
    assert_eq!(postfix_to_string(&postfix), "[3, +]");
    assert_eq!(check_postfix(&postfix), Err(EvalError::MissingOperand));

    let postfix = parse("sin()").unwrap();
    assert_eq!(check_postfix(&postfix), Err(EvalError::MissingOperand));
}

#[test]
fn malformed_expression_is_rejected() {
    let postfix = parse("").unwrap();
    assert_eq!(check_postfix(&postfix), Err(EvalError::MalformedExpression));

    let postfix = parse("3(4)").unwrap();
    assert_eq!(check_postfix(&postfix), Err(EvalError::MalformedExpression));
}

#[test]
fn well_formed_postfix_passes_check() {
    for formula in ["3+x-2", "3+x*2", "x+18/(9-3)", "3+x*2/(1-5)", "3+x*sin(0)", "cos(2*x)-1/3"] {
        let postfix = parse(formula).unwrap();
        assert_eq!(check_postfix(&postfix), Ok(()));
    }
}

#[test]
fn known_functions_evaluate() {
    let cases: [(&str, f64); 4] = [
        ("abs(0-5)", 5.0),
        ("sqrt(9)", 3.0),
        ("exp(0)", 1.0),
        ("ln(1)", 0.0),
    ];
    for (formula, expected) in cases {
        let postfix = parse(formula).unwrap();
        assert_eq!(check_postfix(&postfix), Ok(()));
        assert_eq!(eval_postfix(0.0, &postfix), expected);
    }
}

#[test]
fn number_rendering() {
    let postfix = parse("10+200").unwrap();
    assert_eq!(postfix_to_string(&postfix), "[10, 200, +]");
}

#[test]
fn nested_parentheses_and_functions() {
    let postfix = parse("((1+2))").unwrap();
    assert_eq!(postfix_to_string(&postfix), "[1, 2, +]");
    assert_eq!(eval_postfix(0.0, &postfix), 3.0);

    let postfix = parse("sin(cos(x))").unwrap();
    assert_eq!(postfix_to_string(&postfix), "[x, cos, sin]");
    assert_eq!(eval_postfix(0.0, &postfix), (0.0_f64).cos().sin());
}

#[test]
fn function_binds_tighter_than_operators() {
    // a pending function is popped out by the next operator
    let postfix = parse("sin(x)*2").unwrap();
    assert_eq!(postfix_to_string(&postfix), "[x, sin, 2, *]");
    let postfix = parse("sin(0)+1").unwrap();
    assert_eq!(eval_postfix(0.0, &postfix), 1.0);
}
