use symbolic_manipulation::{Expression, Operator, Size};

const ALL: [Operator; 10] = [
    Operator::Negation,
    Operator::Reciprocal,
    Operator::Factorial,
    Operator::Addition,
    Operator::Subtraction,
    Operator::Multiplication,
    Operator::Division,
    Operator::Exponentiation,
    Operator::Logarithm,
    Operator::Root,
];

#[test]
fn arity_of_each_operator() {
    assert_eq!(Operator::Negation.arity(), Size::Finite(1));
    assert_eq!(Operator::Reciprocal.arity(), Size::Finite(1));
    assert_eq!(Operator::Factorial.arity(), Size::Finite(1));
    assert_eq!(Operator::Addition.arity(), Size::Infinite);
    assert_eq!(Operator::Subtraction.arity(), Size::Infinite);
    assert_eq!(Operator::Multiplication.arity(), Size::Infinite);
    assert_eq!(Operator::Division.arity(), Size::Infinite);
    assert_eq!(Operator::Exponentiation.arity(), Size::Finite(2));
    assert_eq!(Operator::Logarithm.arity(), Size::Finite(2));
    assert_eq!(Operator::Root.arity(), Size::Finite(2));
}

#[test]
fn precedence_of_each_operator() {
    assert_eq!(Operator::Negation.precedence(), 4);
    assert_eq!(Operator::Reciprocal.precedence(), 4);
    assert_eq!(Operator::Factorial.precedence(), 4);
    assert_eq!(Operator::Exponentiation.precedence(), 3);
    assert_eq!(Operator::Logarithm.precedence(), 2);
    assert_eq!(Operator::Root.precedence(), 2);
    assert_eq!(Operator::Multiplication.precedence(), 1);
    assert_eq!(Operator::Division.precedence(), 1);
    assert_eq!(Operator::Addition.precedence(), 0);
    assert_eq!(Operator::Subtraction.precedence(), 0);
}

#[test]
fn associativity_of_each_operator() {
    for operator in ALL {
        let left = matches!(
            operator,
            Operator::Addition
                | Operator::Subtraction
                | Operator::Multiplication
                | Operator::Division
        );
        assert_eq!(operator.is_left_associative(), left);
        assert_eq!(operator.is_right_associative(), !left);
    }
}

#[test]
fn only_addition_and_multiplication_commute_and_associate() {
    for operator in ALL {
        let expected = matches!(operator, Operator::Addition | Operator::Multiplication);
        assert_eq!(operator.is_commutative(), expected);
        assert_eq!(operator.is_associative(), expected);
    }
}

#[test]
fn distributive_partner_of_each_operator() {
    for operator in ALL {
        let expected = match operator {
            Operator::Addition => Some(Operator::Multiplication),
            Operator::Multiplication => Some(Operator::Exponentiation),
            _ => None,
        };
        assert_eq!(operator.is_distributive_under(), expected);
    }
}

#[test]
fn neutral_element_of_each_operator() {
    for operator in ALL {
        let expected = match operator {
            Operator::Addition => Some(Expression::Constant(0)),
            Operator::Multiplication => Some(Expression::Constant(1)),
            _ => None,
        };
        assert_eq!(operator.neutral_element(), expected);
    }
}

#[test]
fn inverse_of_each_operator() {
    for operator in ALL {
        let expected = match operator {
            Operator::Addition => Some(Operator::Negation),
            Operator::Multiplication => Some(Operator::Reciprocal),
            _ => None,
        };
        assert_eq!(operator.inverse(), expected);
    }
}

#[test]
fn sign_of_each_operator() {
    assert_eq!(Operator::Negation.to_string(), "-");
    assert_eq!(Operator::Reciprocal.to_string(), "1/");
    assert_eq!(Operator::Factorial.to_string(), "!");
    assert_eq!(Operator::Addition.to_string(), "+");
    assert_eq!(Operator::Subtraction.to_string(), "-");
    assert_eq!(Operator::Multiplication.to_string(), "*");
    assert_eq!(Operator::Division.to_string(), "/");
    assert_eq!(Operator::Exponentiation.to_string(), "^");
    assert_eq!(Operator::Logarithm.to_string(), "log");
    assert_eq!(Operator::Root.to_string(), "root");
}
