use symbolic_manipulation::{ConstructExpression, Expression, Operator, OperatorExpression, Symbol};

fn sym(name: &str) -> Result<Expression, String> {
    Symbol::new(name.to_string()).construct_expression()
}

fn num(value: i128) -> Result<Expression, String> {
    value.construct_expression()
}

fn apply(operator: Operator, operands: Vec<Result<Expression, String>>) -> Result<Expression, String> {
    OperatorExpression::new(operator, operands).construct_expression()
}

fn simplified(expression: Result<Expression, String>) -> String {
    let mut expression = expression.expect("the expression is well formed");
    expression.simplify();
    expression.to_string()
}

fn simplified_twice(expression: Result<Expression, String>) -> String {
    let mut expression = expression.expect("the expression is well formed");
    expression.simplify();
    expression.simplify();
    expression.to_string()
}

#[test]
fn test_manual_creation() {
    let mut expression = OperatorExpression::new(
        Operator::Addition,
        vec![
            Symbol::new("x".to_string()).construct_expression(),
            OperatorExpression::new(
                Operator::Multiplication,
                vec![
                    2.construct_expression(),
                    Symbol::new("y".to_string()).construct_expression(),
                ],
            )
            .construct_expression(),
        ],
    )
    .construct_expression();

    assert!(expression.is_ok());
    if let Result::Ok(expression) = &mut expression {
        assert_eq!(expression.to_string(), "(+ x (* 2 y))");
    }
}

#[test]
fn test_macro_creation() {
    let mut expression = OperatorExpression::new(
        Operator::Addition,
        vec![
            Symbol::new("x".to_string()).construct_expression(),
            OperatorExpression::new(
                Operator::Multiplication,
                vec![
                    2.construct_expression(),
                    Symbol::new("y".to_string()).construct_expression(),
                ],
            )
            .construct_expression(),
        ],
    )
    .construct_expression();

    assert!(expression.is_ok());
    if let Result::Ok(expression) = &mut expression {
        assert_eq!(expression.to_string(), "(+ x (* 2 y))");
    }
}

#[test]
fn test_subtraction() {
    let mut expression = apply(Operator::Subtraction, vec![num(2), num(3)]);

    assert!(expression.is_ok());
    if let Result::Ok(expression) = &mut expression {
        expression.simplify();
        assert_eq!(expression.to_string(), "(+ 2 (- (+ 3 0)))");
    }
}

#[test]
fn test_double_negation() {
    let mut expression = apply(
        Operator::Negation,
        vec![apply(
            Operator::Negation,
            vec![apply(
                Operator::Multiplication,
                vec![apply(Operator::Negation, vec![sym("x")]), sym("x")],
            )],
        )],
    );

    assert!(expression.is_ok());
    if let Result::Ok(expression) = &mut expression {
        expression.simplify();
        assert_eq!(expression.to_string(), "(* (- x) x)");
    }
}

#[test]
fn test_sum_merge() {
    let mut expression = apply(
        Operator::Addition,
        vec![sym("x"), apply(Operator::Addition, vec![sym("x"), sym("y")])],
    );

    assert!(expression.is_ok());
    if let Result::Ok(expression) = &mut expression {
        expression.simplify();
        assert_eq!(expression.to_string(), "(+ (* 2 x) y)");
    }
}

#[test]
fn leaves_are_left_unchanged() {
    assert_eq!(simplified(num(7)), "7");
    assert_eq!(simplified(num(-7)), "-7");
    assert_eq!(simplified(sym("x")), "x");
}

#[test]
fn double_negation_yields_the_operand() {
    let twice = apply(Operator::Negation, vec![apply(Operator::Negation, vec![sym("x")])]);
    let mut expression = twice.unwrap();
    expression.simplify();
    assert_eq!(expression, Expression::Symbol(Symbol::new("x".to_string())));
}

#[test]
fn triple_negation_yields_one_negation() {
    let thrice = apply(
        Operator::Negation,
        vec![apply(Operator::Negation, vec![apply(Operator::Negation, vec![sym("x")])])],
    );
    assert_eq!(simplified(thrice), "(- x)");
}

#[test]
fn single_negation_is_kept() {
    assert_eq!(simplified(apply(Operator::Negation, vec![sym("x")])), "(- x)");
}

#[test]
fn subtraction_of_several_operands() {
    let difference = apply(Operator::Subtraction, vec![sym("a"), sym("b"), sym("c")]);
    assert_eq!(simplified(difference), "(+ a (- (+ b c 0)))");
}

#[test]
fn subtraction_reduces_further_on_a_second_pass() {
    let difference = apply(Operator::Subtraction, vec![num(2), num(3)]);
    assert_eq!(simplified_twice(difference), "(+ 2 (* -1 3))");
}

#[test]
fn neutral_element_of_addition_is_removed() {
    assert_eq!(simplified(apply(Operator::Addition, vec![sym("x"), num(0)])), "x");
    assert_eq!(simplified(apply(Operator::Addition, vec![num(0), sym("x")])), "x");
}

#[test]
fn neutral_element_of_multiplication_is_removed() {
    assert_eq!(simplified(apply(Operator::Multiplication, vec![sym("y"), num(1)])), "y");
    assert_eq!(simplified(apply(Operator::Multiplication, vec![num(1), sym("y")])), "y");
}

#[test]
fn other_constants_are_not_neutral() {
    assert_eq!(simplified(apply(Operator::Addition, vec![sym("x"), num(1)])), "(+ x 1)");
    assert_eq!(simplified(apply(Operator::Multiplication, vec![sym("x"), num(0)])), "(* x 0)");
}

#[test]
fn sum_of_neutral_elements_is_the_neutral_element() {
    assert_eq!(simplified(apply(Operator::Addition, vec![num(0), num(0)])), "0");
    assert_eq!(simplified(apply(Operator::Multiplication, vec![num(1), num(1)])), "1");
}

#[test]
fn nested_sum_is_flattened_and_collected() {
    let sum = apply(
        Operator::Addition,
        vec![apply(Operator::Addition, vec![sym("x"), sym("x")]), sym("x")],
    );
    assert_eq!(simplified(sum), "(* 3 x)");
}

#[test]
fn nested_sum_of_distinct_symbols_is_flattened() {
    let sum = apply(
        Operator::Addition,
        vec![apply(Operator::Addition, vec![sym("a"), sym("b")]), sym("c")],
    );
    assert_eq!(simplified(sum), "(+ a b c)");
}

#[test]
fn nested_product_is_flattened_and_collected() {
    let product = apply(
        Operator::Multiplication,
        vec![sym("y"), apply(Operator::Multiplication, vec![sym("y"), sym("z")])],
    );
    assert_eq!(simplified(product), "(* (^ 2 y) z)");
}

#[test]
fn a_sum_in_a_product_is_not_flattened() {
    let product = apply(
        Operator::Multiplication,
        vec![sym("a"), apply(Operator::Addition, vec![sym("b"), sym("c")])],
    );
    assert_eq!(simplified(product), "(* a (+ b c))");
}

#[test]
fn full_cancellation_yields_the_neutral_element() {
    let sum = apply(Operator::Addition, vec![sym("x"), apply(Operator::Negation, vec![sym("x")])]);
    let mut expression = sum.unwrap();
    expression.simplify();
    assert_eq!(expression, Expression::Constant(0));

    let product = apply(
        Operator::Multiplication,
        vec![sym("x"), apply(Operator::Reciprocal, vec![sym("x")])],
    );
    let mut expression = product.unwrap();
    expression.simplify();
    assert_eq!(expression, Expression::Constant(1));
}

#[test]
fn mixed_terms_are_collected() {
    let sum = apply(
        Operator::Addition,
        vec![
            apply(
                Operator::Addition,
                vec![sym("x"), apply(Operator::Multiplication, vec![num(2), sym("x")])],
            ),
            apply(Operator::Multiplication, vec![num(-7), sym("x")]),
            sym("y"),
            apply(Operator::Multiplication, vec![num(2), sym("y")]),
            apply(Operator::Multiplication, vec![num(3), sym("y")]),
        ],
    );
    assert_eq!(simplified(sum), "(+ (* -4 x) (* 6 y))");
}

#[test]
fn a_negated_product_counts_as_its_own_base() {
    let sum = apply(
        Operator::Addition,
        vec![
            apply(
                Operator::Addition,
                vec![sym("x"), apply(Operator::Multiplication, vec![num(2), sym("x")])],
            ),
            apply(
                Operator::Negation,
                vec![apply(Operator::Multiplication, vec![num(7), sym("x")])],
            ),
            sym("y"),
            apply(Operator::Multiplication, vec![num(2), sym("y")]),
            apply(Operator::Multiplication, vec![num(3), sym("y")]),
        ],
    );
    assert_eq!(simplified(sum), "(+ (* 3 x) (* -1 (* 7 x)) (* 6 y))");
}

#[test]
fn terms_come_out_in_order_of_first_occurrence() {
    let sum = apply(
        Operator::Addition,
        vec![sym("b"), sym("a"), sym("b"), sym("c"), sym("a"), sym("b")],
    );
    assert_eq!(simplified(sum), "(+ (* 3 b) (* 2 a) c)");
}

#[test]
fn a_cancelled_base_keeps_its_place_when_it_comes_back() {
    let sum = apply(
        Operator::Addition,
        vec![
            sym("a"),
            sym("b"),
            apply(Operator::Negation, vec![sym("a")]),
            sym("a"),
        ],
    );
    assert_eq!(simplified(sum), "(+ a b)");
}

#[test]
fn the_constant_of_a_product_may_stand_on_either_side() {
    let sum = apply(
        Operator::Addition,
        vec![
            apply(Operator::Multiplication, vec![sym("x"), num(3)]),
            apply(Operator::Multiplication, vec![num(4), sym("x")]),
        ],
    );
    assert_eq!(simplified(sum), "(* 7 x)");
}

#[test]
fn a_product_of_two_constants_is_its_own_base() {
    let sum = apply(
        Operator::Addition,
        vec![apply(Operator::Multiplication, vec![num(2), num(3)]), sym("x")],
    );
    assert_eq!(simplified(sum), "(+ (* 2 3) x)");
}

#[test]
fn a_product_of_three_operands_is_its_own_base() {
    let sum = apply(
        Operator::Addition,
        vec![apply(Operator::Multiplication, vec![num(2), sym("x"), sym("y")]), sym("x")],
    );
    assert_eq!(simplified(sum), "(+ (* 2 x y) x)");
}

#[test]
fn powers_are_collected_in_a_product() {
    let product = apply(
        Operator::Multiplication,
        vec![
            sym("x"),
            apply(Operator::Exponentiation, vec![num(3), sym("x")]),
            apply(Operator::Reciprocal, vec![sym("y")]),
        ],
    );
    assert_eq!(simplified(product), "(* (^ 4 x) (^ -1 y))");
}

#[test]
fn collection_is_skipped_when_a_coefficient_does_not_fit() {
    let sum = apply(
        Operator::Addition,
        vec![apply(Operator::Multiplication, vec![num(i128::MAX), sym("x")]), sym("x")],
    );
    assert_eq!(
        simplified(sum),
        "(+ (* 170141183460469231731687303715884105727 x) x)"
    );

    let sum = apply(
        Operator::Addition,
        vec![
            apply(Operator::Multiplication, vec![num(i128::MIN), sym("x")]),
            apply(Operator::Negation, vec![sym("x")]),
        ],
    );
    assert_eq!(
        simplified(sum),
        "(+ (* -170141183460469231731687303715884105728 x) (- x))"
    );
}

#[test]
fn a_coefficient_at_the_limit_is_kept() {
    let sum = apply(
        Operator::Addition,
        vec![apply(Operator::Multiplication, vec![num(i128::MAX - 1), sym("x")]), sym("x")],
    );
    assert_eq!(simplified(sum), "(* 170141183460469231731687303715884105727 x)");
}

#[test]
fn operators_without_rules_keep_their_simplified_operands() {
    let quotient = apply(
        Operator::Division,
        vec![apply(Operator::Addition, vec![sym("x"), num(0)]), sym("y")],
    );
    assert_eq!(simplified(quotient), "(/ x y)");

    let power = apply(
        Operator::Exponentiation,
        vec![sym("x"), apply(Operator::Addition, vec![sym("y"), sym("y")])],
    );
    assert_eq!(simplified(power), "(^ x (* 2 y))");

    let logarithm = apply(
        Operator::Logarithm,
        vec![num(2), apply(Operator::Negation, vec![apply(Operator::Negation, vec![sym("x")])])],
    );
    assert_eq!(simplified(logarithm), "(log 2 x)");

    let root = apply(Operator::Root, vec![num(2), sym("x")]);
    assert_eq!(simplified(root), "(root 2 x)");

    let factorial = apply(Operator::Factorial, vec![apply(Operator::Subtraction, vec![sym("n"), num(1)])]);
    assert_eq!(simplified(factorial), "(! (+ n (- (+ 1 0))))");

    let reciprocal = apply(Operator::Reciprocal, vec![sym("x")]);
    assert_eq!(simplified(reciprocal), "(1/ x)");
}

#[test]
fn a_second_pass_leaves_a_normal_form_unchanged() {
    let build = || {
        apply(
            Operator::Addition,
            vec![
                apply(
                    Operator::Addition,
                    vec![sym("x"), apply(Operator::Multiplication, vec![num(2), sym("x")])],
                ),
                apply(Operator::Multiplication, vec![num(-7), sym("x")]),
                sym("y"),
                apply(Operator::Multiplication, vec![num(2), sym("y")]),
                apply(Operator::Multiplication, vec![num(3), sym("y")]),
            ],
        )
    };
    assert_eq!(simplified(build()), simplified_twice(build()));

    let build = || {
        apply(
            Operator::Addition,
            vec![sym("x"), apply(Operator::Addition, vec![sym("x"), sym("y")])],
        )
    };
    assert_eq!(simplified(build()), simplified_twice(build()));
}

#[test]
fn a_second_pass_may_reduce_further() {
    let build = || apply(Operator::Addition, vec![num(1), num(1)]);
    assert_eq!(simplified(build()), "(* 2 1)");
    assert_eq!(simplified_twice(build()), "2");
}

#[test]
fn is_equal_simplifies_the_other_side() {
    let mut left = sym("x").unwrap();
    let mut right = apply(Operator::Addition, vec![sym("x"), num(0)]).unwrap();
    assert!(left.is_equal(&mut right));
    assert_eq!(left.to_string(), "x");
    assert_eq!(right.to_string(), "x");

    let mut left = apply(Operator::Addition, vec![sym("x"), num(0)]).unwrap();
    let mut right = sym("x").unwrap();
    assert!(!left.is_equal(&mut right));
    assert_eq!(left.to_string(), "(+ x 0)");
}
