use symbolic_manipulation::{ConstructExpression, Expression, Operator, OperatorExpression, Symbol};

fn sym(name: &str) -> Result<Expression, String> {
    Symbol::new(name.to_string()).construct_expression()
}

fn num(value: i128) -> Result<Expression, String> {
    value.construct_expression()
}

fn apply(operator: Operator, operands: Vec<Result<Expression, String>>) -> Result<Expression, String> {
    OperatorExpression::new(operator, operands).construct_expression()
}

#[test]
fn double_negation_rule_collapses_two_negations() {
    let mut expression = apply(
        Operator::Negation,
        vec![apply(Operator::Negation, vec![apply(Operator::Addition, vec![sym("x"), num(0)])])],
    )
    .unwrap();
    expression.double_negation();
    assert_eq!(expression.to_string(), "(+ x 0)");
}

#[test]
fn double_negation_rule_leaves_other_expressions() {
    let mut expression = apply(Operator::Negation, vec![sym("x")]).unwrap();
    expression.double_negation();
    assert_eq!(expression.to_string(), "(- x)");

    let mut expression =
        apply(Operator::Reciprocal, vec![apply(Operator::Negation, vec![sym("x")])]).unwrap();
    expression.double_negation();
    assert_eq!(expression.to_string(), "(1/ (- x))");

    let mut expression =
        apply(Operator::Factorial, vec![apply(Operator::Factorial, vec![sym("x")])]).unwrap();
    expression.double_negation();
    assert_eq!(expression.to_string(), "(! (! x))");

    let mut expression = sym("x").unwrap();
    expression.double_negation();
    assert_eq!(expression.to_string(), "x");
}

#[test]
fn subtraction_rule_rewrites_to_a_sum() {
    let mut expression = apply(Operator::Subtraction, vec![num(2), num(3)]).unwrap();
    expression.remove_subtraction();
    assert_eq!(expression.to_string(), "(+ 2 (- (+ 3 0)))");

    let mut expression =
        apply(Operator::Subtraction, vec![sym("a"), sym("b"), sym("c"), sym("d")]).unwrap();
    expression.remove_subtraction();
    assert_eq!(expression.to_string(), "(+ a (- (+ b c d 0)))");
}

#[test]
fn subtraction_rule_leaves_other_expressions() {
    let mut expression = apply(Operator::Division, vec![num(2), num(3)]).unwrap();
    expression.remove_subtraction();
    assert_eq!(expression.to_string(), "(/ 2 3)");

    let mut expression = num(2).unwrap();
    expression.remove_subtraction();
    assert_eq!(expression.to_string(), "2");
}

#[test]
fn neutral_rule_drops_every_neutral_operand() {
    let mut expression =
        apply(Operator::Addition, vec![num(0), sym("x"), num(0), sym("y"), num(0)]).unwrap();
    expression.remove_neutral_element();
    assert_eq!(expression.to_string(), "(+ x y)");

    let mut expression =
        apply(Operator::Multiplication, vec![num(1), sym("x"), num(0), num(1)]).unwrap();
    expression.remove_neutral_element();
    assert_eq!(expression.to_string(), "(* x 0)");
}

#[test]
fn neutral_rule_may_leave_fewer_than_two_operands() {
    let mut expression = apply(Operator::Addition, vec![sym("x"), num(0)]).unwrap();
    expression.remove_neutral_element();
    assert_eq!(expression.to_string(), "(+ x)");
    expression.factor_out();
    assert_eq!(expression.to_string(), "x");

    let mut expression = apply(Operator::Multiplication, vec![num(1), num(1)]).unwrap();
    expression.remove_neutral_element();
    assert_eq!(expression.to_string(), "(*)");
    expression.factor_out();
    assert_eq!(expression.to_string(), "1");
}

#[test]
fn neutral_rule_compares_whole_operands() {
    let mut expression = apply(
        Operator::Addition,
        vec![sym("0"), apply(Operator::Addition, vec![num(0), num(0)])],
    )
    .unwrap();
    expression.remove_neutral_element();
    assert_eq!(expression.to_string(), "(+ 0 (+ 0 0))");
}

#[test]
fn neutral_rule_leaves_other_operators() {
    let mut expression = apply(Operator::Subtraction, vec![sym("x"), num(0)]).unwrap();
    expression.remove_neutral_element();
    assert_eq!(expression.to_string(), "(- x 0)");

    let mut expression = apply(Operator::Division, vec![sym("x"), num(1)]).unwrap();
    expression.remove_neutral_element();
    assert_eq!(expression.to_string(), "(/ x 1)");
}

#[test]
fn merge_rule_splices_operands_in_place() {
    let mut expression = apply(
        Operator::Addition,
        vec![
            sym("a"),
            apply(Operator::Addition, vec![sym("b"), sym("c")]),
            sym("d"),
            apply(Operator::Addition, vec![sym("e"), sym("f"), sym("g")]),
        ],
    )
    .unwrap();
    expression.merge();
    assert_eq!(expression.to_string(), "(+ a b c d e f g)");
}

#[test]
fn merge_rule_exposes_one_level() {
    let mut expression = apply(
        Operator::Multiplication,
        vec![
            apply(
                Operator::Multiplication,
                vec![apply(Operator::Multiplication, vec![sym("a"), sym("b")]), sym("c")],
            ),
            sym("d"),
        ],
    )
    .unwrap();
    expression.merge();
    assert_eq!(expression.to_string(), "(* (* a b) c d)");
    expression.merge();
    assert_eq!(expression.to_string(), "(* a b c d)");
}

#[test]
fn merge_rule_keeps_other_operators() {
    let mut expression = apply(
        Operator::Addition,
        vec![apply(Operator::Multiplication, vec![sym("a"), sym("b")]), sym("c")],
    )
    .unwrap();
    expression.merge();
    assert_eq!(expression.to_string(), "(+ (* a b) c)");

    let mut expression = apply(
        Operator::Subtraction,
        vec![apply(Operator::Subtraction, vec![sym("a"), sym("b")]), sym("c")],
    )
    .unwrap();
    expression.merge();
    assert_eq!(expression.to_string(), "(- (- a b) c)");
}

#[test]
fn factor_rule_collects_terms() {
    let mut expression = apply(
        Operator::Addition,
        vec![
            sym("x"),
            apply(Operator::Multiplication, vec![num(4), sym("x")]),
            sym("y"),
        ],
    )
    .unwrap();
    expression.factor_out();
    assert_eq!(expression.to_string(), "(+ (* 5 x) y)");

    let mut expression = apply(Operator::Multiplication, vec![sym("y"), sym("y")]).unwrap();
    expression.factor_out();
    assert_eq!(expression.to_string(), "(^ 2 y)");
}

#[test]
fn factor_rule_counts_the_inverse_as_minus_one() {
    let mut expression = apply(
        Operator::Addition,
        vec![sym("x"), sym("x"), sym("x"), apply(Operator::Negation, vec![sym("x")])],
    )
    .unwrap();
    expression.factor_out();
    assert_eq!(expression.to_string(), "(* 2 x)");

    let mut expression =
        apply(Operator::Addition, vec![sym("y"), apply(Operator::Negation, vec![sym("x")])])
            .unwrap();
    expression.factor_out();
    assert_eq!(expression.to_string(), "(+ y (* -1 x))");
}

#[test]
fn factor_rule_drops_a_product_with_zero() {
    let mut expression = apply(
        Operator::Addition,
        vec![sym("y"), sym("z"), apply(Operator::Multiplication, vec![num(0), sym("x")])],
    )
    .unwrap();
    expression.factor_out();
    assert_eq!(expression.to_string(), "(+ y z)");
}

#[test]
fn factor_rule_leaves_other_operators() {
    let mut expression = apply(Operator::Division, vec![sym("x"), sym("x")]).unwrap();
    expression.factor_out();
    assert_eq!(expression.to_string(), "(/ x x)");

    let mut expression = apply(Operator::Exponentiation, vec![sym("x"), sym("x")]).unwrap();
    expression.factor_out();
    assert_eq!(expression.to_string(), "(^ x x)");

    let mut expression = sym("x").unwrap();
    expression.factor_out();
    assert_eq!(expression.to_string(), "x");
}

#[test]
fn factor_rule_takes_bases_as_whole_trees() {
    let term = || apply(Operator::Division, vec![sym("a"), sym("b")]);
    let mut expression = apply(Operator::Addition, vec![term(), sym("c"), term()]).unwrap();
    expression.factor_out();
    assert_eq!(expression.to_string(), "(+ (* 2 (/ a b)) c)");

    let swapped = apply(Operator::Division, vec![sym("b"), sym("a")]);
    let mut expression = apply(Operator::Addition, vec![term(), swapped]).unwrap();
    expression.factor_out();
    assert_eq!(expression.to_string(), "(+ (/ a b) (/ b a))");
}
