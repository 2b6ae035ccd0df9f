//! Building operator nodes from already built operands.

use vstd::prelude::*;
use crate::expression::{trees, Expression, OperatorExpression};
use crate::operator::{Operator, Size};
use crate::render::{decimal, decimal_text, sign};
use crate::symbol::Symbol;
use crate::tree::{all_well_formed, Tree};

verus! {

/// What a construction result stands for: the tree of the expression, or
/// the text of the error.
pub open spec fn outcome(result: Result<Expression, String>) -> Result<Tree, Seq<char>> {
    match result {
        Ok(expression) => Ok(expression@),
        Err(message) => Err(message@),
    }
}

/// What each construction result of a sequence stands for.
pub open spec fn outcomes(results: Seq<Result<Expression, String>>) -> Seq<
    Result<Tree, Seq<char>>,
> {
    Seq::new(results.len(), |i: int| outcome(results[i]))
}

/// The error of the first failed result, if any result failed.
pub open spec fn first_error(results: Seq<Result<Tree, Seq<char>>>) -> Option<Seq<char>>
    decreases results.len(),
{
    if results.len() == 0 {
        None
    } else if first_error(results.drop_last()) is Some {
        first_error(results.drop_last())
    } else {
        match results.last() {
            Ok(_) => None,
            Err(message) => Some(message),
        }
    }
}

/// The trees of a sequence of results that all succeeded.
pub open spec fn successes(results: Seq<Result<Tree, Seq<char>>>) -> Seq<Tree> {
    Seq::new(results.len(), |i: int| results[i]->Ok_0)
}

/// The error for an operator that was given `count` operands and does not
/// admit that many.
pub open spec fn arity_error(operator: Operator, count: nat) -> Seq<char> {
    match operator.spec_arity() {
        Size::Finite(exact) => "Operator "@ + sign(operator) + " expects "@ + decimal(
            exact as nat,
        ) + " operands, but "@ + decimal(count) + " were provided"@,
        Size::Infinite => "Operator "@ + sign(operator) + " expects at least 2 operands, but "@
            + decimal(count) + " were provided"@,
    }
}

/// The result of applying `operator` to operands that were themselves
/// built before: the first error among the operands if there is one, else
/// an arity error if the operator does not admit their number, else the
/// node.
pub open spec fn built(operator: Operator, operands: Seq<Result<Tree, Seq<char>>>) -> Result<
    Tree,
    Seq<char>,
> {
    match first_error(operands) {
        Some(message) => Err(message),
        None => if operator.spec_arity().admits(operands.len()) {
            Ok(Tree::Operation { operator, operands: successes(operands) })
        } else {
            Err(arity_error(operator, operands.len()))
        },
    }
}

/// Writes the error for an operator that was given `count` operands and
/// does not admit that many.
fn arity_error_text(operator: Operator, count: usize) -> (text: String)
    ensures
        text@ == arity_error(operator, count as nat),
{
    let mut text = "Operator ".to_owned();
    text.append(operator.to_string().as_str());
    match operator.arity() {
        Size::Finite(exact) => {
            text.append(" expects ");
            text.append(decimal_text(exact as u128).as_str());
            text.append(" operands, but ");
        },
        Size::Infinite => {
            text.append(" expects at least 2 operands, but ");
        },
    }
    text.append(decimal_text(count as u128).as_str());
    text.append(" were provided");
    text
}

impl OperatorExpression {
    /// Applies `operator` to operands that were themselves built before.
    ///
    /// If an operand is an error, the first such error is returned as it
    /// is. Otherwise the number of operands is held against the operator's
    /// arity, and an error that names the operator, the arity and the
    /// number given is returned when they disagree.
    pub fn new(operator: Operator, operands: Vec<Result<Expression, String>>) -> (node: Result<
        OperatorExpression,
        String,
    >)
        ensures
            match built(operator, outcomes(operands@)) {
                Ok(tree) => node is Ok && node->Ok_0@ == tree,
                Err(message) => node is Err && node->Err_0@ == message,
            },
            node is Ok && all_well_formed(successes(outcomes(operands@))) ==> node->Ok_0@.well_formed(),
    {
        let count = operands.len();
        let ghost results = outcomes(operands@);
        let mut unwrapped: Vec<Expression> = Vec::new();
        for result in iter: operands
            invariant
                results == outcomes(operands@),
                iter.seq() == operands@,
                first_error(results.take(iter.index() as int)) is None,
                trees(unwrapped@) == successes(results.take(iter.index() as int)),
        {
            let ghost earlier = unwrapped@;
            proof {
                let i = iter.index() as int;
                assert(results.take(i + 1).drop_last() =~= results.take(i));
                assert(results.take(i + 1).last() == outcome(result));
            }
            match result {
                Ok(expression) => {
                    unwrapped.push(expression);
                    proof {
                        let i = iter.index() as int;
                        assert(trees(unwrapped@) =~= trees(earlier).push(expression@));
                        assert(successes(results.take(i + 1)) =~= successes(results.take(i)).push(
                            expression@,
                        ));
                    }
                },
                Err(message) => {
                    proof {
                        lemma_first_error_extends(results, iter.index() + 1);
                    }
                    return Err(message);
                },
            }
        }
        assert(results.take(results.len() as int) =~= results);
        match operator.arity() {
            Size::Finite(exact) => {
                if count != exact {
                    return Err(arity_error_text(operator, count));
                }
            },
            Size::Infinite => {
                if count < 2 {
                    return Err(arity_error_text(operator, count));
                }
            },
        }
        Ok(OperatorExpression::from_parts(operator, unwrapped))
    }
}

/// A value from which an expression can be built: a constant, a symbol, or
/// the result of applying an operator.
pub trait ConstructExpression {
    /// What building from this value yields: a tree, or the text of an
    /// error.
    spec fn constructed(&self) -> Result<Tree, Seq<char>>;

    /// Builds the expression.
    fn construct_expression(&self) -> (result: Result<Expression, String>)
        ensures
            outcome(result) == self.constructed(),
    ;
}

impl ConstructExpression for i128 {
    /// A constant with this value.
    open spec fn constructed(&self) -> Result<Tree, Seq<char>> {
        Ok(Tree::Constant(*self as int))
    }

    fn construct_expression(&self) -> (result: Result<Expression, String>) {
        Ok(Expression::Constant(*self))
    }
}

impl ConstructExpression for Symbol {
    /// The symbol as an expression.
    open spec fn constructed(&self) -> Result<Tree, Seq<char>> {
        Ok(Tree::Symbol(self@))
    }

    fn construct_expression(&self) -> (result: Result<Expression, String>) {
        Ok(Expression::Symbol(self.clone()))
    }
}

impl ConstructExpression for Result<OperatorExpression, String> {
    /// The node as an expression, or the error with which building the
    /// node failed.
    open spec fn constructed(&self) -> Result<Tree, Seq<char>> {
        match self {
            Ok(node) => Ok(node@),
            Err(message) => Err(message@),
        }
    }

    fn construct_expression(&self) -> (result: Result<Expression, String>) {
        match self {
            Ok(node) => Ok(Expression::OperatorExpression(node.clone())),
            Err(message) => Err(message.clone()),
        }
    }
}

/// An error found among the first results is the first error of the whole
/// sequence.
pub proof fn lemma_first_error_extends(results: Seq<Result<Tree, Seq<char>>>, count: int)
    requires
        0 <= count <= results.len(),
        first_error(results.take(count)) is Some,
    ensures
        first_error(results) == first_error(results.take(count)),
    decreases results.len(),
{
    if count == results.len() {
        assert(results.take(count) =~= results);
    } else {
        assert(results.drop_last().take(count) =~= results.take(count));
        lemma_first_error_extends(results.drop_last(), count);
    }
}

} // verus!
