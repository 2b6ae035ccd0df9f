//! The closed set of operators and the fixed facts known about each.

use vstd::prelude::*;
use crate::expression::Expression;
use crate::tree::Tree;

verus! {

/// An operator that can head an expression node.
#[derive(Clone, Copy, Debug, PartialEq, Eq, Hash, Structural)]
pub enum Operator {
    Negation,
    Reciprocal,
    Factorial,
    Addition,
    Subtraction,
    Multiplication,
    Division,
    Exponentiation,
    Logarithm,
    Root,
}

/// How many operands an operator takes.
#[derive(Clone, Copy, Debug, PartialEq, Eq, Hash, Structural)]
pub enum Size {
    /// Exactly this many.
    Finite(usize),
    /// Two or more.
    Infinite,
}

impl Size {
    /// Whether a list of `count` operands satisfies this arity.
    pub open spec fn admits(self, count: nat) -> bool {
        match self {
            Size::Finite(exact) => count == exact,
            Size::Infinite => count >= 2,
        }
    }
}

impl Operator {
    /// The number of operands the operator takes.
    pub open spec fn spec_arity(&self) -> Size {
        match self {
            Operator::Negation | Operator::Factorial | Operator::Reciprocal => Size::Finite(1),
            Operator::Addition
            | Operator::Subtraction
            | Operator::Multiplication
            | Operator::Division => Size::Infinite,
            Operator::Exponentiation | Operator::Logarithm | Operator::Root => Size::Finite(2),
        }
    }

    /// The number of operands the operator takes.
    #[verifier::when_used_as_spec(spec_arity)]
    pub fn arity(&self) -> (size: Size)
        ensures
            size == self.spec_arity(),
    {
        match self {
            Operator::Negation | Operator::Factorial | Operator::Reciprocal => Size::Finite(1),
            Operator::Addition
            | Operator::Subtraction
            | Operator::Multiplication
            | Operator::Division => Size::Infinite,
            Operator::Exponentiation | Operator::Logarithm | Operator::Root => Size::Finite(2),
        }
    }

    /// The binding strength of the operator.
    pub open spec fn spec_precedence(&self) -> u8 {
        match self {
            Operator::Negation | Operator::Reciprocal | Operator::Factorial => 4,
            Operator::Exponentiation => 3,
            Operator::Logarithm | Operator::Root => 2,
            Operator::Multiplication | Operator::Division => 1,
            Operator::Addition | Operator::Subtraction => 0,
        }
    }

    /// The binding strength of the operator; a higher rank binds tighter.
    #[verifier::when_used_as_spec(spec_precedence)]
    pub fn precedence(&self) -> (rank: u8)
        ensures
            rank == self.spec_precedence(),
    {
        match self {
            Operator::Negation | Operator::Reciprocal | Operator::Factorial => 4,
            Operator::Exponentiation => 3,
            Operator::Logarithm | Operator::Root => 2,
            Operator::Multiplication | Operator::Division => 1,
            Operator::Addition | Operator::Subtraction => 0,
        }
    }

    /// Whether a chain of this operator groups from the left.
    pub open spec fn spec_is_left_associative(&self) -> bool {
        matches!(
            self,
            Operator::Addition
                | Operator::Subtraction
                | Operator::Multiplication
                | Operator::Division
        )
    }

    /// Whether a chain of this operator groups from the left.
    #[verifier::when_used_as_spec(spec_is_left_associative)]
    pub fn is_left_associative(&self) -> (left: bool)
        ensures
            left == self.spec_is_left_associative(),
    {
        matches!(
            self,
            Operator::Addition
                | Operator::Subtraction
                | Operator::Multiplication
                | Operator::Division
        )
    }

    /// Whether a chain of this operator groups from the right.
    pub open spec fn spec_is_right_associative(&self) -> bool {
        !self.spec_is_left_associative()
    }

    /// Whether a chain of this operator groups from the right.
    #[verifier::when_used_as_spec(spec_is_right_associative)]
    pub fn is_right_associative(&self) -> (right: bool)
        ensures
            right == self.spec_is_right_associative(),
    {
        !self.is_left_associative()
    }

    /// Whether operands may be reordered without changing the value.
    pub open spec fn spec_is_commutative(&self) -> bool {
        matches!(self, Operator::Addition | Operator::Multiplication)
    }

    /// Whether operands may be reordered without changing the value.
    #[verifier::when_used_as_spec(spec_is_commutative)]
    pub fn is_commutative(&self) -> (commutative: bool)
        ensures
            commutative == self.spec_is_commutative(),
    {
        matches!(self, Operator::Addition | Operator::Multiplication)
    }

    /// Whether nested applications may be regrouped without changing the
    /// value.
    pub open spec fn spec_is_associative(&self) -> bool {
        matches!(self, Operator::Addition | Operator::Multiplication)
    }

    /// Whether nested applications may be regrouped without changing the
    /// value.
    #[verifier::when_used_as_spec(spec_is_associative)]
    pub fn is_associative(&self) -> (associative: bool)
        ensures
            associative == self.spec_is_associative(),
    {
        matches!(self, Operator::Addition | Operator::Multiplication)
    }

    /// The operator into which repeated terms of this operator collect.
    pub open spec fn spec_is_distributive_under(&self) -> Option<Operator> {
        match self {
            Operator::Addition => Some(Operator::Multiplication),
            Operator::Multiplication => Some(Operator::Exponentiation),
            _ => None,
        }
    }

    /// The operator into which repeated terms of this operator collect:
    /// repeated addition becomes a multiplication, repeated multiplication
    /// an exponentiation.
    #[verifier::when_used_as_spec(spec_is_distributive_under)]
    pub fn is_distributive_under(&self) -> (partner: Option<Operator>)
        ensures
            partner == self.spec_is_distributive_under(),
    {
        match self {
            Operator::Addition => Some(Operator::Multiplication),
            Operator::Multiplication => Some(Operator::Exponentiation),
            _ => None,
        }
    }

    /// The tree of the value that leaves every operand unchanged when
    /// combined with it under this operator.
    pub open spec fn spec_neutral_element(&self) -> Option<Tree> {
        match self {
            Operator::Addition => Some(Tree::Constant(0)),
            Operator::Multiplication => Some(Tree::Constant(1)),
            _ => None,
        }
    }

    /// The value that leaves every operand unchanged when combined with it
    /// under this operator.
    pub fn neutral_element(&self) -> (neutral: Option<Expression>)
        ensures
            match neutral {
                Some(expression) => self.spec_neutral_element() == Some(expression@),
                None => self.spec_neutral_element() is None,
            },
    {
        match self {
            Operator::Addition => Some(Expression::Constant(0)),
            Operator::Multiplication => Some(Expression::Constant(1)),
            _ => None,
        }
    }

    /// The unary operator that undoes combination under this operator.
    pub open spec fn spec_inverse(&self) -> Option<Operator> {
        match self {
            Operator::Addition => Some(Operator::Negation),
            Operator::Multiplication => Some(Operator::Reciprocal),
            _ => None,
        }
    }

    /// The unary operator that undoes combination under this operator.
    #[verifier::when_used_as_spec(spec_inverse)]
    pub fn inverse(&self) -> (inverse: Option<Operator>)
        ensures
            inverse == self.spec_inverse(),
    {
        match self {
            Operator::Addition => Some(Operator::Negation),
            Operator::Multiplication => Some(Operator::Reciprocal),
            _ => None,
        }
    }
}

} // verus!
