//! Rendering to text: numbers in decimal, operators by their sign, and
//! expressions in fully parenthesised prefix notation.

use vstd::prelude::*;
use crate::expression::{trees, Expression, OperatorExpression};
use crate::operator::Operator;
use crate::tree::Tree;

verus! {

/// The decimal digit for a value below ten.
pub open spec fn digit(value: nat) -> Seq<char> {
    if value == 0 {
        "0"@
    } else if value == 1 {
        "1"@
    } else if value == 2 {
        "2"@
    } else if value == 3 {
        "3"@
    } else if value == 4 {
        "4"@
    } else if value == 5 {
        "5"@
    } else if value == 6 {
        "6"@
    } else if value == 7 {
        "7"@
    } else if value == 8 {
        "8"@
    } else {
        "9"@
    }
}

/// A natural number in decimal, without leading zeros.
pub open spec fn decimal(value: nat) -> Seq<char>
    decreases value,
{
    if value < 10 {
        digit(value)
    } else {
        decimal(value / 10) + digit(value % 10)
    }
}

/// An integer in decimal, with a minus sign in front of a negative one.
pub open spec fn signed_decimal(value: int) -> Seq<char> {
    if value < 0 {
        "-"@ + decimal((-value) as nat)
    } else {
        decimal(value as nat)
    }
}

/// The sign by which an operator is written.
pub open spec fn sign(operator: Operator) -> Seq<char> {
    match operator {
        Operator::Negation => "-"@,
        Operator::Reciprocal => "1/"@,
        Operator::Factorial => "!"@,
        Operator::Addition => "+"@,
        Operator::Subtraction => "-"@,
        Operator::Multiplication => "*"@,
        Operator::Division => "/"@,
        Operator::Exponentiation => "^"@,
        Operator::Logarithm => "log"@,
        Operator::Root => "root"@,
    }
}

/// Each tree of the sequence in prefix notation, with a space in front of
/// each.
pub open spec fn rendered_each(trees: Seq<Tree>) -> Seq<char>
    decreases trees, 0nat,
{
    if trees.len() == 0 {
        Seq::empty()
    } else {
        rendered_each(trees.drop_last()) + " "@ + rendered(trees.last())
    }
}

/// A tree in prefix notation: a constant in decimal, a symbol by its name,
/// an operator node as `(sign operand operand ..)`.
pub open spec fn rendered(tree: Tree) -> Seq<char>
    decreases tree, 1nat,
{
    match tree {
        Tree::Constant(value) => signed_decimal(value),
        Tree::Symbol(name) => name,
        Tree::Operation { operator, operands } => "("@ + sign(operator) + rendered_each(operands)
            + ")"@,
    }
}

/// The trees of the sequence in prefix notation, separated by a comma and a
/// space.
pub open spec fn listed(trees: Seq<Tree>) -> Seq<char>
    decreases trees.len(),
{
    if trees.len() == 0 {
        Seq::empty()
    } else if trees.len() == 1 {
        rendered(trees[0])
    } else {
        listed(trees.drop_last()) + ", "@ + rendered(trees.last())
    }
}

fn digit_text(value: u128) -> (text: &'static str)
    requires
        value < 10,
    ensures
        text@ == digit(value as nat),
{
    match value {
        0 => "0",
        1 => "1",
        2 => "2",
        3 => "3",
        4 => "4",
        5 => "5",
        6 => "6",
        7 => "7",
        8 => "8",
        _ => "9",
    }
}

/// Writes a natural number in decimal.
pub(crate) fn decimal_text(value: u128) -> (text: String)
    ensures
        text@ == decimal(value as nat),
    decreases value,
{
    if value < 10 {
        digit_text(value).to_owned()
    } else {
        let mut text = decimal_text(value / 10);
        text.append(digit_text(value % 10));
        text
    }
}

/// Writes an integer in decimal, with a minus sign in front of a negative
/// one.
pub(crate) fn signed_decimal_text(value: i128) -> (text: String)
    ensures
        text@ == signed_decimal(value as int),
{
    if value < 0 {
        let magnitude: u128 = (-(value + 1)) as u128 + 1;
        let mut text = "-".to_owned();
        text.append(decimal_text(magnitude).as_str());
        text
    } else {
        decimal_text(value as u128)
    }
}

impl Operator {
    /// The sign by which the operator is written.
    pub fn to_string(&self) -> (text: String)
        ensures
            text@ == sign(*self),
    {
        match self {
            Operator::Negation => "-".to_owned(),
            Operator::Reciprocal => "1/".to_owned(),
            Operator::Factorial => "!".to_owned(),
            Operator::Addition => "+".to_owned(),
            Operator::Subtraction => "-".to_owned(),
            Operator::Multiplication => "*".to_owned(),
            Operator::Division => "/".to_owned(),
            Operator::Exponentiation => "^".to_owned(),
            Operator::Logarithm => "log".to_owned(),
            Operator::Root => "root".to_owned(),
        }
    }
}

impl Expression {
    /// The expression in fully parenthesised prefix notation, such as
    /// `(+ x (* 2 y))`.
    pub fn to_string(&self) -> (text: String)
        ensures
            text@ == rendered(self@),
        decreases self@,
    {
        match self {
            Expression::Constant(value) => signed_decimal_text(*value),
            Expression::Symbol(symbol) => symbol.to_string(),
            Expression::OperatorExpression(node) => {
                let operands = node.operands();
                let mut text = "(".to_owned();
                text.append(node.operator().to_string().as_str());
                let mut i: usize = 0;
                while i < operands.len()
                    invariant
                        i <= operands.len(),
                        self@ is Operation,
                        trees(operands@) == self@->operands,
                        text@ == "("@ + sign(self@->operator) + rendered_each(
                            trees(operands@).take(i as int),
                        ),
                    decreases operands.len() - i,
                {
                    assert(trees(operands@).take(i + 1).drop_last() =~= trees(operands@).take(
                        i as int,
                    ));
                    assert(decreases_to!(self@ => self@->operands[i as int]));
                    text.append(" ");
                    text.append(operands[i].to_string().as_str());
                    i += 1;
                }
                assert(trees(operands@).take(operands.len() as int) =~= trees(operands@));
                text.append(")");
                text
            },
        }
    }
}

impl OperatorExpression {
    /// The operator's sign followed by the operands, separated by a comma
    /// and a space, such as `+x, (* 2 y)`.
    pub fn to_string(&self) -> (text: String)
        ensures
            text@ == sign(self@->operator) + listed(self@->operands),
    {
        let operands = self.operands();
        let mut text = self.operator().to_string();
        let mut i: usize = 0;
        while i < operands.len()
            invariant
                i <= operands.len(),
                trees(operands@) == self@->operands,
                text@ == sign(self@->operator) + listed(trees(operands@).take(i as int)),
            decreases operands.len() - i,
        {
            assert(trees(operands@).take(i + 1).drop_last() =~= trees(operands@).take(i as int));
            if i > 0 {
                text.append(", ");
            }
            text.append(operands[i].to_string().as_str());
            i += 1;
        }
        assert(trees(operands@).take(operands.len() as int) =~= trees(operands@));
        text
    }
}

} // verus!
