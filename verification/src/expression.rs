//! Expression trees and their construction.

use vstd::prelude::*;
use crate::operator::Operator;
use crate::symbol::Symbol;
use crate::tree::Tree;

verus! {

/// An operator applied to an ordered list of operands.
#[derive(Debug, Hash)]
pub struct OperatorExpression {
    operator: Operator,
    operands: Vec<Expression>,
}

/// An algebraic expression: an integer constant, a symbol, or an operator
/// applied to operands.
#[derive(Debug, Hash)]
pub enum Expression {
    Constant(i128),
    Symbol(Symbol),
    OperatorExpression(OperatorExpression),
}

/// The trees that a sequence of expressions stands for, in the same order.
pub open spec fn trees(expressions: Seq<Expression>) -> Seq<Tree> {
    Seq::new(expressions.len(), |i: int| expressions[i]@)
}

impl OperatorExpression {
    /// The operator at the head of the node.
    pub closed spec fn spec_operator(&self) -> Operator {
        self.operator
    }

    /// The trees of the operands, in order.
    pub closed spec fn spec_operands(&self) -> Seq<Tree>
        decreases self, 0nat,
    {
        Seq::new(
            self.operands.len() as nat,
            |i: int|
                if 0 <= i < self.operands.len() {
                    self.operands[i].view()
                } else {
                    arbitrary()
                },
        )
    }
}

impl View for OperatorExpression {
    type V = Tree;

    /// The operation node with this operator and the trees of the operands.
    open spec fn view(&self) -> Tree
        decreases self, 1nat,
    {
        Tree::Operation { operator: self.spec_operator(), operands: self.spec_operands() }
    }
}

impl View for Expression {
    type V = Tree;

    /// The tree that the expression stands for.
    open spec fn view(&self) -> Tree
        decreases self, 2nat,
    {
        match self {
            Expression::Constant(value) => Tree::Constant(*value as int),
            Expression::Symbol(symbol) => Tree::Symbol(symbol@),
            Expression::OperatorExpression(node) => node.view(),
        }
    }
}

impl OperatorExpression {
    /// A node from an operator and operands, without the arity check.
    pub(crate) fn from_parts(operator: Operator, operands: Vec<Expression>) -> (node:
        OperatorExpression)
        ensures
            node@ == (Tree::Operation { operator, operands: trees(operands@) }),
    {
        assert(trees(operands@) =~= (OperatorExpression { operator, operands })@->operands);
        OperatorExpression { operator, operands }
    }

    /// The operator and the operands that the node was made of.
    pub(crate) fn into_parts(self) -> (parts: (Operator, Vec<Expression>))
        ensures
            self@ == (Tree::Operation { operator: parts.0, operands: trees(parts.1@) }),
    {
        assert(trees(self.operands@) =~= self@->operands);
        (self.operator, self.operands)
    }

    /// The operator at the head of the node.
    pub(crate) fn operator(&self) -> (operator: Operator)
        ensures
            operator == self.spec_operator(),
    {
        self.operator
    }

    /// The operands of the node, in order.
    pub(crate) fn operands(&self) -> (operands: &Vec<Expression>)
        ensures
            trees(operands@) == self.spec_operands(),
    {
        assert(trees(self.operands@) =~= self@->operands);
        &self.operands
    }
}

impl Expression {
    /// Every constant of the tree that an expression stands for fits.
    pub proof fn lemma_view_bounded(&self)
        ensures
            self@.bounded(),
        decreases self,
    {
        match self {
            Expression::OperatorExpression(node) => {
                assert forall|i: int| 0 <= i < node.spec_operands().len() implies (
                #[trigger] node.spec_operands()[i]).bounded() by {
                    node.operands[i].lemma_view_bounded();
                }
                assert(self@->operands == node.spec_operands());
            },
            _ => {},
        }
    }

    /// The expression that applies `operator` to `operands`, without the
    /// arity check.
    pub(crate) fn node(operator: Operator, operands: Vec<Expression>) -> (expression: Expression)
        ensures
            expression@ == (Tree::Operation { operator, operands: trees(operands@) }),
    {
        Expression::OperatorExpression(OperatorExpression::from_parts(operator, operands))
    }

    /// Whether the two expressions stand for the same tree: the same shape,
    /// the same leaves, the same operands in the same order.
    pub(crate) fn is_same(&self, other: &Expression) -> (same: bool)
        ensures
            same == (self@ == other@),
        decreases self,
    {
        match (self, other) {
            (Expression::Constant(a), Expression::Constant(b)) => *a == *b,
            (Expression::Symbol(a), Expression::Symbol(b)) => a == b,
            (Expression::OperatorExpression(a), Expression::OperatorExpression(b)) => a.is_same(
                b,
            ),
            _ => false,
        }
    }
}

impl OperatorExpression {
    /// Whether the two nodes have the same operator and the same operands in
    /// the same order.
    pub(crate) fn is_same(&self, other: &OperatorExpression) -> (same: bool)
        ensures
            same == (self@ == other@),
        decreases self,
    {
        if self.operator != other.operator || self.operands.len() != other.operands.len() {
            assert(self@->operands.len() == self.operands.len());
            assert(other@->operands.len() == other.operands.len());
            return false;
        }
        let mut i: usize = 0;
        while i < self.operands.len()
            invariant
                i <= self.operands.len(),
                self.operands.len() == other.operands.len(),
                forall|j: int| 0 <= j < i ==> self.operands[j]@ == other.operands[j]@,
            decreases self.operands.len() - i,
        {
            if !self.operands[i].is_same(&other.operands[i]) {
                assert(self@->operands[i as int] != other@->operands[i as int]);
                return false;
            }
            i += 1;
        }
        assert(self@->operands =~= other@->operands);
        true
    }
}

impl Clone for Expression {
    /// A separate expression that stands for the same tree.
    fn clone(&self) -> (copy: Expression)
        ensures
            copy@ == self@,
        decreases self,
    {
        match self {
            Expression::Constant(value) => Expression::Constant(*value),
            Expression::Symbol(symbol) => Expression::Symbol(symbol.clone()),
            Expression::OperatorExpression(node) => Expression::OperatorExpression(node.clone()),
        }
    }
}

impl Clone for OperatorExpression {
    /// A separate node that stands for the same tree.
    fn clone(&self) -> (copy: OperatorExpression)
        ensures
            copy@ == self@,
        decreases self,
    {
        let mut operands: Vec<Expression> = Vec::new();
        let mut i: usize = 0;
        while i < self.operands.len()
            invariant
                i <= self.operands.len(),
                operands.len() == i,
                forall|j: int| 0 <= j < i ==> operands[j]@ == self.operands[j]@,
            decreases self.operands.len() - i,
        {
            operands.push(self.operands[i].clone());
            i += 1;
        }
        assert(trees(operands@) =~= self@->operands);
        OperatorExpression::from_parts(self.operator, operands)
    }
}

/// Appends to `target` a copy of each expression of `source` from the
/// index `start` on.
pub(crate) fn extend_with_copies(
    target: &mut Vec<Expression>,
    source: &Vec<Expression>,
    start: usize,
)
    requires
        start <= source.len(),
    ensures
        trees(final(target)@) == trees(old(target)@) + trees(source@).skip(start as int),
{
    let mut i: usize = start;
    while i < source.len()
        invariant
            start <= i <= source.len(),
            trees(target@) == trees(old(target)@) + trees(source@).subrange(start as int, i as int),
        decreases source.len() - i,
    {
        let ghost earlier = target@;
        target.push(source[i].clone());
        assert(trees(target@) =~= trees(earlier).push(source[i as int]@));
        assert(trees(source@).subrange(start as int, i + 1) =~= trees(source@).subrange(
            start as int,
            i as int,
        ).push(source[i as int]@));
        i += 1;
    }
    assert(trees(source@).subrange(start as int, source.len() as int) =~= trees(source@).skip(
        start as int,
    ));
}

} // verus!
