//! The mathematical model of an expression.

use vstd::prelude::*;
use crate::operator::Operator;

verus! {

/// An expression as a mathematical value: a constant, a symbol named by a
/// sequence of characters, or an operator applied to a sequence of trees.
/// Two trees are equal exactly when they have the same shape, the same
/// leaves and the same operands in the same order.
pub enum Tree {
    Constant(int),
    Symbol(Seq<char>),
    Operation { operator: Operator, operands: Seq<Tree> },
}

/// Whether an integer can be held by a constant of an expression.
pub open spec fn representable(value: int) -> bool {
    i128::MIN <= value <= i128::MAX
}

impl Tree {
    /// Whether the tree is a constant or a symbol.
    pub open spec fn is_leaf(self) -> bool {
        !(self is Operation)
    }

    /// Whether the tree is `operator` applied to exactly `count` operands.
    pub open spec fn applies(self, operator: Operator, count: nat) -> bool {
        &&& self is Operation
        &&& self->operator == operator
        &&& self->operands.len() == count
    }

    /// Whether every operator node in the tree has a number of operands
    /// that its operator admits.
    pub open spec fn well_formed(self) -> bool
        decreases self,
    {
        match self {
            Tree::Operation { operator, operands } => {
                &&& operator.arity().admits(operands.len())
                &&& forall|i: int| 0 <= i < operands.len() ==> (#[trigger] operands[i]).well_formed()
            },
            _ => true,
        }
    }

    /// Whether every constant in the tree can be held by an expression.
    pub open spec fn bounded(self) -> bool
        decreases self,
    {
        match self {
            Tree::Constant(value) => representable(value),
            Tree::Symbol(_) => true,
            Tree::Operation { operands, .. } => forall|i: int|
                0 <= i < operands.len() ==> (#[trigger] operands[i]).bounded(),
        }
    }

    /// Whether the tree is well formed and all its constants fit.
    pub open spec fn sound(self) -> bool {
        self.well_formed() && self.bounded()
    }
}

/// Whether every tree of the sequence is well formed.
pub open spec fn all_well_formed(trees: Seq<Tree>) -> bool {
    forall|i: int| 0 <= i < trees.len() ==> (#[trigger] trees[i]).well_formed()
}

/// Whether every tree of the sequence is sound.
pub open spec fn all_sound(trees: Seq<Tree>) -> bool {
    forall|i: int| 0 <= i < trees.len() ==> (#[trigger] trees[i]).sound()
}

} // verus!
