//! The rewrite rules, as functions on trees.
//!
//! Each rule leaves a tree that it does not apply to unchanged.

use vstd::prelude::*;
use crate::operator::Operator;
use crate::tree::{representable, Tree};

verus! {

/// Double negation: `-(-x)` becomes `x`.
pub open spec fn negation_collapsed(tree: Tree) -> Tree {
    if tree.applies(Operator::Negation, 1) && tree->operands[0].applies(Operator::Negation, 1) {
        tree->operands[0]->operands[0]
    } else {
        tree
    }
}

/// Subtraction elimination: `a - b - .. - z` becomes `a + -(b + .. + z + 0)`.
/// The trailing zero keeps the inner sum at two operands or more.
pub open spec fn subtraction_removed(tree: Tree) -> Tree {
    if tree is Operation && tree->operator == Operator::Subtraction && tree->operands.len() >= 2 {
        let subtrahends = Tree::Operation {
            operator: Operator::Addition,
            operands: tree->operands.skip(1).push(Tree::Constant(0)),
        };
        let negated = Tree::Operation { operator: Operator::Negation, operands: seq![subtrahends] };
        Tree::Operation { operator: Operator::Addition, operands: seq![tree->operands[0], negated] }
    } else {
        tree
    }
}

/// The trees of the sequence that differ from `unwanted`, in their order.
pub open spec fn without(trees: Seq<Tree>, unwanted: Tree) -> Seq<Tree>
    decreases trees.len(),
{
    if trees.len() == 0 {
        Seq::empty()
    } else if trees.last() == unwanted {
        without(trees.drop_last(), unwanted)
    } else {
        without(trees.drop_last(), unwanted).push(trees.last())
    }
}

/// Neutral-element removal: a sum loses every operand equal to `0`, a
/// product every operand equal to `1`.
pub open spec fn neutral_removed(tree: Tree) -> Tree {
    match tree {
        Tree::Operation { operator, operands } => match operator.spec_neutral_element() {
            Some(neutral) => Tree::Operation { operator, operands: without(operands, neutral) },
            None => tree,
        },
        _ => tree,
    }
}

/// What an operand of an `operator` node contributes to the flattened
/// operand list: the operands of a node with the same operator, else the
/// tree itself.
pub open spec fn exposed(operator: Operator, tree: Tree) -> Seq<Tree> {
    if tree is Operation && tree->operator == operator {
        tree->operands
    } else {
        seq![tree]
    }
}

/// The operands of an `operator` node after each direct operand with the
/// same operator has been replaced, in place, by its own operands.
pub open spec fn flattened(operator: Operator, trees: Seq<Tree>) -> Seq<Tree>
    decreases trees.len(),
{
    if trees.len() == 0 {
        Seq::empty()
    } else {
        flattened(operator, trees.drop_last()) + exposed(operator, trees.last())
    }
}

/// Associative flattening: in a sum or a product, a direct operand with the
/// same operator is replaced by its operands. One level is exposed.
pub open spec fn merged(tree: Tree) -> Tree {
    match tree {
        Tree::Operation { operator, operands } => if operator.is_associative() {
            Tree::Operation { operator, operands: flattened(operator, operands) }
        } else {
            tree
        },
        _ => tree,
    }
}

/// A base tree taken a whole number of times.
pub struct Term {
    pub base: Tree,
    pub coefficient: int,
}

/// How one operand of an `operator` node counts in term collection, where
/// `partner` is the operator that scaled terms are written with.
///
/// - The inverse operator applied to `x` counts as `x` taken `-1` times.
/// - The partner applied to two operands of which exactly one is a constant
///   `c` counts as the other operand taken `c` times.
/// - Anything else counts as itself, once.
pub open spec fn term_of(operator: Operator, partner: Operator, tree: Tree) -> Term {
    if tree is Operation && operator.spec_inverse() == Some(tree->operator) && tree->operands.len()
        == 1 {
        Term { base: tree->operands[0], coefficient: -1 }
    } else if tree.applies(partner, 2) && tree->operands[0] is Constant && !(tree->operands[1]
        is Constant) {
        Term { base: tree->operands[1], coefficient: tree->operands[0]->Constant_0 }
    } else if tree.applies(partner, 2) && tree->operands[1] is Constant && !(tree->operands[0]
        is Constant) {
        Term { base: tree->operands[0], coefficient: tree->operands[1]->Constant_0 }
    } else {
        Term { base: tree, coefficient: 1 }
    }
}

/// The terms that the operands of an `operator` node count as, in order.
pub open spec fn terms_of(operator: Operator, partner: Operator, trees: Seq<Tree>) -> Seq<Term> {
    Seq::new(trees.len(), |i: int| term_of(operator, partner, trees[i]))
}

/// The sum of the coefficients of the terms with the given base.
pub open spec fn coefficient(terms: Seq<Term>, base: Tree) -> int
    decreases terms.len(),
{
    if terms.len() == 0 {
        0
    } else if terms.last().base == base {
        coefficient(terms.drop_last(), base) + terms.last().coefficient
    } else {
        coefficient(terms.drop_last(), base)
    }
}

/// The distinct bases of the terms, each at the place of its first
/// occurrence.
pub open spec fn bases(terms: Seq<Term>) -> Seq<Tree>
    decreases terms.len(),
{
    if terms.len() == 0 {
        Seq::empty()
    } else if bases(terms.drop_last()).contains(terms.last().base) {
        bases(terms.drop_last())
    } else {
        bases(terms.drop_last()).push(terms.last().base)
    }
}

/// Whether, as the terms are added up one after the other, the running
/// coefficient of every base stays representable.
pub open spec fn fits(terms: Seq<Term>) -> bool
    decreases terms.len(),
{
    terms.len() > 0 ==> {
        &&& fits(terms.drop_last())
        &&& representable(coefficient(terms, terms.last().base))
    }
}

/// A base taken `coefficient` times, written with `partner`: the base
/// itself when taken once, else `partner` applied to the coefficient and
/// the base.
pub open spec fn scaled(partner: Operator, coefficient: int, base: Tree) -> Tree {
    if coefficient == 1 {
        base
    } else {
        Tree::Operation { operator: partner, operands: seq![Tree::Constant(coefficient), base] }
    }
}

/// For each of `bases` whose coefficient among `terms` is not zero, in
/// order, the base scaled by that coefficient.
pub open spec fn collected(partner: Operator, terms: Seq<Term>, bases: Seq<Tree>) -> Seq<Tree>
    decreases bases.len(),
{
    if bases.len() == 0 {
        Seq::empty()
    } else if coefficient(terms, bases.last()) == 0 {
        collected(partner, terms, bases.drop_last())
    } else {
        collected(partner, terms, bases.drop_last()).push(
            scaled(partner, coefficient(terms, bases.last()), bases.last()),
        )
    }
}

/// Term collection: the operands of a sum or a product that share a base
/// are gathered into one scaled term. The terms come out in the order in
/// which their bases first occur; a base whose coefficients cancel is
/// dropped. A single remaining term replaces the node, and when none
/// remains the node becomes the operator's neutral element. A node whose
/// running coefficients do not all fit a constant is left as it is.
pub open spec fn factored(tree: Tree) -> Tree {
    match tree {
        Tree::Operation { operator, operands } => match operator.spec_is_distributive_under() {
            Some(partner) => {
                let terms = terms_of(operator, partner, operands);
                let remaining = collected(partner, terms, bases(terms));
                if !fits(terms) {
                    tree
                } else if remaining.len() == 1 {
                    remaining[0]
                } else if remaining.len() == 0 && operator.spec_neutral_element() is Some {
                    operator.spec_neutral_element()->Some_0
                } else {
                    Tree::Operation { operator, operands: remaining }
                }
            },
            None => tree,
        },
        _ => tree,
    }
}

/// The rule sequence that fits the operator at the root of `tree`, applied
/// once to the root.
pub open spec fn rewritten(tree: Tree) -> Tree {
    match tree {
        Tree::Operation { operator: Operator::Negation, .. } => negation_collapsed(tree),
        Tree::Operation { operator: Operator::Subtraction, .. } => subtraction_removed(tree),
        Tree::Operation { operator: Operator::Addition, .. }
        | Tree::Operation { operator: Operator::Multiplication, .. } => factored(
            merged(neutral_removed(tree)),
        ),
        _ => tree,
    }
}

/// Each tree of the sequence, simplified.
pub open spec fn simplified_each(trees: Seq<Tree>) -> Seq<Tree>
    decreases trees, 0nat,
{
    Seq::new(
        trees.len(),
        |i: int|
            if 0 <= i < trees.len() {
                simplified(trees[i])
            } else {
                trees[i]
            },
    )
}

/// One pass of simplification: the operands are simplified first, then the
/// rules for the node's operator are applied to the node, once.
pub open spec fn simplified(tree: Tree) -> Tree
    decreases tree, 1nat,
{
    match tree {
        Tree::Operation { operator, operands } => rewritten(
            Tree::Operation { operator, operands: simplified_each(operands) },
        ),
        _ => tree,
    }
}

} // verus!
