//! Simplification of expressions: the rewrite rules and the pass that
//! applies them.

use vstd::prelude::*;
use crate::collect::{emit, tally};
use crate::expression::{extend_with_copies, trees, Expression};
use crate::form::{
    lemma_factored_tree_sound, lemma_merged_sound, lemma_negation_collapsed_sound,
    lemma_neutral_removed_operands_sound, lemma_simplified_sound,
    lemma_subtraction_removed_sound,
};
use crate::operator::Operator;
use crate::render::rendered;
use crate::rules::{
    factored, flattened, merged, negation_collapsed, neutral_removed, rewritten, simplified,
    simplified_each, subtraction_removed, terms_of, without,
};
use crate::tree::{all_well_formed, Tree};

verus! {

impl Expression {
    /// The operand of the operand, where this expression is the negation of
    /// a negation.
    fn doubly_negated(&self) -> (inner: Option<&Expression>)
        ensures
            match inner {
                Some(expression) => {
                    &&& self@.applies(Operator::Negation, 1)
                    &&& self@->operands[0].applies(Operator::Negation, 1)
                    &&& expression@ == self@->operands[0]->operands[0]
                },
                None => negation_collapsed(self@) == self@,
            },
    {
        if let Expression::OperatorExpression(outer) = self {
            let operands = outer.operands();
            if outer.operator() == Operator::Negation && operands.len() == 1 {
                if let Expression::OperatorExpression(middle) = &operands[0] {
                    let inner = middle.operands();
                    if middle.operator() == Operator::Negation && inner.len() == 1 {
                        assert(operands[0]@ == trees(operands@)[0]);
                        assert(inner[0]@ == trees(inner@)[0]);
                        return Some(&inner[0]);
                    }
                }
            }
        }
        None
    }

    /// Replaces the negation of a negation by what is negated twice. Any
    /// other expression is left unchanged.
    pub fn double_negation(&mut self)
        ensures
            final(self)@ == negation_collapsed(old(self)@),
            old(self)@.well_formed() ==> final(self)@.well_formed(),
    {
        proof {
            self.lemma_view_bounded();
            if self@.well_formed() {
                lemma_negation_collapsed_sound(self@);
            }
        }
        let replacement = match self.doubly_negated() {
            Some(inner) => Some(inner.clone()),
            None => None,
        };
        if let Some(inner) = replacement {
            *self = inner;
        }
    }

    /// The sum that a subtraction is rewritten to, where this expression is
    /// a subtraction with two operands or more.
    fn subtraction_as_sum(&self) -> (sum: Option<Expression>)
        ensures
            match sum {
                Some(expression) => expression@ == subtraction_removed(self@),
                None => subtraction_removed(self@) == self@,
            },
    {
        if let Expression::OperatorExpression(node) = self {
            let operands = node.operands();
            if node.operator() == Operator::Subtraction && operands.len() >= 2 {
                let mut subtrahends: Vec<Expression> = Vec::new();
                extend_with_copies(&mut subtrahends, operands, 1);
                let ghost copied = subtrahends@;
                subtrahends.push(Expression::Constant(0));
                assert(trees(subtrahends@) =~= trees(copied).push(Tree::Constant(0)));
                assert(trees(copied) =~= trees(operands@).skip(1));
                let inner = Expression::node(Operator::Addition, subtrahends);
                let mut negated: Vec<Expression> = Vec::new();
                negated.push(inner);
                assert(trees(negated@) =~= seq![inner@]);
                let negation = Expression::node(Operator::Negation, negated);
                let mut terms: Vec<Expression> = Vec::new();
                terms.push(operands[0].clone());
                terms.push(negation);
                assert(trees(terms@) =~= seq![trees(operands@)[0], negation@]);
                return Some(Expression::node(Operator::Addition, terms));
            }
        }
        None
    }

    /// Rewrites a subtraction `a - b - .. - z` to the sum
    /// `a + -(b + .. + z + 0)`. Any other expression is left unchanged.
    pub fn remove_subtraction(&mut self)
        ensures
            final(self)@ == subtraction_removed(old(self)@),
            old(self)@.well_formed() ==> final(self)@.well_formed(),
    {
        proof {
            self.lemma_view_bounded();
            if self@.well_formed() {
                lemma_subtraction_removed_sound(self@);
            }
        }
        if let Some(sum) = self.subtraction_as_sum() {
            *self = sum;
        }
    }

    /// The node without the operands that equal its operator's neutral
    /// element, where this expression is a node whose operator has one.
    fn without_neutral(&self) -> (reduced: Option<Expression>)
        ensures
            match reduced {
                Some(expression) => expression@ == neutral_removed(self@),
                None => neutral_removed(self@) == self@,
            },
    {
        if let Expression::OperatorExpression(node) = self {
            let operator = node.operator();
            if let Some(neutral) = operator.neutral_element() {
                let operands = node.operands();
                let mut kept: Vec<Expression> = Vec::new();
                let mut i: usize = 0;
                while i < operands.len()
                    invariant
                        i <= operands.len(),
                        trees(kept@) == without(trees(operands@).take(i as int), neutral@),
                    decreases operands.len() - i,
                {
                    let ghost earlier = kept@;
                    assert(trees(operands@).take(i + 1).drop_last() =~= trees(operands@).take(
                        i as int,
                    ));
                    if operands[i] != neutral {
                        kept.push(operands[i].clone());
                        assert(trees(kept@) =~= trees(earlier).push(operands[i as int]@));
                    }
                    i += 1;
                }
                assert(trees(operands@).take(operands.len() as int) =~= trees(operands@));
                return Some(Expression::node(operator, kept));
            }
        }
        None
    }

    /// Drops from a sum every operand equal to `0` and from a product every
    /// operand equal to `1`. Any other expression is left unchanged.
    ///
    /// This may leave a sum or a product with fewer than two operands;
    /// [`Expression::factor_out`] turns such a node into its single operand
    /// or into the neutral element.
    pub fn remove_neutral_element(&mut self)
        ensures
            final(self)@ == neutral_removed(old(self)@),
            old(self)@.well_formed() && final(self)@ is Operation ==> all_well_formed(
                final(self)@->operands,
            ),
    {
        proof {
            self.lemma_view_bounded();
            if self@.well_formed() {
                lemma_neutral_removed_operands_sound(self@);
            }
        }
        if let Some(reduced) = self.without_neutral() {
            *self = reduced;
        }
    }

    /// The node with each operand of the same operator replaced by that
    /// operand's operands, where this expression is a sum or a product.
    fn flattened_node(&self) -> (flat: Option<Expression>)
        ensures
            match flat {
                Some(expression) => expression@ == merged(self@),
                None => merged(self@) == self@,
            },
    {
        if let Expression::OperatorExpression(node) = self {
            let operator = node.operator();
            if operator.is_associative() {
                let operands = node.operands();
                let mut spliced: Vec<Expression> = Vec::new();
                let mut i: usize = 0;
                while i < operands.len()
                    invariant
                        i <= operands.len(),
                        trees(spliced@) == flattened(operator, trees(operands@).take(i as int)),
                    decreases operands.len() - i,
                {
                    let ghost earlier = spliced@;
                    assert(trees(operands@).take(i + 1).drop_last() =~= trees(operands@).take(
                        i as int,
                    ));
                    match &operands[i] {
                        Expression::OperatorExpression(child) if child.operator() == operator => {
                            extend_with_copies(&mut spliced, child.operands(), 0);
                        },
                        other => {
                            spliced.push(other.clone());
                            assert(trees(spliced@) =~= trees(earlier) + seq![other@]);
                        },
                    }
                    i += 1;
                }
                assert(trees(operands@).take(operands.len() as int) =~= trees(operands@));
                return Some(Expression::node(operator, spliced));
            }
        }
        None
    }

    /// Flattens a sum of sums or a product of products by one level: each
    /// direct operand with the node's own operator is replaced, in place,
    /// by its operands. Any other expression is left unchanged.
    pub fn merge(&mut self)
        ensures
            final(self)@ == merged(old(self)@),
            old(self)@.well_formed() ==> final(self)@.well_formed(),
    {
        proof {
            self.lemma_view_bounded();
            if self@.well_formed() {
                lemma_merged_sound(self@);
            }
        }
        if let Some(flat) = self.flattened_node() {
            *self = flat;
        }
    }

    /// What term collection turns this expression into, where this
    /// expression is a sum or a product whose coefficients fit.
    fn collected_node(&self) -> (gathered: Option<Expression>)
        ensures
            match gathered {
                Some(expression) => expression@ == factored(self@),
                None => factored(self@) == self@,
            },
    {
        if let Expression::OperatorExpression(node) = self {
            let operator = node.operator();
            if let Some(partner) = operator.is_distributive_under() {
                let operands = node.operands();
                if let Some(tallies) = tally(operator, partner, operands) {
                    let mut remaining = emit(
                        partner,
                        &tallies,
                        Ghost(terms_of(operator, partner, trees(operands@))),
                    );
                    if remaining.len() == 1 {
                        return remaining.pop();
                    }
                    if remaining.len() == 0 {
                        if let Some(neutral) = operator.neutral_element() {
                            return Some(neutral);
                        }
                    }
                    return Some(Expression::node(operator, remaining));
                }
            }
        }
        None
    }

    /// Collects the operands of a sum or a product that share a base into
    /// one scaled term: `(+ x (* 3 x) y)` becomes `(+ (* 4 x) y)`, and
    /// `(* y y)` becomes `(^ 2 y)`. The terms come out in the order in which
    /// their bases first occur among the operands.
    ///
    /// A base whose coefficients cancel is dropped. A single remaining term
    /// replaces the node; when none remains the node becomes the operator's
    /// neutral element. Where a running coefficient would leave the range
    /// of a constant the expression is left unchanged, as is any expression
    /// that is not a sum or a product.
    pub fn factor_out(&mut self)
        ensures
            final(self)@ == factored(old(self)@),
            old(self)@.well_formed() ==> final(self)@.well_formed(),
    {
        proof {
            self.lemma_view_bounded();
            if self@.well_formed() {
                lemma_factored_tree_sound(self@);
            }
        }
        if let Some(gathered) = self.collected_node() {
            *self = gathered;
        }
    }

    /// Simplifies `other` and tells whether this expression and the
    /// simplified `other` are written the same in prefix notation. This
    /// expression is left as it is.
    pub fn is_equal(&mut self, other: &mut Expression) -> (equal: bool)
        ensures
            final(self)@ == old(self)@,
            final(other)@ == simplified(old(other)@),
            equal == (rendered(old(self)@) == rendered(simplified(old(other)@))),
    {
        other.simplify();
        self.to_string() == other.to_string()
    }

    /// Simplifies the expression in one pass from the leaves up: the
    /// operands of a node are simplified first, then the rules for the
    /// node's operator are applied to it, once.
    pub fn simplify(&mut self)
        ensures
            final(self)@ == simplified(old(self)@),
            old(self)@.well_formed() ==> final(self)@.well_formed(),
        decreases old(self)@,
    {
        proof {
            self.lemma_view_bounded();
            if self@.well_formed() {
                lemma_simplified_sound(self@);
            }
        }
        let mut taken = Expression::Constant(0);
        core::mem::swap(self, &mut taken);
        match taken {
            Expression::OperatorExpression(node) => {
                let ghost whole = node@;
                let (operator, mut operands) = node.into_parts();
                let mut i: usize = 0;
                while i < operands.len()
                    invariant
                        i <= operands.len(),
                        whole is Operation,
                        whole == old(self)@,
                        operands.len() == whole->operands.len(),
                        forall|j: int|
                            0 <= j < i ==> operands[j]@ == simplified(whole->operands[j]),
                        forall|j: int|
                            i <= j < operands.len() ==> operands[j]@ == whole->operands[j],
                    decreases operands.len() - i,
                {
                    assert(decreases_to!(whole => whole->operands[i as int]));
                    operands[i].simplify();
                    i += 1;
                }
                assert(trees(operands@) =~= simplified_each(whole->operands));
                *self = Expression::node(operator, operands);
                assert(simplified(whole) == rewritten(self@));
                match operator {
                    Operator::Negation => {
                        self.double_negation();
                    },
                    Operator::Subtraction => {
                        self.remove_subtraction();
                    },
                    Operator::Addition | Operator::Multiplication => {
                        self.remove_neutral_element();
                        self.merge();
                        self.factor_out();
                    },
                    _ => {},
                }
            },
            leaf => {
                *self = leaf;
            },
        }
    }
}

} // verus!
