//! Simplification keeps expressions sound: every operator node of the
//! result has as many operands as its operator admits, and every constant
//! fits.

use vstd::prelude::*;
use crate::operator::Operator;
use crate::rules::{
    bases, coefficient, collected, exposed, factored, fits, flattened, merged,
    negation_collapsed, neutral_removed, rewritten, scaled, simplified, simplified_each,
    subtraction_removed, term_of, terms_of, without, Term,
};
use crate::tree::{all_sound, representable, Tree};

verus! {

/// Collapsing a double negation keeps a sound tree sound.
pub proof fn lemma_negation_collapsed_sound(tree: Tree)
    requires
        tree.sound(),
    ensures
        negation_collapsed(tree).sound(),
{
    if tree.applies(Operator::Negation, 1) && tree->operands[0].applies(Operator::Negation, 1) {
        let middle = tree->operands[0];
        assert(middle.sound());
        assert(middle->operands[0].sound());
    }
}

/// Rewriting a subtraction keeps a sound tree sound.
pub proof fn lemma_subtraction_removed_sound(tree: Tree)
    requires
        tree.sound(),
    ensures
        subtraction_removed(tree).sound(),
{
    if tree is Operation && tree->operator == Operator::Subtraction && tree->operands.len() >= 2 {
        let operands = tree->operands;
        let rest = operands.skip(1).push(Tree::Constant(0));
        assert forall|i: int| 0 <= i < rest.len() implies (#[trigger] rest[i]).sound() by {
            if i < rest.len() - 1 {
                assert(rest[i] == operands[i + 1]);
                assert(operands[i + 1].sound());
            }
        }
        let inner = Tree::Operation { operator: Operator::Addition, operands: rest };
        assert(inner.sound());
        let negated = Tree::Operation { operator: Operator::Negation, operands: seq![inner] };
        assert(negated.sound());
        assert(operands[0].sound());
        let outer = seq![operands[0], negated];
        assert forall|i: int| 0 <= i < outer.len() implies (#[trigger] outer[i]).sound() by {}
    }
}

/// What is left of sound trees after some are dropped is sound.
pub proof fn lemma_without_sound(trees: Seq<Tree>, unwanted: Tree)
    requires
        all_sound(trees),
    ensures
        all_sound(without(trees, unwanted)),
    decreases trees.len(),
{
    if trees.len() > 0 {
        assert(all_sound(trees.drop_last())) by {
            assert forall|i: int| 0 <= i < trees.drop_last().len() implies (
            #[trigger] trees.drop_last()[i]).sound() by {
                assert(trees[i].sound());
            }
        }
        lemma_without_sound(trees.drop_last(), unwanted);
        assert(trees.last().sound());
    }
}

/// Flattening sound operands leaves sound operands.
pub proof fn lemma_flattened_sound(operator: Operator, trees: Seq<Tree>)
    requires
        all_sound(trees),
    ensures
        all_sound(flattened(operator, trees)),
    decreases trees.len(),
{
    if trees.len() > 0 {
        assert(all_sound(trees.drop_last())) by {
            assert forall|i: int| 0 <= i < trees.drop_last().len() implies (
            #[trigger] trees.drop_last()[i]).sound() by {
                assert(trees[i].sound());
            }
        }
        lemma_flattened_sound(operator, trees.drop_last());
        let last = trees.last();
        assert(last.sound());
        let shown = exposed(operator, last);
        assert forall|i: int| 0 <= i < shown.len() implies (#[trigger] shown[i]).sound() by {
            if last is Operation && last->operator == operator {
                assert(last->operands[i].sound());
            }
        }
    }
}

/// Flattening the sound operands of a sum or a product does not make them
/// fewer.
pub proof fn lemma_flattened_long(operator: Operator, trees: Seq<Tree>)
    requires
        operator == Operator::Addition || operator == Operator::Multiplication,
        all_sound(trees),
    ensures
        flattened(operator, trees).len() >= trees.len(),
    decreases trees.len(),
{
    if trees.len() > 0 {
        assert(all_sound(trees.drop_last())) by {
            assert forall|i: int| 0 <= i < trees.drop_last().len() implies (
            #[trigger] trees.drop_last()[i]).sound() by {
                assert(trees[i].sound());
            }
        }
        lemma_flattened_long(operator, trees.drop_last());
        assert(trees.last().sound());
    }
}

/// Neutral-element removal keeps the operands of a sound tree sound. The
/// node itself may be left with fewer operands than its operator admits.
pub proof fn lemma_neutral_removed_operands_sound(tree: Tree)
    requires
        tree.sound(),
    ensures
        neutral_removed(tree) is Operation ==> all_sound(neutral_removed(tree)->operands),
        !(tree is Operation) ==> neutral_removed(tree) == tree,
{
    match tree {
        Tree::Operation { operator, operands } => {
            assert(all_sound(operands));
            if operator.spec_neutral_element() is Some {
                lemma_without_sound(operands, operator.spec_neutral_element()->Some_0);
            }
        },
        _ => {},
    }
}

/// Flattening keeps a sound tree sound.
pub proof fn lemma_merged_sound(tree: Tree)
    requires
        tree.sound(),
    ensures
        merged(tree).sound(),
{
    match tree {
        Tree::Operation { operator, operands } => {
            assert(all_sound(operands));
            if operator.spec_is_associative() {
                lemma_flattened_sound(operator, operands);
                lemma_flattened_long(operator, operands);
            }
        },
        _ => {},
    }
}

/// Term collection keeps a sound tree sound.
pub proof fn lemma_factored_tree_sound(tree: Tree)
    requires
        tree.sound(),
    ensures
        factored(tree).sound(),
{
    match tree {
        Tree::Operation { operator, operands } => {
            assert(all_sound(operands));
            if operator == Operator::Addition || operator == Operator::Multiplication {
                lemma_factored_sound(operator, operands);
            }
        },
        _ => {},
    }
}

/// The term that a sound tree counts as has a sound base and a coefficient
/// that fits.
pub proof fn lemma_term_sound(operator: Operator, partner: Operator, tree: Tree)
    requires
        tree.sound(),
    ensures
        term_of(operator, partner, tree).base.sound(),
        representable(term_of(operator, partner, tree).coefficient),
{
    if tree is Operation {
        let operands = tree->operands;
        if operands.len() >= 1 {
            assert(operands[0].sound());
        }
        if operands.len() >= 2 {
            assert(operands[1].sound());
        }
    }
}

/// The listed bases of terms with sound bases are sound.
pub proof fn lemma_bases_sound(terms: Seq<Term>)
    requires
        forall|i: int| 0 <= i < terms.len() ==> (#[trigger] terms[i]).base.sound(),
    ensures
        all_sound(bases(terms)),
    decreases terms.len(),
{
    if terms.len() > 0 {
        assert forall|i: int| 0 <= i < terms.drop_last().len() implies (
        #[trigger] terms.drop_last()[i]).base.sound() by {
            assert(terms[i].base.sound());
        }
        lemma_bases_sound(terms.drop_last());
        assert(terms.last().base.sound());
    }
}

/// Where the running coefficients fit, the coefficient of every listed base
/// fits.
pub proof fn lemma_listed_coefficients_fit(terms: Seq<Term>)
    requires
        fits(terms),
    ensures
        forall|j: int|
            0 <= j < bases(terms).len() ==> representable(
                coefficient(terms, #[trigger] bases(terms)[j]),
            ),
    decreases terms.len(),
{
    if terms.len() > 0 {
        let earlier = terms.drop_last();
        lemma_listed_coefficients_fit(earlier);
        assert forall|j: int| 0 <= j < bases(terms).len() implies representable(
            coefficient(terms, #[trigger] bases(terms)[j]),
        ) by {
            let base = bases(terms)[j];
            if base != terms.last().base {
                assert(j < bases(earlier).len());
                assert(bases(earlier)[j] == base);
            }
        }
    }
}

/// A single term whose coefficient fits can be counted.
pub proof fn lemma_short_fits(terms: Seq<Term>)
    requires
        terms.len() <= 1,
        forall|i: int| 0 <= i < terms.len() ==> representable((#[trigger] terms[i]).coefficient),
    ensures
        fits(terms),
{
    if terms.len() == 1 {
        assert(terms.drop_last().len() == 0);
        assert(fits(terms.drop_last()));
        assert(coefficient(terms.drop_last(), terms.last().base) == 0);
        assert(representable(terms[0].coefficient));
    }
}

/// Sound bases scaled by coefficients that fit are sound.
pub proof fn lemma_collected_sound(partner: Operator, terms: Seq<Term>, listed: Seq<Tree>)
    requires
        partner == Operator::Multiplication || partner == Operator::Exponentiation,
        all_sound(listed),
        forall|j: int|
            0 <= j < listed.len() ==> representable(coefficient(terms, #[trigger] listed[j])),
    ensures
        all_sound(collected(partner, terms, listed)),
    decreases listed.len(),
{
    if listed.len() > 0 {
        let earlier = listed.drop_last();
        assert forall|j: int| 0 <= j < earlier.len() implies (#[trigger] earlier[j]).sound()
            && representable(coefficient(terms, earlier[j])) by {
            assert(listed[j].sound());
        }
        lemma_collected_sound(partner, terms, earlier);
        let base = listed.last();
        let count = coefficient(terms, base);
        assert(base.sound());
        assert(representable(count));
        if count != 0 && count != 1 {
            let pair = seq![Tree::Constant(count), base];
            assert forall|i: int| 0 <= i < pair.len() implies (#[trigger] pair[i]).sound() by {}
            assert(scaled(partner, count, base).sound());
        }
    }
}

/// Term collection turns a sum or a product of sound operands into a sound
/// tree, however many operands there are.
pub proof fn lemma_factored_sound(operator: Operator, operands: Seq<Tree>)
    requires
        operator == Operator::Addition || operator == Operator::Multiplication,
        all_sound(operands),
    ensures
        factored(Tree::Operation { operator, operands }).sound(),
{
    let tree = Tree::Operation { operator, operands };
    let partner = operator.spec_is_distributive_under()->Some_0;
    let terms = terms_of(operator, partner, operands);
    assert forall|i: int| 0 <= i < terms.len() implies (#[trigger] terms[i]).base.sound()
        && representable(terms[i].coefficient) by {
        assert(operands[i].sound());
        lemma_term_sound(operator, partner, operands[i]);
    }
    if !fits(terms) {
        if terms.len() <= 1 {
            lemma_short_fits(terms);
        }
        assert(operands.len() >= 2);
    } else {
        lemma_bases_sound(terms);
        lemma_listed_coefficients_fit(terms);
        lemma_collected_sound(partner, terms, bases(terms));
        let remaining = collected(partner, terms, bases(terms));
        if remaining.len() == 1 {
            assert(remaining[0].sound());
        }
    }
}

/// The rules for the operator at the root keep a sound tree sound.
pub proof fn lemma_rewritten_sound(tree: Tree)
    requires
        tree.sound(),
    ensures
        rewritten(tree).sound(),
{
    match tree {
        Tree::Operation { operator: Operator::Negation, .. } => {
            lemma_negation_collapsed_sound(tree);
        },
        Tree::Operation { operator: Operator::Subtraction, .. } => {
            lemma_subtraction_removed_sound(tree);
        },
        Tree::Operation { operator, operands } => {
            if operator == Operator::Addition || operator == Operator::Multiplication {
                let neutral = operator.spec_neutral_element()->Some_0;
                assert(all_sound(operands));
                lemma_without_sound(operands, neutral);
                let kept = without(operands, neutral);
                assert(neutral_removed(tree) == Tree::Operation { operator, operands: kept });
                lemma_flattened_sound(operator, kept);
                let flat = flattened(operator, kept);
                assert(merged(neutral_removed(tree)) == Tree::Operation {
                    operator,
                    operands: flat,
                });
                lemma_factored_sound(operator, flat);
            }
        },
        _ => {},
    }
}

/// Simplification keeps a sound tree sound: a well-formed tree whose
/// constants fit is simplified to a well-formed tree whose constants fit.
pub proof fn lemma_simplified_sound(tree: Tree)
    requires
        tree.sound(),
    ensures
        simplified(tree).sound(),
    decreases tree,
{
    match tree {
        Tree::Operation { operator, operands } => {
            let reduced = simplified_each(operands);
            assert forall|i: int| 0 <= i < reduced.len() implies (#[trigger] reduced[i]).sound() by {
                assert(operands[i].sound());
                lemma_simplified_sound(operands[i]);
            }
            let node = Tree::Operation { operator, operands: reduced };
            assert(node.sound());
            lemma_rewritten_sound(node);
        },
        _ => {},
    }
}

} // verus!
