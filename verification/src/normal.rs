//! Normal forms: the trees that simplification leaves unchanged.
//!
//! One pass of simplification need not reach a normal form: the sum
//! `(+ 1 1)` becomes `(* 2 1)` in one pass and `2` in the next. Once a
//! normal form is reached, further passes change nothing.

use vstd::prelude::*;
use crate::operator::Operator;
use crate::render::rendered;
use crate::rules::{
    bases, coefficient, collected, factored, fits, flattened, merged, neutral_removed, rewritten,
    scaled, simplified, simplified_each, terms_of, without, Term,
};
use crate::tree::Tree;

verus! {

/// Whether no rule changes any node of the tree: the rules for the operator
/// at the root leave the tree as it is, and every operand is normal.
pub open spec fn normal(tree: Tree) -> bool
    decreases tree,
{
    match tree {
        Tree::Operation { operands, .. } => {
            &&& rewritten(tree) == tree
            &&& forall|i: int| 0 <= i < operands.len() ==> normal(#[trigger] operands[i])
        },
        _ => true,
    }
}

/// Whether the operands of a sum or a product are written so that the rules
/// for sums and products have nothing to do:
///
/// - no operand is the neutral element,
/// - no operand is itself a node with the same operator,
/// - and either the running coefficients do not fit, or there are two
///   operands or more, each is written as its own term scaled by a
///   coefficient other than zero, and no two share a base.
pub open spec fn settled(operator: Operator, operands: Seq<Tree>) -> bool {
    let partner = operator.spec_is_distributive_under()->Some_0;
    let terms = terms_of(operator, partner, operands);
    &&& operator == Operator::Addition || operator == Operator::Multiplication
    &&& forall|i: int|
        0 <= i < operands.len() ==> Some(#[trigger] operands[i]) != operator.spec_neutral_element()
    &&& forall|i: int|
        0 <= i < operands.len() ==> !((#[trigger] operands[i]) is Operation
            && operands[i]->operator == operator)
    &&& !fits(terms) || {
        &&& operands.len() >= 2
        &&& forall|i: int|
            0 <= i < terms.len() ==> (#[trigger] terms[i]).coefficient != 0 && scaled(
                partner,
                terms[i].coefficient,
                terms[i].base,
            ) == operands[i]
        &&& forall|i: int, j: int|
            0 <= i < j < terms.len() ==> (#[trigger] terms[i]).base != (#[trigger] terms[j]).base
    }
}

/// Dropping a tree that does not occur changes nothing.
pub proof fn lemma_without_absent(trees: Seq<Tree>, unwanted: Tree)
    requires
        forall|i: int| 0 <= i < trees.len() ==> #[trigger] trees[i] != unwanted,
    ensures
        without(trees, unwanted) == trees,
    decreases trees.len(),
{
    if trees.len() > 0 {
        assert forall|i: int| 0 <= i < trees.drop_last().len() implies #[trigger] trees.drop_last()[i]
            != unwanted by {
            assert(trees[i] != unwanted);
        }
        lemma_without_absent(trees.drop_last(), unwanted);
        assert(trees.last() == trees[trees.len() - 1]);
        assert(trees.drop_last().push(trees.last()) =~= trees);
    } else {
        assert(without(trees, unwanted) =~= trees);
    }
}

/// Flattening operands of which none has the node's operator changes
/// nothing.
pub proof fn lemma_flattened_plain(operator: Operator, trees: Seq<Tree>)
    requires
        forall|i: int|
            0 <= i < trees.len() ==> !((#[trigger] trees[i]) is Operation && trees[i]->operator
                == operator),
    ensures
        flattened(operator, trees) == trees,
    decreases trees.len(),
{
    if trees.len() > 0 {
        assert forall|i: int| 0 <= i < trees.drop_last().len() implies !((
        #[trigger] trees.drop_last()[i]) is Operation && trees.drop_last()[i]->operator
            == operator) by {
            assert(trees[i] == trees.drop_last()[i]);
        }
        lemma_flattened_plain(operator, trees.drop_last());
        assert(trees.last() == trees[trees.len() - 1]);
        assert(trees.drop_last() + seq![trees.last()] =~= trees);
    } else {
        assert(flattened(operator, trees) =~= trees);
    }
}

/// A base that no term has is taken zero times.
pub proof fn lemma_no_term(terms: Seq<Term>, base: Tree)
    requires
        forall|i: int| 0 <= i < terms.len() ==> (#[trigger] terms[i]).base != base,
    ensures
        coefficient(terms, base) == 0,
    decreases terms.len(),
{
    if terms.len() > 0 {
        assert forall|i: int| 0 <= i < terms.drop_last().len() implies (
        #[trigger] terms.drop_last()[i]).base != base by {
            assert(terms[i].base != base);
        }
        lemma_no_term(terms.drop_last(), base);
        assert(terms[terms.len() - 1].base != base);
    }
}

/// Where no two terms share a base, the bases are listed term by term and
/// the coefficient of each base is that of its term.
pub proof fn lemma_distinct_terms(terms: Seq<Term>)
    requires
        forall|i: int, j: int|
            0 <= i < j < terms.len() ==> (#[trigger] terms[i]).base != (#[trigger] terms[j]).base,
    ensures
        bases(terms).len() == terms.len(),
        forall|i: int| 0 <= i < terms.len() ==> #[trigger] bases(terms)[i] == terms[i].base,
        forall|i: int|
            0 <= i < terms.len() ==> coefficient(terms, (#[trigger] terms[i]).base)
                == terms[i].coefficient,
    decreases terms.len(),
{
    if terms.len() > 0 {
        let earlier = terms.drop_last();
        let last = terms.last();
        assert(last == terms[terms.len() - 1]);
        assert forall|i: int, j: int| 0 <= i < j < earlier.len() implies (
        #[trigger] earlier[i]).base != (#[trigger] earlier[j]).base by {
            assert(terms[i].base != terms[j].base);
        }
        lemma_distinct_terms(earlier);
        assert forall|k: int| 0 <= k < earlier.len() implies (#[trigger] earlier[k]).base
            != last.base by {
            assert(terms[k].base != terms[terms.len() - 1].base);
        }
        lemma_no_term(earlier, last.base);
        assert(!bases(earlier).contains(last.base)) by {
            if bases(earlier).contains(last.base) {
                let k = choose|k: int|
                    0 <= k < bases(earlier).len() && bases(earlier)[k] == last.base;
                assert(earlier[k].base != last.base);
            }
        }
        assert(bases(terms) == bases(earlier).push(last.base));
        assert forall|i: int| 0 <= i < terms.len() implies coefficient(
            terms,
            (#[trigger] terms[i]).base,
        ) == terms[i].coefficient by {
            if i < terms.len() - 1 {
                assert(earlier[i] == terms[i]);
                assert(earlier[i].base != last.base);
                assert(coefficient(earlier, earlier[i].base) == earlier[i].coefficient);
            }
        }
    }
}

/// Where the coefficient of every listed base is other than zero, the
/// collected operands are the listed bases, each scaled by its coefficient.
pub proof fn lemma_collected_each(partner: Operator, terms: Seq<Term>, listed: Seq<Tree>)
    requires
        forall|j: int| 0 <= j < listed.len() ==> coefficient(terms, #[trigger] listed[j]) != 0,
    ensures
        collected(partner, terms, listed).len() == listed.len(),
        forall|j: int|
            0 <= j < listed.len() ==> #[trigger] collected(partner, terms, listed)[j] == scaled(
                partner,
                coefficient(terms, listed[j]),
                listed[j],
            ),
    decreases listed.len(),
{
    if listed.len() > 0 {
        let earlier = listed.drop_last();
        assert forall|j: int| 0 <= j < earlier.len() implies coefficient(
            terms,
            #[trigger] earlier[j],
        ) != 0 by {
            assert(listed[j] == earlier[j]);
        }
        lemma_collected_each(partner, terms, earlier);
        assert(listed.last() == listed[listed.len() - 1]);
    }
}

/// The rules for sums and products leave a node with settled operands
/// unchanged.
pub proof fn lemma_settled_unchanged(operator: Operator, operands: Seq<Tree>)
    requires
        settled(operator, operands),
    ensures
        rewritten(Tree::Operation { operator, operands }) == (Tree::Operation {
            operator,
            operands,
        }),
{
    let tree = Tree::Operation { operator, operands };
    let partner = operator.spec_is_distributive_under()->Some_0;
    let neutral = operator.spec_neutral_element()->Some_0;
    let terms = terms_of(operator, partner, operands);
    assert forall|i: int| 0 <= i < operands.len() implies #[trigger] operands[i] != neutral by {
        assert(Some(operands[i]) != operator.spec_neutral_element());
    }
    lemma_without_absent(operands, neutral);
    assert(neutral_removed(tree) == tree);
    lemma_flattened_plain(operator, operands);
    assert(merged(tree) == tree);
    if fits(terms) {
        lemma_distinct_terms(terms);
        let listed = bases(terms);
        assert forall|j: int| 0 <= j < listed.len() implies coefficient(terms, #[trigger] listed[j])
            != 0 by {
            assert(listed[j] == terms[j].base);
            assert(terms[j].coefficient != 0);
        }
        lemma_collected_each(partner, terms, listed);
        let remaining = collected(partner, terms, listed);
        assert forall|j: int| 0 <= j < remaining.len() implies #[trigger] remaining[j]
            == operands[j] by {
            assert(listed[j] == terms[j].base);
            assert(scaled(partner, terms[j].coefficient, terms[j].base) == operands[j]);
        }
        assert(remaining =~= operands);
    }
    assert(factored(tree) == tree);
}

/// Simplification leaves a normal form unchanged.
pub proof fn lemma_normal_unchanged(tree: Tree)
    requires
        normal(tree),
    ensures
        simplified(tree) == tree,
    decreases tree,
{
    match tree {
        Tree::Operation { operator, operands } => {
            assert forall|i: int| 0 <= i < operands.len() implies simplified_each(operands)[i]
                == operands[i] by {
                assert(normal(operands[i]));
                lemma_normal_unchanged(operands[i]);
            }
            assert(simplified_each(operands) =~= operands);
        },
        _ => {},
    }
}

/// Once a pass of simplification has reached a normal form, a second pass
/// yields the same tree, hence the same text.
pub proof fn lemma_second_pass_unchanged(tree: Tree)
    requires
        normal(simplified(tree)),
    ensures
        simplified(simplified(tree)) == simplified(tree),
        rendered(simplified(simplified(tree))) == rendered(simplified(tree)),
{
    lemma_normal_unchanged(simplified(tree));
}

/// The tree after the given number of passes of simplification.
pub open spec fn simplified_times(tree: Tree, passes: nat) -> Tree
    decreases passes,
{
    if passes == 0 {
        tree
    } else {
        simplified(simplified_times(tree, (passes - 1) as nat))
    }
}

/// Any number of passes leaves a normal form unchanged.
pub proof fn lemma_normal_stays(tree: Tree, passes: nat)
    requires
        normal(tree),
    ensures
        simplified_times(tree, passes) == tree,
    decreases passes,
{
    if passes > 0 {
        lemma_normal_stays(tree, (passes - 1) as nat);
        lemma_normal_unchanged(tree);
    }
}

} // verus!
