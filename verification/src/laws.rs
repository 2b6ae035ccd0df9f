//! Laws of simplification and of structural equality, stated for all
//! inputs of a given shape.

use vstd::prelude::*;
use crate::normal::{lemma_normal_unchanged, normal};
use crate::operator::Operator;
use crate::rules::{
    bases, coefficient, collected, fits, flattened, rewritten, scaled, simplified,
    simplified_each, term_of, terms_of, without, Term,
};
use crate::tree::{representable, Tree};

verus! {

/// The negation of a tree.
pub open spec fn negation(tree: Tree) -> Tree {
    Tree::Operation { operator: Operator::Negation, operands: seq![tree] }
}

/// `operator` applied to two trees.
pub open spec fn pair(operator: Operator, first: Tree, second: Tree) -> Tree {
    Tree::Operation { operator, operands: seq![first, second] }
}

/// Structural equality is sensitive to order: swapping two different
/// operands gives a different tree, whatever the operator.
pub proof fn lemma_order_matters(operator: Operator, first: Tree, second: Tree)
    requires
        first != second,
    ensures
        pair(operator, first, second) != pair(operator, second, first),
{
    assert(seq![first, second][0] == first);
    assert(seq![second, first][0] == second);
}

/// Trees are equal exactly when they have the same operator and the same
/// operands at the same places.
pub proof fn lemma_equal_nodes(operator: Operator, left: Seq<Tree>, right: Seq<Tree>)
    ensures
        (Tree::Operation { operator, operands: left } == Tree::Operation {
            operator,
            operands: right,
        }) <==> (left.len() == right.len() && forall|i: int|
            0 <= i < left.len() ==> left[i] == right[i]),
{
    if left.len() == right.len() && (forall|i: int| 0 <= i < left.len() ==> left[i] == right[i]) {
        assert(left =~= right);
    }
}

/// Subtraction elimination: simplifying the difference of two leaves
/// `a - b` yields `a + -(b + 0)`.
pub proof fn lemma_subtraction_of_leaves(minuend: Tree, subtrahend: Tree)
    requires
        minuend.is_leaf(),
        subtrahend.is_leaf(),
    ensures
        simplified(pair(Operator::Subtraction, minuend, subtrahend)) == pair(
            Operator::Addition,
            minuend,
            negation(pair(Operator::Addition, subtrahend, Tree::Constant(0))),
        ),
{
    let operands = seq![minuend, subtrahend];
    assert(simplified_each(operands) =~= operands);
    assert(operands.skip(1).push(Tree::Constant(0)) =~= seq![subtrahend, Tree::Constant(0)]);
}

/// Double negation: simplifying the negation of the negation of a normal
/// form yields that normal form.
pub proof fn lemma_double_negation(tree: Tree)
    requires
        normal(tree),
    ensures
        simplified(negation(negation(tree))) == tree,
{
    lemma_normal_unchanged(tree);
    assert(simplified_each(seq![tree]) =~= seq![tree]);
    assert(negation(tree)->operands[0] == tree);
    if tree.applies(Operator::Negation, 1) {
        let inner = tree->operands[0];
        assert(rewritten(tree) == tree);
        assert(simplified(negation(tree)) == inner);
        assert(simplified_each(seq![negation(tree)]) =~= seq![inner]);
        assert(seq![inner] =~= tree->operands);
    } else {
        assert(simplified(negation(tree)) == negation(tree));
        assert(simplified_each(seq![negation(tree)]) =~= seq![negation(tree)]);
        assert(negation(negation(tree))->operands[0] == negation(tree));
    }
}

/// Triple negation: simplifying three negations of a normal form that is
/// not itself a negation yields one negation of it.
pub proof fn lemma_triple_negation(tree: Tree)
    requires
        normal(tree),
        !tree.applies(Operator::Negation, 1),
    ensures
        simplified(negation(negation(negation(tree)))) == negation(tree),
{
    lemma_double_negation(tree);
    assert(simplified_each(seq![negation(negation(tree))]) =~= seq![tree]);
    assert(negation(tree)->operands[0] == tree);
}

/// What term collection makes of two terms with the same base.
proof fn lemma_two_terms_one_base(partner: Operator, base: Tree, first: int, second: int)
    ensures
        ({
            let terms = seq![
                Term { base, coefficient: first },
                Term { base, coefficient: second },
            ];
            &&& bases(terms) == seq![base]
            &&& coefficient(terms, base) == first + second
            &&& fits(terms) == (representable(first) && representable(first + second))
            &&& collected(partner, terms, seq![base]) == if first + second == 0 {
                Seq::<Tree>::empty()
            } else {
                seq![scaled(partner, first + second, base)]
            }
        }),
{
    let one = Term { base, coefficient: first };
    let two = Term { base, coefficient: second };
    let terms = seq![one, two];
    let earlier = seq![one];
    assert(terms.drop_last() =~= earlier);
    assert(earlier.drop_last() =~= Seq::<Term>::empty());
    assert(terms.last() == two);
    assert(earlier.last() == one);
    reveal_with_fuel(bases, 3);
    reveal_with_fuel(coefficient, 3);
    reveal_with_fuel(fits, 3);
    assert(bases(earlier) =~= seq![base]);
    assert(bases(earlier).contains(base)) by {
        assert(bases(earlier)[0] == base);
    }
    assert(bases(terms) == seq![base]);
    assert(coefficient(earlier, base) == first);
    assert(coefficient(terms, base) == first + second);
    assert(fits(earlier) == representable(first));
    let listed = seq![base];
    assert(listed.drop_last() =~= Seq::<Tree>::empty());
    assert(listed.last() == base);
    reveal_with_fuel(collected, 2);
    if first + second != 0 {
        assert(collected(partner, terms, listed) =~= seq![scaled(partner, first + second, base)]);
    }
}

/// What term collection makes of a single term.
proof fn lemma_one_term(partner: Operator, base: Tree, count: int)
    ensures
        ({
            let terms = seq![Term { base, coefficient: count }];
            &&& bases(terms) == seq![base]
            &&& coefficient(terms, base) == count
            &&& fits(terms) == representable(count)
            &&& collected(partner, terms, seq![base]) == if count == 0 {
                Seq::<Tree>::empty()
            } else {
                seq![scaled(partner, count, base)]
            }
        }),
{
    let one = Term { base, coefficient: count };
    let terms = seq![one];
    assert(terms.drop_last() =~= Seq::<Term>::empty());
    assert(terms.last() == one);
    reveal_with_fuel(bases, 2);
    reveal_with_fuel(coefficient, 2);
    reveal_with_fuel(fits, 2);
    assert(bases(terms) =~= seq![base]);
    let listed = seq![base];
    assert(listed.drop_last() =~= Seq::<Tree>::empty());
    assert(listed.last() == base);
    reveal_with_fuel(collected, 2);
    if count != 0 {
        assert(collected(partner, terms, listed) =~= seq![scaled(partner, count, base)]);
    }
}

/// What is left of two trees when those equal to `unwanted` are dropped.
proof fn lemma_without_two(first: Tree, second: Tree, unwanted: Tree)
    ensures
        without(seq![first, second], unwanted) == if first == unwanted && second == unwanted {
            Seq::<Tree>::empty()
        } else if first == unwanted {
            seq![second]
        } else if second == unwanted {
            seq![first]
        } else {
            seq![first, second]
        },
{
    let both = seq![first, second];
    assert(both.drop_last() =~= seq![first]);
    assert(seq![first].drop_last() =~= Seq::<Tree>::empty());
    assert(both.last() == second);
    assert(seq![first].last() == first);
    reveal_with_fuel(without, 3);
    assert(without(seq![first], unwanted) =~= if first == unwanted {
        Seq::<Tree>::empty()
    } else {
        seq![first]
    });
    if first != unwanted && second != unwanted {
        assert(without(both, unwanted) =~= both);
    } else if first == unwanted && second != unwanted {
        assert(without(both, unwanted) =~= seq![second]);
    }
}

/// Neutral-element removal: simplifying the sum of a leaf and `0`, or the
/// product of a leaf and `1`, yields the leaf.
pub proof fn lemma_neutral_element_removed(operator: Operator, leaf: Tree)
    requires
        operator == Operator::Addition || operator == Operator::Multiplication,
        leaf.is_leaf(),
    ensures
        simplified(pair(operator, leaf, operator.spec_neutral_element()->Some_0)) == leaf,
        simplified(pair(operator, operator.spec_neutral_element()->Some_0, leaf)) == leaf,
{
    let neutral = operator.spec_neutral_element()->Some_0;
    let partner = operator.spec_is_distributive_under()->Some_0;
    assert(simplified_each(seq![leaf, neutral]) =~= seq![leaf, neutral]);
    assert(simplified_each(seq![neutral, leaf]) =~= seq![neutral, leaf]);
    lemma_without_two(leaf, neutral, neutral);
    lemma_without_two(neutral, leaf, neutral);
    if leaf == neutral {
        let kept = Seq::<Tree>::empty();
        assert(flattened(operator, kept) =~= kept);
        assert(terms_of(operator, partner, kept) =~= Seq::<Term>::empty());
        assert(bases(Seq::<Term>::empty()) =~= Seq::<Tree>::empty());
        assert(collected(partner, Seq::<Term>::empty(), Seq::<Tree>::empty()) =~= Seq::<
            Tree,
        >::empty());
    } else {
        let kept = seq![leaf];
        assert(kept.drop_last() =~= Seq::<Tree>::empty());
        assert(kept.last() == leaf);
        reveal_with_fuel(flattened, 2);
        assert(flattened(operator, kept) =~= kept);
        assert(terms_of(operator, partner, kept) =~= seq![Term { base: leaf, coefficient: 1 }]);
        lemma_one_term(partner, leaf, 1);
    }
}

/// Full cancellation: simplifying the sum of a leaf other than `0` and its
/// negation yields `0`, and simplifying the product of a leaf other than
/// `1` and its reciprocal yields `1`.
pub proof fn lemma_full_cancellation(operator: Operator, leaf: Tree)
    requires
        operator == Operator::Addition || operator == Operator::Multiplication,
        leaf.is_leaf(),
        Some(leaf) != operator.spec_neutral_element(),
    ensures
        simplified(
            pair(
                operator,
                leaf,
                Tree::Operation { operator: operator.spec_inverse()->Some_0, operands: seq![leaf] },
            ),
        ) == operator.spec_neutral_element()->Some_0,
{
    let neutral = operator.spec_neutral_element()->Some_0;
    let partner = operator.spec_is_distributive_under()->Some_0;
    let inverse = operator.spec_inverse()->Some_0;
    let undone = Tree::Operation { operator: inverse, operands: seq![leaf] };
    assert(simplified_each(seq![leaf]) =~= seq![leaf]);
    assert(undone->operands[0] == leaf);
    assert(simplified(undone) == undone);
    let operands = seq![leaf, undone];
    assert(simplified_each(operands) =~= operands);
    lemma_without_two(leaf, undone, neutral);
    assert(operands.drop_last() =~= seq![leaf]);
    assert(seq![leaf].drop_last() =~= Seq::<Tree>::empty());
    assert(operands.last() == undone);
    assert(seq![leaf].last() == leaf);
    reveal_with_fuel(flattened, 3);
    assert(flattened(operator, seq![leaf]) =~= seq![leaf]);
    assert(flattened(operator, operands) =~= operands);
    assert(terms_of(operator, partner, operands) =~= seq![
        Term { base: leaf, coefficient: 1 },
        Term { base: leaf, coefficient: -1 },
    ]);
    lemma_two_terms_one_base(partner, leaf, 1, -1);
}

/// Flattening and collection: simplifying `(x + x) + x` for a symbol `x`
/// yields `(* 3 x)`.
pub proof fn lemma_repeated_symbol_collected(name: Seq<char>)
    ensures
        simplified(
            pair(
                Operator::Addition,
                pair(Operator::Addition, Tree::Symbol(name), Tree::Symbol(name)),
                Tree::Symbol(name),
            ),
        ) == pair(Operator::Multiplication, Tree::Constant(3), Tree::Symbol(name)),
{
    let symbol = Tree::Symbol(name);
    let sum = Operator::Addition;
    let product = Operator::Multiplication;
    let zero = Tree::Constant(0);
    let inner = seq![symbol, symbol];
    assert(simplified_each(inner) =~= inner);
    lemma_without_two(symbol, symbol, zero);
    assert(inner.drop_last() =~= seq![symbol]);
    assert(seq![symbol].drop_last() =~= Seq::<Tree>::empty());
    assert(inner.last() == symbol);
    assert(seq![symbol].last() == symbol);
    reveal_with_fuel(flattened, 3);
    assert(flattened(sum, seq![symbol]) =~= seq![symbol]);
    assert(flattened(sum, inner) =~= inner);
    assert(terms_of(sum, product, inner) =~= seq![
        Term { base: symbol, coefficient: 1 },
        Term { base: symbol, coefficient: 1 },
    ]);
    lemma_two_terms_one_base(product, symbol, 1, 1);
    let doubled = pair(product, Tree::Constant(2), symbol);
    assert(simplified(pair(sum, symbol, symbol)) == doubled);
    let outer = seq![doubled, symbol];
    assert(simplified_each(seq![pair(sum, symbol, symbol), symbol]) =~= outer);
    lemma_without_two(doubled, symbol, zero);
    assert(outer.drop_last() =~= seq![doubled]);
    assert(seq![doubled].drop_last() =~= Seq::<Tree>::empty());
    assert(outer.last() == symbol);
    assert(seq![doubled].last() == doubled);
    assert(flattened(sum, seq![doubled]) =~= seq![doubled]);
    assert(flattened(sum, outer) =~= outer);
    assert(doubled->operands[0] == Tree::Constant(2));
    assert(doubled->operands[1] == symbol);
    assert(term_of(sum, product, doubled) == Term { base: symbol, coefficient: 2 });
    assert(terms_of(sum, product, outer) =~= seq![
        Term { base: symbol, coefficient: 2 },
        Term { base: symbol, coefficient: 1 },
    ]);
    lemma_two_terms_one_base(product, symbol, 2, 1);
}

} // verus!
