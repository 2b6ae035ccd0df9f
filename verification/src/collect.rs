//! Term collection: counting how often each base occurs among the operands
//! of a sum or a product.
//!
//! The count is kept in a list ordered by first occurrence, so that the
//! collected operands come out in a fixed order.

use vstd::prelude::*;
use crate::expression::{trees, Expression};
use crate::operator::Operator;
use crate::rules::{bases, coefficient, collected, fits, term_of, terms_of, Term};
use crate::tree::Tree;

verus! {

/// A base expression and the number of times it has been counted.
pub(crate) struct Tally<'a> {
    pub base: &'a Expression,
    pub coefficient: i128,
}

impl<'a> View for Tally<'a> {
    type V = Term;

    closed spec fn view(&self) -> Term {
        Term { base: self.base@, coefficient: self.coefficient as int }
    }
}

/// Whether `tallies` holds, for the `terms` counted so far, each distinct
/// base in order of first occurrence together with its coefficient.
pub(crate) closed spec fn counts(tallies: Seq<Tally>, terms: Seq<Term>) -> bool {
    &&& tallies.len() == bases(terms).len()
    &&& forall|j: int|
        0 <= j < tallies.len() ==> {
            &&& (#[trigger] tallies[j]).base@ == bases(terms)[j]
            &&& tallies[j].coefficient == coefficient(terms, bases(terms)[j])
        }
}

/// No base is listed twice.
pub proof fn lemma_bases_distinct(terms: Seq<Term>)
    ensures
        bases(terms).no_duplicates(),
    decreases terms.len(),
{
    if terms.len() > 0 {
        lemma_bases_distinct(terms.drop_last());
    }
}

/// A base that is not listed has the coefficient zero.
pub proof fn lemma_unlisted_base(terms: Seq<Term>, base: Tree)
    requires
        !bases(terms).contains(base),
    ensures
        coefficient(terms, base) == 0,
    decreases terms.len(),
{
    if terms.len() > 0 {
        let earlier = bases(terms.drop_last());
        if earlier.contains(terms.last().base) {
            assert(bases(terms) == earlier);
        } else {
            assert(bases(terms) == earlier.push(terms.last().base));
            assert(bases(terms)[earlier.len() as int] == terms.last().base);
            assert forall|j: int| 0 <= j < earlier.len() implies earlier[j] != base by {
                assert(bases(terms)[j] == earlier[j]);
            }
        }
        assert(terms.last().base != base);
        lemma_unlisted_base(terms.drop_last(), base);
    }
}

/// If the running coefficients of a list of terms fit, so do those of each
/// of its prefixes.
pub proof fn lemma_fits_prefix(terms: Seq<Term>, count: int)
    requires
        fits(terms),
        0 <= count <= terms.len(),
    ensures
        fits(terms.take(count)),
    decreases terms.len(),
{
    if count == terms.len() {
        assert(terms.take(count) =~= terms);
    } else {
        lemma_fits_prefix(terms.drop_last(), count);
        assert(terms.drop_last().take(count) =~= terms.take(count));
    }
}

/// How the operand counts in the term collection of an `operator` node.
fn term<'a>(operator: Operator, partner: Operator, operand: &'a Expression) -> (tally: Tally<'a>)
    ensures
        tally@ == term_of(operator, partner, operand@),
{
    if let Expression::OperatorExpression(node) = operand {
        let operands = node.operands();
        let head = node.operator();
        if operator.inverse() == Some(head) && operands.len() == 1 {
            assert(operands[0]@ == trees(operands@)[0]);
            return Tally { base: &operands[0], coefficient: -1 };
        }
        if head == partner && operands.len() == 2 {
            assert(operands[0]@ == trees(operands@)[0]);
            assert(operands[1]@ == trees(operands@)[1]);
            match (&operands[0], &operands[1]) {
                (Expression::Constant(_), Expression::Constant(_)) => {},
                (Expression::Constant(factor), base) => {
                    return Tally { base, coefficient: *factor };
                },
                (base, Expression::Constant(factor)) => {
                    return Tally { base, coefficient: *factor };
                },
                _ => {},
            }
        }
    }
    Tally { base: operand, coefficient: 1 }
}

/// The index at which `base` is listed.
fn position(tallies: &Vec<Tally>, base: &Expression) -> (found: Option<usize>)
    ensures
        match found {
            Some(index) => index < tallies.len() && tallies[index as int].base@ == base@,
            None => forall|j: int| 0 <= j < tallies.len() ==> tallies[j].base@ != base@,
        },
{
    let mut i: usize = 0;
    while i < tallies.len()
        invariant
            i <= tallies.len(),
            forall|j: int| 0 <= j < i ==> tallies[j].base@ != base@,
        decreases tallies.len() - i,
    {
        if tallies[i].base == base {
            return Some(i);
        }
        i += 1;
    }
    None
}

/// Counts the operands of an `operator` node by base. The result is `None`
/// when a running coefficient leaves the range of a constant.
pub(crate) fn tally<'a>(
    operator: Operator,
    partner: Operator,
    operands: &'a Vec<Expression>,
) -> (tallies: Option<Vec<Tally<'a>>>)
    ensures
        match tallies {
            Some(list) => {
                &&& fits(terms_of(operator, partner, trees(operands@)))
                &&& counts(list@, terms_of(operator, partner, trees(operands@)))
            },
            None => !fits(terms_of(operator, partner, trees(operands@))),
        },
{
    let ghost terms = terms_of(operator, partner, trees(operands@));
    let mut list: Vec<Tally<'a>> = Vec::new();
    let mut i: usize = 0;
    while i < operands.len()
        invariant
            i <= operands.len(),
            terms == terms_of(operator, partner, trees(operands@)),
            fits(terms.take(i as int)),
            counts(list@, terms.take(i as int)),
        decreases operands.len() - i,
    {
        let ghost earlier = terms.take(i as int);
        let ghost later = terms.take(i + 1);
        let ghost listed = bases(earlier);
        let next = term(operator, partner, &operands[i]);
        proof {
            assert(later.drop_last() =~= earlier);
            assert(later.last() == next@);
            lemma_bases_distinct(earlier);
        }
        match position(&list, next.base) {
            Some(index) => {
                assert(listed[index as int] == next.base@);
                assert(listed.contains(next.base@));
                assert(bases(later) == listed);
                match list[index].coefficient.checked_add(next.coefficient) {
                    Some(sum) => {
                        let ghost before = list@;
                        let base = list[index].base;
                        list.set(index, Tally { base, coefficient: sum });
                        assert forall|j: int| 0 <= j < list.len() implies {
                            &&& (#[trigger] list@[j]).base@ == bases(later)[j]
                            &&& list@[j].coefficient == coefficient(later, bases(later)[j])
                        } by {
                            assert(before[j].base@ == listed[j]);
                            if j != index {
                                assert(listed[j] != listed[index as int]);
                            }
                        }
                    },
                    None => {
                        proof {
                            if fits(terms) {
                                lemma_fits_prefix(terms, i + 1);
                            }
                        }
                        return None;
                    },
                }
            },
            None => {
                proof {
                    assert forall|j: int| 0 <= j < listed.len() implies listed[j]
                        != next.base@ by {
                        assert(list@[j].base@ == listed[j]);
                    }
                    assert(!listed.contains(next.base@));
                    lemma_unlisted_base(earlier, next.base@);
                    assert(bases(later) == listed.push(next.base@));
                }
                let ghost before = list@;
                list.push(next);
                assert forall|j: int| 0 <= j < list.len() implies {
                    &&& (#[trigger] list@[j]).base@ == bases(later)[j]
                    &&& list@[j].coefficient == coefficient(later, bases(later)[j])
                } by {
                    if j < before.len() {
                        assert(before[j].base@ == listed[j]);
                    }
                }
            },
        }
        i += 1;
    }
    assert(terms.take(operands.len() as int) =~= terms);
    Some(list)
}

/// For each listed base with a coefficient other than zero, in order, the
/// base scaled by its coefficient.
pub(crate) fn emit(partner: Operator, tallies: &Vec<Tally>, Ghost(terms): Ghost<Seq<Term>>) -> (remaining:
    Vec<Expression>)
    requires
        counts(tallies@, terms),
    ensures
        trees(remaining@) == collected(partner, terms, bases(terms)),
{
    let ghost listed = bases(terms);
    let mut remaining: Vec<Expression> = Vec::new();
    let mut i: usize = 0;
    while i < tallies.len()
        invariant
            i <= tallies.len(),
            listed == bases(terms),
            counts(tallies@, terms),
            trees(remaining@) == collected(partner, terms, listed.take(i as int)),
        decreases tallies.len() - i,
    {
        let ghost before = remaining@;
        let count = tallies[i].coefficient;
        proof {
            assert(listed.take(i + 1).drop_last() =~= listed.take(i as int));
            assert(listed.take(i + 1).last() == tallies@[i as int].base@);
        }
        if count == 1 {
            remaining.push(tallies[i].base.clone());
            assert(trees(remaining@) =~= trees(before).push(tallies@[i as int].base@));
        } else if count != 0 {
            let mut pair: Vec<Expression> = Vec::new();
            pair.push(Expression::Constant(count));
            pair.push(tallies[i].base.clone());
            assert(trees(pair@) =~= seq![Tree::Constant(count as int), tallies@[i as int].base@]);
            let product = Expression::node(partner, pair);
            remaining.push(product);
            assert(trees(remaining@) =~= trees(before).push(product@));
        }
        i += 1;
    }
    assert(listed.take(tallies.len() as int) =~= listed);
    remaining
}

} // verus!
