//! Structural equality of symbols and expressions.

use vstd::prelude::*;
use vstd::std_specs::cmp::PartialEqSpecImpl;
use crate::expression::{Expression, OperatorExpression};
use crate::symbol::Symbol;

verus! {

impl PartialEq for Symbol {
    /// Whether the two symbols have the same name.
    fn eq(&self, other: &Symbol) -> (equal: bool) {
        self.same_name(other)
    }
}

impl Eq for Symbol {

}

impl PartialEqSpecImpl for Symbol {
    open spec fn obeys_eq_spec() -> bool {
        true
    }

    open spec fn eq_spec(&self, other: &Symbol) -> bool {
        self@ == other@
    }
}

impl PartialEq for Expression {
    fn eq(&self, other: &Expression) -> (equal: bool) {
        self.is_same(other)
    }
}

impl Eq for Expression {

}

impl PartialEqSpecImpl for Expression {
    open spec fn obeys_eq_spec() -> bool {
        true
    }

    open spec fn eq_spec(&self, other: &Expression) -> bool {
        self@ == other@
    }
}

impl PartialEq for OperatorExpression {
    fn eq(&self, other: &OperatorExpression) -> (equal: bool) {
        self.is_same(other)
    }
}

impl Eq for OperatorExpression {

}

impl PartialEqSpecImpl for OperatorExpression {
    open spec fn obeys_eq_spec() -> bool {
        true
    }

    open spec fn eq_spec(&self, other: &OperatorExpression) -> bool {
        self@ == other@
    }
}

} // verus!
