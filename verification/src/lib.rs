//! A small term-rewriting engine for algebraic expressions.
//!
//! Expressions are trees of integer constants, named symbols and operator
//! nodes. [`Expression::simplify`] rewrites a tree by cancelling double
//! negations, turning subtraction into addition of a negation, removing
//! neutral elements, flattening nested sums and products, and collecting
//! terms that share a base.
//!
//! Every executable function is specified against a mathematical model:
//! the view of an [`Expression`] is a [`Tree`], and each rewrite rule is an
//! open specification function on trees.

pub mod builder;
pub mod collect;
pub mod equality;
pub mod expression;
pub mod form;
pub mod laws;
pub mod normal;
pub mod operator;
pub mod render;
pub mod rules;
pub mod simplify;
pub mod symbol;
pub mod tree;

pub use builder::ConstructExpression;
pub use expression::{Expression, OperatorExpression};
pub use operator::{Operator, Size};
pub use symbol::Symbol;
pub use tree::Tree;
