//! A small computational core for fuzzy-logic reasoning.
//!
//! The crate offers three pieces:
//! - [`degree::Degree`], a bounded degree-of-truth scalar with an algebra of
//!   fuzzy connectives;
//! - the membership-function family in [`membership_functions`], which maps a
//!   crisp ordered value onto a degree according to a geometric shape;
//! - a naive-Bayesian evidence combinator in [`filters`], which folds a
//!   sequence of class-probability distributions into one posterior.
//!
//! All numeric quantities are held in fixed point with resolution
//! [`degree::SCALE`] parts per unit, so every formula is exact and every
//! stated bound is proved rather than approximated.

pub mod degree;
pub mod filters;
pub mod membership_functions;
pub mod util;
