//! An exact calculator kernel: rationals, π, square roots, integer powers
//! and the trigonometric functions at special angles, without floating point.
//!
//! [`eval_expression`] takes a text and a number of digits and gives the
//! exact form of the result, its decimal reading where it has one, and the
//! derivation.
pub mod canon;
pub mod canon_lois;
pub mod canon_point_fixe;
pub mod entier;
pub mod etat;
pub mod eval;
pub mod expr;
pub mod format;
pub mod identites_trig;
pub mod jetons;
pub mod lecture;
pub mod lois;
pub mod rationnel;
pub mod rpn;
pub mod texte;
pub mod trig;

pub use eval::eval_expression;
