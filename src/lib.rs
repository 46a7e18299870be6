//! Evaluation context, function values and type algebra of a small
//! lambda-calculus scripting language.
pub mod engine;
pub mod func;
pub mod text;
pub mod types;
pub mod value;
