//! A `select!`-style macro front end: a lenient, token-level parser that
//! segments an arm list without validating expression or body contents, and a
//! dual-mode generator that either forwards the original tokens to the real
//! multi-way-wait facility or synthesizes a completion-friendly expansion in
//! which every arm body stays reachable for editor analysis.

pub mod token;
pub mod parse;
pub mod emit;
pub mod mode;
pub mod laws;
