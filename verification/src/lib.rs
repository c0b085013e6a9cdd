//! A small DSL for building flag-set values from a qualified path and a
//! brace-enclosed list of flag names.
//!
//! An invocation such as `Test::{A | B}` names a flag-bearing type (`Test`)
//! and some of its flags (`A`, `B`); its value is the combination of those
//! flags in `Test`'s set representation, here written
//! `flags(tokens, bindings)`.  The work is a one-pass pipeline of two stages:
//!
//! 1. a recursive-descent parser over a token sequence, which checks the
//!    grammar `seg:: ... seg:: { item (sep item)* }` and reassembles each item
//!    into its fully qualified name (`Test::A`), and
//! 2. a generic set builder, the [`builder::DefaultSet`] trait, which folds a
//!    sequence of flag values into one set value through an associative
//!    combine operation.
//!
//! The first stage alone is exposed as [`elements::set_array`]; the two
//! stages composed are [`expand::flags`].

pub mod builder;
pub mod elements;
pub mod expand;
pub mod laws;
pub mod parse;
pub mod token;
