//! Compile-time expansion of parameterised test cases.
//!
//! A decorated test function together with a batch of declared cases —
//! either explicit literal argument lists, or the files of one or more
//! fixture directories — is expanded into a named group of standalone
//! test functions, one per case.  The expansion itself is pure: directory
//! listings and file contents are handed in as plain values, and the
//! result is an abstract program fragment (a [`model::TestGroup`]) that a
//! host layer renders into real code.

pub mod slug;
pub mod strutil;
pub mod model;
pub mod collect;
pub mod validate;
pub mod error;
pub mod expand;
