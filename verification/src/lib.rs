//! A versioned knowledge store: typed records addressed by 128-bit identifiers,
//! with branching edit history, a form as trees of texts, and an in-memory
//! store with name indexes and expiry queues by priority.
//!
//! - [`tree`]: the trees that records are written in.
//! - [`codec`]: identifiers as text tokens.
//! - [`object`]: the kinds of record and their form as trees.
//! - [`registry`]: which kind is read under which type tag.
//! - [`store`]: the store itself; [`store_model`]: its mathematical value and
//!   what holds of it.
//! - [`loader`]: the bulk loader, which resolves identifiers in two passes;
//!   [`load_laws`]: what holds of every load.
//! - [`error`]: what can go wrong, as values to inspect.
//! - [`names`], [`oids`], [`expiry`], [`text`]: the ordered name index, short
//!   lists of identifiers, the expiry queues, and the order of texts.
//! - [`icon`]: compact icons for profiles.
//!
//! Every executable function carries a contract over the mathematical value of
//! its arguments and is proved against it. The exceptions are the few private
//! functions that call the `base64`, `smallvec` and `priority-queue` crates:
//! their contracts are taken on trust, and their comments say what is taken.
//! The text format of the trees, the clock and the window belong to the program
//! that uses this library.

use vstd::prelude::*;

pub mod codec;
pub mod error;
pub mod expiry;
pub mod icon;
pub mod load_laws;
pub mod loader;
pub mod names;
pub mod object;
pub mod oids;
pub mod registry;
pub mod store;
pub mod store_model;
pub mod text;
pub mod tree;

verus! {

/// Identifier of an object: 128 bits, unique within a store.
pub type OID = u128;

} // verus!
