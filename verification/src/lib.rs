//! A verified local persistence engine for coding projects.
//!
//! The library models a single-file relational store with six tables
//! (projects, agent rules, tasks, task steps, chat threads, chat messages)
//! as an in-memory value with a mathematical view, and proves the store's
//! contracts: whole-subtree replacement on every project save, cascading
//! deletion, exact preservation of step order, lenient decoding of stored
//! enum strings, and monotonic advancement of chat-thread timestamps.
//! The surrounding application keeps the rows in an SQLite file and moves
//! them through the row-level entry points declared here.

pub mod codec;
pub mod filters;
pub mod ident;
pub mod integrity;
pub mod laws;
pub mod model;
pub mod pathname;
pub mod rows;
pub mod sorting;
pub mod state;
pub mod store;

use vstd::prelude::*;

verus! {

} // verus!
